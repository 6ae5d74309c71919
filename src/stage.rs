use vstd::prelude::*;
use crate::shape::{closed_edges, Color, Point, Polygon, Segment};

verus! {

/// The number of closed pieces of the illustration.
pub const PIECE_COUNT: usize = 5;

/// The stage at which the illustration is complete.
pub const FINAL_STAGE: u8 = 6;

/// The text drawn over the complete illustration.
pub const GAME_OVER_CAPTION: &'static str = "Game Over";

pub open spec fn pt(x: i32, y: i32) -> Point {
    Point { x, y }
}

/// The corners of the `i`-th closed piece: four blades of a fan around a
/// square hub.
pub open spec fn piece_outline(i: int) -> Seq<Point> {
    if i == 0 {
        seq![pt(10, 10), pt(45, 45), pt(50, 10)]
    } else if i == 1 {
        seq![pt(55, 45), pt(90, 50), pt(90, 10)]
    } else if i == 2 {
        seq![pt(50, 90), pt(90, 90), pt(55, 55)]
    } else if i == 3 {
        seq![pt(10, 90), pt(45, 55), pt(10, 50)]
    } else {
        seq![pt(45, 45), pt(45, 55), pt(55, 55), pt(55, 45)]
    }
}

pub open spec fn piece_color(i: int) -> Color {
    Color::Yellow
}

/// The cross drawn over the hub at the final stage.
pub open spec fn cross_lines() -> Seq<Segment> {
    seq![
        Segment { from: pt(45, 45), to: pt(55, 55), color: Color::LightGreen },
        Segment { from: pt(45, 55), to: pt(55, 45), color: Color::LightGreen },
    ]
}

/// How many closed pieces a stage shows: one per stage, all of them from
/// the last piece's stage on.
pub open spec fn pieces_shown(stage: nat) -> nat {
    if stage < PIECE_COUNT {
        stage
    } else {
        PIECE_COUNT as nat
    }
}

/// The edges of the first `n` pieces, piece after piece.
pub open spec fn outlines(n: nat) -> Seq<Segment>
    decreases n,
{
    if n == 0 {
        Seq::empty()
    } else {
        outlines((n - 1) as nat) + closed_edges(piece_outline(n - 1), piece_color(n - 1))
    }
}

/// Every segment drawn at a stage: the outlines of the pieces it shows,
/// then the cross at the final stage.
pub open spec fn scene(stage: nat) -> Seq<Segment> {
    if stage >= FINAL_STAGE {
        outlines(pieces_shown(stage)) + cross_lines()
    } else {
        outlines(pieces_shown(stage))
    }
}

/// The `i`-th closed piece of the illustration.
pub fn piece(i: usize) -> (r: Polygon)
    requires
        i < PIECE_COUNT,
    ensures
        r.vertices@ == piece_outline(i as int),
        r.color == piece_color(i as int),
        r.wf(),
{
    if i == 0 {
        Polygon::triangle(Point { x: 10, y: 10 }, Point { x: 45, y: 45 }, Point { x: 50, y: 10 }, Color::Yellow)
    } else if i == 1 {
        Polygon::triangle(Point { x: 55, y: 45 }, Point { x: 90, y: 50 }, Point { x: 90, y: 10 }, Color::Yellow)
    } else if i == 2 {
        Polygon::triangle(Point { x: 50, y: 90 }, Point { x: 90, y: 90 }, Point { x: 55, y: 55 }, Color::Yellow)
    } else if i == 3 {
        Polygon::triangle(Point { x: 10, y: 90 }, Point { x: 45, y: 55 }, Point { x: 10, y: 50 }, Color::Yellow)
    } else {
        Polygon::quad(
            Point { x: 45, y: 45 },
            Point { x: 45, y: 55 },
            Point { x: 55, y: 55 },
            Point { x: 55, y: 45 },
            Color::Yellow,
        )
    }
}

/// The closed pieces shown at `stage`, in drawing order.
pub fn stage_polygons(stage: u8) -> (r: Vec<Polygon>)
    ensures
        r@.len() == pieces_shown(stage as nat),
        forall|i: int|
            0 <= i < r@.len() ==> (#[trigger] r@[i]).vertices@ == piece_outline(i) && r@[i].color
                == piece_color(i) && r@[i].wf(),
{
    let n: usize = if (stage as usize) < PIECE_COUNT {
        stage as usize
    } else {
        PIECE_COUNT
    };
    let mut r: Vec<Polygon> = Vec::with_capacity(n);
    let mut i: usize = 0;
    while i < n
        invariant
            n == pieces_shown(stage as nat),
            n <= PIECE_COUNT,
            i <= n,
            r@.len() == i,
            forall|j: int|
                0 <= j < i ==> (#[trigger] r@[j]).vertices@ == piece_outline(j) && r@[j].color
                    == piece_color(j) && r@[j].wf(),
        decreases n - i,
    {
        r.push(piece(i));
        i = i + 1;
    }
    r
}

/// The lines drawn at `stage` besides the closed pieces.
pub fn stage_lines(stage: u8) -> (r: Vec<Segment>)
    ensures
        r@ == (if stage >= FINAL_STAGE {
            cross_lines()
        } else {
            Seq::empty()
        }),
{
    if stage >= FINAL_STAGE {
        vec![
            Segment { from: Point { x: 45, y: 45 }, to: Point { x: 55, y: 55 }, color: Color::LightGreen },
            Segment { from: Point { x: 45, y: 55 }, to: Point { x: 55, y: 45 }, color: Color::LightGreen },
        ]
    } else {
        Vec::new()
    }
}

/// Every segment to draw at `stage`: the edges of each piece it shows, in
/// order, then the cross at the final stage.
pub fn stage_segments(stage: u8) -> (r: Vec<Segment>)
    ensures
        r@ == scene(stage as nat),
{
    let polygons = stage_polygons(stage);
    let mut r: Vec<Segment> = Vec::new();
    let mut i: usize = 0;
    while i < polygons.len()
        invariant
            i <= polygons@.len(),
            polygons@.len() == pieces_shown(stage as nat),
            forall|j: int|
                0 <= j < polygons@.len() ==> (#[trigger] polygons@[j]).vertices@ == piece_outline(j)
                    && polygons@[j].color == piece_color(j),
            r@ == outlines(i as nat),
        decreases polygons@.len() - i,
    {
        let mut edges = polygons[i].decompose();
        r.append(&mut edges);
        i = i + 1;
    }
    let mut lines = stage_lines(stage);
    r.append(&mut lines);
    proof {
        if stage < FINAL_STAGE {
            assert(r@ =~= scene(stage as nat));
        }
    }
    r
}

/// A later stage draws everything an earlier one draws, in the same order,
/// and more after it.
pub proof fn lemma_scene_grows(s1: nat, s2: nat)
    requires
        s1 <= s2,
    ensures
        scene(s1).len() <= scene(s2).len(),
        scene(s2).take(scene(s1).len() as int) == scene(s1),
{
    lemma_outlines_grow(pieces_shown(s1), pieces_shown(s2));
    assert(scene(s2).take(scene(s1).len() as int) =~= scene(s1));
}

proof fn lemma_outlines_grow(n1: nat, n2: nat)
    requires
        n1 <= n2,
    ensures
        outlines(n1).len() <= outlines(n2).len(),
        outlines(n2).take(outlines(n1).len() as int) == outlines(n1),
    decreases n2,
{
    if n1 < n2 {
        lemma_outlines_grow(n1, (n2 - 1) as nat);
        assert(outlines(n2).take(outlines(n1).len() as int) =~= outlines(n1));
    } else {
        assert(outlines(n2).take(outlines(n1).len() as int) =~= outlines(n1));
    }
}

/// The side of the square canvas the illustration is drawn on.
pub const CANVAS_SIZE: i32 = 100;

pub open spec fn on_canvas(p: Point) -> bool {
    0 <= p.x <= CANVAS_SIZE && 0 <= p.y <= CANVAS_SIZE
}

proof fn lemma_outlines_on_canvas(n: nat)
    requires
        n <= PIECE_COUNT,
    ensures
        forall|i: int|
            0 <= i < outlines(n).len() ==> on_canvas(#[trigger] outlines(n)[i].from) && on_canvas(
                outlines(n)[i].to,
            ),
    decreases n,
{
    if n > 0 {
        lemma_outlines_on_canvas((n - 1) as nat);
        let v = piece_outline(n - 1);
        assert(forall|j: int| 0 <= j < v.len() ==> on_canvas(#[trigger] v[j]));
        let e = closed_edges(v, piece_color(n - 1));
        assert forall|j: int| 0 <= j < e.len() implies on_canvas(#[trigger] e[j].from) && on_canvas(
            e[j].to,
        ) by {
            let k = (j + 1) % (v.len() as int);
            assert(0 <= k < v.len());
        }
        let prev = outlines((n - 1) as nat);
        assert forall|i: int| 0 <= i < outlines(n).len() implies on_canvas(
            #[trigger] outlines(n)[i].from,
        ) && on_canvas(outlines(n)[i].to) by {
            if i < prev.len() {
                assert(outlines(n)[i] == prev[i]);
            } else {
                assert(outlines(n)[i] == e[i - prev.len()]);
            }
        }
    }
}

/// Every segment of every stage lies on the canvas.
pub proof fn lemma_scene_on_canvas(stage: nat)
    ensures
        forall|i: int|
            0 <= i < scene(stage).len() ==> on_canvas(#[trigger] scene(stage)[i].from) && on_canvas(
                scene(stage)[i].to,
            ),
{
    let o = outlines(pieces_shown(stage));
    lemma_outlines_on_canvas(pieces_shown(stage));
    assert forall|i: int| 0 <= i < scene(stage).len() implies on_canvas(
        #[trigger] scene(stage)[i].from,
    ) && on_canvas(scene(stage)[i].to) by {
        if i < o.len() {
            assert(scene(stage)[i] == o[i]);
        } else {
            assert(scene(stage)[i] == cross_lines()[i - o.len()]);
        }
    }
}

/// A caption and where to draw it.
#[derive(Clone, Debug)]
pub struct Caption {
    pub at: Point,
    pub text: String,
}

/// The caption drawn at `stage`: "Game Over" over the hub once the
/// illustration is complete, none before.
pub fn stage_caption(stage: u8) -> (r: Option<Caption>)
    ensures
        r is Some <==> stage >= FINAL_STAGE,
        r matches Some(c) ==> c.at == pt(40, 50) && c.text@ == GAME_OVER_CAPTION@,
{
    if stage >= FINAL_STAGE {
        Some(Caption { at: Point { x: 40, y: 50 }, text: String::from_str(GAME_OVER_CAPTION) })
    } else {
        None
    }
}

} // verus!
