use vstd::prelude::*;
use vstd::arithmetic::div_mod::{lemma_mod_self_0, lemma_small_mod};

verus! {

/// A point of the drawing plane, in canvas units (the canvas spans 0..=100
/// on both axes).
#[derive(Clone, Copy, Debug, PartialEq, Eq, Structural)]
pub struct Point {
    pub x: i32,
    pub y: i32,
}

/// The colours a canvas line can be drawn in.
#[derive(Clone, Copy, Debug, PartialEq, Eq, Structural)]
pub enum Color {
    Reset,
    Black,
    Red,
    Green,
    Yellow,
    Blue,
    Magenta,
    Cyan,
    Gray,
    DarkGray,
    LightRed,
    LightGreen,
    LightYellow,
    LightBlue,
    LightMagenta,
    LightCyan,
    White,
    Rgb(u8, u8, u8),
    Indexed(u8),
}

/// A straight line between two points: the one primitive a canvas draws.
#[derive(Clone, Copy, Debug, PartialEq, Eq, Structural)]
pub struct Segment {
    pub from: Point,
    pub to: Point,
    pub color: Color,
}

/// The boundary of the closed polyline through `vertices`: one segment per
/// vertex, from it to the next one, the last one closing back to the first.
pub open spec fn closed_edges(vertices: Seq<Point>, color: Color) -> Seq<Segment> {
    Seq::new(
        vertices.len(),
        |i: int|
            Segment {
                from: vertices[i],
                to: vertices[(i + 1) % (vertices.len() as int)],
                color,
            },
    )
}

/// A closed shape: its vertices in drawing order and the colour of its edges.
#[derive(Clone, Debug)]
pub struct Polygon {
    pub vertices: Vec<Point>,
    pub color: Color,
}

impl Polygon {
    /// A polygon has at least three vertices.
    pub open spec fn wf(&self) -> bool {
        self.vertices@.len() >= 3
    }

    pub fn triangle(p1: Point, p2: Point, p3: Point, color: Color) -> (r: Polygon)
        ensures
            r.vertices@ == seq![p1, p2, p3],
            r.color == color,
            r.wf(),
    {
        let vertices = vec![p1, p2, p3];
        Polygon { vertices, color }
    }

    pub fn quad(p1: Point, p2: Point, p3: Point, p4: Point, color: Color) -> (r: Polygon)
        ensures
            r.vertices@ == seq![p1, p2, p3, p4],
            r.color == color,
            r.wf(),
    {
        let vertices = vec![p1, p2, p3, p4];
        Polygon { vertices, color }
    }

    /// The boundary of the polygon as line segments, in vertex order: for
    /// `k` vertices, `k` segments of the polygon's colour, the last one
    /// closing back to the first vertex.
    pub fn decompose(&self) -> (r: Vec<Segment>)
        ensures
            r@ == closed_edges(self.vertices@, self.color),
            r@.len() == self.vertices@.len(),
    {
        let n = self.vertices.len();
        let mut r: Vec<Segment> = Vec::with_capacity(n);
        let mut i: usize = 0;
        while i < n
            invariant
                n == self.vertices@.len(),
                i <= n,
                r@ =~= closed_edges(self.vertices@, self.color).take(i as int),
            decreases n - i,
        {
            let next: usize = if i + 1 == n { 0 } else { i + 1 };
            proof {
                if i + 1 < n {
                    lemma_small_mod((i + 1) as nat, n as nat);
                } else {
                    lemma_mod_self_0(n as int);
                }
            }
            r.push(Segment { from: self.vertices[i], to: self.vertices[next], color: self.color });
            i = i + 1;
        }
        assert(r@ =~= closed_edges(self.vertices@, self.color));
        r
    }
}

/// A triangle given by its three corners.
#[derive(Clone, Copy, Debug, PartialEq, Eq, Structural)]
pub struct Triangle {
    pub p1: Point,
    pub p2: Point,
    pub p3: Point,
    pub color: Color,
}

impl Triangle {
    pub open spec fn corners(&self) -> Seq<Point> {
        seq![self.p1, self.p2, self.p3]
    }

    pub fn to_polygon(&self) -> (r: Polygon)
        ensures
            r.vertices@ == self.corners(),
            r.color == self.color,
            r.wf(),
    {
        Polygon::triangle(self.p1, self.p2, self.p3, self.color)
    }

    /// The three edges p1-p2, p2-p3, p3-p1.
    pub fn lines(&self) -> (r: Vec<Segment>)
        ensures
            r@ == closed_edges(self.corners(), self.color),
            r@.len() == 3,
    {
        self.to_polygon().decompose()
    }
}

/// A four-sided shape given by its corners in drawing order (not
/// necessarily a square, nor axis-aligned).
#[derive(Clone, Copy, Debug, PartialEq, Eq, Structural)]
pub struct GeneralSquare {
    pub p1: Point,
    pub p2: Point,
    pub p3: Point,
    pub p4: Point,
    pub color: Color,
}

impl GeneralSquare {
    pub open spec fn corners(&self) -> Seq<Point> {
        seq![self.p1, self.p2, self.p3, self.p4]
    }

    pub fn to_polygon(&self) -> (r: Polygon)
        ensures
            r.vertices@ == self.corners(),
            r.color == self.color,
            r.wf(),
    {
        Polygon::quad(self.p1, self.p2, self.p3, self.p4, self.color)
    }

    /// The four edges p1-p2, p2-p3, p3-p4, p4-p1.
    pub fn lines(&self) -> (r: Vec<Segment>)
        ensures
            r@ == closed_edges(self.corners(), self.color),
            r@.len() == 4,
    {
        self.to_polygon().decompose()
    }
}

} // verus!
