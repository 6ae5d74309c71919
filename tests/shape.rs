use hadvent::shape::{Color, GeneralSquare, Point, Polygon, Segment, Triangle};
use hadvent::stage::{piece, stage_caption, stage_lines, stage_polygons, stage_segments};
use hadvent::text::{chars_of, spaced_string};

fn p(x: i32, y: i32) -> Point {
    Point { x, y }
}

fn s(a: Point, b: Point, color: Color) -> Segment {
    Segment { from: a, to: b, color }
}

#[test]
fn triangle_decomposes_into_three_closing_edges() {
    let t = Polygon::triangle(p(10, 10), p(45, 45), p(50, 10), Color::Yellow);
    assert_eq!(
        t.decompose(),
        vec![
            s(p(10, 10), p(45, 45), Color::Yellow),
            s(p(45, 45), p(50, 10), Color::Yellow),
            s(p(50, 10), p(10, 10), Color::Yellow),
        ]
    );
}

#[test]
fn quad_decomposes_into_four_closing_edges() {
    let q = Polygon::quad(p(0, 0), p(0, 5), p(7, 5), p(7, 0), Color::Rgb(1, 2, 3));
    let c = Color::Rgb(1, 2, 3);
    assert_eq!(
        q.decompose(),
        vec![s(p(0, 0), p(0, 5), c), s(p(0, 5), p(7, 5), c), s(p(7, 5), p(7, 0), c), s(p(7, 0), p(0, 0), c)]
    );
}

#[test]
fn longer_polyline_closes_too() {
    let poly = Polygon {
        vertices: vec![p(0, 0), p(1, 0), p(2, 1), p(1, 2), p(0, 1)],
        color: Color::Red,
    };
    let edges = poly.decompose();
    assert_eq!(edges.len(), 5);
    assert_eq!(edges[4], s(p(0, 1), p(0, 0), Color::Red));
    let empty = Polygon { vertices: vec![], color: Color::Red };
    assert!(empty.decompose().is_empty());
}

#[test]
fn general_square_lines() {
    let g = GeneralSquare { p1: p(1, 1), p2: p(4, 2), p3: p(5, 6), p4: p(0, 3), color: Color::Blue };
    let lines = g.lines();
    assert_eq!(lines.len(), 4);
    assert_eq!(lines[0], s(p(1, 1), p(4, 2), Color::Blue));
    assert_eq!(lines[3], s(p(0, 3), p(1, 1), Color::Blue));
    assert_eq!(g.to_polygon().vertices, vec![p(1, 1), p(4, 2), p(5, 6), p(0, 3)]);
}

#[test]
fn triangle_lines() {
    let t = Triangle { p1: p(50, 90), p2: p(90, 90), p3: p(55, 55), color: Color::Yellow };
    assert_eq!(
        t.lines(),
        vec![
            s(p(50, 90), p(90, 90), Color::Yellow),
            s(p(90, 90), p(55, 55), Color::Yellow),
            s(p(55, 55), p(50, 90), Color::Yellow),
        ]
    );
}

#[test]
fn stages_are_cumulative() {
    let counts = [0usize, 3, 6, 9, 12, 16, 18, 18];
    let mut previous: Vec<Segment> = Vec::new();
    for (stage, count) in counts.iter().enumerate() {
        let segs = stage_segments(stage as u8);
        assert_eq!(segs.len(), *count);
        assert_eq!(&segs[..previous.len()], &previous[..]);
        previous = segs;
    }
    assert_eq!(stage_segments(255).len(), 18);
}

#[test]
fn stage_pieces_and_lines() {
    assert!(stage_polygons(0).is_empty());
    assert_eq!(stage_polygons(3).len(), 3);
    assert_eq!(stage_polygons(9).len(), 5);
    assert_eq!(stage_polygons(2)[1].vertices, vec![p(55, 45), p(90, 50), p(90, 10)]);
    assert_eq!(piece(4).vertices, vec![p(45, 45), p(45, 55), p(55, 55), p(55, 45)]);
    assert!(stage_lines(5).is_empty());
    assert_eq!(
        stage_lines(6),
        vec![s(p(45, 45), p(55, 55), Color::LightGreen), s(p(45, 55), p(55, 45), Color::LightGreen)]
    );
    let full = stage_segments(6);
    assert_eq!(full[0], s(p(10, 10), p(45, 45), Color::Yellow));
    assert_eq!(full[17], s(p(45, 55), p(55, 45), Color::LightGreen));
}

#[test]
fn caption_only_at_final_stage() {
    assert!(stage_caption(5).is_none());
    let c = stage_caption(6).unwrap();
    assert_eq!(c.text, "Game Over");
    assert_eq!(c.at, p(40, 50));
}

#[test]
fn text_helpers() {
    assert_eq!(spaced_string(&vec!['A']), "A");
    assert_eq!(spaced_string(&vec![]), "");
    assert_eq!(spaced_string(&vec!['X', 'Y', 'Z']), "X Y Z");
    assert_eq!(chars_of("h\u{e9}!"), vec!['h', '\u{e9}', '!']);
}
