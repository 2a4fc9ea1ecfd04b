use pathfinder_tiling::clip::Edge;
use pathfinder_tiling::segment::EdgeRelativeLocation;
use pathfinder_tiling::segment::Segment;
use pathfinder_tiling::segment::SegmentClipper;
use pathfinder_tiling::segment::SegmentKind;
use pathfinder_tiling::segment::T_ONE;
use pathfinder_tiling::tile_map::Vector2I;

fn v(x: i32, y: i32) -> Vector2I {
    Vector2I { x, y }
}

fn cubic(a: Vector2I, b: Vector2I, c: Vector2I, d: Vector2I) -> Segment {
    Segment { from: a, ctrl0: b, ctrl1: c, to: d, kind: SegmentKind::Cubic }
}

fn line(a: Vector2I, b: Vector2I) -> Segment {
    Segment { from: a, ctrl0: a, ctrl1: a, to: b, kind: SegmentKind::Line }
}

#[test]
fn cubic_sample_hits_its_ends_and_middle() {
    let s = cubic(v(0, 0), v(0, 1000), v(1000, 1000), v(1000, 0));
    assert_eq!(s.sample(0), v(0, 0));
    assert_eq!(s.sample(T_ONE), v(1000, 0));
    assert_eq!(s.sample(T_ONE / 2), v(500, 750));
}

#[test]
fn quadratic_becomes_cubic_with_two_thirds_controls() {
    let q = Segment { from: v(0, 0), ctrl0: v(300, 600), ctrl1: v(0, 0), to: v(600, 0), kind: SegmentKind::Quadratic };
    let c = q.to_cubic();
    assert_eq!(c.kind, SegmentKind::Cubic);
    assert_eq!(c.ctrl0, v(200, 400));
    assert_eq!(c.ctrl1, v(400, 400));
}

#[test]
fn segments_are_tested_against_an_edge() {
    let left = Edge { from: v(0, 1000), to: v(0, 0) };
    assert_eq!(left.trivially_test_segment(&line(v(10, 10), v(20, 20))), EdgeRelativeLocation::Inside);
    assert_eq!(left.trivially_test_segment(&line(v(-10, 10), v(-20, 20))), EdgeRelativeLocation::Outside);
    assert_eq!(left.trivially_test_segment(&line(v(-10, 10), v(20, 20))), EdgeRelativeLocation::Intersecting);
    let bulge = cubic(v(10, 0), v(-50, 300), v(-50, 600), v(10, 900));
    assert_eq!(left.trivially_test_segment(&bulge), EdgeRelativeLocation::Intersecting);
}

#[test]
fn crossings_are_found_in_order() {
    let left = Edge { from: v(0, 1000), to: v(0, 0) };
    let ts = left.intersect_segment(&line(v(-100, 0), v(300, 0)));
    assert_eq!(ts, vec![T_ONE / 4]);
    let rising = cubic(v(-300, 0), v(-100, 300), v(100, 600), v(300, 900));
    let ts = left.intersect_segment(&rising);
    assert_eq!(ts.len(), 1);
    let p = rising.sample(ts[0]);
    assert!(p.x.abs() <= 2, "{:?}", p);
    assert!((p.y - 450).abs() <= 2, "{:?}", p);
    // Bisection needs the two ends of the interval on different sides: a curve that
    // leaves and re-enters between inside ends yields no crossing.
    let bulge = cubic(v(100, 0), v(-200, 300), v(-200, 600), v(100, 900));
    assert!(left.intersect_segment(&bulge).is_empty());
}

#[test]
fn curve_is_cut_where_it_leaves_the_square() {
    let square = vec![v(0, 0), v(1000, 0), v(1000, 1000), v(0, 1000)];
    let contour = vec![
        cubic(v(500, 100), v(1500, 300), v(1500, 700), v(500, 900)),
        line(v(500, 900), v(500, 100)),
    ];
    let clipped = SegmentClipper::new(square, contour).clip();
    assert!(!clipped.is_empty());
    for pair in clipped.windows(2) {
        assert_eq!(pair[0].to, pair[1].from);
    }
    for s in &clipped {
        for p in [s.from, s.to] {
            assert!(p.x <= 1002, "{:?}", p);
        }
    }
}

#[test]
fn segments_outside_the_first_edge_vanish_and_inside_ones_stay() {
    let square = vec![v(0, 0), v(1000, 0), v(1000, 1000), v(0, 1000)];
    let outside = vec![line(v(-50, 10), v(-10, 900)), line(v(-10, 900), v(-50, 10))];
    assert!(SegmentClipper::new(square.clone(), outside).clip().is_empty());
    let inside = vec![
        cubic(v(100, 100), v(300, 50), v(600, 50), v(900, 100)),
        line(v(900, 100), v(100, 100)),
    ];
    assert_eq!(SegmentClipper::new(square, inside.clone()).clip(), inside);
}

#[test]
fn point_segments_are_degenerate() {
    assert!(line(v(3, 4), v(3, 4)).is_degenerate());
    assert!(!line(v(3, 4), v(3, 5)).is_degenerate());
    assert!(!cubic(v(0, 0), v(1, 0), v(0, 0), v(0, 0)).is_degenerate());
}
