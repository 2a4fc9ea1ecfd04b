use pathfinder_tiling::clip::Edge3D;
use pathfinder_tiling::clip::Point3D;
use pathfinder_tiling::clip::PolygonClipper3D;
use pathfinder_tiling::clip::CLIP_ONE;

fn p(x: i32, y: i32, z: i32) -> Point3D {
    Point3D { x, y, z }
}

fn in_volume(q: &Point3D) -> bool {
    [q.x, q.y, q.z].iter().all(|v| -CLIP_ONE <= *v && *v <= CLIP_ONE)
}

#[test]
fn polygon_inside_volume_is_unchanged() {
    let subject = vec![p(0, 0, 0), p(100, 0, 0), p(0, 100, 0)];
    let clipped = PolygonClipper3D::new(subject.clone()).clip();
    assert_eq!(clipped, subject);
}

#[test]
fn polygon_crossing_right_plane_is_cut_on_it() {
    let one = CLIP_ONE;
    let subject = vec![p(0, 0, 0), p(3 * one, 0, 0), p(0, one / 2, 0)];
    let clipped = PolygonClipper3D::new(subject).clip();
    assert_eq!(clipped.len(), 4);
    assert!(clipped.iter().all(in_volume));
    assert_eq!(clipped[0], p(0, 0, 0));
    assert_eq!(clipped[1], p(one, 0, 0));
    assert_eq!(clipped[2].x, one);
    assert_eq!(clipped[3], p(0, one / 2, 0));
}

#[test]
fn clipping_is_idempotent_on_a_large_triangle() {
    let one = CLIP_ONE;
    let subject = vec![p(-5 * one, -3 * one, 2 * one), p(4 * one, -one, -7 * one), p(one / 3, 6 * one, one / 5)];
    let once = PolygonClipper3D::new(subject).clip();
    assert!(!once.is_empty());
    assert!(once.iter().all(in_volume));
    let twice = PolygonClipper3D::new(once.clone()).clip();
    assert_eq!(twice, once);
}

#[test]
fn polygon_outside_volume_vanishes() {
    let one = CLIP_ONE;
    let subject = vec![p(2 * one, 0, 0), p(3 * one, 0, 0), p(2 * one, one, 0)];
    assert!(PolygonClipper3D::new(subject).clip().is_empty());
    assert!(PolygonClipper3D::new(vec![]).clip().is_empty());
}

#[test]
fn plane_tests_and_intersection() {
    let one = CLIP_ONE;
    assert!(Edge3D::Left.point_is_inside(p(-one, 0, 0)));
    assert!(!Edge3D::Left.point_is_inside(p(-one - 1, 0, 0)));
    assert!(!Edge3D::Far.point_is_inside(p(0, 0, one + 1)));
    let q = Edge3D::Top.line_intersection(p(0, 0, 0), p(4 * one, 2 * one, 0));
    assert_eq!(q, p(2 * one, one, 0));
}

use pathfinder_tiling::clip::ContourClipper;
use pathfinder_tiling::clip::Edge;
use pathfinder_tiling::scene::Contour;
use pathfinder_tiling::tile_map::FixedRect;
use pathfinder_tiling::tile_map::Vector2I;

fn v(x: i32, y: i32) -> Vector2I {
    Vector2I { x, y }
}

#[test]
fn contour_clipped_to_rect_stays_inside_and_is_stable() {
    let rect = FixedRect { min_x: 0, min_y: 0, max_x: 1000, max_y: 1000 };
    let contour = Contour { points: vec![v(-500, 500), v(500, -700), v(1500, 500), v(500, 1333)] };
    let once = ContourClipper::from_rect(rect, contour).clip();
    assert!(!once.points.is_empty());
    for p in &once.points {
        assert!(0 <= p.x && p.x <= 1000 && 0 <= p.y && p.y <= 1000);
    }
    let again = ContourClipper::from_rect(rect, Contour { points: once.points.clone() }).clip();
    assert_eq!(again.points, once.points);
}

#[test]
fn contour_outside_clip_polygon_vanishes() {
    let triangle = [v(0, 0), v(100, 0), v(0, 100)];
    let contour = Contour { points: vec![v(200, 200), v(300, 200), v(300, 300)] };
    assert!(ContourClipper::new(&triangle, contour).clip().points.is_empty());
    let inside = Contour { points: vec![v(10, 10), v(20, 10), v(10, 20)] };
    let kept = ContourClipper::new(&triangle, Contour { points: inside.points.clone() }).clip();
    assert_eq!(kept.points, inside.points);
    assert!(ContourClipper::new(&[], Contour { points: vec![v(1, 1)] }).clip().points.is_empty());
}

#[test]
fn edge_side_and_crossing() {
    let left = Edge { from: v(0, 100), to: v(0, 0) };
    assert!(left.point_is_inside(v(5, 50)));
    assert!(left.point_is_inside(v(0, 50)));
    assert!(!left.point_is_inside(v(-1, 50)));
    assert_eq!(left.line_intersection(v(-10, 0), v(10, 40)), v(0, 20));
    let diagonal = Edge { from: v(0, 0), to: v(100, 100) };
    let q = diagonal.line_intersection(v(0, 50), v(50, 0));
    assert_eq!(q, v(25, 25));
}

use pathfinder_tiling::clip::PathEvent;
use pathfinder_tiling::clip::RectClipper;

#[test]
fn path_events_clipped_to_rect() {
    let rect = FixedRect { min_x: 0, min_y: 0, max_x: 100, max_y: 100 };
    let events = [
        PathEvent::MoveTo(v(-50, 50)),
        PathEvent::LineTo(v(50, 50)),
        PathEvent::QuadraticTo(v(70, 0), v(150, 50)),
        PathEvent::LineTo(v(50, 150)),
        PathEvent::Close,
    ];
    let clipped = RectClipper::new(&rect, &events).clip();
    assert!(!clipped.is_empty());
    assert!(matches!(clipped[0], PathEvent::MoveTo(_)));
    assert!(matches!(clipped[clipped.len() - 1], PathEvent::Close));
    for e in &clipped {
        match e {
            PathEvent::MoveTo(p) | PathEvent::LineTo(p) => {
                assert!(0 <= p.x && p.x <= 100 && 0 <= p.y && p.y <= 100, "{:?}", p);
            }
            PathEvent::Close => {}
            other => panic!("unexpected curve {:?}", other),
        }
    }
}

#[test]
fn path_events_inside_rect_keep_their_points() {
    let rect = FixedRect { min_x: 0, min_y: 0, max_x: 100, max_y: 100 };
    let events = [PathEvent::MoveTo(v(10, 10)), PathEvent::LineTo(v(90, 10)), PathEvent::LineTo(v(50, 90)), PathEvent::Close];
    let clipped = RectClipper::new(&rect, &events).clip();
    let points: Vec<Vector2I> = clipped
        .iter()
        .filter_map(|e| match e {
            PathEvent::MoveTo(p) | PathEvent::LineTo(p) => Some(*p),
            _ => None,
        })
        .collect();
    for p in [v(10, 10), v(90, 10), v(50, 90)] {
        assert!(points.contains(&p));
    }
}

#[test]
fn open_subpath_inside_rect_is_kept_whole() {
    let rect = FixedRect { min_x: 0, min_y: 0, max_x: 2560, max_y: 2560 };
    let events = [PathEvent::MoveTo(v(256, 256)), PathEvent::LineTo(v(512, 512))];
    let clipped = RectClipper::new(&rect, &events).clip();
    assert_eq!(clipped, vec![PathEvent::MoveTo(v(256, 256)), PathEvent::LineTo(v(512, 512))]);
}
