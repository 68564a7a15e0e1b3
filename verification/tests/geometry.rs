use wasm_boundary::{add, bounding_rect, Point, Rect};

#[test]
fn add_sums_its_arguments() {
    assert_eq!(add(1, 2), 3);
    assert_eq!(add(-5, 5), 0);
    assert_eq!(add(i32::MAX, 0), i32::MAX);
    assert_eq!(add(i32::MIN, i32::MAX), -1);
}

#[test]
fn two_points_span_a_rectangle() {
    let r = bounding_rect(Point { x: 2, y: 3 }, Point { x: 8, y: 9 });
    assert_eq!(r, Rect { left: 2, right: 8, top: 3, bottom: 9 });
}

#[test]
fn the_order_of_the_points_does_not_matter() {
    let a = Point { x: 8, y: 9 };
    let b = Point { x: 2, y: 3 };
    assert_eq!(bounding_rect(a, b), Rect { left: 2, right: 8, top: 3, bottom: 9 });
    assert_eq!(bounding_rect(a, b), bounding_rect(b, a));
    let c = Point { x: -4, y: 12 };
    let d = Point { x: 6, y: -1 };
    assert_eq!(bounding_rect(c, d), Rect { left: -4, right: 6, top: -1, bottom: 12 });
    assert_eq!(bounding_rect(d, c), bounding_rect(c, d));
}

#[test]
fn a_point_spans_a_rectangle_with_itself() {
    let p = Point { x: 5, y: -5 };
    assert_eq!(bounding_rect(p, p), Rect { left: 5, right: 5, top: -5, bottom: -5 });
}

#[test]
fn the_extremes_of_the_plane_are_spanned() {
    let a = Point { x: i32::MIN, y: i32::MAX };
    let b = Point { x: i32::MAX, y: i32::MIN };
    assert_eq!(
        bounding_rect(a, b),
        Rect { left: i32::MIN, right: i32::MAX, top: i32::MIN, bottom: i32::MAX }
    );
}
