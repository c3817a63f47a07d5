use game_motor::geom::Vec2;
use game_motor::geom::WorldRect;
use game_motor::geom::closest_distance;
use game_motor::geom::intersection;
use game_motor::geom::isqrt64;

#[test]
fn overlap_of_crossing_boxes() {
    let a = WorldRect::new(0, 0, 100, 100);
    let b = WorldRect::new(90, 40, 100, 20);
    let i = intersection(&a, &b).unwrap();
    assert_eq!((i.left, i.top, i.width, i.height), (90, 40, 10, 20));
}

#[test]
fn touching_boxes_do_not_overlap() {
    let a = WorldRect::new(0, 0, 10, 10);
    let b = WorldRect::new(10, 0, 10, 10);
    assert_eq!(intersection(&a, &b), None);
}

#[test]
fn negative_extents_are_normalised() {
    // the box (10, 0, -10, 10) covers the same area as (0, 0, 10, 10)
    let a = WorldRect::new(10, 0, -10, 10);
    let b = WorldRect::new(5, 5, 10, 10);
    let i = intersection(&a, &b).unwrap();
    assert_eq!((i.left, i.top, i.width, i.height), (5, 5, 5, 5));
}

#[test]
fn gap_vector_between_separate_boxes() {
    let a = WorldRect::new(0, 0, 10, 10);
    let b = WorldRect::new(25, 40, 10, 10);
    let d = closest_distance(a, b);
    assert_eq!(d, Vec2::new(15, 30));
}

#[test]
fn gap_vector_is_zero_on_overlapping_axes() {
    let a = WorldRect::new(0, 0, 10, 10);
    let b = WorldRect::new(5, 30, 10, 10);
    let d = closest_distance(a, b);
    assert_eq!(d, Vec2::new(0, 20));
}

#[test]
fn integer_square_roots() {
    assert_eq!(isqrt64(0), 0);
    assert_eq!(isqrt64(1), 1);
    assert_eq!(isqrt64(3), 1);
    assert_eq!(isqrt64(4), 2);
    assert_eq!(isqrt64(10), 3);
    assert_eq!(isqrt64(144), 12);
    assert_eq!(isqrt64(10_000_000_000), 100_000);
    assert_eq!(isqrt64(u64::MAX), 4_294_967_295);
}
