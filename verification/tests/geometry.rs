use path_sampler::lerp::interpolate;
use path_sampler::point::{Point, SEGMENT_LIMIT};
use path_sampler::sqrt::isqrt;

#[test]
fn isqrt_of_small_numbers() {
    let expected: [u64; 17] = [0, 1, 1, 1, 2, 2, 2, 2, 2, 3, 3, 3, 3, 3, 3, 3, 4];
    let mut n: usize = 0;
    while n < expected.len() {
        assert_eq!(isqrt(n as u128), expected[n]);
        n += 1;
    }
}

#[test]
fn isqrt_around_perfect_squares() {
    assert_eq!(isqrt(99), 9);
    assert_eq!(isqrt(100), 10);
    assert_eq!(isqrt(101), 10);
    let r: u128 = 3_000_000_019;
    assert_eq!(isqrt(r * r - 1), 3_000_000_018);
    assert_eq!(isqrt(r * r), 3_000_000_019);
    assert_eq!(isqrt(r * r + 2 * r), 3_000_000_019);
    assert_eq!(isqrt(r * r + 2 * r + 1), 3_000_000_020);
}

#[test]
fn isqrt_of_the_largest_numbers() {
    assert_eq!(isqrt(u128::MAX), u64::MAX);
    let top: u128 = u64::MAX as u128;
    assert_eq!(isqrt(top * top), u64::MAX);
    assert_eq!(isqrt(top * top - 1), u64::MAX - 1);
}

#[test]
fn isqrt_is_the_largest_root_that_fits() {
    let mut n: u128 = 0;
    while n < 5000 {
        let r = isqrt(n) as u128;
        assert!(r * r <= n && n < (r + 1) * (r + 1));
        n += 1;
    }
}

#[test]
fn point_keeps_its_coordinates() {
    let p = Point::new(-3, 8);
    assert_eq!(p.x, -3);
    assert_eq!(p.y, 8);
    assert_eq!(p, Point { x: -3, y: 8 });
    assert_ne!(p, Point::new(8, -3));
}

#[test]
fn distance_of_whole_length() {
    assert_eq!(Point::new(0, 0).distance_to(Point::new(3, 4)), 5);
    assert_eq!(Point::new(3, 4).distance_to(Point::new(0, 0)), 5);
    assert_eq!(Point::new(-1, -1).distance_to(Point::new(-1, 11)), 12);
    assert_eq!(Point::new(5, 5).distance_to(Point::new(5, 5)), 0);
}

#[test]
fn distance_is_rounded_down() {
    assert_eq!(Point::new(0, 0).distance_to(Point::new(1, 1)), 1);
    assert_eq!(Point::new(0, 0).distance_to(Point::new(2, 2)), 2);
    assert_eq!(Point::new(0, 0).distance_to(Point::new(5, 5)), 7);
    assert_eq!(Point::new(0, 0).distance_to(Point::new(1000, 1000)), 1414);
    assert_eq!(Point::new(0, 0).distance_to(Point::new(1, 0)), 1);
}

#[test]
fn distance_across_the_whole_grid() {
    let low = Point::new(i32::MIN, i32::MIN);
    let high = Point::new(i32::MAX, i32::MAX);
    assert_eq!(low.distance_to(high), 6_074_000_998);
    assert_eq!(high.distance_to(low), 6_074_000_998);
    assert!(low.distance_to(high) < SEGMENT_LIMIT);
    assert_eq!(Point::new(i32::MIN, 0).distance_to(Point::new(i32::MAX, 0)), 4_294_967_295);
}

#[test]
fn interpolate_at_the_ends() {
    let a = Point::new(-4, 9);
    let b = Point::new(17, -30);
    assert_eq!(interpolate(a, b, 0, 44), a);
    assert_eq!(interpolate(a, b, 44, 44), b);
    assert_eq!(interpolate(a, b, 0, 1), a);
    assert_eq!(interpolate(a, b, 1, 1), b);
}

#[test]
fn interpolate_rounds_toward_the_start() {
    let a = Point::new(0, 0);
    let b = Point::new(10, -10);
    assert_eq!(interpolate(a, b, 1, 3), Point::new(3, -3));
    assert_eq!(interpolate(a, b, 2, 3), Point::new(6, -6));
    assert_eq!(interpolate(b, a, 1, 3), Point::new(7, -7));
    assert_eq!(interpolate(b, a, 2, 3), Point::new(4, -4));
    assert_eq!(interpolate(a, b, 1, 100), Point::new(0, 0));
    assert_eq!(interpolate(a, b, 99, 100), Point::new(9, -9));
}

#[test]
fn interpolate_without_a_denominator_gives_the_start() {
    let a = Point::new(6, 6);
    let b = Point::new(7, 9);
    assert_eq!(interpolate(a, b, 0, 0), a);
    assert_eq!(interpolate(a, a, 0, 0), a);
}

#[test]
fn interpolate_across_the_whole_grid() {
    let low = Point::new(i32::MIN, i32::MAX);
    let high = Point::new(i32::MAX, i32::MIN);
    assert_eq!(interpolate(low, high, u64::MAX, u64::MAX), high);
    assert_eq!(interpolate(low, high, 0, u64::MAX), low);
    assert_eq!(interpolate(low, high, 1, 2), Point::new(-1, 0));
    assert_eq!(interpolate(high, low, 1, 2), Point::new(0, -1));
}
