use path_sampler::point::Point;
use path_sampler::sampler::{heading, line_pos, Direction};

#[test]
fn heading_along_the_x_axis() {
    // One grid unit is a hundredth: the path runs from (0, 0) to (10, 0) and
    // the step ahead is 0.02.
    let path = vec![Point::new(0, 0), Point::new(1000, 0)];
    assert_eq!(line_pos(&path, 0), Some(Point::new(0, 0)));
    assert_eq!(line_pos(&path, 2), Some(Point::new(2, 0)));
    let direction = heading(&path, 0, 2).unwrap();
    assert_eq!(direction, Direction { dx: 2, dy: 0 });
    let angle = (direction.dy as f64).atan2(direction.dx as f64);
    assert_eq!(angle, 0.0);
}

#[test]
fn heading_along_each_axis() {
    let up = vec![Point::new(0, 0), Point::new(0, 50)];
    assert_eq!(heading(&up, 10, 5), Some(Direction { dx: 0, dy: 5 }));
    let left = vec![Point::new(0, 0), Point::new(-50, 0)];
    assert_eq!(heading(&left, 10, 5), Some(Direction { dx: -5, dy: 0 }));
    let down = vec![Point::new(0, 0), Point::new(0, -50)];
    assert_eq!(heading(&down, 10, 5), Some(Direction { dx: 0, dy: -5 }));
    let angle = |d: Direction| (d.dy as f64).atan2(d.dx as f64);
    assert_eq!(angle(heading(&up, 10, 5).unwrap()), std::f64::consts::FRAC_PI_2);
    assert_eq!(angle(heading(&left, 10, 5).unwrap()), std::f64::consts::PI);
    assert_eq!(angle(heading(&down, 10, 5).unwrap()), -std::f64::consts::FRAC_PI_2);
}

#[test]
fn heading_across_a_corner() {
    let path = vec![Point::new(0, 0), Point::new(3, 0), Point::new(3, 4)];
    assert_eq!(heading(&path, 2, 2), Some(Direction { dx: 1, dy: 1 }));
    assert_eq!(heading(&path, 3, 4), Some(Direction { dx: 0, dy: 4 }));
    assert_eq!(heading(&path, 0, 7), Some(Direction { dx: 3, dy: 4 }));
}

#[test]
fn no_heading_without_both_positions() {
    let path = vec![Point::new(0, 0), Point::new(10, 0)];
    assert_eq!(heading(&path, 9, 2), None);
    assert_eq!(heading(&path, 10, 1), None);
    assert_eq!(heading(&path, -1, 2), None);
    assert_eq!(heading(&path, 11, -2), None);
    assert_eq!(heading(&path, 0, -1), None);
    assert_eq!(heading(&path, 9, 1), Some(Direction { dx: 1, dy: 0 }));
}

#[test]
fn no_heading_on_a_short_path() {
    let empty: Vec<Point> = Vec::new();
    assert_eq!(heading(&empty, 0, 2), None);
    assert_eq!(heading(&[Point::new(1, 1)], 0, 0), None);
}

#[test]
fn heading_with_a_step_backward() {
    let path = vec![Point::new(0, 0), Point::new(10, 0)];
    assert_eq!(heading(&path, 5, -3), Some(Direction { dx: -3, dy: 0 }));
}

#[test]
fn heading_with_no_step_is_no_displacement() {
    let path = vec![Point::new(0, 0), Point::new(10, 0)];
    assert_eq!(heading(&path, 5, 0), Some(Direction { dx: 0, dy: 0 }));
}

#[test]
fn heading_with_a_step_too_large_to_add() {
    let path = vec![Point::new(0, 0), Point::new(10, 0)];
    assert_eq!(heading(&path, 5, i128::MAX), None);
    assert_eq!(heading(&path, 0, i128::MAX), None);
    assert_eq!(heading(&path, 0, i128::MIN), None);
    assert_eq!(heading(&path, i128::MAX, i128::MAX), None);
    assert_eq!(heading(&path, i128::MIN, i128::MIN), None);
}

#[test]
fn heading_across_the_whole_grid() {
    let low = Point::new(i32::MIN, i32::MIN);
    let high = Point::new(i32::MAX, i32::MAX);
    let path = vec![low, high];
    assert_eq!(
        heading(&path, 0, 6_074_000_998),
        Some(Direction { dx: 4_294_967_295, dy: 4_294_967_295 })
    );
    assert_eq!(
        heading(&path, 6_074_000_998, -6_074_000_998),
        Some(Direction { dx: -4_294_967_295, dy: -4_294_967_295 })
    );
}
