use std::cmp::Ordering;
use dungeonbuilder::point::Point;

#[test]
fn test_default() {
    let point: Point = Default::default();
    assert_eq!(0, point.x());
    assert_eq!(0, point.y());
}

#[test]
fn point_test_new() {
    let x = 1;
    let y = 2;
    let point = Point::new(x, y);
    assert_eq!(x, point.x());
    assert_eq!(y, point.y());
}

#[test]
fn test_set_x() {
    let x = 1;
    let y = 2;
    let mut point = Point::new(x, y);
    point.set_x(3);
    assert_eq!(3, point.x());
}

#[test]
fn test_set_y() {
    let x = 1;
    let y = 2;
    let mut point = Point::new(x, y);
    point.set_y(3);
    assert_eq!(3, point.y());
}

#[test]
fn test_equal() {
    let x = 1;
    let y = 2;
    let point1 = Point::new(x, y);
    let point2 = Point::new(x, y);
    assert!(point1 == point2);
}

#[test]
fn test_nequal() {
    let x = 1;
    let y = 2;
    let point1 = Point::new(x, y);
    let point2 = Point::new(x, y + 1);
    assert!(point1 != point2);
}

#[test]
fn test_divide() {
    let x = 10;
    let y = 20;
    let mut point = Point::new(x, y);
    point.divide(2);
    assert_eq!(5, point.x());
    assert_eq!(10, point.y());
}

#[test]
fn test_add() {
    let x = 10;
    let y = 20;
    let mut point = Point::new(x, y);
    point.add(Point::new(-1, -3));
    assert_eq!(9, point.x());
    assert_eq!(17, point.y());
}

#[test]
fn test_divide_negative() {
    let mut point = Point::new(-7, 7);
    point.divide(2);
    assert_eq!(-3, point.x());
    assert_eq!(3, point.y());
}

#[test]
fn test_hash() {
    let point = Point::new(3, 17);
    assert_eq!(30017, point.hash());
}

#[test]
fn test_compare_x_y() {
    assert_eq!(Ordering::Equal, Point::new(1, 2).compare_x_y(&Point::new(1, 2)));
    assert_eq!(Ordering::Less, Point::new(1, 2).compare_x_y(&Point::new(1, 3)));
    assert_eq!(Ordering::Less, Point::new(1, 9).compare_x_y(&Point::new(2, 0)));
    assert_eq!(Ordering::Greater, Point::new(2, 0).compare_x_y(&Point::new(1, 9)));
}

#[test]
fn test_compare_y_x() {
    assert_eq!(Ordering::Equal, Point::new(1, 2).compare_y_x(&Point::new(1, 2)));
    assert_eq!(Ordering::Less, Point::new(5, 1).compare_y_x(&Point::new(0, 2)));
    assert_eq!(Ordering::Less, Point::new(1, 2).compare_y_x(&Point::new(3, 2)));
    assert_eq!(Ordering::Greater, Point::new(3, 2).compare_y_x(&Point::new(1, 2)));
}
