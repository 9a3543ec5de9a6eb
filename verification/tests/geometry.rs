use pop_tiler::{preferred_orientation, Direction, Orientation, Point, Rect};

#[test]
fn rect_new_keeps_its_fields() {
    let r = Rect::new(1, 2, 30, 40);
    assert_eq!((r.x, r.y, r.width, r.height), (1, 2, 30, 40));
}

#[test]
fn area_is_width_times_height() {
    assert_eq!(Rect::new(1, 1, 2560, 1440).area(), 3_686_400);
    assert_eq!(Rect::new(0, 0, 0, 7).area(), 0);
    assert_eq!(Rect::new(0, 0, u32::MAX, u32::MAX).area(), 18_446_744_065_119_617_025);
}

#[test]
fn midpoints_of_the_edges() {
    let r = Rect::new(10, 20, 100, 50);
    assert_eq!(r.north(), Point { x: 60, y: 20 });
    assert_eq!(r.south(), Point { x: 60, y: 70 });
    assert_eq!(r.east(), Point { x: 110, y: 45 });
    assert_eq!(r.west(), Point { x: 10, y: 45 });
    assert_eq!(r.x_center(), 60);
    assert_eq!(r.x_end(), 110);
    assert_eq!(r.y_center(), 45);
    assert_eq!(r.y_end(), 70);
}

#[test]
fn filters_compare_origins() {
    let a = Rect::new(10, 10, 5, 5);
    let below = Rect::new(10, 11, 5, 5);
    let right = Rect::new(11, 10, 5, 5);
    assert!(a.is_below(&below));
    assert!(!a.is_below(&a));
    assert!(below.is_above(&a));
    assert!(!a.is_above(&a));
    assert!(a.is_right(&right));
    assert!(!a.is_right(&a));
    assert!(right.is_left(&a));
    assert!(!a.is_left(&a));
}

#[test]
fn faces_is_strict() {
    let a = Rect::new(10, 10, 5, 5);
    let same_row = Rect::new(30, 10, 5, 5);
    assert!(a.faces(&same_row, Direction::Right));
    assert!(!a.faces(&same_row, Direction::Left));
    assert!(!a.faces(&same_row, Direction::Above));
    assert!(!a.faces(&same_row, Direction::Below));
    assert!(same_row.faces(&a, Direction::Left));
}

#[test]
fn point_distance_is_squared() {
    let a = Point { x: 1, y: 1 };
    let b = Point { x: 4, y: 5 };
    assert_eq!(a.distance_squared(b), 25);
    assert_eq!(b.distance_squared(a), 25);
    assert_eq!(a.distance_squared(a), 0);
    let far = Point { x: u32::MAX, y: u32::MAX };
    let origin = Point { x: 0, y: 0 };
    assert_eq!(origin.distance_squared(far), 2 * (u32::MAX as u128) * (u32::MAX as u128));
}

#[test]
fn directional_distances_use_facing_edges() {
    let a = Rect::new(0, 0, 10, 10);
    let right = Rect::new(13, 4, 10, 10);
    // east of a is (10, 5); west of right is (13, 9)
    assert_eq!(a.distance_eastward(&right), 9 + 16);
    // west of right is (13, 9); east of a is (10, 5)
    assert_eq!(right.distance_westward(&a), 9 + 16);
    let below = Rect::new(2, 14, 10, 10);
    // south of a is (5, 10); north of below is (7, 14)
    assert_eq!(a.distance_downward(&below), 4 + 16);
    assert_eq!(below.distance_upward(&a), 4 + 16);
    assert_eq!(a.distance_toward(&below, Direction::Below), 20);
}

#[test]
fn distances_do_not_overflow() {
    let a = Rect::new(u32::MAX, u32::MAX, u32::MAX, u32::MAX);
    let b = Rect::new(0, 0, 0, 0);
    let dx = (u32::MAX as u128) + (u32::MAX as u128);
    let dy = (u32::MAX as u128) + (u32::MAX as u128 / 2);
    assert_eq!(a.distance_toward(&b, Direction::Right), dx * dx + dy * dy);
}

#[test]
fn validity_of_rects() {
    assert!(Rect::new(1, 1, 2560, 1440).is_valid());
    assert!(Rect::new(0, 0, u32::MAX, u32::MAX).is_valid());
    assert!(!Rect::new(1, 0, u32::MAX, 1).is_valid());
    assert!(!Rect::new(0, 2, 1, u32::MAX - 1).is_valid());
}

#[test]
fn taller_rects_prefer_vertical() {
    assert_eq!(preferred_orientation(Rect::new(1, 1, 10, 11)), Orientation::Vertical);
    assert_eq!(preferred_orientation(Rect::new(1, 1, 10, 10)), Orientation::Horizontal);
    assert_eq!(preferred_orientation(Rect::new(1, 1, 11, 10)), Orientation::Horizontal);
}

#[test]
fn orientation_flips_and_picks_its_axis() {
    let r = Rect::new(1, 1, 30, 40);
    assert_eq!(Orientation::Horizontal.flip(), Orientation::Vertical);
    assert_eq!(Orientation::Vertical.flip(), Orientation::Horizontal);
    assert_eq!(Orientation::Horizontal.axis_of(&r), 30);
    assert_eq!(Orientation::Vertical.axis_of(&r), 40);
}
