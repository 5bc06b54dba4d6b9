use calgrid::position::Position;

#[test]
fn moves_inside_bounds_are_accepted() {
    let bounds = Position::new(80, 24);
    let mut p = Position::new_origin();
    assert!(p.set(80, 24, &bounds));
    assert_eq!(p.get_x(), 80);
    assert_eq!(p.get_y(), 24);
    assert!(p.set_x(1, &bounds));
    assert_eq!(p.get_x(), 1);
}

#[test]
fn moves_outside_bounds_stay_put() {
    let bounds = Position::new(80, 24);
    let mut p = Position::new(5, 6);
    assert!(!p.set(81, 1, &bounds));
    assert!(!p.set(1, 25, &bounds));
    assert!(!p.set(0, 1, &bounds));
    assert!(!p.set_y(0, &bounds));
    assert_eq!(p.get_x(), 5);
    assert_eq!(p.get_y(), 6);
}

#[test]
fn a_position_already_outside_cannot_move() {
    let bounds = Position::new(80, 24);
    let mut p = Position::new(100, 5);
    assert!(!p.set(10, 5, &bounds));
    assert_eq!(p.get_x(), 100);
}

#[test]
fn boundary_test_is_per_axis() {
    let bounds = Position::new(80, 24);
    assert!(Position::new(80, 24).is_in_boundary(&bounds));
    assert!(Position::new(1, 1).is_in_boundary(&bounds));
    assert!(!Position::new(0, 1).is_in_boundary(&bounds));
    assert!(!Position::new(1, 0).is_in_boundary(&bounds));
    assert!(!Position::new(81, 1).is_in_boundary(&bounds));
    assert!(!Position::new(3, 25).is_in_boundary(&bounds));
}

#[test]
fn ordering_is_lexicographic() {
    assert!(Position::new(1, 9) < Position::new(2, 1));
    assert!(Position::new(2, 1) < Position::new(2, 3));
    assert!(Position::new(2, 3) <= Position::new(2, 3));
    assert!(Position::new(2, 3) == Position::new(2, 3));
    assert!(Position::new(3, 1) > Position::new(2, 9));
    assert!(Position::new(1, 1) != Position::new(1, 2));
}

#[test]
fn center_of_the_terminal() {
    let bounds = Position::new(81, 25);
    let c = Position::new_center(&bounds);
    assert_eq!(c.get_x(), 40);
    assert_eq!(c.get_y(), 12);
}
