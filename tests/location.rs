use grid::Location;
use std::cmp::Ordering;

#[test]
fn distance_is_manhattan() {
    assert_eq!(Location(1, 2).distance(&Location(4, 6)), 7);
    assert_eq!(Location(-3, 5).distance(&Location(2, -1)), 11);
}

#[test]
fn distance_is_symmetric_and_zero_on_self() {
    let a = Location(-7, 3);
    let b = Location(12, -40);
    assert_eq!(a.distance(&b), b.distance(&a));
    assert_eq!(a.distance(&a), 0);
    assert_ne!(a.distance(&b), 0);
}

#[test]
fn distance_far_apart_does_not_overflow() {
    let a = Location(isize::MIN, 0);
    let b = Location(isize::MIN + 1_000_000, 5);
    assert_eq!(a.distance(&b), 1_000_005);
}

#[test]
fn order_is_row_major() {
    assert!(Location(5, 0) < Location(0, 1));
    assert!(Location(0, 1) < Location(1, 1));
    assert!(Location(2, 3) > Location(9, 2));
    assert_eq!(Location(2, 3).cmp(&Location(2, 3)), Ordering::Equal);
    assert_eq!(Location(2, 3).partial_cmp(&Location(3, 3)), Some(Ordering::Less));
    assert_eq!(Location(0, 4).cmp(&Location(7, 3)), Ordering::Greater);
}

#[test]
fn sorting_gives_reading_order() {
    let mut v = vec![Location(1, 1), Location(0, 1), Location(2, 0), Location(0, 0)];
    v.sort_by(|a, b| a.cmp(b));
    assert_eq!(v, vec![Location(0, 0), Location(2, 0), Location(0, 1), Location(1, 1)]);
}

#[test]
fn text_form() {
    assert_eq!(Location(3, 5).to_string(), "(3,5)");
    assert_eq!(Location(-2, 10).to_string(), "(-2,10)");
    assert_eq!(Location(0, 0).to_string(), "(0,0)");
}
