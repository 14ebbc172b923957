use server::registry::PlayerIds;
use server::vec2::{gap, Vec2};

#[test]
fn vectors_add_by_component() {
    let sum = Vec2 { x: 1, y: -2 } + Vec2 { x: 10, y: 20 };
    assert_eq!((sum.x, sum.y), (11, 18));
}

#[test]
fn vectors_subtract_by_component() {
    let diff = Vec2 { x: 1, y: -2 } - Vec2 { x: 10, y: 20 };
    assert_eq!((diff.x, diff.y), (-9, -22));
}

#[test]
fn vectors_of_other_numbers_add_too() {
    let sum = Vec2 { x: 1u8, y: 2u8 } + Vec2 { x: 3u8, y: 4u8 };
    assert_eq!((sum.x, sum.y), (4, 6));
}

#[test]
fn distance_squared_is_exact() {
    let a = Vec2 { x: 0, y: 0 };
    let b = Vec2 { x: 1, y: 1 };
    assert_eq!(a.distance_squared(&b), 2);
    assert_eq!(b.distance_squared(&a), 2);
    assert_eq!(Vec2 { x: -3, y: 4 }.distance_squared(&a), 25);
}

#[test]
fn distance_squared_spans_the_whole_range() {
    let low = Vec2 { x: i32::MIN, y: i32::MIN };
    let high = Vec2 { x: i32::MAX, y: i32::MAX };
    let side: u128 = 0xffff_ffff;
    assert_eq!(low.distance_squared(&high), 2 * side * side);
}

#[test]
fn mag_squared_is_the_sum_of_squares() {
    assert_eq!(Vec2 { x: 3, y: 4 }.mag_squared(), 25);
    assert_eq!(Vec2 { x: i32::MIN, y: i32::MIN }.mag_squared(), 1u128 << 63);
}

#[test]
fn gap_is_the_absolute_difference() {
    assert_eq!(gap(5, 2), 3);
    assert_eq!(gap(2, 5), 3);
    assert_eq!(gap(i32::MIN, i32::MAX), 0xffff_ffff);
}

#[test]
fn identifiers_rise_from_zero() {
    let mut ids = PlayerIds::new();
    assert_eq!(ids.allocate(), Some(0));
    assert_eq!(ids.allocate(), Some(1));
    assert_eq!(ids.allocate(), Some(2));
}

#[test]
fn identifiers_run_out_rather_than_repeat() {
    let mut ids = PlayerIds::starting_at(u64::MAX - 1);
    assert_eq!(ids.allocate(), Some(u64::MAX - 1));
    assert_eq!(ids.allocate(), None);
    assert_eq!(ids.allocate(), None);
}
