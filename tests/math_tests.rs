use collision_core::math::{isqrt, Vector};

#[test]
fn vector_arithmetic() {
    let a = Vector::new(3, -4);
    let b = Vector::new(-1, 10);
    assert_eq!(a.add(b), Vector::new(2, 6));
    assert_eq!(a.sub(b), Vector::new(4, -14));
    assert_eq!(a.neg(), Vector::new(-3, 4));
    assert_eq!(a.scale(3), Vector::new(9, -12));
    assert_eq!(a.mul(b), Vector::new(-3, -40));
    let mut c = a;
    c.add_assign(b);
    assert_eq!(c, Vector::new(2, 6));
    assert_eq!(a.get_x(), 3);
    assert_eq!(a.get_y(), -4);
}

#[test]
fn lengths_round_down() {
    assert_eq!(Vector::new(3, -4).length(), 5);
    assert_eq!(Vector::new(1, 1).length(), 1);
    assert_eq!(Vector::new(0, 0).length(), 0);
    assert_eq!(Vector::new(i64::MIN, i64::MIN).length(), 13043817825332782212);
    assert_eq!(Vector::distance(Vector::new(4, 6), Vector::new(1, 2)), 5);
    assert_eq!(Vector::distance(Vector::new(1, 2), Vector::new(4, 6)), 5);
}

#[test]
fn integer_square_root() {
    assert_eq!(isqrt(0), 0);
    assert_eq!(isqrt(1), 1);
    assert_eq!(isqrt(15), 3);
    assert_eq!(isqrt(16), 4);
    assert_eq!(isqrt(u128::MAX), u64::MAX);
}
