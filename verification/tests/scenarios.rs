use modinverse::{egcd, mod_floor, modinverse};

#[test]
fn egcd_of_26_and_3() {
    let a: i64 = 26;
    let b: i64 = 3;
    let (g, x, y) = egcd(a, b);
    assert_eq!(g, 1);
    assert_eq!(x, -1);
    assert_eq!(y, 9);
    assert_eq!((a * x) + (b * y), g);
}

#[test]
fn egcd_with_first_operand_zero() {
    assert_eq!(egcd(0, 5), (5, 0, 1));
    assert_eq!(egcd(0, -7), (-7, 0, 1));
    assert_eq!(egcd(0, 0), (0, 0, 1));
    assert_eq!(egcd(0, i64::MIN), (i64::MIN, 0, 1));
    assert_eq!(egcd(0, i64::MAX), (i64::MAX, 0, 1));
}

#[test]
fn egcd_where_first_divides_second() {
    assert_eq!(egcd(5, 0), (5, 1, 0));
    assert_eq!(egcd(4, 32), (4, 1, 0));
    assert_eq!(egcd(-3, 12), (-3, 1, 0));
    assert_eq!(egcd(7, 7), (7, 1, 0));
    assert_eq!(egcd(1, i64::MIN), (1, 1, 0));
}

#[test]
fn egcd_exact_triples() {
    assert_eq!(egcd(3, 26), (1, 9, -1));
    assert_eq!(egcd(3, -26), (1, 9, 1));
    assert_eq!(egcd(240, 46), (2, -9, 47));
    assert_eq!(egcd(46, 240), (2, 47, -9));
    assert_eq!(egcd(12, 18), (6, -1, 1));
    assert_eq!(egcd(-1, 5), (-1, 1, 0));
}

#[test]
fn egcd_is_unordered() {
    let (g, x, y) = egcd(1000, 7);
    assert_eq!(g, 1);
    assert_eq!(1000 * x + 7 * y, 1);
    let (g, x, y) = egcd(7, 1000);
    assert_eq!(g, 1);
    assert_eq!(7 * x + 1000 * y, 1);
}

#[test]
fn egcd_at_the_ends_of_the_range() {
    assert_eq!(egcd(-1, i64::MIN), (-1, 1, 0));
    assert_eq!(egcd(i64::MIN, -1), (-1, 0, 1));
    assert_eq!(egcd(i64::MIN, i64::MIN), (i64::MIN, 1, 0));
    let (g, x, y) = egcd(i64::MAX, i64::MIN);
    assert_eq!(g.abs(), 1);
    assert_eq!(
        (i64::MAX as i128) * (x as i128) + (i64::MIN as i128) * (y as i128),
        g as i128
    );
    let (g, x, y) = egcd(i64::MIN, i64::MAX);
    assert_eq!(g.abs(), 1);
    assert_eq!(
        (i64::MIN as i128) * (x as i128) + (i64::MAX as i128) * (y as i128),
        g as i128
    );
}

#[test]
fn mod_floor_follows_the_sign_of_the_modulus() {
    assert_eq!(mod_floor(5, 3), 2);
    assert_eq!(mod_floor(-5, 3), 1);
    assert_eq!(mod_floor(5, -3), -1);
    assert_eq!(mod_floor(-5, -3), -2);
}

#[test]
fn mod_floor_of_multiples_is_zero() {
    assert_eq!(mod_floor(0, 3), 0);
    assert_eq!(mod_floor(6, 3), 0);
    assert_eq!(mod_floor(-6, 3), 0);
    assert_eq!(mod_floor(6, -3), 0);
    assert_eq!(mod_floor(-6, -3), 0);
    assert_eq!(mod_floor(17, 1), 0);
    assert_eq!(mod_floor(17, -1), 0);
}

#[test]
fn mod_floor_at_the_ends_of_the_range() {
    assert_eq!(mod_floor(i64::MIN, -1), 0);
    assert_eq!(mod_floor(i64::MIN, 1), 0);
    assert_eq!(mod_floor(i64::MAX - 1, i64::MAX), i64::MAX - 1);
    assert_eq!(mod_floor(-1, i64::MAX), i64::MAX - 1);
    assert_eq!(mod_floor(1, i64::MIN), i64::MIN + 1);
    assert_eq!(mod_floor(i64::MIN, i64::MAX), i64::MAX - 1);
    assert_eq!(mod_floor(i64::MAX, i64::MIN), -1);
    assert_eq!(mod_floor(i64::MIN, i64::MIN), 0);
}

#[test]
fn modinverse_of_3_modulo_26() {
    let does_exist = modinverse(3, 26);
    match does_exist {
        Some(x) => assert_eq!(x, 9),
        None => panic!("modinverse() didn't work as expected"),
    }
    assert_eq!(mod_floor(3 * 9, 26), 1);
}

#[test]
fn modinverse_of_4_modulo_32() {
    let does_not_exist = modinverse(4, 32);
    match does_not_exist {
        Some(_) => panic!("modinverse() found an inverse when it shouldn't have"),
        None => {}
    }
    assert_eq!(egcd(4, 32).0, 4);
}

#[test]
fn modinverse_modulo_one() {
    assert_eq!(modinverse(1, 1), Some(0));
    assert_eq!(modinverse(0, 1), Some(0));
    assert_eq!(modinverse(2, 1), Some(0));
    assert_eq!(modinverse(-2, 1), Some(0));
    assert_eq!(modinverse(i64::MAX, 1), Some(0));
    assert_eq!(modinverse(i64::MIN, 1), Some(0));
    assert_eq!(modinverse(-1, 1), None);
}

#[test]
fn modinverse_of_zero() {
    assert_eq!(modinverse(0, 26), None);
    assert_eq!(modinverse(0, -26), None);
    assert_eq!(modinverse(0, 0), None);
    assert_eq!(modinverse(0, -1), None);
}

#[test]
fn modinverse_modulo_zero() {
    assert_eq!(modinverse(5, 0), None);
    assert_eq!(modinverse(-1, 0), None);
    assert_eq!(modinverse(i64::MIN, 0), None);
}

#[test]
fn modinverse_with_negative_operands() {
    // The divisor comes out as 1: the inverse lies among the residues of the modulus.
    assert_eq!(modinverse(3, -26), Some(-17));
    assert_eq!(mod_floor(3 * -17, -26), mod_floor(1, -26));
    assert_eq!(egcd(-5, 26), (1, 5, 1));
    assert_eq!(modinverse(-5, 26), Some(5));
    assert_eq!(mod_floor(-5 * 5, 26), 1);
    // The divisor comes out as -1: nothing is returned although an inverse exists.
    assert_eq!(egcd(-1, 5), (-1, 1, 0));
    assert_eq!(modinverse(-1, 5), None);
    assert_eq!(egcd(-3, 26), (-1, 9, 1));
    assert_eq!(modinverse(-3, 26), None);
}

#[test]
fn modinverse_is_never_a_sentinel() {
    assert_eq!(modinverse(1, 5), Some(1));
    assert_eq!(modinverse(4, 5), Some(4));
    assert_eq!(modinverse(6, 5), Some(1));
    assert_eq!(modinverse(10, 5), None);
}

#[test]
fn modinverse_with_a_large_modulus() {
    let m = i64::MAX;
    let x = modinverse(5, m).expect("5 and 2^63 - 1 are coprime");
    assert!(0 <= x && x < m);
    assert_eq!((5i128 * x as i128).rem_euclid(m as i128), 1);
    assert_eq!(x, 3689348814741910323);
}
