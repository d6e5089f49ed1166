use liquiditypool::math::{Math, MathError, BONE, BPOW_PRECISION, MAX_BPOW_BASE};

#[test]
fn badd_adds_and_traps_overflow() {
    let m = Math::new();
    assert_eq!(m.badd(2 * BONE, 3), Ok(2 * BONE + 3));
    assert_eq!(m.badd(u128::MAX, 1), Err(MathError::Overflow));
    assert_eq!(m.badd(u128::MAX, 0), Ok(u128::MAX));
}

#[test]
fn bsub_subtracts_and_traps_underflow() {
    let m = Math::new();
    assert_eq!(m.bsub(5, 3), Ok(2));
    assert_eq!(m.bsub(3, 5), Err(MathError::Underflow));
    assert_eq!(m.bsub_sign(3, 5), (2, true));
    assert_eq!(m.bsub_sign(5, 3), (2, false));
    assert_eq!(m.bsub_sign(4, 4), (0, false));
}

#[test]
fn btoi_and_bfloor() {
    let m = Math::new();
    assert_eq!(m.btoi(3 * BONE + 7), 3);
    assert_eq!(m.bfloor(3 * BONE + 7), 3 * BONE);
    assert_eq!(m.bfloor(BONE - 1), 0);
}

#[test]
fn bmul_rounds_to_nearest() {
    let m = Math::new();
    assert_eq!(m.bmul(3 * BONE, BONE / 2), Ok(15_000_000_000));
    assert_eq!(m.bmul(1, 1), Ok(0));
    assert_eq!(m.bmul(1, BONE / 2), Ok(1));
    assert_eq!(m.bmul(1, BONE / 2 - 1), Ok(0));
    assert_eq!(m.bmul(u128::MAX, 2), Err(MathError::Overflow));
    assert_eq!(m.bmul(u128::MAX, 1), Err(MathError::Overflow));
}

#[test]
fn bdiv_rounds_and_traps() {
    let m = Math::new();
    assert_eq!(m.bdiv(BONE, 3 * BONE), Ok(3_333_333_333));
    assert_eq!(m.bdiv(2 * BONE, 3 * BONE), Ok(6_666_666_667));
    assert_eq!(m.bdiv(BONE, 0), Err(MathError::DivideByZero));
    assert_eq!(m.bdiv(u128::MAX / BONE + 1, 1), Err(MathError::Overflow));
}

#[test]
fn div_of_mul_is_within_one_unit() {
    let m = Math::new();
    let a = 7 * BONE + 3;
    let b = 3 * BONE;
    let back = m.bdiv(m.bmul(a, b).unwrap(), b).unwrap();
    assert_eq!(back, 70_000_000_003);
    for (a, b) in [(123_456_789_u128, BONE), (987_654_321_012, 7 * BONE + 1), (1, 5 * BONE)] {
        let back = m.bdiv(m.bmul(a, b).unwrap(), b).unwrap();
        assert!(back + 1 >= a && back <= a + 1);
    }
}

#[test]
fn bpowi_squares_repeatedly() {
    let m = Math::new();
    assert_eq!(m.bpowi(2 * BONE, 3), Ok(8 * BONE));
    assert_eq!(m.bpowi(2 * BONE, 0), Ok(BONE));
    assert_eq!(m.bpowi(BONE / 2, 2), Ok(BONE / 4));
    assert_eq!(m.bpowi(BONE, 1000), Ok(BONE));
}

#[test]
fn bpow_whole_and_fractional() {
    let m = Math::new();
    assert_eq!(m.bpow(BONE / 2, 2 * BONE), Ok(2_500_000_000));
    assert_eq!(m.bpow(15 * BONE / 10, BONE / 2), Ok(12_265_625_000));
    assert_eq!(m.bpow(BONE / 2, 15 * BONE / 10), Ok(3_554_687_500));
    assert_eq!(m.bpow_approx(15 * BONE / 10, BONE / 2, BPOW_PRECISION), Ok(12_265_625_000));
}

#[test]
fn bpow_of_one_is_one() {
    let m = Math::new();
    for x in [0, 1, BONE / 3, BONE, 7 * BONE + 12345, u128::MAX] {
        assert_eq!(m.bpow(BONE, x), Ok(BONE));
    }
}

#[test]
fn bpow_outside_its_domain_fails() {
    let m = Math::new();
    assert_eq!(m.bpow(0, BONE), Err(MathError::PowDomain));
    assert_eq!(m.bpow(MAX_BPOW_BASE + 1, BONE), Err(MathError::PowDomain));
    assert!(m.bpow(MAX_BPOW_BASE, BONE).is_ok());
}
