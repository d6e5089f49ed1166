use liquiditypool::base::Base;
use liquiditypool::math::{MathError, BONE, MIN_FEE};

#[test]
fn out_given_in_without_fee() {
    let b = Base::new();
    let out = b.calc_out_given_in(100 * BONE, BONE, 100 * BONE, BONE, 10 * BONE, 0).unwrap();
    assert_eq!(out, 90_909_090_900);
    let before = b.calc_spot_price(100 * BONE, BONE, 100 * BONE, BONE, 0).unwrap();
    let after = b.calc_spot_price(110 * BONE, BONE, 100 * BONE - out, BONE, 0).unwrap();
    assert_eq!(before, BONE);
    assert_eq!(after, 12_100_000_000);
    assert!(after > BONE);
}

#[test]
fn spot_price_counts_the_fee() {
    let b = Base::new();
    assert_eq!(b.calc_spot_price(100 * BONE, BONE, 100 * BONE, BONE, MIN_FEE), Ok(10_000_010_000));
    assert_eq!(b.calc_spot_price(200 * BONE, BONE, 100 * BONE, BONE, 0), Ok(2 * BONE));
    assert_eq!(b.calc_spot_price(BONE, 0, BONE, BONE, 0), Err(MathError::DivideByZero));
    assert_eq!(b.calc_spot_price(BONE, BONE, BONE, BONE, 2 * BONE), Err(MathError::Underflow));
}

#[test]
fn in_given_out_value() {
    let b = Base::new();
    assert_eq!(b.calc_in_given_out(100 * BONE, BONE, 100 * BONE, BONE, 10 * BONE, MIN_FEE), Ok(111_111_222_211));
    assert_eq!(b.calc_in_given_out(100 * BONE, BONE, 100 * BONE, BONE, 100 * BONE, MIN_FEE), Err(MathError::DivideByZero));
}

#[test]
fn single_asset_formulas() {
    let b = Base::new();
    let ps = 100 * BONE;
    let tw = 2 * BONE;
    assert_eq!(b.calc_pool_out_given_single_in(100 * BONE, BONE, ps, tw, 10 * BONE, MIN_FEE), Ok(48_749_976_200));
    assert_eq!(b.calc_single_in_given_pool_out(100 * BONE, BONE, ps, tw, 10 * BONE, MIN_FEE), Ok(210_000_105_000));
    assert_eq!(b.calc_single_out_given_pool_in(100 * BONE, BONE, ps, tw, 10 * BONE, MIN_FEE), Ok(189_999_905_000));
    assert_eq!(b.calc_pool_in_given_single_out(100 * BONE, BONE, ps, tw, 10 * BONE, MIN_FEE), Ok(51_250_026_300));
}
