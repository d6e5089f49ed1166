use liquiditypool::account::AccountId;
use liquiditypool::math::{MathError, BONE, INIT_POOL_SUPPLY, MAX_WEIGHT, MIN_FEE, MIN_WEIGHT};
use liquiditypool::pool::{AssetTransfer, Pool, PoolError, PoolEvent, LogSwap};
use liquiditypool::probe::Test;
use liquiditypool::token::Error;

fn acct(n: u128) -> AccountId {
    AccountId::new(0, n)
}

fn ctrl() -> AccountId {
    acct(1)
}

fn user() -> AccountId {
    acct(2)
}

fn this() -> AccountId {
    acct(100)
}

fn tok(n: u128) -> AccountId {
    AccountId::new(7, n)
}

fn bind(p: &mut Pool, t: AccountId, balance: u128, weight: u128) {
    p.bind(ctrl(), t, balance, weight).unwrap();
    p.release();
}

/// Two assets of 100 units each, equal weights, finalized.
fn two_asset_pool() -> Pool {
    let mut p = Pool::new(ctrl(), this());
    bind(&mut p, tok(1), 100 * BONE, BONE);
    bind(&mut p, tok(2), 100 * BONE, BONE);
    p.finalize(ctrl()).unwrap();
    p
}

#[test]
fn new_pool_is_open() {
    let p = Pool::new(ctrl(), this());
    assert!(!p.is_finalized());
    assert!(!p.is_public_swap());
    assert_eq!(p.get_num_tokens(), 0);
    assert_eq!(p.get_swap_fee(), Ok(MIN_FEE));
    assert_eq!(p.get_controller(), Ok(ctrl()));
    assert_eq!(p.get_total_denormalized_weight(), Ok(0));
}

#[test]
fn swap_exact_amount_in_two_equal_assets() {
    let mut p = two_asset_pool();
    let before = p.get_spot_price(tok(1), tok(2)).unwrap();
    assert_eq!(before, 10_000_010_000);
    let (out, after) = p.swap_exact_amount_in(user(), tok(1), 10 * BONE, tok(2), 0, u128::MAX).unwrap();
    assert_eq!(out, 90_909_008_300);
    assert_eq!(after, 12_100_011_000);
    assert!(after > BONE);
    assert!(after >= before);
    assert!(before <= 11_000_009_996);
    let owed = p.release();
    assert_eq!(
        owed,
        vec![
            AssetTransfer { token: tok(1), from: user(), to: this(), amount: 10 * BONE },
            AssetTransfer { token: tok(2), from: this(), to: user(), amount: out },
        ]
    );
    assert_eq!(p.get_balance(tok(1)), Ok(110 * BONE));
    assert_eq!(p.get_balance(tok(2)), Ok(100 * BONE - out));
    assert_eq!(
        p.events.last(),
        Some(&PoolEvent::Swap(LogSwap {
            caller: Some(user()),
            token_in: Some(tok(1)),
            token_out: Some(tok(2)),
            token_amount_in: 10 * BONE,
            token_amount_out: out,
        }))
    );
}

#[test]
fn swap_limits() {
    let mut p = two_asset_pool();
    assert_eq!(p.swap_exact_amount_in(user(), tok(1), 51 * BONE, tok(2), 0, u128::MAX), Err(PoolError::Validation));
    assert_eq!(p.swap_exact_amount_in(user(), tok(1), 10 * BONE, tok(2), 10 * BONE, u128::MAX), Err(PoolError::Validation));
    assert_eq!(p.swap_exact_amount_in(user(), tok(1), 10 * BONE, tok(2), 0, BONE), Err(PoolError::Validation));
    assert_eq!(p.swap_exact_amount_in(user(), tok(1), 10 * BONE, tok(2), 0, 12 * BONE / 10), Err(PoolError::Validation));
    assert_eq!(p.swap_exact_amount_in(user(), tok(1), 10 * BONE, tok(3), 0, u128::MAX), Err(PoolError::State));
    assert_eq!(p.swap_exact_amount_out(user(), tok(1), u128::MAX, tok(2), 34 * BONE, u128::MAX), Err(PoolError::Validation));
    assert_eq!(p.swap_exact_amount_out(user(), tok(1), BONE, tok(2), 10 * BONE, u128::MAX), Err(PoolError::Validation));
    assert_eq!(p.get_balance(tok(1)), Ok(100 * BONE));
}

#[test]
fn swap_exact_amount_out_two_equal_assets() {
    let mut p = two_asset_pool();
    let (amount_in, after) = p.swap_exact_amount_out(user(), tok(1), u128::MAX, tok(2), 10 * BONE, u128::MAX).unwrap();
    assert_eq!(amount_in, 111_111_222_211);
    assert!(after > 10_000_010_000);
    p.release();
    assert_eq!(p.get_balance(tok(2)), Ok(90 * BONE));
    assert_eq!(p.get_balance(tok(1)), Ok(100 * BONE + amount_in));
}

#[test]
fn swaps_need_public_swap() {
    let mut p = Pool::new(ctrl(), this());
    bind(&mut p, tok(1), 100 * BONE, BONE);
    bind(&mut p, tok(2), 100 * BONE, BONE);
    assert_eq!(p.swap_exact_amount_in(user(), tok(1), BONE, tok(2), 0, u128::MAX), Err(PoolError::State));
    assert_eq!(p.set_public_swap(user(), true), Err(PoolError::Authorization));
    assert_eq!(p.set_public_swap(ctrl(), true), Ok(()));
    assert!(p.swap_exact_amount_in(user(), tok(1), BONE, tok(2), 0, u128::MAX).is_ok());
}

#[test]
fn call_in_flight_refuses_reentry() {
    let mut p = two_asset_pool();
    p.swap_exact_amount_in(user(), tok(1), BONE, tok(2), 0, u128::MAX).unwrap();
    assert_eq!(p.swap_exact_amount_in(user(), tok(1), BONE, tok(2), 0, u128::MAX), Err(PoolError::Reentry));
    assert_eq!(p.swap_exact_amount_out(user(), tok(1), u128::MAX, tok(2), BONE, u128::MAX), Err(PoolError::Reentry));
    assert_eq!(p.join_pool(user(), BONE, vec![u128::MAX, u128::MAX]), Err(PoolError::Reentry));
    assert_eq!(p.exit_pool(ctrl(), BONE, vec![0, 0]), Err(PoolError::Reentry));
    assert_eq!(p.join_swap_extern_amount_in(user(), tok(1), BONE, 0), Err(PoolError::Reentry));
    assert_eq!(p.exit_swap_pool_amount_in(ctrl(), tok(1), BONE, 0), Err(PoolError::Reentry));
    assert_eq!(p.set_controller(ctrl(), user()), Err(PoolError::Reentry));
    assert_eq!(p.gulp(tok(1), BONE), Err(PoolError::Reentry));
    assert_eq!(p.get_balance(tok(1)), Err(PoolError::Reentry));
    assert_eq!(p.get_spot_price(tok(1), tok(2)), Err(PoolError::Reentry));
    assert_eq!(p.balance_of(ctrl()), Err(PoolError::Reentry));
    assert_eq!(p.transfer(ctrl(), user(), 1), Err(PoolError::Reentry));
    p.release();
    assert!(p.get_balance(tok(1)).is_ok());
    assert!(p.swap_exact_amount_in(user(), tok(1), BONE, tok(2), 0, u128::MAX).is_ok());
}

#[test]
fn bind_below_min_weight_fails() {
    let mut p = Pool::new(ctrl(), this());
    assert_eq!(p.bind(ctrl(), tok(1), 100 * BONE, MIN_WEIGHT - 1), Err(PoolError::Validation));
    assert_eq!(p.bind(ctrl(), tok(1), 100 * BONE, MAX_WEIGHT + 1), Err(PoolError::Validation));
    assert_eq!(p.bind(ctrl(), tok(1), 9_999, BONE), Err(PoolError::Validation));
    assert_eq!(p.bind(user(), tok(1), 100 * BONE, BONE), Err(PoolError::Authorization));
    assert_eq!(p.get_num_tokens(), 0);
    assert!(!p.is_bound(tok(1)));
}

#[test]
fn bind_limits() {
    let mut p = Pool::new(ctrl(), this());
    bind(&mut p, tok(1), 100 * BONE, 30 * BONE);
    assert_eq!(p.bind(ctrl(), tok(1), 100 * BONE, BONE), Err(PoolError::State));
    assert_eq!(p.bind(ctrl(), tok(2), 100 * BONE, 21 * BONE), Err(PoolError::Validation));
    bind(&mut p, tok(2), 100 * BONE, 20 * BONE);
    assert_eq!(p.get_total_denormalized_weight(), Ok(50 * BONE));
    assert_eq!(p.get_normalized_weight(tok(1)), Ok(6_000_000_000));
}

#[test]
fn at_most_eight_assets() {
    let mut p = Pool::new(ctrl(), this());
    for i in 0..8 {
        bind(&mut p, tok(i), 100 * BONE, BONE);
    }
    assert_eq!(p.bind(ctrl(), tok(8), 100 * BONE, BONE), Err(PoolError::State));
}

#[test]
fn finalize_needs_two_assets_and_happens_once() {
    let mut p = Pool::new(ctrl(), this());
    bind(&mut p, tok(1), 100 * BONE, BONE);
    assert_eq!(p.finalize(ctrl()), Err(PoolError::State));
    assert!(!p.is_finalized());
    bind(&mut p, tok(2), 100 * BONE, BONE);
    assert_eq!(p.finalize(user()), Err(PoolError::Authorization));
    assert_eq!(p.finalize(ctrl()), Ok(()));
    assert!(p.is_finalized());
    assert!(p.is_public_swap());
    assert_eq!(p.balance_of(ctrl()), Ok(INIT_POOL_SUPPLY));
    assert_eq!(p.finalize(ctrl()), Err(PoolError::State));
    assert_eq!(p.bind(ctrl(), tok(3), 100 * BONE, BONE), Err(PoolError::State));
    assert_eq!(p.rebind(ctrl(), tok(1), 100 * BONE, 2 * BONE), Err(PoolError::State));
    assert_eq!(p.unbind(ctrl(), tok(1)), Err(PoolError::State));
    assert_eq!(p.set_swap_fee(ctrl(), MIN_FEE), Err(PoolError::State));
    assert_eq!(p.get_final_tokens(), Ok(vec![tok(1), tok(2)]));
}

#[test]
fn bind_rebind_unbind_restores_total_weight() {
    let mut p = Pool::new(ctrl(), this());
    bind(&mut p, tok(1), 100 * BONE, 3 * BONE);
    let before = p.get_total_denormalized_weight().unwrap();
    p.bind(ctrl(), tok(2), 50 * BONE, 2 * BONE).unwrap();
    assert_eq!(p.release(), vec![AssetTransfer { token: tok(2), from: ctrl(), to: this(), amount: 50 * BONE }]);
    assert_eq!(p.get_total_denormalized_weight(), Ok(before + 2 * BONE));
    p.rebind(ctrl(), tok(2), 20 * BONE, 7 * BONE).unwrap();
    assert_eq!(
        p.release(),
        vec![
            AssetTransfer { token: tok(2), from: this(), to: ctrl(), amount: 30 * BONE },
            AssetTransfer { token: tok(2), from: this(), to: ctrl(), amount: 0 },
        ]
    );
    assert_eq!(p.get_total_denormalized_weight(), Ok(before + 7 * BONE));
    assert_eq!(p.get_denormalized_weight(tok(2)), Ok(7 * BONE));
    p.unbind(ctrl(), tok(2)).unwrap();
    assert_eq!(
        p.release(),
        vec![
            AssetTransfer { token: tok(2), from: this(), to: ctrl(), amount: 20 * BONE },
            AssetTransfer { token: tok(2), from: this(), to: ctrl(), amount: 0 },
        ]
    );
    assert_eq!(p.get_total_denormalized_weight(), Ok(before));
    assert!(!p.is_bound(tok(2)));
    assert_eq!(p.get_denormalized_weight(tok(2)), Err(PoolError::State));
}

#[test]
fn unbind_moves_the_last_asset_into_the_gap() {
    let mut p = Pool::new(ctrl(), this());
    bind(&mut p, tok(1), 100 * BONE, BONE);
    bind(&mut p, tok(2), 100 * BONE, BONE);
    bind(&mut p, tok(3), 100 * BONE, BONE);
    p.unbind(ctrl(), tok(1)).unwrap();
    p.release();
    assert_eq!(p.get_current_tokens(), Ok(vec![tok(3), tok(2)]));
    assert_eq!(p.get_record(tok(3)).index, 0);
    assert_eq!(p.get_record(tok(2)).index, 1);
    assert!(!p.get_record(tok(1)).bound);
}

#[test]
fn rebind_raising_the_balance_pulls_the_difference() {
    let mut p = Pool::new(ctrl(), this());
    bind(&mut p, tok(1), 100 * BONE, BONE);
    p.rebind(ctrl(), tok(1), 150 * BONE, BONE).unwrap();
    assert_eq!(p.release(), vec![AssetTransfer { token: tok(1), from: ctrl(), to: this(), amount: 50 * BONE }]);
    assert_eq!(p.rebind(ctrl(), tok(2), 150 * BONE, BONE), Err(PoolError::State));
    assert_eq!(p.rebind(ctrl(), tok(1), 150 * BONE, 51 * BONE), Err(PoolError::Validation));
}

#[test]
fn join_then_exit_returns_no_more_than_the_caps() {
    let mut p = Pool::new(ctrl(), this());
    bind(&mut p, tok(1), 12_345_678_901, BONE);
    bind(&mut p, tok(2), 98_765_432_109, BONE);
    p.finalize(ctrl()).unwrap();
    let caps = vec![123_456_789, 987_654_321];
    p.join_pool(user(), BONE, caps.clone()).unwrap();
    let paid = p.release();
    assert_eq!(paid.iter().map(|t| t.amount).collect::<Vec<_>>(), caps);
    assert_eq!(p.balance_of(user()), Ok(BONE));
    p.exit_pool(user(), BONE, vec![0, 0]).unwrap();
    let got = p.release();
    assert_eq!(got.iter().map(|t| t.amount).collect::<Vec<_>>(), caps);
    assert_eq!(got[0], AssetTransfer { token: tok(1), from: this(), to: user(), amount: 123_456_789 });
    assert_eq!(p.balance_of(user()), Ok(0));
    assert_eq!(p.token.total_supply(), INIT_POOL_SUPPLY);
}

#[test]
fn join_and_exit_errors() {
    let mut p = two_asset_pool();
    assert_eq!(p.join_pool(user(), 1, vec![u128::MAX, u128::MAX]), Err(PoolError::MathApproximation));
    assert_eq!(p.join_pool(user(), BONE, vec![u128::MAX]), Err(PoolError::Validation));
    assert_eq!(p.join_pool(user(), BONE, vec![u128::MAX, BONE - 1]), Err(PoolError::Validation));
    assert_eq!(p.exit_pool(user(), BONE, vec![0, 0]), Err(PoolError::Ledger(Error::InsufficientBalance)));
    assert_eq!(p.exit_pool(ctrl(), BONE, vec![0, BONE + 1]), Err(PoolError::Validation));
    let mut open = Pool::new(ctrl(), this());
    assert_eq!(open.join_pool(user(), BONE, vec![]), Err(PoolError::State));
    assert_eq!(open.join_swap_extern_amount_in(user(), tok(1), BONE, 0), Err(PoolError::State));
}

#[test]
fn join_swap_extern_amount_in_value() {
    let mut p = two_asset_pool();
    assert_eq!(p.join_swap_extern_amount_in(user(), tok(1), 10 * BONE, 0), Ok(48_749_976_200));
    p.release();
    assert_eq!(p.balance_of(user()), Ok(48_749_976_200));
    assert_eq!(p.get_balance(tok(1)), Ok(110 * BONE));
    assert_eq!(p.join_swap_extern_amount_in(user(), tok(1), 56 * BONE, 0), Err(PoolError::Validation));
}

#[test]
fn join_swap_pool_amount_out_value() {
    let mut p = two_asset_pool();
    assert_eq!(p.join_swap_pool_amount_out(user(), tok(1), 10 * BONE, u128::MAX), Ok(210_000_105_000));
    p.release();
    assert_eq!(p.balance_of(user()), Ok(10 * BONE));
    assert_eq!(p.join_swap_pool_amount_out(user(), tok(1), 10 * BONE, BONE), Err(PoolError::Validation));
}

#[test]
fn exit_swap_pool_amount_in_value() {
    let mut p = two_asset_pool();
    assert_eq!(p.exit_swap_pool_amount_in(ctrl(), tok(1), 10 * BONE, 0), Ok(189_999_905_000));
    let owed = p.release();
    assert_eq!(owed, vec![AssetTransfer { token: tok(1), from: this(), to: ctrl(), amount: 189_999_905_000 }]);
    assert_eq!(p.balance_of(ctrl()), Ok(90 * BONE));
    assert_eq!(p.token.total_supply(), 90 * BONE);
    assert_eq!(p.exit_swap_pool_amount_in(user(), tok(1), BONE, 0), Err(PoolError::Ledger(Error::InsufficientBalance)));
}

#[test]
fn exit_swap_extern_amount_out_value() {
    let mut p = two_asset_pool();
    assert_eq!(p.exit_swap_extern_amount_out(ctrl(), tok(1), 10 * BONE, u128::MAX), Ok(51_250_026_300));
    p.release();
    assert_eq!(p.balance_of(ctrl()), Ok(100 * BONE - 51_250_026_300));
    assert_eq!(p.get_balance(tok(1)), Ok(90 * BONE));
    assert_eq!(p.exit_swap_extern_amount_out(ctrl(), tok(1), 34 * BONE, u128::MAX), Err(PoolError::Validation));
}

#[test]
fn setters() {
    let mut p = Pool::new(ctrl(), this());
    assert_eq!(p.set_swap_fee(ctrl(), MIN_FEE - 1), Err(PoolError::Validation));
    assert_eq!(p.set_swap_fee(ctrl(), BONE / 10 + 1), Err(PoolError::Validation));
    assert_eq!(p.set_swap_fee(user(), MIN_FEE), Err(PoolError::Authorization));
    assert_eq!(p.set_swap_fee(ctrl(), BONE / 100), Ok(()));
    assert_eq!(p.get_swap_fee(), Ok(BONE / 100));
    assert_eq!(p.set_controller(user(), user()), Err(PoolError::Authorization));
    assert_eq!(p.set_controller(ctrl(), user()), Ok(()));
    assert_eq!(p.get_controller(), Ok(user()));
}

#[test]
fn gulp_takes_the_held_balance() {
    let mut p = two_asset_pool();
    assert_eq!(p.gulp(tok(1), 123 * BONE), Ok(()));
    assert_eq!(p.get_balance(tok(1)), Ok(123 * BONE));
    assert_eq!(p.gulp(tok(9), BONE), Err(PoolError::State));
}

#[test]
fn spot_price_without_fee_and_errors() {
    let p = two_asset_pool();
    assert_eq!(p.get_spot_price_sans_fee(tok(1), tok(2)), Ok(BONE));
    assert_eq!(p.get_spot_price(tok(1), tok(9)), Err(PoolError::State));
    assert_eq!(p.get_normalized_weight(tok(1)), Ok(BONE / 2));
}

#[test]
fn share_transfer_moves_the_callers_shares() {
    let mut p = two_asset_pool();
    assert_eq!(p.transfer(ctrl(), user(), 5 * BONE), Ok(()));
    assert_eq!(p.balance_of(user()), Ok(5 * BONE));
    assert_eq!(p.transfer(user(), ctrl(), 6 * BONE), Err(PoolError::Ledger(Error::InsufficientBalance)));
}

#[test]
fn arithmetic_errors_surface() {
    let mut p = Pool::new(ctrl(), this());
    bind(&mut p, tok(1), u128::MAX / 2, BONE);
    bind(&mut p, tok(2), 100 * BONE, BONE);
    p.finalize(ctrl()).unwrap();
    assert_eq!(
        p.swap_exact_amount_in(user(), tok(1), BONE, tok(2), 0, u128::MAX),
        Err(PoolError::Arithmetic(MathError::Overflow))
    );
}

#[test]
fn probe_defaults_to_false() {
    assert!(!Test::default().value);
    assert!(Test::new(true).value);
}

#[test]
fn join_then_exit_stays_within_the_rounding_margin() {
    let mut p = two_asset_pool();
    let caps = vec![BONE, BONE];
    p.join_pool(user(), BONE, caps.clone()).unwrap();
    let paid: Vec<u128> = p.release().iter().map(|t| t.amount).collect();
    assert_eq!(paid, caps);
    p.exit_pool(user(), BONE, vec![0, 0]).unwrap();
    let got: Vec<u128> = p.release().iter().map(|t| t.amount).collect();
    // rounding pays out one unit more than was paid in here
    assert_eq!(got, vec![BONE + 1, BONE + 1]);
    for i in 0..2 {
        assert!(2 * BONE * got[i] < 2 * BONE * (paid[i] + 1) + 2 * 100 * BONE + paid[i]);
    }
}
