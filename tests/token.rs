use liquiditypool::account::AccountId;
use liquiditypool::token::{Error, Token, TokenEvent, Transfer};

fn acct(n: u128) -> AccountId {
    AccountId::new(0, n)
}

#[test]
fn default_works() {
    let t = Token::new();
    assert_eq!(t.name(), Some("Conversation Pool Token".to_string()));
    assert_eq!(t.symbol(), Some("CPT".to_string()));
    assert_eq!(t.decimals(), Some(10));
    assert_eq!(t.total_supply(), 0);
    assert_eq!(t.balance_of(acct(1)), 0);
}

#[test]
fn lib_it_works() {
    let mut t = Token::new();
    assert_eq!(t.mint(acct(1), 100), Ok(()));
    assert_eq!(t.transfer(acct(1), acct(2), 30), Ok(()));
    assert_eq!(t.balance_of(acct(1)), 70);
    assert_eq!(t.balance_of(acct(2)), 30);
    assert_eq!(t.total_supply(), 100);
    assert_eq!(
        t.events.last(),
        Some(&TokenEvent::Transfer(Transfer { from: Some(acct(1)), to: Some(acct(2)), value: 30 }))
    );
}

#[test]
fn burn_and_move_need_a_balance() {
    let mut t = Token::new();
    t.mint(acct(1), 10).unwrap();
    assert_eq!(t.burn(acct(1), 11), Err(Error::InsufficientBalance));
    assert_eq!(t.trans(acct(2), acct(1), 1), Err(Error::InsufficientBalance));
    assert_eq!(t.burn(acct(1), 4), Ok(()));
    assert_eq!(t.total_supply(), 6);
    assert_eq!(t.push(acct(1), acct(3), 6), Ok(()));
    assert_eq!(t.pull(acct(1), acct(3), 2), Ok(()));
    assert_eq!(t.balance_of(acct(1)), 2);
    assert_eq!(t.balance_of(acct(3)), 4);
}

#[test]
fn mint_traps_overflow() {
    let mut t = Token::new();
    t.mint(acct(1), u128::MAX).unwrap();
    assert_eq!(t.mint(acct(2), 1), Err(Error::Overflow));
    assert_eq!(t.balance_of(acct(2)), 0);
}

#[test]
fn allowances() {
    let mut t = Token::new();
    t.mint(acct(1), 100).unwrap();
    assert_eq!(t.transfer_from(acct(2), acct(1), acct(3), 10), Err(Error::InsufficientAllowance));
    t.approve(acct(1), acct(2), 10);
    assert_eq!(t.allowance(acct(1), acct(2)), 10);
    // the allowance must exceed the amount moved
    assert_eq!(t.transfer_from(acct(2), acct(1), acct(3), 10), Err(Error::InsufficientAllowance));
    assert_eq!(t.transfer_from(acct(2), acct(1), acct(3), 4), Ok(()));
    assert_eq!(t.allowance(acct(1), acct(2)), 6);
    assert_eq!(t.balance_of(acct(3)), 4);
    assert_eq!(t.increase_approval(acct(1), acct(2), 5), Ok(()));
    assert_eq!(t.allowance(acct(1), acct(2)), 11);
    t.decrease_approval(acct(1), acct(2), 20);
    assert_eq!(t.allowance(acct(1), acct(2)), 0);
    t.approve(acct(1), acct(2), u128::MAX);
    assert_eq!(t.increase_approval(acct(1), acct(2), 1), Err(Error::Overflow));
    assert_eq!(t.transfer_from(acct(2), acct(1), acct(3), 5), Ok(()));
    assert_eq!(t.allowance(acct(1), acct(2)), u128::MAX);
    // an owner needs no allowance
    assert_eq!(t.transfer_from(acct(1), acct(1), acct(3), 1), Ok(()));
}
