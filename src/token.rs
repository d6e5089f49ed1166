//! The pool-share ledger: balances, allowances and the total supply of the
//! shares of one pool. The supply is always the sum of the balances.
use vstd::prelude::*;
use crate::account::{index_of, lemma_index_of, AccountId, AccountPair, LinearMap};

verus! {

/// Why a ledger operation failed.
#[derive(Debug, Clone, Copy, PartialEq, Eq, Structural)]
pub enum Error {
    /// The account holds fewer shares than the operation moves.
    InsufficientBalance,
    /// The caller may not move that many shares on the owner's behalf.
    InsufficientAllowance,
    /// The supply or an allowance would not fit.
    Overflow,
}

/// Shares moved from one account to another; `None` stands for minting or
/// burning.
#[derive(Debug, Clone, Copy, PartialEq, Eq, Structural)]
pub struct Transfer {
    pub from: Option<AccountId>,
    pub to: Option<AccountId>,
    pub value: u128,
}

/// An allowance was set.
#[derive(Debug, Clone, Copy, PartialEq, Eq, Structural)]
pub struct Approval {
    pub owner: AccountId,
    pub spender: AccountId,
    pub value: u128,
}

/// What the ledger reports of each change.
#[derive(Debug, Clone, Copy, PartialEq, Eq, Structural)]
pub enum TokenEvent {
    Transfer(Transfer),
    Approval(Approval),
}

/// The sum of a sequence of balances.
pub open spec fn sum_of(s: Seq<u128>) -> int
    decreases s.len(),
{
    if s.len() == 0 {
        0
    } else {
        sum_of(s.drop_last()) + s.last()
    }
}

proof fn lemma_sum_update(s: Seq<u128>, i: int, v: u128)
    requires
        0 <= i < s.len(),
    ensures
        sum_of(s.update(i, v)) == sum_of(s) - s[i] + v,
    decreases s.len(),
{
    if i == s.len() - 1 {
        assert(s.update(i, v).drop_last() =~= s.drop_last());
    } else {
        assert(s.update(i, v).drop_last() =~= s.drop_last().update(i, v));
        lemma_sum_update(s.drop_last(), i, v);
    }
}

proof fn lemma_sum_push(s: Seq<u128>, v: u128)
    ensures
        sum_of(s.push(v)) == sum_of(s) + v,
{
    assert(s.push(v).drop_last() =~= s);
}

proof fn lemma_sum_bound(s: Seq<u128>, i: int)
    requires
        0 <= i < s.len(),
    ensures
        s[i] <= sum_of(s),
        sum_of(s) >= 0,
    decreases s.len(),
{
    lemma_sum_nonneg(s.drop_last());
    if i < s.len() - 1 {
        lemma_sum_bound(s.drop_last(), i);
    }
}

proof fn lemma_sum_nonneg(s: Seq<u128>)
    ensures
        sum_of(s) >= 0,
    decreases s.len(),
{
    if s.len() > 0 {
        lemma_sum_nonneg(s.drop_last());
    }
}

/// The share ledger of a pool.
#[derive(Debug, Clone)]
pub struct Token {
    pub total_supply: u128,
    pub balances: LinearMap<AccountId, u128>,
    pub allowances: LinearMap<AccountPair, u128>,
    pub name: Option<String>,
    pub symbol: Option<String>,
    pub decimals: Option<u8>,
    /// What happened, oldest first.
    pub events: Vec<TokenEvent>,
}

impl Token {
    /// The ledger holds its maps well formed, and its supply is the sum of its
    /// balances.
    pub open spec fn wf(&self) -> bool {
        &&& self.balances.wf()
        &&& self.allowances.wf()
        &&& sum_of(self.balances.values@) == self.total_supply
    }

    /// The shares of `owner`: zero for an account that the ledger has never seen.
    pub open spec fn balance(&self, owner: AccountId) -> u128 {
        if self.balances.contains(owner) {
            self.balances.value(owner)
        } else {
            0
        }
    }

    pub open spec fn allowance_of(&self, owner: AccountId, spender: AccountId) -> u128 {
        let k = AccountPair { owner, spender };
        if self.allowances.contains(k) {
            self.allowances.value(k)
        } else {
            0
        }
    }

    /// `self` is `old` with the balances of `from` and `to` moved by `amt`.
    pub open spec fn moved(&self, old: Token, from: AccountId, to: AccountId, amt: u128) -> bool {
        &&& self.total_supply == old.total_supply
        &&& forall|k: AccountId| self.balance(k) == old.balance(k) - (if k == from { amt as int } else { 0 })
            + (if k == to { amt as int } else { 0 })
        &&& self.allowances == old.allowances
    }

    pub fn new() -> (r: Token)
        ensures
            r.wf(),
            r.total_supply == 0,
            forall|k: AccountId| r.balance(k) == 0,
            forall|o: AccountId, s: AccountId| r.allowance_of(o, s) == 0,
            r.events@.len() == 0,
            r.decimals == Some(10u8),
            r.name matches Some(n) && n@ == "Conversation Pool Token"@,
            r.symbol matches Some(n) && n@ == "CPT"@,
    {
        proof {
            reveal_strlit("Conversation Pool Token");
            reveal_strlit("CPT");
        }
        Token {
            total_supply: 0,
            balances: LinearMap::new(),
            allowances: LinearMap::new(),
            name: Some("Conversation Pool Token".to_string()),
            symbol: Some("CPT".to_string()),
            decimals: Some(10),
            events: Vec::new(),
        }
    }

    pub fn balance_of(&self, owner: AccountId) -> (r: u128)
        requires
            self.balances.wf(),
        ensures
            r == self.balance(owner),
    {
        match self.balances.get(&owner) {
            Some(b) => b,
            None => 0,
        }
    }

    pub fn allowance(&self, owner: AccountId, spender: AccountId) -> (r: u128)
        requires
            self.allowances.wf(),
        ensures
            r == self.allowance_of(owner, spender),
    {
        match self.allowances.get(&AccountPair { owner, spender }) {
            Some(a) => a,
            None => 0,
        }
    }

    pub fn total_supply(&self) -> (r: u128)
        ensures
            r == self.total_supply,
    {
        self.total_supply
    }

    pub fn name(&self) -> (r: Option<String>)
        ensures
            r == self.name,
    {
        self.name.clone()
    }

    pub fn symbol(&self) -> (r: Option<String>)
        ensures
            r == self.symbol,
    {
        self.symbol.clone()
    }

    pub fn decimals(&self) -> (r: Option<u8>)
        ensures
            r == self.decimals,
    {
        self.decimals
    }

    /// Sets one balance; the sum of the balances changes by the difference.
    fn set_balance(&mut self, owner: AccountId, v: u128)
        requires
            old(self).balances.wf(),
        ensures
            final(self).balances.wf(),
            sum_of(final(self).balances.values@) == sum_of(old(self).balances.values@) - old(self).balance(owner) + v,
            forall|k: AccountId| final(self).balance(k) == if k == owner { v } else { old(self).balance(k) },
            final(self).total_supply == old(self).total_supply,
            final(self).allowances == old(self).allowances,
            final(self).events == old(self).events,
            final(self).name == old(self).name,
            final(self).symbol == old(self).symbol,
            final(self).decimals == old(self).decimals,
    {
        proof {
            lemma_index_of(self.balances.keys@, owner);
            if self.balances.contains(owner) {
                lemma_sum_update(self.balances.values@, index_of(self.balances.keys@, owner), v);
            } else {
                lemma_sum_push(self.balances.values@, v);
            }
        }
        self.balances.insert(owner, v);
    }

    fn set_allowance(&mut self, owner: AccountId, spender: AccountId, v: u128)
        requires
            old(self).wf(),
        ensures
            final(self).wf(),
            forall|o: AccountId, s: AccountId| final(self).allowance_of(o, s) == if o == owner && s == spender {
                v
            } else {
                old(self).allowance_of(o, s)
            },
            final(self).balances == old(self).balances,
            final(self).total_supply == old(self).total_supply,
            final(self).events == old(self).events,
            final(self).name == old(self).name,
            final(self).symbol == old(self).symbol,
            final(self).decimals == old(self).decimals,
    {
        let k = AccountPair { owner, spender };
        self.allowances.insert(k, v);
        assert forall|o: AccountId, s: AccountId| #[trigger] self.allowance_of(o, s) == if o == owner && s == spender {
            v
        } else {
            old(self).allowance_of(o, s)
        } by {
            let j = AccountPair { owner: o, spender: s };
            if !(o == owner && s == spender) {
                assert(j != k);
            }
        }
    }

    /// Moves `amt` shares from `from` to `to`; `InsufficientBalance` where
    /// `from` holds fewer.
    pub fn trans(&mut self, from: AccountId, to: AccountId, amt: u128) -> (r: Result<(), Error>)
        requires
            old(self).wf(),
        ensures
            final(self).wf(),
            r is Err == (old(self).balance(from) < amt),
            r is Err ==> r == Err::<(), Error>(Error::InsufficientBalance) && *final(self) == *old(self),
            r is Ok ==> final(self).moved(*old(self), from, to, amt)
                && final(self).events@ == old(self).events@.push(
                    TokenEvent::Transfer(Transfer { from: Some(from), to: Some(to), value: amt }),
                ),
    {
        let from_balance = self.balance_of(from);
        if from_balance < amt {
            return Err(Error::InsufficientBalance);
        }
        self.events.push(TokenEvent::Transfer(Transfer { from: Some(from), to: Some(to), value: amt }));
        self.set_balance(from, from_balance - amt);
        let to_balance = self.balance_of(to);
        proof {
            let vals = self.balances.values@;
            lemma_sum_nonneg(vals);
            if self.balances.contains(to) {
                lemma_index_of(self.balances.keys@, to);
                lemma_sum_bound(vals, index_of(self.balances.keys@, to));
            }
        }
        self.set_balance(to, to_balance + amt);
        Ok(())
    }

    /// Creates `amt` shares for `caller`; `Overflow` where the supply would not
    /// fit.
    pub fn mint(&mut self, caller: AccountId, amt: u128) -> (r: Result<(), Error>)
        requires
            old(self).wf(),
        ensures
            final(self).wf(),
            r is Err == (old(self).total_supply + amt > u128::MAX),
            r is Err ==> r == Err::<(), Error>(Error::Overflow) && *final(self) == *old(self),
            r is Ok ==> final(self).total_supply == old(self).total_supply + amt
                && (forall|k: AccountId| final(self).balance(k) == old(self).balance(k) + (if k == caller { amt as int } else { 0 }))
                && final(self).allowances == old(self).allowances
                && final(self).events@ == old(self).events@.push(
                    TokenEvent::Transfer(Transfer { from: None, to: Some(caller), value: amt }),
                ),
    {
        if amt > u128::MAX - self.total_supply {
            return Err(Error::Overflow);
        }
        let balance = self.balance_of(caller);
        proof {
            if self.balances.contains(caller) {
                lemma_index_of(self.balances.keys@, caller);
                lemma_sum_bound(self.balances.values@, index_of(self.balances.keys@, caller));
            }
        }
        self.total_supply = self.total_supply + amt;
        self.events.push(TokenEvent::Transfer(Transfer { from: None, to: Some(caller), value: amt }));
        self.set_balance(caller, balance + amt);
        Ok(())
    }

    /// Destroys `amt` of the shares of `caller`; `InsufficientBalance` where it
    /// holds fewer.
    pub fn burn(&mut self, caller: AccountId, amt: u128) -> (r: Result<(), Error>)
        requires
            old(self).wf(),
        ensures
            final(self).wf(),
            r is Err == (old(self).balance(caller) < amt),
            r is Err ==> r == Err::<(), Error>(Error::InsufficientBalance) && *final(self) == *old(self),
            r is Ok ==> final(self).total_supply == old(self).total_supply - amt
                && (forall|k: AccountId| final(self).balance(k) == old(self).balance(k) - (if k == caller { amt as int } else { 0 }))
                && final(self).allowances == old(self).allowances
                && final(self).events@ == old(self).events@.push(
                    TokenEvent::Transfer(Transfer { from: Some(caller), to: None, value: amt }),
                ),
    {
        let balance = self.balance_of(caller);
        if balance < amt {
            return Err(Error::InsufficientBalance);
        }
        proof {
            if self.balances.contains(caller) {
                lemma_index_of(self.balances.keys@, caller);
                lemma_sum_bound(self.balances.values@, index_of(self.balances.keys@, caller));
            }
        }
        self.total_supply = self.total_supply - amt;
        self.events.push(TokenEvent::Transfer(Transfer { from: Some(caller), to: None, value: amt }));
        self.set_balance(caller, balance - amt);
        Ok(())
    }

    /// Moves `amt` shares from `caller` to `to`.
    pub fn push(&mut self, caller: AccountId, to: AccountId, amt: u128) -> (r: Result<(), Error>)
        requires
            old(self).wf(),
        ensures
            final(self).wf(),
            r is Err == (old(self).balance(caller) < amt),
            r is Err ==> r == Err::<(), Error>(Error::InsufficientBalance) && *final(self) == *old(self),
            r is Ok ==> final(self).moved(*old(self), caller, to, amt),
    {
        self.trans(caller, to, amt)
    }

    /// Moves `amt` shares from `from` to `caller`.
    pub fn pull(&mut self, caller: AccountId, from: AccountId, amt: u128) -> (r: Result<(), Error>)
        requires
            old(self).wf(),
        ensures
            final(self).wf(),
            r is Err == (old(self).balance(from) < amt),
            r is Err ==> r == Err::<(), Error>(Error::InsufficientBalance) && *final(self) == *old(self),
            r is Ok ==> final(self).moved(*old(self), from, caller, amt),
    {
        self.trans(from, caller, amt)
    }

    /// Moves `value` shares from `caller` to `to`.
    pub fn transfer(&mut self, caller: AccountId, to: AccountId, value: u128) -> (r: Result<(), Error>)
        requires
            old(self).wf(),
        ensures
            final(self).wf(),
            r is Err == (old(self).balance(caller) < value),
            r is Err ==> r == Err::<(), Error>(Error::InsufficientBalance) && *final(self) == *old(self),
            r is Ok ==> final(self).moved(*old(self), caller, to, value),
    {
        self.trans(caller, to, value)
    }

    /// Lets `spender` move up to `value` of the shares of `caller`.
    pub fn approve(&mut self, caller: AccountId, spender: AccountId, value: u128)
        requires
            old(self).wf(),
        ensures
            final(self).wf(),
            forall|o: AccountId, s: AccountId| final(self).allowance_of(o, s) == if o == caller && s == spender {
                value
            } else {
                old(self).allowance_of(o, s)
            },
            final(self).balances == old(self).balances,
            final(self).total_supply == old(self).total_supply,
            final(self).events@ == old(self).events@.push(
                TokenEvent::Approval(Approval { owner: caller, spender, value }),
            ),
    {
        self.events.push(TokenEvent::Approval(Approval { owner: caller, spender, value }));
        self.set_allowance(caller, spender, value);
    }

    /// Raises the allowance of `spender` over the shares of `caller` by
    /// `value`; `Overflow` where it would not fit.
    pub fn increase_approval(&mut self, caller: AccountId, spender: AccountId, value: u128) -> (r: Result<(), Error>)
        requires
            old(self).wf(),
        ensures
            final(self).wf(),
            r is Err == (old(self).allowance_of(caller, spender) + value > u128::MAX),
            r is Err ==> r == Err::<(), Error>(Error::Overflow) && *final(self) == *old(self),
            r is Ok ==> (forall|o: AccountId, s: AccountId| final(self).allowance_of(o, s) == if o == caller && s == spender {
                old(self).allowance_of(o, s) + value
            } else {
                old(self).allowance_of(o, s) as int
            }) && final(self).balances == old(self).balances && final(self).total_supply == old(self).total_supply,
    {
        let old_value = self.allowance(caller, spender);
        if value > u128::MAX - old_value {
            return Err(Error::Overflow);
        }
        self.events.push(TokenEvent::Approval(Approval { owner: caller, spender, value }));
        self.set_allowance(caller, spender, old_value + value);
        Ok(())
    }

    /// Lowers the allowance of `spender` over the shares of `caller` by
    /// `value`, to no less than zero.
    pub fn decrease_approval(&mut self, caller: AccountId, spender: AccountId, value: u128)
        requires
            old(self).wf(),
        ensures
            final(self).wf(),
            forall|o: AccountId, s: AccountId| final(self).allowance_of(o, s) == if o == caller && s == spender {
                if value > old(self).allowance_of(o, s) { 0 } else { (old(self).allowance_of(o, s) - value) as u128 }
            } else {
                old(self).allowance_of(o, s)
            },
            final(self).balances == old(self).balances,
            final(self).total_supply == old(self).total_supply,
    {
        let old_value = self.allowance(caller, spender);
        self.events.push(TokenEvent::Approval(Approval { owner: caller, spender, value }));
        if value > old_value {
            self.set_allowance(caller, spender, 0);
        } else {
            self.set_allowance(caller, spender, old_value - value);
        }
    }

    /// `caller` moves `value` shares of `from` to `to`. Allowed where `caller`
    /// is `from`, or where its allowance exceeds `value`; the allowance then
    /// drops by `value` unless it is unlimited (`u128::MAX`).
    pub fn transfer_from(&mut self, caller: AccountId, from: AccountId, to: AccountId, value: u128) -> (r: Result<(), Error>)
        requires
            old(self).wf(),
        ensures
            final(self).wf(),
            !(caller == from || value < old(self).allowance_of(from, caller)) ==> r == Err::<(), Error>(
                Error::InsufficientAllowance,
            ),
            (caller == from || value < old(self).allowance_of(from, caller)) ==> (r is Err == (old(self).balance(from) < value)),
            r is Err ==> *final(self) == *old(self),
            r is Ok ==> final(self).total_supply == old(self).total_supply
                && (forall|k: AccountId| final(self).balance(k) == old(self).balance(k) - (if k == from { value as int } else { 0 })
                    + (if k == to { value as int } else { 0 }))
                && (forall|o: AccountId, s: AccountId| final(self).allowance_of(o, s) == if o == from && s == caller
                    && caller != from && old(self).allowance_of(from, caller) != u128::MAX {
                    (old(self).allowance_of(o, s) - value) as u128
                } else {
                    old(self).allowance_of(o, s)
                }),
    {
        let allow = self.allowance(from, caller);
        if !(caller == from || value < allow) {
            return Err(Error::InsufficientAllowance);
        }
        self.trans(from, to, value)?;
        let ghost moved = *self;
        if caller != from && allow != u128::MAX {
            let balance = allow - value;
            self.events.push(TokenEvent::Approval(Approval { owner: caller, spender: to, value: balance }));
            self.set_allowance(from, caller, balance);
        }
        assert forall|k: AccountId| #[trigger] self.balance(k) == moved.balance(k) by {}
        Ok(())
    }
}

} // verus!
