//! The pool state machine: bound assets with their weights and balances, the
//! fee, the finalize-once flag, the reentrancy lock, and the operations that
//! move balances under the safety bounds of the pool.
//!
//! The pool does not move outside assets itself. A successful call that moves
//! them queues the transfers in `pending` and keeps the pool locked: the call
//! is in flight until the host has made the transfers and calls `release`.
//! Any call made in between fails with `PoolError::Reentry`. Where a transfer
//! fails, the host discards the whole call.
use vstd::prelude::*;
use crate::account::{index_of, lemma_index_of, lemma_index_of_unique, AccountId, LinearMap};
use crate::base::{
    in_given_out_result, out_given_in_result, pool_in_given_single_out_result,
    pool_out_given_single_in_result, single_in_given_pool_out_result,
    single_out_given_pool_in_result, spot_price_result, Base,
};
use crate::math::{
    lemma_share_round_trip, add_result, div_result, mul_result, sub_result, Math, MathError, BONE, EXIT_FEE,
    INIT_POOL_SUPPLY, MAX_BOUND_TOKENS, MAX_FEE, MAX_IN_RATIO, MAX_OUT_RATIO, MAX_TOTAL_WEIGHT,
    MAX_WEIGHT, MIN_BALANCE, MIN_BOUND_TOKENS, MIN_FEE, MIN_WEIGHT,
};
use crate::token::{Error, Token};

verus! {

/// The state of one bound asset.
#[derive(Debug, Clone, Copy, PartialEq, Eq, Structural)]
pub struct Record {
    pub bound: bool,
    /// Position in the ordered asset list.
    pub index: u128,
    /// Denormalized weight.
    pub de_norm: u128,
    pub balance: u128,
}

/// Why a pool operation failed. A failed operation changes nothing.
#[derive(Debug, Clone, Copy, PartialEq, Eq, Structural)]
pub enum PoolError {
    /// A bad weight, fee, balance, ratio, limit or length.
    Validation,
    /// The caller is not the controller.
    Authorization,
    /// The operation does not fit the state of the pool: not finalized,
    /// already finalized, not bound, already bound, too many or too few assets,
    /// swaps not public.
    State,
    Arithmetic(MathError),
    /// A result rounded to zero, or the price moved the wrong way.
    MathApproximation,
    /// A call is already in flight.
    Reentry,
    /// The host could not move an outside asset.
    ExternalTransferFailure,
    /// The share ledger refused a move of shares.
    Ledger(Error),
}

/// A transfer of an outside asset that a call owes; the host makes it.
#[derive(Debug, Clone, Copy, PartialEq, Eq, Structural)]
pub struct AssetTransfer {
    pub token: AccountId,
    pub from: AccountId,
    pub to: AccountId,
    pub amount: u128,
}

#[derive(Debug, Clone, Copy, PartialEq, Eq, Structural)]
pub struct LogSwap {
    pub caller: Option<AccountId>,
    pub token_in: Option<AccountId>,
    pub token_out: Option<AccountId>,
    pub token_amount_in: u128,
    pub token_amount_out: u128,
}

#[derive(Debug, Clone, Copy, PartialEq, Eq, Structural)]
pub struct LogJoin {
    pub caller: Option<AccountId>,
    pub token_in: Option<AccountId>,
    pub token_amount_in: u128,
}

#[derive(Debug, Clone, Copy, PartialEq, Eq, Structural)]
pub struct LogExit {
    pub caller: Option<AccountId>,
    pub token_out: Option<AccountId>,
    pub token_amount_out: u128,
}

/// What the pool reports of its swaps, joins and exits.
#[derive(Debug, Clone, Copy, PartialEq, Eq, Structural)]
pub enum PoolEvent {
    Swap(LogSwap),
    Join(LogJoin),
    Exit(LogExit),
}

/// An arithmetic failure as a pool failure.
pub open spec fn lift_result(r: Result<u128, MathError>) -> Result<u128, PoolError> {
    match r {
        Ok(v) => Ok(v),
        Err(e) => Err(PoolError::Arithmetic(e)),
    }
}

/// Feeds the value of `r` to `f`, or passes its error on.
pub open spec fn then<T>(r: Result<u128, PoolError>, f: spec_fn(u128) -> Result<T, PoolError>) -> Result<T, PoolError> {
    match r {
        Ok(v) => f(v),
        Err(e) => Err(e),
    }
}

/// An arithmetic failure as a pool failure.
fn lift(r: Result<u128, MathError>) -> (o: Result<u128, PoolError>)
    ensures
        o == lift_result(r),
{
    match r {
        Ok(v) => Ok(v),
        Err(e) => Err(PoolError::Arithmetic(e)),
    }
}

/// The record of an asset that is not bound.
pub open spec fn empty_record() -> Record {
    Record { bound: false, index: 0, de_norm: 0, balance: 0 }
}

/// The sum of the weights of a sequence of records.
pub open spec fn weight_sum(s: Seq<Record>) -> int
    decreases s.len(),
{
    if s.len() == 0 {
        0
    } else {
        weight_sum(s.drop_last()) + s.last().de_norm
    }
}

proof fn lemma_weight_sum_update(s: Seq<Record>, i: int, r: Record)
    requires
        0 <= i < s.len(),
    ensures
        weight_sum(s.update(i, r)) == weight_sum(s) - s[i].de_norm + r.de_norm,
    decreases s.len(),
{
    if i == s.len() - 1 {
        assert(s.update(i, r).drop_last() =~= s.drop_last());
    } else {
        assert(s.update(i, r).drop_last() =~= s.drop_last().update(i, r));
        lemma_weight_sum_update(s.drop_last(), i, r);
    }
}

proof fn lemma_weight_sum_push(s: Seq<Record>, r: Record)
    ensures
        weight_sum(s.push(r)) == weight_sum(s) + r.de_norm,
{
    assert(s.push(r).drop_last() =~= s);
}

proof fn lemma_weight_sum_bound(s: Seq<Record>, i: int)
    requires
        0 <= i < s.len(),
    ensures
        s[i].de_norm <= weight_sum(s),
    decreases s.len(),
{
    lemma_weight_sum_nonneg(s.drop_last());
    if i < s.len() - 1 {
        lemma_weight_sum_bound(s.drop_last(), i);
    }
}

proof fn lemma_weight_sum_nonneg(s: Seq<Record>)
    ensures
        weight_sum(s) >= 0,
    decreases s.len(),
{
    if s.len() > 0 {
        lemma_weight_sum_nonneg(s.drop_last());
    }
}

/// The amount of one asset that a proportional join (`join`) or exit moves
/// at share ratio `ratio`, for an asset with balance `bal` and the caller's
/// cap (join) or floor (exit) `limit`.
pub open spec fn proportional_amount(ratio: u128, bal: u128, limit: u128, join: bool) -> Result<u128, PoolError> {
    then(lift_result(mul_result(ratio, bal)), |amt: u128| {
        if amt == 0 {
            Err(PoolError::MathApproximation)
        } else if join && amt > limit {
            Err(PoolError::Validation)
        } else if !join && amt < limit {
            Err(PoolError::Validation)
        } else if join {
            then(lift_result(add_result(bal, amt)), |_b: u128| Ok(amt))
        } else {
            then(lift_result(sub_result(bal, amt)), |_b: u128| Ok(amt))
        }
    })
}

/// The amounts of the first `n` assets, in order; the first failure stops it.
pub open spec fn proportional_amounts(ratio: u128, bals: Seq<u128>, limits: Seq<u128>, n: nat, join: bool) -> Result<Seq<u128>, PoolError>
    decreases n,
{
    if n == 0 {
        Ok(Seq::empty())
    } else {
        match proportional_amounts(ratio, bals, limits, (n - 1) as nat, join) {
            Err(e) => Err(e),
            Ok(s) => match proportional_amount(ratio, bals[n - 1], limits[n - 1], join) {
                Err(e) => Err(e),
                Ok(a) => Ok(s.push(a)),
            },
        }
    }
}

proof fn lemma_amounts_stop(ratio: u128, bals: Seq<u128>, limits: Seq<u128>, k: nat, m: nat, join: bool)
    requires
        proportional_amounts(ratio, bals, limits, k, join) is Err,
        k <= m,
    ensures
        proportional_amounts(ratio, bals, limits, m, join) == proportional_amounts(ratio, bals, limits, k, join),
    decreases m,
{
    if m > k {
        lemma_amounts_stop(ratio, bals, limits, k, (m - 1) as nat, join);
    }
}

proof fn lemma_amounts_len(ratio: u128, bals: Seq<u128>, limits: Seq<u128>, n: nat, join: bool)
    requires
        proportional_amounts(ratio, bals, limits, n, join) is Ok,
    ensures
        proportional_amounts(ratio, bals, limits, n, join)->Ok_0.len() == n,
        forall|j: int| 0 <= j < n ==> #[trigger] proportional_amount(ratio, bals[j], limits[j], join) == Ok::<u128, PoolError>(
            proportional_amounts(ratio, bals, limits, n, join)->Ok_0[j],
        ),
    decreases n,
{
    if n > 0 {
        lemma_amounts_len(ratio, bals, limits, (n - 1) as nat, join);
    }
}

/// `recs` with the balance of each record moved by the amount at its position:
/// up for a join, down for an exit.
pub open spec fn moved_balances(recs: Seq<Record>, amounts: Seq<u128>, join: bool) -> Seq<Record> {
    Seq::new(recs.len(), |j: int| Record {
        balance: if join { (recs[j].balance + amounts[j]) as u128 } else { (recs[j].balance - amounts[j]) as u128 },
        ..recs[j]
    })
}

/// A weighted pool.
#[derive(Debug, Clone)]
pub struct Pool {
    /// Held while a call is in flight.
    pub mutex: bool,
    /// Receives the exit fees.
    pub factory: AccountId,
    pub controller: AccountId,
    pub public_swap: bool,
    pub swap_fee: u128,
    pub finalized: bool,
    /// The bound assets in order, each with its record.
    pub records: LinearMap<AccountId, Record>,
    pub total_weight: u128,
    /// The pool's own account.
    pub this: AccountId,
    pub base: Base,
    pub math: Math,
    /// The ledger of the pool's shares.
    pub token: Token,
    /// The transfers of outside assets that the call in flight owes.
    pub pending: Vec<AssetTransfer>,
    /// What happened, oldest first.
    pub events: Vec<PoolEvent>,
}

impl Pool {
    /// The bound assets, in order.
    pub open spec fn tokens(&self) -> Seq<AccountId> {
        self.records.keys@
    }

    pub open spec fn bound(&self, t: AccountId) -> bool {
        self.records.contains(t)
    }

    /// The record of `t`; the empty record where `t` is not bound.
    pub open spec fn record(&self, t: AccountId) -> Record {
        if self.bound(t) {
            self.records.value(t)
        } else {
            empty_record()
        }
    }

    /// The invariant of the pool.
    pub open spec fn wf(&self) -> bool {
        &&& self.records.wf()
        &&& self.token.wf()
        &&& self.tokens().len() <= MAX_BOUND_TOKENS
        &&& self.finalized ==> self.tokens().len() >= MIN_BOUND_TOKENS
        &&& !self.finalized ==> self.token.total_supply == 0
        &&& MIN_FEE <= self.swap_fee <= MAX_FEE
        &&& weight_sum(self.records.values@) == self.total_weight
        &&& self.total_weight <= MAX_TOTAL_WEIGHT
        &&& self.records_ok()
    }

    /// Each stored record is bound, knows its position, and has a weight in
    /// `[MIN_WEIGHT, MAX_WEIGHT]`.
    pub open spec fn records_ok(&self) -> bool {
        forall|i: int| 0 <= i < self.records.values@.len() ==> {
            let r = #[trigger] self.records.values@[i];
            &&& r.bound
            &&& r.index == i
            &&& MIN_WEIGHT <= r.de_norm <= MAX_WEIGHT
        }
    }

    /// `self` has the settings of `old`.
    pub open spec fn same_settings(&self, old: &Pool) -> bool {
        &&& self.factory == old.factory
        &&& self.controller == old.controller
        &&& self.public_swap == old.public_swap
        &&& self.swap_fee == old.swap_fee
        &&& self.finalized == old.finalized
        &&& self.this == old.this
    }

    /// `self` is `old` but for the balances of its records.
    pub open spec fn same_setup(&self, old: &Pool) -> bool {
        &&& self.same_settings(old)
        &&& self.total_weight == old.total_weight
        &&& self.tokens() == old.tokens()
        &&& forall|t: AccountId| #[trigger] self.record(t).de_norm == old.record(t).de_norm
    }

    /// `self` is `old` with the balance of `t` set to `b`.
    pub open spec fn balance_set(&self, old: &Pool, t: AccountId, b: u128) -> bool {
        &&& self.same_setup(old)
        &&& forall|u: AccountId| #[trigger] self.record(u) == if u == t {
            Record { balance: b, ..old.record(u) }
        } else {
            old.record(u)
        }
    }

    /// The spot price of `token_out` in `token_in`, with fee `fee`.
    pub open spec fn spot_price_with(&self, token_in: AccountId, token_out: AccountId, fee: u128) -> Result<u128, MathError> {
        let ri = self.record(token_in);
        let ro = self.record(token_out);
        spot_price_result(ri.balance, ri.de_norm, ro.balance, ro.de_norm, fee)
    }

    /// A new pool, open, with no asset, created by `caller`, which becomes
    /// its controller and fee collector; `this` is the pool's own account.
    pub fn new(caller: AccountId, this: AccountId) -> (r: Pool)
        ensures
            r.wf(),
            !r.mutex,
            r.factory == caller,
            r.controller == caller,
            !r.public_swap,
            r.swap_fee == MIN_FEE,
            !r.finalized,
            r.tokens().len() == 0,
            r.total_weight == 0,
            r.this == this,
            r.token.total_supply == 0,
            r.pending@.len() == 0,
            r.events@.len() == 0,
    {
        Pool {
            mutex: false,
            factory: caller,
            controller: caller,
            public_swap: false,
            swap_fee: MIN_FEE,
            finalized: false,
            records: LinearMap::new(),
            total_weight: 0,
            this,
            base: Base::new(),
            math: Math::new(),
            token: Token::new(),
            pending: Vec::new(),
            events: Vec::new(),
        }
    }

    /// `self` is `old` after `release`.
    pub open spec fn release_done(&self, old: &Pool) -> bool {
        &&& !self.mutex
        &&& self.pending@.len() == 0
        &&& self.same_setup(old)
        &&& self.records == old.records
        &&& self.token == old.token
        &&& self.events == old.events
    }

    /// Ends the call in flight: hands over the transfers that it owes and
    /// releases the lock.
    pub fn release(&mut self) -> (r: Vec<AssetTransfer>)
        requires
            old(self).wf(),
        ensures
            final(self).wf(),
            r@ == old(self).pending@,
            final(self).release_done(old(self)),
    {
        let owed = self.pending.clone();
        assert(owed@ =~= old(self).pending@);
        self.mutex = false;
        self.pending = Vec::new();
        owed
    }

    /// The record of `t`, or the empty record where `t` is not bound.
    pub fn get_record(&self, t: AccountId) -> (r: Record)
        requires
            self.records.wf(),
        ensures
            r == self.record(t),
    {
        match self.records.get(&t) {
            Some(rec) => rec,
            None => Record { bound: false, index: 0, de_norm: 0, balance: 0 },
        }
    }

    /// Replaces the record of the bound asset `t` by `rec`, which keeps its
    /// position.
    fn put_record(&mut self, t: AccountId, rec: Record)
        requires
            old(self).records.wf(),
            old(self).bound(t),
            forall|i: int| 0 <= i < old(self).records.values@.len() && i != index_of(old(self).tokens(), t) ==> {
                let r = #[trigger] old(self).records.values@[i];
                &&& r.bound
                &&& r.index == i
                &&& MIN_WEIGHT <= r.de_norm <= MAX_WEIGHT
            },
            rec.bound,
            rec.index == index_of(old(self).tokens(), t),
            MIN_WEIGHT <= rec.de_norm <= MAX_WEIGHT,
        ensures
            final(self).records.wf(),
            final(self).records_ok(),
            final(self).tokens() == old(self).tokens(),
            forall|u: AccountId| #[trigger] final(self).record(u) == if u == t { rec } else { old(self).record(u) },
            weight_sum(final(self).records.values@) == weight_sum(old(self).records.values@) - old(self).record(t).de_norm
                + rec.de_norm,
            final(self).same_settings(old(self)),
            final(self).total_weight == old(self).total_weight,
            final(self).mutex == old(self).mutex,
            final(self).token == old(self).token,
            final(self).pending == old(self).pending,
            final(self).events == old(self).events,
    {
        proof {
            lemma_index_of(self.records.keys@, t);
            lemma_weight_sum_update(self.records.values@, index_of(self.records.keys@, t), rec);
        }
        self.records.insert(t, rec);
        assert forall|u: AccountId| #[trigger] self.record(u) == if u == t { rec } else { old(self).record(u) } by {}
        assert forall|i: int| 0 <= i < self.records.values@.len() implies {
            let r = #[trigger] self.records.values@[i];
            &&& r.bound
            &&& r.index == i
            &&& MIN_WEIGHT <= r.de_norm <= MAX_WEIGHT
        } by {
            lemma_index_of(old(self).records.keys@, t);
            assert(old(self).records.values@[i] == old(self).records.values@[i]);
        }
    }

    /// Sets the balance of the bound asset `t`.
    fn set_balance(&mut self, t: AccountId, b: u128)
        requires
            old(self).wf(),
            old(self).bound(t),
        ensures
            final(self).wf(),
            final(self).balance_set(old(self), t, b),
            final(self).mutex == old(self).mutex,
            final(self).token == old(self).token,
            final(self).pending == old(self).pending,
            final(self).events == old(self).events,
    {
        let rec = self.get_record(t);
        proof {
            lemma_index_of(self.records.keys@, t);
        }
        self.put_record(t, Record { balance: b, ..rec });
    }

    /// What `swap_exact_amount_in` computes, before it changes anything: the
    /// amount out, the spot price after, and the new balances in and out.
    pub open spec fn swap_in_quote(
        &self,
        token_in: AccountId,
        token_amount_in: u128,
        token_out: AccountId,
        min_amount_out: u128,
        max_price: u128,
    ) -> Result<(u128, u128, u128, u128), PoolError> {
        let ri = self.record(token_in);
        let ro = self.record(token_out);
        let fee = self.swap_fee;
        if !self.bound(token_in) || !self.bound(token_out) || !self.public_swap {
            Err(PoolError::State)
        } else {
            then(lift_result(mul_result(ri.balance, MAX_IN_RATIO)), |cap: u128| {
            if token_amount_in > cap { Err(PoolError::Validation) } else {
            then(lift_result(spot_price_result(ri.balance, ri.de_norm, ro.balance, ro.de_norm, fee)), |before: u128| {
            if before > max_price { Err(PoolError::Validation) } else {
            then(lift_result(out_given_in_result(ri.balance, ri.de_norm, ro.balance, ro.de_norm, token_amount_in, fee)), |out: u128| {
            if out < min_amount_out { Err(PoolError::Validation) } else {
            then(lift_result(add_result(ri.balance, token_amount_in)), |new_in: u128|
            then(lift_result(sub_result(ro.balance, out)), |new_out: u128|
            then(lift_result(spot_price_result(new_in, ri.de_norm, new_out, ro.de_norm, fee)), |after: u128| {
            if after < before { Err(PoolError::MathApproximation) }
            else if after > max_price { Err(PoolError::Validation) } else {
            then(lift_result(div_result(token_amount_in, out)), |paid: u128| {
            if before > paid { Err(PoolError::MathApproximation) } else { Ok((out, after, new_in, new_out)) } })
            } })))
            } })
            } })
            } })
        }
    }

    /// What `swap_exact_amount_out` computes, before it changes anything: the
    /// amount in, the spot price after, and the new balances in and out.
    pub open spec fn swap_out_quote(
        &self,
        token_in: AccountId,
        max_amount_in: u128,
        token_out: AccountId,
        token_amount_out: u128,
        max_price: u128,
    ) -> Result<(u128, u128, u128, u128), PoolError> {
        let ri = self.record(token_in);
        let ro = self.record(token_out);
        let fee = self.swap_fee;
        if !self.bound(token_in) || !self.bound(token_out) || !self.public_swap {
            Err(PoolError::State)
        } else {
            then(lift_result(mul_result(ro.balance, MAX_OUT_RATIO)), |cap: u128| {
            if token_amount_out > cap { Err(PoolError::Validation) } else {
            then(lift_result(spot_price_result(ri.balance, ri.de_norm, ro.balance, ro.de_norm, fee)), |before: u128| {
            if before > max_price { Err(PoolError::Validation) } else {
            then(lift_result(in_given_out_result(ri.balance, ri.de_norm, ro.balance, ro.de_norm, token_amount_out, fee)), |amount_in: u128| {
            if amount_in > max_amount_in { Err(PoolError::Validation) } else {
            then(lift_result(add_result(ri.balance, amount_in)), |new_in: u128|
            then(lift_result(sub_result(ro.balance, token_amount_out)), |new_out: u128|
            then(lift_result(spot_price_result(new_in, ri.de_norm, new_out, ro.de_norm, fee)), |after: u128| {
            if after < before { Err(PoolError::MathApproximation) }
            else if after > max_price { Err(PoolError::Validation) } else {
            then(lift_result(div_result(amount_in, token_amount_out)), |paid: u128| {
            if before > paid { Err(PoolError::MathApproximation) } else { Ok((amount_in, after, new_in, new_out)) } })
            } })))
            } })
            } })
            } })
        }
    }

    pub fn is_public_swap(&self) -> (r: bool)
        ensures
            r == self.public_swap,
    {
        self.public_swap
    }

    pub fn is_finalized(&self) -> (r: bool)
        ensures
            r == self.finalized,
    {
        self.finalized
    }

    pub fn is_bound(&self, t: AccountId) -> (r: bool)
        requires
            self.records.wf(),
        ensures
            r == self.bound(t),
    {
        self.records.find(&t).is_some()
    }

    pub fn get_num_tokens(&self) -> (r: u128)
        requires
            self.records.wf(),
        ensures
            r == self.tokens().len(),
    {
        self.records.keys.len() as u128
    }

    /// The bound assets, in order.
    pub fn get_current_tokens(&self) -> (r: Result<Vec<AccountId>, PoolError>)
        ensures
            self.mutex ==> r == Err::<Vec<AccountId>, PoolError>(PoolError::Reentry),
            !self.mutex ==> (r matches Ok(ts) && ts@ == self.tokens()),
    {
        if self.mutex {
            return Err(PoolError::Reentry);
        }
        let ts = self.records.keys.clone();
        assert(ts@ =~= self.tokens());
        Ok(ts)
    }

    /// The bound assets of a finalized pool, in order.
    pub fn get_final_tokens(&self) -> (r: Result<Vec<AccountId>, PoolError>)
        ensures
            self.mutex ==> r == Err::<Vec<AccountId>, PoolError>(PoolError::Reentry),
            !self.mutex && !self.finalized ==> r == Err::<Vec<AccountId>, PoolError>(PoolError::State),
            !self.mutex && self.finalized ==> (r matches Ok(ts) && ts@ == self.tokens()),
    {
        if self.mutex {
            return Err(PoolError::Reentry);
        }
        if !self.finalized {
            return Err(PoolError::State);
        }
        let ts = self.records.keys.clone();
        assert(ts@ =~= self.tokens());
        Ok(ts)
    }

    pub fn get_denormalized_weight(&self, token: AccountId) -> (r: Result<u128, PoolError>)
        requires
            self.wf(),
        ensures
            r == if self.mutex {
                Err(PoolError::Reentry)
            } else if !self.bound(token) {
                Err(PoolError::State)
            } else {
                Ok(self.record(token).de_norm)
            },
    {
        if self.mutex {
            return Err(PoolError::Reentry);
        }
        if !self.is_bound(token) {
            return Err(PoolError::State);
        }
        Ok(self.get_record(token).de_norm)
    }

    pub fn get_total_denormalized_weight(&self) -> (r: Result<u128, PoolError>)
        ensures
            r == if self.mutex { Err(PoolError::Reentry) } else { Ok(self.total_weight) },
    {
        if self.mutex {
            return Err(PoolError::Reentry);
        }
        Ok(self.total_weight)
    }

    /// The weight of `token` divided by the total weight.
    pub fn get_normalized_weight(&self, token: AccountId) -> (r: Result<u128, PoolError>)
        requires
            self.wf(),
        ensures
            r == if self.mutex {
                Err(PoolError::Reentry)
            } else if !self.bound(token) {
                Err(PoolError::State)
            } else {
                lift_result(div_result(self.record(token).de_norm, self.total_weight))
            },
    {
        if self.mutex {
            return Err(PoolError::Reentry);
        }
        if !self.is_bound(token) {
            return Err(PoolError::State);
        }
        let denorm = self.get_record(token).de_norm;
        lift(self.math.bdiv(denorm, self.total_weight))
    }

    pub fn get_balance(&self, token: AccountId) -> (r: Result<u128, PoolError>)
        requires
            self.wf(),
        ensures
            r == if self.mutex {
                Err(PoolError::Reentry)
            } else if !self.bound(token) {
                Err(PoolError::State)
            } else {
                Ok(self.record(token).balance)
            },
    {
        if self.mutex {
            return Err(PoolError::Reentry);
        }
        if !self.is_bound(token) {
            return Err(PoolError::State);
        }
        Ok(self.get_record(token).balance)
    }

    pub fn get_swap_fee(&self) -> (r: Result<u128, PoolError>)
        ensures
            r == if self.mutex { Err(PoolError::Reentry) } else { Ok(self.swap_fee) },
    {
        if self.mutex {
            return Err(PoolError::Reentry);
        }
        Ok(self.swap_fee)
    }

    pub fn get_controller(&self) -> (r: Result<AccountId, PoolError>)
        ensures
            r == if self.mutex { Err(PoolError::Reentry) } else { Ok(self.controller) },
    {
        if self.mutex {
            return Err(PoolError::Reentry);
        }
        Ok(self.controller)
    }

    /// The price of `token_out` in `token_in`, fee included.
    pub fn get_spot_price(&self, token_in: AccountId, token_out: AccountId) -> (r: Result<u128, PoolError>)
        requires
            self.wf(),
        ensures
            r == if self.mutex {
                Err(PoolError::Reentry)
            } else if !self.bound(token_in) || !self.bound(token_out) {
                Err(PoolError::State)
            } else {
                lift_result(self.spot_price_with(token_in, token_out, self.swap_fee))
            },
    {
        self.spot_price(token_in, token_out, self.swap_fee)
    }

    /// The price of `token_out` in `token_in`, without fee.
    pub fn get_spot_price_sans_fee(&self, token_in: AccountId, token_out: AccountId) -> (r: Result<u128, PoolError>)
        requires
            self.wf(),
        ensures
            r == if self.mutex {
                Err(PoolError::Reentry)
            } else if !self.bound(token_in) || !self.bound(token_out) {
                Err(PoolError::State)
            } else {
                lift_result(self.spot_price_with(token_in, token_out, 0))
            },
    {
        self.spot_price(token_in, token_out, 0)
    }

    fn spot_price(&self, token_in: AccountId, token_out: AccountId, fee: u128) -> (r: Result<u128, PoolError>)
        requires
            self.wf(),
        ensures
            r == if self.mutex {
                Err(PoolError::Reentry)
            } else if !self.bound(token_in) || !self.bound(token_out) {
                Err(PoolError::State)
            } else {
                lift_result(self.spot_price_with(token_in, token_out, fee))
            },
    {
        if self.mutex {
            return Err(PoolError::Reentry);
        }
        if !self.is_bound(token_in) || !self.is_bound(token_out) {
            return Err(PoolError::State);
        }
        let ri = self.get_record(token_in);
        let ro = self.get_record(token_out);
        lift(self.base.calc_spot_price(ri.balance, ri.de_norm, ro.balance, ro.de_norm, fee))
    }

    /// The pool shares held by `owner`.
    pub fn balance_of(&self, owner: AccountId) -> (r: Result<u128, PoolError>)
        requires
            self.wf(),
        ensures
            r == if self.mutex { Err(PoolError::Reentry) } else { Ok(self.token.balance(owner)) },
    {
        if self.mutex {
            return Err(PoolError::Reentry);
        }
        Ok(self.token.balance_of(owner))
    }

    /// `caller` moves `value` of its pool shares to `to`.
    pub fn transfer(&mut self, caller: AccountId, to: AccountId, value: u128) -> (r: Result<(), PoolError>)
        requires
            old(self).wf(),
        ensures
            final(self).wf(),
            r == if old(self).mutex {
                Err(PoolError::Reentry)
            } else if old(self).token.balance(caller) < value {
                Err(PoolError::Ledger(Error::InsufficientBalance))
            } else {
                Ok::<(), PoolError>(())
            },
            r is Err ==> *final(self) == *old(self),
            r is Ok ==> final(self).token.moved(old(self).token, caller, to, value),
            final(self).same_setup(old(self)),
            final(self).records == old(self).records,
            final(self).mutex == old(self).mutex,
    {
        if self.mutex {
            return Err(PoolError::Reentry);
        }
        match self.token.transfer(caller, to, value) {
            Ok(()) => Ok(()),
            Err(e) => Err(PoolError::Ledger(e)),
        }
    }

    fn quote_swap_in(
        &self,
        token_in: AccountId,
        token_amount_in: u128,
        token_out: AccountId,
        min_amount_out: u128,
        max_price: u128,
    ) -> (r: Result<(u128, u128, u128, u128), PoolError>)
        requires
            self.wf(),
        ensures
            r == self.swap_in_quote(token_in, token_amount_in, token_out, min_amount_out, max_price),
    {
        if !self.is_bound(token_in) || !self.is_bound(token_out) || !self.public_swap {
            return Err(PoolError::State);
        }
        let ri = self.get_record(token_in);
        let ro = self.get_record(token_out);
        let fee = self.swap_fee;
        let cap = lift(self.math.bmul(ri.balance, MAX_IN_RATIO))?;
        if token_amount_in > cap {
            return Err(PoolError::Validation);
        }
        let before = lift(self.base.calc_spot_price(ri.balance, ri.de_norm, ro.balance, ro.de_norm, fee))?;
        if before > max_price {
            return Err(PoolError::Validation);
        }
        let out = lift(self.base.calc_out_given_in(ri.balance, ri.de_norm, ro.balance, ro.de_norm, token_amount_in, fee))?;
        if out < min_amount_out {
            return Err(PoolError::Validation);
        }
        let new_in = lift(self.math.badd(ri.balance, token_amount_in))?;
        let new_out = lift(self.math.bsub(ro.balance, out))?;
        let after = lift(self.base.calc_spot_price(new_in, ri.de_norm, new_out, ro.de_norm, fee))?;
        if after < before {
            return Err(PoolError::MathApproximation);
        }
        if after > max_price {
            return Err(PoolError::Validation);
        }
        let paid = lift(self.math.bdiv(token_amount_in, out))?;
        if before > paid {
            return Err(PoolError::MathApproximation);
        }
        Ok((out, after, new_in, new_out))
    }

    fn quote_swap_out(
        &self,
        token_in: AccountId,
        max_amount_in: u128,
        token_out: AccountId,
        token_amount_out: u128,
        max_price: u128,
    ) -> (r: Result<(u128, u128, u128, u128), PoolError>)
        requires
            self.wf(),
        ensures
            r == self.swap_out_quote(token_in, max_amount_in, token_out, token_amount_out, max_price),
    {
        if !self.is_bound(token_in) || !self.is_bound(token_out) || !self.public_swap {
            return Err(PoolError::State);
        }
        let ri = self.get_record(token_in);
        let ro = self.get_record(token_out);
        let fee = self.swap_fee;
        let cap = lift(self.math.bmul(ro.balance, MAX_OUT_RATIO))?;
        if token_amount_out > cap {
            return Err(PoolError::Validation);
        }
        let before = lift(self.base.calc_spot_price(ri.balance, ri.de_norm, ro.balance, ro.de_norm, fee))?;
        if before > max_price {
            return Err(PoolError::Validation);
        }
        let amount_in = lift(self.base.calc_in_given_out(ri.balance, ri.de_norm, ro.balance, ro.de_norm, token_amount_out, fee))?;
        if amount_in > max_amount_in {
            return Err(PoolError::Validation);
        }
        let new_in = lift(self.math.badd(ri.balance, amount_in))?;
        let new_out = lift(self.math.bsub(ro.balance, token_amount_out))?;
        let after = lift(self.base.calc_spot_price(new_in, ri.de_norm, new_out, ro.de_norm, fee))?;
        if after < before {
            return Err(PoolError::MathApproximation);
        }
        if after > max_price {
            return Err(PoolError::Validation);
        }
        let paid = lift(self.math.bdiv(amount_in, token_amount_out))?;
        if before > paid {
            return Err(PoolError::MathApproximation);
        }
        Ok((amount_in, after, new_in, new_out))
    }

    /// Swaps exactly `token_amount_in` of `token_in` for as much `token_out`
    /// as the pricing gives, if at least `min_amount_out`, and with the spot
    /// price no more than `max_price` before or after. Returns the amount out
    /// and the spot price after.
    pub fn swap_exact_amount_in(
        &mut self,
        caller: AccountId,
        token_in: AccountId,
        token_amount_in: u128,
        token_out: AccountId,
        min_amount_out: u128,
        max_price: u128,
    ) -> (r: Result<(u128, u128), PoolError>)
        requires
            old(self).wf(),
        ensures
            final(self).wf(),
            old(self).mutex ==> r == Err::<(u128, u128), PoolError>(PoolError::Reentry),
            !old(self).mutex ==> match old(self).swap_in_quote(token_in, token_amount_in, token_out, min_amount_out, max_price) {
                Ok(q) => r == Ok::<(u128, u128), PoolError>((q.0, q.1)),
                Err(e) => r == Err::<(u128, u128), PoolError>(e),
            },
            r is Err ==> *final(self) == *old(self),
            r matches Ok((out, after)) ==> {
                &&& old(self).spot_price_with(token_in, token_out, old(self).swap_fee) matches Ok(before)
                &&& before <= after
                &&& after <= max_price
                &&& div_result(token_amount_in, out) matches Ok(paid)
                &&& before <= paid
            },
            r matches Ok((out, after)) ==> {
                let q = old(self).swap_in_quote(token_in, token_amount_in, token_out, min_amount_out, max_price)->Ok_0;
                &&& final(self).same_setup(old(self))
                &&& forall|u: AccountId| #[trigger] final(self).record(u) == if u == token_out {
                    Record { balance: q.3, ..old(self).record(u) }
                } else if u == token_in {
                    Record { balance: q.2, ..old(self).record(u) }
                } else {
                    old(self).record(u)
                }
                &&& final(self).mutex
                &&& final(self).token == old(self).token
                &&& final(self).pending@ == old(self).pending@.push(
                    AssetTransfer { token: token_in, from: caller, to: old(self).this, amount: token_amount_in },
                ).push(AssetTransfer { token: token_out, from: old(self).this, to: caller, amount: out })
                &&& final(self).events@ == old(self).events@.push(PoolEvent::Swap(LogSwap {
                    caller: Some(caller),
                    token_in: Some(token_in),
                    token_out: Some(token_out),
                    token_amount_in,
                    token_amount_out: out,
                }))
            },
    {
        if self.mutex {
            return Err(PoolError::Reentry);
        }
        let (out, after, new_in, new_out) = self.quote_swap_in(token_in, token_amount_in, token_out, min_amount_out, max_price)?;
        let this = self.this;
        self.mutex = true;
        self.pending.push(AssetTransfer { token: token_in, from: caller, to: this, amount: token_amount_in });
        self.pending.push(AssetTransfer { token: token_out, from: this, to: caller, amount: out });
        self.events.push(PoolEvent::Swap(LogSwap {
            caller: Some(caller),
            token_in: Some(token_in),
            token_out: Some(token_out),
            token_amount_in,
            token_amount_out: out,
        }));
        self.set_balance(token_in, new_in);
        self.set_balance(token_out, new_out);
        Ok((out, after))
    }

    /// Swaps as little `token_in` as the pricing asks, if no more than
    /// `max_amount_in`, for exactly `token_amount_out` of `token_out`, with the
    /// spot price no more than `max_price` before or after. Returns the amount
    /// in and the spot price after.
    pub fn swap_exact_amount_out(
        &mut self,
        caller: AccountId,
        token_in: AccountId,
        max_amount_in: u128,
        token_out: AccountId,
        token_amount_out: u128,
        max_price: u128,
    ) -> (r: Result<(u128, u128), PoolError>)
        requires
            old(self).wf(),
        ensures
            final(self).wf(),
            old(self).mutex ==> r == Err::<(u128, u128), PoolError>(PoolError::Reentry),
            !old(self).mutex ==> match old(self).swap_out_quote(token_in, max_amount_in, token_out, token_amount_out, max_price) {
                Ok(q) => r == Ok::<(u128, u128), PoolError>((q.0, q.1)),
                Err(e) => r == Err::<(u128, u128), PoolError>(e),
            },
            r is Err ==> *final(self) == *old(self),
            r matches Ok((amount_in, after)) ==> {
                &&& old(self).spot_price_with(token_in, token_out, old(self).swap_fee) matches Ok(before)
                &&& before <= after
                &&& after <= max_price
                &&& div_result(amount_in, token_amount_out) matches Ok(paid)
                &&& before <= paid
            },
            r matches Ok((amount_in, after)) ==> {
                let q = old(self).swap_out_quote(token_in, max_amount_in, token_out, token_amount_out, max_price)->Ok_0;
                &&& final(self).same_setup(old(self))
                &&& forall|u: AccountId| #[trigger] final(self).record(u) == if u == token_out {
                    Record { balance: q.3, ..old(self).record(u) }
                } else if u == token_in {
                    Record { balance: q.2, ..old(self).record(u) }
                } else {
                    old(self).record(u)
                }
                &&& final(self).mutex
                &&& final(self).token == old(self).token
                &&& final(self).pending@ == old(self).pending@.push(
                    AssetTransfer { token: token_in, from: caller, to: old(self).this, amount: amount_in },
                ).push(AssetTransfer { token: token_out, from: old(self).this, to: caller, amount: token_amount_out })
                &&& final(self).events@ == old(self).events@.push(PoolEvent::Swap(LogSwap {
                    caller: Some(caller),
                    token_in: Some(token_in),
                    token_out: Some(token_out),
                    token_amount_in: amount_in,
                    token_amount_out,
                }))
            },
    {
        if self.mutex {
            return Err(PoolError::Reentry);
        }
        let (amount_in, after, new_in, new_out) = self.quote_swap_out(token_in, max_amount_in, token_out, token_amount_out, max_price)?;
        let this = self.this;
        self.mutex = true;
        self.pending.push(AssetTransfer { token: token_in, from: caller, to: this, amount: amount_in });
        self.pending.push(AssetTransfer { token: token_out, from: this, to: caller, amount: token_amount_out });
        self.events.push(PoolEvent::Swap(LogSwap {
            caller: Some(caller),
            token_in: Some(token_in),
            token_out: Some(token_out),
            token_amount_in: amount_in,
            token_amount_out,
        }));
        self.set_balance(token_in, new_in);
        self.set_balance(token_out, new_out);
        Ok((amount_in, after))
    }
    /// The exit fee on a withdrawal of `amount`.
    pub open spec fn exit_fee_on(amount: u128) -> u128 {
        mul_result(amount, EXIT_FEE)->Ok_0
    }

    fn exit_fee(&self, amount: u128) -> (r: u128)
        ensures
            r == Self::exit_fee_on(amount),
            r <= amount,
    {
        match self.math.bmul(amount, EXIT_FEE) {
            Ok(fee) => fee,
            Err(_) => {
                assert(mul_result(amount, EXIT_FEE) is Ok);
                0
            },
        }
    }

    /// Why `bind` fails, where it does.
    pub open spec fn bind_error(&self, caller: AccountId, token: AccountId, balance: u128, denorm: u128) -> Option<PoolError> {
        if self.mutex {
            Some(PoolError::Reentry)
        } else if caller != self.controller {
            Some(PoolError::Authorization)
        } else if self.bound(token) || self.finalized || self.tokens().len() >= MAX_BOUND_TOKENS {
            Some(PoolError::State)
        } else if denorm < MIN_WEIGHT || denorm > MAX_WEIGHT || balance < MIN_BALANCE {
            Some(PoolError::Validation)
        } else if self.total_weight + denorm > MAX_TOTAL_WEIGHT {
            Some(PoolError::Validation)
        } else {
            None
        }
    }

    /// `self` is `old` after a successful `bind`.
    pub open spec fn bind_done(&self, old: &Pool, caller: AccountId, token: AccountId, balance: u128, denorm: u128) -> bool {
        &&& self.tokens() == old.tokens().push(token)
        &&& self.total_weight == old.total_weight + denorm
        &&& forall|u: AccountId| #[trigger] self.record(u) == if u == token {
            Record { bound: true, index: old.tokens().len() as u128, de_norm: denorm, balance }
        } else {
            old.record(u)
        }
        &&& self.mutex
        &&& self.same_settings(old)
        &&& self.token == old.token
        &&& self.pending@ == old.pending@.push(AssetTransfer { token, from: caller, to: old.this, amount: balance })
        &&& self.events == old.events
    }

    /// Why `rebind` fails, where it does.
    pub open spec fn rebind_error(&self, caller: AccountId, token: AccountId, balance: u128, denorm: u128) -> Option<PoolError> {
        if self.mutex {
            Some(PoolError::Reentry)
        } else if caller != self.controller {
            Some(PoolError::Authorization)
        } else if !self.bound(token) || self.finalized {
            Some(PoolError::State)
        } else if denorm < MIN_WEIGHT || denorm > MAX_WEIGHT || balance < MIN_BALANCE {
            Some(PoolError::Validation)
        } else if self.total_weight - self.record(token).de_norm + denorm > MAX_TOTAL_WEIGHT {
            Some(PoolError::Validation)
        } else {
            None
        }
    }

    /// The transfers that `rebind` owes: the controller pays in a rise of the
    /// balance, and is paid out a fall, less the exit fee, which goes to the
    /// fee collector.
    pub open spec fn rebind_transfers(&self, caller: AccountId, token: AccountId, balance: u128) -> Seq<AssetTransfer> {
        let old_balance = self.record(token).balance;
        if balance > old_balance {
            seq![AssetTransfer { token, from: caller, to: self.this, amount: (balance - old_balance) as u128 }]
        } else if balance < old_balance {
            let withdrawn = (old_balance - balance) as u128;
            let fee = Self::exit_fee_on(withdrawn);
            seq![
                AssetTransfer { token, from: self.this, to: caller, amount: (withdrawn - fee) as u128 },
                AssetTransfer { token, from: self.this, to: self.factory, amount: fee },
            ]
        } else {
            seq![]
        }
    }

    /// `self` is `old` after a successful `rebind`.
    pub open spec fn rebind_done(&self, old: &Pool, caller: AccountId, token: AccountId, balance: u128, denorm: u128) -> bool {
        &&& self.tokens() == old.tokens()
        &&& self.total_weight == old.total_weight - old.record(token).de_norm + denorm
        &&& forall|u: AccountId| #[trigger] self.record(u) == if u == token {
            Record { de_norm: denorm, balance, ..old.record(u) }
        } else {
            old.record(u)
        }
        &&& self.mutex
        &&& self.same_settings(old)
        &&& self.token == old.token
        &&& self.pending@ == old.pending@ + old.rebind_transfers(caller, token, balance)
        &&& self.events == old.events
    }

    /// Why `unbind` fails, where it does.
    pub open spec fn unbind_error(&self, caller: AccountId, token: AccountId) -> Option<PoolError> {
        if self.mutex {
            Some(PoolError::Reentry)
        } else if caller != self.controller {
            Some(PoolError::Authorization)
        } else if !self.bound(token) || self.finalized {
            Some(PoolError::State)
        } else {
            None
        }
    }

    /// `self` is `old` after a successful `unbind`: the last asset takes the
    /// place of `token`, whose whole balance, less the exit fee, goes to the
    /// controller.
    pub open spec fn unbind_done(&self, old: &Pool, caller: AccountId, token: AccountId) -> bool {
        let i = index_of(old.tokens(), token);
        let bal = old.record(token).balance;
        let fee = Self::exit_fee_on(bal);
        &&& self.tokens() == old.tokens().update(i, old.tokens().last()).drop_last()
        &&& self.total_weight == old.total_weight - old.record(token).de_norm
        &&& !self.bound(token)
        &&& forall|u: AccountId| u != token ==> {
            &&& #[trigger] self.bound(u) == old.bound(u)
            &&& self.record(u).de_norm == old.record(u).de_norm
            &&& self.record(u).balance == old.record(u).balance
        }
        &&& self.mutex
        &&& self.same_settings(old)
        &&& self.token == old.token
        &&& self.pending@ == old.pending@.push(
            AssetTransfer { token, from: old.this, to: caller, amount: (bal - fee) as u128 },
        ).push(AssetTransfer { token, from: old.this, to: old.factory, amount: fee })
        &&& self.events == old.events
    }

    /// Binds `token` with `balance`, paid in by the controller, and weight
    /// `denorm`. Controller only, on an open pool with fewer than
    /// `MAX_BOUND_TOKENS` assets.
    pub fn bind(&mut self, caller: AccountId, token: AccountId, balance: u128, denorm: u128) -> (r: Result<(), PoolError>)
        requires
            old(self).wf(),
        ensures
            final(self).wf(),
            r == match old(self).bind_error(caller, token, balance, denorm) {
                Some(e) => Err(e),
                None => Ok::<(), PoolError>(()),
            },
            r is Err ==> *final(self) == *old(self),
            r is Ok ==> final(self).bind_done(old(self), caller, token, balance, denorm),
    {
        if self.mutex {
            return Err(PoolError::Reentry);
        }
        if caller != self.controller {
            return Err(PoolError::Authorization);
        }
        if self.is_bound(token) || self.finalized || self.records.keys.len() as u128 >= MAX_BOUND_TOKENS {
            return Err(PoolError::State);
        }
        if denorm < MIN_WEIGHT || denorm > MAX_WEIGHT || balance < MIN_BALANCE {
            return Err(PoolError::Validation);
        }
        if self.total_weight + denorm > MAX_TOTAL_WEIGHT {
            return Err(PoolError::Validation);
        }
        let this = self.this;
        let n = self.records.keys.len();
        let rec = Record { bound: true, index: n as u128, de_norm: denorm, balance };
        proof {
            lemma_weight_sum_push(self.records.values@, rec);
        }
        self.records.insert(token, rec);
        self.total_weight = self.total_weight + denorm;
        self.mutex = true;
        self.pending.push(AssetTransfer { token, from: caller, to: this, amount: balance });
        assert forall|u: AccountId| #[trigger] self.record(u) == if u == token { rec } else { old(self).record(u) } by {}
        assert forall|i: int| 0 <= i < self.records.values@.len() implies {
            let r = #[trigger] self.records.values@[i];
            &&& r.bound
            &&& r.index == i
            &&& MIN_WEIGHT <= r.de_norm <= MAX_WEIGHT
        } by {
            if i < n {
                assert(old(self).records.values@[i] == self.records.values@[i]);
            }
        }
        Ok(())
    }

    /// Sets the balance and weight of the bound asset `token`; the controller
    /// pays in or is paid out the change of balance. Controller only, on an
    /// open pool.
    pub fn rebind(&mut self, caller: AccountId, token: AccountId, balance: u128, denorm: u128) -> (r: Result<(), PoolError>)
        requires
            old(self).wf(),
        ensures
            final(self).wf(),
            r == match old(self).rebind_error(caller, token, balance, denorm) {
                Some(e) => Err(e),
                None => Ok::<(), PoolError>(()),
            },
            r is Err ==> *final(self) == *old(self),
            r is Ok ==> final(self).rebind_done(old(self), caller, token, balance, denorm),
    {
        if self.mutex {
            return Err(PoolError::Reentry);
        }
        if caller != self.controller {
            return Err(PoolError::Authorization);
        }
        if !self.is_bound(token) || self.finalized {
            return Err(PoolError::State);
        }
        if denorm < MIN_WEIGHT || denorm > MAX_WEIGHT || balance < MIN_BALANCE {
            return Err(PoolError::Validation);
        }
        let rec = self.get_record(token);
        proof {
            lemma_index_of(self.records.keys@, token);
            lemma_weight_sum_bound(self.records.values@, index_of(self.records.keys@, token));
        }
        let new_total = self.total_weight - rec.de_norm + denorm;
        if new_total > MAX_TOTAL_WEIGHT {
            return Err(PoolError::Validation);
        }
        let this = self.this;
        let factory = self.factory;
        let ghost owed = old(self).rebind_transfers(caller, token, balance);
        if balance > rec.balance {
            self.pending.push(AssetTransfer { token, from: caller, to: this, amount: balance - rec.balance });
        } else if balance < rec.balance {
            let withdrawn = rec.balance - balance;
            let fee = self.exit_fee(withdrawn);
            self.pending.push(AssetTransfer { token, from: this, to: caller, amount: withdrawn - fee });
            self.pending.push(AssetTransfer { token, from: this, to: factory, amount: fee });
        }
        assert(self.pending@ =~= old(self).pending@ + owed);
        self.mutex = true;
        self.total_weight = new_total;
        self.put_record(token, Record { de_norm: denorm, balance, ..rec });
        Ok(())
    }

    /// Removes the bound asset `token`, paying its whole balance, less the exit
    /// fee, to the controller. Controller only, on an open pool.
    pub fn unbind(&mut self, caller: AccountId, token: AccountId) -> (r: Result<(), PoolError>)
        requires
            old(self).wf(),
        ensures
            final(self).wf(),
            r == match old(self).unbind_error(caller, token) {
                Some(e) => Err(e),
                None => Ok::<(), PoolError>(()),
            },
            r is Err ==> *final(self) == *old(self),
            r is Ok ==> final(self).unbind_done(old(self), caller, token),
    {
        if self.mutex {
            return Err(PoolError::Reentry);
        }
        if caller != self.controller {
            return Err(PoolError::Authorization);
        }
        let found = self.records.find(&token);
        if found.is_none() || self.finalized {
            return Err(PoolError::State);
        }
        let i = found.unwrap();
        let rec = self.records.values[i];
        let ghost ov = self.records.values@;
        let ghost ok = self.records.keys@;
        proof {
            lemma_weight_sum_bound(ov, i as int);
            lemma_weight_sum_update(ov, i as int, ov.last());
            assert(ov.update(i as int, ov.last()).last() == ov.last());
        }
        let fee = self.exit_fee(rec.balance);
        let this = self.this;
        let factory = self.factory;
        self.total_weight = self.total_weight - rec.de_norm;
        self.mutex = true;
        self.pending.push(AssetTransfer { token, from: this, to: caller, amount: rec.balance - fee });
        self.pending.push(AssetTransfer { token, from: this, to: factory, amount: fee });
        self.records.swap_remove(i);
        assert(weight_sum(self.records.values@) == self.total_weight);
        let ghost mid = *self;
        if i < self.records.keys.len() {
            let moved_key = self.records.keys[i];
            let moved = self.records.values[i];
            proof {
                lemma_index_of_unique(self.records.keys@, i as int);
                assert(moved == ov.last());
            }
            self.put_record(moved_key, Record { index: i as u128, ..moved });
        } else {
            assert forall|j: int| 0 <= j < self.records.values@.len() implies {
                let r = #[trigger] self.records.values@[j];
                &&& r.bound
                &&& r.index == j
                &&& MIN_WEIGHT <= r.de_norm <= MAX_WEIGHT
            } by {
                assert(self.records.values@[j] == ov[j]);
            }
        }
        assert forall|u: AccountId| u != token implies {
            &&& #[trigger] self.bound(u) == old(self).bound(u)
            &&& self.record(u).de_norm == old(self).record(u).de_norm
            &&& self.record(u).balance == old(self).record(u).balance
        } by {
            assert(mid.bound(u) == old(self).bound(u));
        }
        Ok(())
    }

    /// Why `finalize` fails, where it does.
    pub open spec fn finalize_error(&self, caller: AccountId) -> Option<PoolError> {
        if self.mutex {
            Some(PoolError::Reentry)
        } else if caller != self.controller {
            Some(PoolError::Authorization)
        } else if self.finalized || self.tokens().len() < MIN_BOUND_TOKENS {
            Some(PoolError::State)
        } else {
            None
        }
    }

    /// Freezes the asset set for good, opens swaps to all, and gives the
    /// controller the initial supply of shares. Controller only, with at least
    /// `MIN_BOUND_TOKENS` assets bound.
    pub fn finalize(&mut self, caller: AccountId) -> (r: Result<(), PoolError>)
        requires
            old(self).wf(),
        ensures
            final(self).wf(),
            r == match old(self).finalize_error(caller) {
                Some(e) => Err(e),
                None => Ok::<(), PoolError>(()),
            },
            r is Err ==> *final(self) == *old(self),
            r is Ok ==> {
                &&& final(self).finalized
                &&& final(self).public_swap
                &&& final(self).token.total_supply == INIT_POOL_SUPPLY
                &&& forall|k: AccountId| #[trigger] final(self).token.balance(k) == old(self).token.balance(k) + (if k == caller {
                    INIT_POOL_SUPPLY as int
                } else {
                    0
                })
                &&& final(self).tokens() == old(self).tokens()
                &&& final(self).records == old(self).records
                &&& final(self).total_weight == old(self).total_weight
                &&& final(self).controller == old(self).controller
                &&& final(self).swap_fee == old(self).swap_fee
                &&& final(self).mutex == old(self).mutex
                &&& final(self).pending == old(self).pending
            },
    {
        if self.mutex {
            return Err(PoolError::Reentry);
        }
        if caller != self.controller {
            return Err(PoolError::Authorization);
        }
        if self.finalized || (self.records.keys.len() as u128) < MIN_BOUND_TOKENS {
            return Err(PoolError::State);
        }
        let this = self.this;
        let minted = self.token.mint(this, INIT_POOL_SUPPLY);
        assert(minted is Ok);
        let pushed = self.token.push(this, caller, INIT_POOL_SUPPLY);
        assert(pushed is Ok);
        self.finalized = true;
        self.public_swap = true;
        Ok(())
    }

    /// Sets the swap fee, within `[MIN_FEE, MAX_FEE]`. Controller only, on an
    /// open pool.
    pub fn set_swap_fee(&mut self, caller: AccountId, fee: u128) -> (r: Result<(), PoolError>)
        requires
            old(self).wf(),
        ensures
            final(self).wf(),
            r == if old(self).mutex {
                Err(PoolError::Reentry)
            } else if old(self).finalized {
                Err(PoolError::State)
            } else if caller != old(self).controller {
                Err(PoolError::Authorization)
            } else if fee < MIN_FEE || fee > MAX_FEE {
                Err(PoolError::Validation)
            } else {
                Ok::<(), PoolError>(())
            },
            r is Err ==> *final(self) == *old(self),
            r is Ok ==> *final(self) == (Pool { swap_fee: fee, ..*old(self) }),
    {
        if self.mutex {
            return Err(PoolError::Reentry);
        }
        if self.finalized {
            return Err(PoolError::State);
        }
        if caller != self.controller {
            return Err(PoolError::Authorization);
        }
        if fee < MIN_FEE || fee > MAX_FEE {
            return Err(PoolError::Validation);
        }
        self.swap_fee = fee;
        Ok(())
    }

    /// Hands control to `manager`. Controller only.
    pub fn set_controller(&mut self, caller: AccountId, manager: AccountId) -> (r: Result<(), PoolError>)
        requires
            old(self).wf(),
        ensures
            final(self).wf(),
            r == if old(self).mutex {
                Err(PoolError::Reentry)
            } else if caller != old(self).controller {
                Err(PoolError::Authorization)
            } else {
                Ok::<(), PoolError>(())
            },
            r is Err ==> *final(self) == *old(self),
            r is Ok ==> *final(self) == (Pool { controller: manager, ..*old(self) }),
    {
        if self.mutex {
            return Err(PoolError::Reentry);
        }
        if caller != self.controller {
            return Err(PoolError::Authorization);
        }
        self.controller = manager;
        Ok(())
    }

    /// Opens or closes swaps to all. Controller only, on an open pool.
    pub fn set_public_swap(&mut self, caller: AccountId, public: bool) -> (r: Result<(), PoolError>)
        requires
            old(self).wf(),
        ensures
            final(self).wf(),
            r == if old(self).mutex {
                Err(PoolError::Reentry)
            } else if old(self).finalized {
                Err(PoolError::State)
            } else if caller != old(self).controller {
                Err(PoolError::Authorization)
            } else {
                Ok::<(), PoolError>(())
            },
            r is Err ==> *final(self) == *old(self),
            r is Ok ==> *final(self) == (Pool { public_swap: public, ..*old(self) }),
    {
        if self.mutex {
            return Err(PoolError::Reentry);
        }
        if self.finalized {
            return Err(PoolError::State);
        }
        if caller != self.controller {
            return Err(PoolError::Authorization);
        }
        self.public_swap = public;
        Ok(())
    }

    /// Takes `held`, what the pool's account truly holds of the bound asset
    /// `token` by its ledger, as the pool's balance of it.
    pub fn gulp(&mut self, token: AccountId, held: u128) -> (r: Result<(), PoolError>)
        requires
            old(self).wf(),
        ensures
            final(self).wf(),
            r == if old(self).mutex {
                Err(PoolError::Reentry)
            } else if !old(self).bound(token) {
                Err(PoolError::State)
            } else {
                Ok::<(), PoolError>(())
            },
            r is Err ==> *final(self) == *old(self),
            r is Ok ==> {
                &&& final(self).balance_set(old(self), token, held)
                &&& final(self).mutex == old(self).mutex
                &&& final(self).token == old(self).token
                &&& final(self).pending == old(self).pending
            },
    {
        if self.mutex {
            return Err(PoolError::Reentry);
        }
        if !self.is_bound(token) {
            return Err(PoolError::State);
        }
        self.set_balance(token, held);
        Ok(())
    }
    /// The balances of the bound assets, in order.
    pub open spec fn balances(&self) -> Seq<u128> {
        self.records.values@.map_values(|r: Record| r.balance)
    }

    /// What `join_pool` computes before it changes anything: the amount of
    /// each asset that the caller pays in.
    pub open spec fn join_pool_quote(&self, pool_amount_out: u128, max_amounts_in: Seq<u128>) -> Result<Seq<u128>, PoolError> {
        if !self.finalized {
            Err(PoolError::State)
        } else {
            then(lift_result(div_result(pool_amount_out, self.token.total_supply)), |ratio: u128| {
                if ratio == 0 {
                    Err(PoolError::MathApproximation)
                } else if max_amounts_in.len() != self.tokens().len() {
                    Err(PoolError::Validation)
                } else {
                    match proportional_amounts(ratio, self.balances(), max_amounts_in, self.tokens().len(), true) {
                        Err(e) => Err(e),
                        Ok(amounts) => if self.token.total_supply + pool_amount_out > u128::MAX {
                            Err(PoolError::Arithmetic(MathError::Overflow))
                        } else {
                            Ok(amounts)
                        },
                    }
                }
            })
        }
    }

    /// What `exit_pool` computes before it changes anything: the amount of
    /// each asset that the caller is paid out.
    pub open spec fn exit_pool_quote(&self, caller: AccountId, pool_amount_in: u128, min_amounts_out: Seq<u128>) -> Result<Seq<u128>, PoolError> {
        if !self.finalized {
            Err(PoolError::State)
        } else {
            then(lift_result(mul_result(pool_amount_in, EXIT_FEE)), |fee: u128|
            then(lift_result(sub_result(pool_amount_in, fee)), |after_fee: u128|
            then(lift_result(div_result(after_fee, self.token.total_supply)), |ratio: u128| {
                if ratio == 0 {
                    Err(PoolError::MathApproximation)
                } else if self.token.balance(caller) < pool_amount_in {
                    Err(PoolError::Ledger(Error::InsufficientBalance))
                } else if min_amounts_out.len() != self.tokens().len() {
                    Err(PoolError::Validation)
                } else {
                    proportional_amounts(ratio, self.balances(), min_amounts_out, self.tokens().len(), false)
                }
            })))
        }
    }

    /// The transfers of a proportional join (`join`: from the caller) or exit
    /// (to the caller) of `amounts`.
    pub open spec fn proportional_transfers(&self, caller: AccountId, amounts: Seq<u128>, join: bool) -> Seq<AssetTransfer> {
        Seq::new(amounts.len(), |j: int| if join {
            AssetTransfer { token: self.tokens()[j], from: caller, to: self.this, amount: amounts[j] }
        } else {
            AssetTransfer { token: self.tokens()[j], from: self.this, to: caller, amount: amounts[j] }
        })
    }

    /// The events of a proportional join or exit of `amounts`.
    pub open spec fn proportional_events(&self, caller: AccountId, amounts: Seq<u128>, join: bool) -> Seq<PoolEvent> {
        Seq::new(amounts.len(), |j: int| if join {
            PoolEvent::Join(LogJoin { caller: Some(caller), token_in: Some(self.tokens()[j]), token_amount_in: amounts[j] })
        } else {
            PoolEvent::Exit(LogExit { caller: Some(caller), token_out: Some(self.tokens()[j]), token_amount_out: amounts[j] })
        })
    }

    /// `self` is `old` after a proportional join or exit of `amounts`.
    pub open spec fn proportional_done(&self, old: &Pool, caller: AccountId, amounts: Seq<u128>, join: bool) -> bool {
        &&& self.same_settings(old)
        &&& self.tokens() == old.tokens()
        &&& self.total_weight == old.total_weight
        &&& self.records.values@ == moved_balances(old.records.values@, amounts, join)
        &&& self.mutex
        &&& self.pending@ == old.pending@ + old.proportional_transfers(caller, amounts, join)
        &&& self.events@ == old.events@ + old.proportional_events(caller, amounts, join)
    }

    fn one_amount(&self, ratio: u128, bal: u128, limit: u128, join: bool) -> (r: Result<u128, PoolError>)
        ensures
            r == proportional_amount(ratio, bal, limit, join),
    {
        let amt = lift(self.math.bmul(ratio, bal))?;
        if amt == 0 {
            return Err(PoolError::MathApproximation);
        }
        if join && amt > limit {
            return Err(PoolError::Validation);
        }
        if !join && amt < limit {
            return Err(PoolError::Validation);
        }
        if join {
            lift(self.math.badd(bal, amt))?;
        } else {
            lift(self.math.bsub(bal, amt))?;
        }
        Ok(amt)
    }

    fn quote_proportional(&self, ratio: u128, limits: &Vec<u128>, join: bool) -> (r: Result<Vec<u128>, PoolError>)
        requires
            self.wf(),
            limits.len() == self.tokens().len(),
        ensures
            match r {
                Ok(v) => proportional_amounts(ratio, self.balances(), limits@, self.tokens().len(), join) == Ok::<
                    Seq<u128>,
                    PoolError,
                >(v@),
                Err(e) => proportional_amounts(ratio, self.balances(), limits@, self.tokens().len(), join) == Err::<
                    Seq<u128>,
                    PoolError,
                >(e),
            },
    {
        let n = self.records.keys.len();
        let ghost bals = self.balances();
        let mut amounts: Vec<u128> = Vec::new();
        let mut i: usize = 0;
        while i < n
            invariant
                n == self.tokens().len(),
                n == self.records.values.len(),
                limits.len() == n,
                i <= n,
                bals == self.balances(),
                proportional_amounts(ratio, bals, limits@, i as nat, join) == Ok::<Seq<u128>, PoolError>(amounts@),
            decreases n - i,
        {
            let bal = self.records.values[i].balance;
            assert(bal == bals[i as int]);
            match self.one_amount(ratio, bal, limits[i], join) {
                Err(e) => {
                    proof {
                        lemma_amounts_stop(ratio, bals, limits@, (i + 1) as nat, n as nat, join);
                    }
                    return Err(e);
                },
                Ok(a) => {
                    amounts.push(a);
                },
            }
            i = i + 1;
        }
        Ok(amounts)
    }

    /// Moves the balance of each asset by the amount at its position, and
    /// queues the matching transfers and events.
    fn apply_proportional(&mut self, caller: AccountId, amounts: &Vec<u128>, join: bool)
        requires
            old(self).wf(),
            amounts.len() == old(self).tokens().len(),
            forall|j: int| 0 <= j < amounts.len() ==> if join {
                #[trigger] amounts@[j] + old(self).records.values@[j].balance <= u128::MAX
            } else {
                amounts@[j] <= old(self).records.values@[j].balance
            },
        ensures
            final(self).wf(),
            final(self).proportional_done(old(self), caller, amounts@, join),
            final(self).token == old(self).token,
    {
        let n = self.records.keys.len();
        let this = self.this;
        let ghost start = *old(self);
        let mut i: usize = 0;
        while i < n
            invariant
                n == start.tokens().len(),
                n == start.records.values@.len(),
                amounts.len() == n,
                i <= n,
                self.records.keys@ == start.records.keys@,
                self.records.values.len() == n,
                self.records.wf(),
                self.records_ok(),
                weight_sum(self.records.values@) == self.total_weight,
                self.this == this,
                this == start.this,
                self.same_settings(&start),
                self.total_weight == start.total_weight,
                self.token == start.token,
                forall|j: int| 0 <= j < amounts.len() ==> if join {
                    #[trigger] amounts@[j] + start.records.values@[j].balance <= u128::MAX
                } else {
                    amounts@[j] <= start.records.values@[j].balance
                },
                forall|j: int| 0 <= j < n ==> #[trigger] self.records.values@[j] == if j < i {
                    moved_balances(start.records.values@, amounts@, join)[j]
                } else {
                    start.records.values@[j]
                },
                self.pending@ == start.pending@ + start.proportional_transfers(caller, amounts@, join).take(i as int),
                self.events@ == start.events@ + start.proportional_events(caller, amounts@, join).take(i as int),
            decreases n - i,
        {
            let rec = self.records.values[i];
            let token = self.records.keys[i];
            let amt = amounts[i];
            let new_rec = if join {
                Record { balance: rec.balance + amt, ..rec }
            } else {
                Record { balance: rec.balance - amt, ..rec }
            };
            assert(rec == start.records.values@[i as int]);
            assert(amt == amounts@[i as int]);
            proof {
                lemma_weight_sum_update(self.records.values@, i as int, new_rec);
            }
            let ghost prev = self.records.values@;
            self.records.values.set(i, new_rec);
            assert(moved_balances(start.records.values@, amounts@, join)[i as int] == new_rec);
            assert forall|j: int| 0 <= j < n implies #[trigger] self.records.values@[j] == if j < i + 1 {
                moved_balances(start.records.values@, amounts@, join)[j]
            } else {
                start.records.values@[j]
            } by {
                if j != i {
                    assert(self.records.values@[j] == prev[j]);
                }
            }
            if join {
                self.pending.push(AssetTransfer { token, from: caller, to: this, amount: amt });
                self.events.push(PoolEvent::Join(LogJoin { caller: Some(caller), token_in: Some(token), token_amount_in: amt }));
            } else {
                self.pending.push(AssetTransfer { token, from: this, to: caller, amount: amt });
                self.events.push(PoolEvent::Exit(LogExit { caller: Some(caller), token_out: Some(token), token_amount_out: amt }));
            }
            assert(self.pending@ =~= start.pending@ + start.proportional_transfers(caller, amounts@, join).take(i + 1));
            assert(self.events@ =~= start.events@ + start.proportional_events(caller, amounts@, join).take(i + 1));
            i = i + 1;
        }
        self.mutex = true;
        assert(self.records.values@ =~= moved_balances(start.records.values@, amounts@, join));
        assert(start.proportional_transfers(caller, amounts@, join).take(n as int) =~= start.proportional_transfers(caller, amounts@, join));
        assert(start.proportional_events(caller, amounts@, join).take(n as int) =~= start.proportional_events(caller, amounts@, join));
    }

    /// `self` is `old` after a successful `join_pool` that paid in `amounts`.
    pub open spec fn join_pool_done(&self, old: &Pool, caller: AccountId, pool_amount_out: u128, amounts: Seq<u128>) -> bool {
        &&& self.proportional_done(old, caller, amounts, true)
        &&& self.token.total_supply == old.token.total_supply + pool_amount_out
        &&& forall|k: AccountId| #[trigger] self.token.balance(k) == old.token.balance(k) + (if k == caller {
            pool_amount_out as int
        } else {
            0
        })
    }

    /// Gives the caller exactly `pool_amount_out` new shares for a
    /// proportional deposit of every asset, each no more than the caller's cap
    /// at its position in `max_amounts_in`. Finalized pools only.
    pub fn join_pool(&mut self, caller: AccountId, pool_amount_out: u128, max_amounts_in: Vec<u128>) -> (r: Result<(), PoolError>)
        requires
            old(self).wf(),
        ensures
            final(self).wf(),
            old(self).mutex ==> r == Err::<(), PoolError>(PoolError::Reentry),
            !old(self).mutex ==> match old(self).join_pool_quote(pool_amount_out, max_amounts_in@) {
                Ok(_) => r == Ok::<(), PoolError>(()),
                Err(e) => r == Err::<(), PoolError>(e),
            },
            r is Err ==> *final(self) == *old(self),
            r is Ok ==> final(self).join_pool_done(
                old(self),
                caller,
                pool_amount_out,
                old(self).join_pool_quote(pool_amount_out, max_amounts_in@)->Ok_0,
            ),
    {
        if self.mutex {
            return Err(PoolError::Reentry);
        }
        if !self.finalized {
            return Err(PoolError::State);
        }
        let ratio = lift(self.math.bdiv(pool_amount_out, self.token.total_supply))?;
        if ratio == 0 {
            return Err(PoolError::MathApproximation);
        }
        if max_amounts_in.len() != self.records.keys.len() {
            return Err(PoolError::Validation);
        }
        let amounts = self.quote_proportional(ratio, &max_amounts_in, true)?;
        if pool_amount_out > u128::MAX - self.token.total_supply {
            return Err(PoolError::Arithmetic(MathError::Overflow));
        }
        proof {
            lemma_amounts_len(ratio, self.balances(), max_amounts_in@, self.tokens().len(), true);
            assert forall|j: int| 0 <= j < amounts.len() implies #[trigger] amounts@[j] + self.records.values@[j].balance
                <= u128::MAX by {
                assert(self.balances()[j] == self.records.values@[j].balance);
                assert(proportional_amount(ratio, self.balances()[j], max_amounts_in@[j], true) == Ok::<u128, PoolError>(amounts@[j]));
            }
        }
        self.apply_proportional(caller, &amounts, true);
        self.mint_shares_to(caller, pool_amount_out);
        Ok(())
    }

    /// Takes exactly `pool_amount_in` of the caller's shares for a
    /// proportional withdrawal of every asset, each no less than the caller's
    /// floor at its position in `min_amounts_out`. The exit fee on the shares
    /// goes to the fee collector, the rest is burnt. Finalized pools only.
    pub fn exit_pool(&mut self, caller: AccountId, pool_amount_in: u128, min_amounts_out: Vec<u128>) -> (r: Result<(), PoolError>)
        requires
            old(self).wf(),
        ensures
            final(self).wf(),
            old(self).mutex ==> r == Err::<(), PoolError>(PoolError::Reentry),
            !old(self).mutex ==> match old(self).exit_pool_quote(caller, pool_amount_in, min_amounts_out@) {
                Ok(_) => r == Ok::<(), PoolError>(()),
                Err(e) => r == Err::<(), PoolError>(e),
            },
            r is Err ==> *final(self) == *old(self),
            r is Ok ==> {
                let amounts = old(self).exit_pool_quote(caller, pool_amount_in, min_amounts_out@)->Ok_0;
                &&& final(self).proportional_done(old(self), caller, amounts, false)
                &&& final(self).shares_taken(old(self), caller, pool_amount_in, Self::exit_fee_on(pool_amount_in))
            },
    {
        if self.mutex {
            return Err(PoolError::Reentry);
        }
        if !self.finalized {
            return Err(PoolError::State);
        }
        let fee = lift(self.math.bmul(pool_amount_in, EXIT_FEE))?;
        let after_fee = lift(self.math.bsub(pool_amount_in, fee))?;
        let ratio = lift(self.math.bdiv(after_fee, self.token.total_supply))?;
        if ratio == 0 {
            return Err(PoolError::MathApproximation);
        }
        if self.token.balance_of(caller) < pool_amount_in {
            return Err(PoolError::Ledger(Error::InsufficientBalance));
        }
        if min_amounts_out.len() != self.records.keys.len() {
            return Err(PoolError::Validation);
        }
        let amounts = self.quote_proportional(ratio, &min_amounts_out, false)?;
        proof {
            lemma_amounts_len(ratio, self.balances(), min_amounts_out@, self.tokens().len(), false);
            assert forall|j: int| 0 <= j < amounts.len() implies #[trigger] amounts@[j] <= self.records.values@[j].balance by {
                assert(self.balances()[j] == self.records.values@[j].balance);
                assert(proportional_amount(ratio, self.balances()[j], min_amounts_out@[j], false) == Ok::<u128, PoolError>(amounts@[j]));
            }
        }
        let fee = self.exit_fee(pool_amount_in);
        self.apply_proportional(caller, &amounts, false);
        self.take_shares(caller, pool_amount_in, fee);
        Ok(())
    }

    /// `self` is `old` with `amount` shares taken from `from`: `fee` of them
    /// to the fee collector, the rest burnt.
    pub open spec fn shares_taken(&self, old: &Pool, from: AccountId, amount: u128, fee: u128) -> bool {
        &&& self.token.total_supply == old.token.total_supply - (amount - fee)
        &&& forall|k: AccountId| #[trigger] self.token.balance(k) == old.token.balance(k) - (if k == from {
            amount as int
        } else {
            0
        }) + (if k == old.factory { fee as int } else { 0 })
    }

    /// Mints `amount` new shares for `to`.
    fn mint_shares_to(&mut self, to: AccountId, amount: u128)
        requires
            old(self).wf(),
            old(self).finalized,
            old(self).token.total_supply + amount <= u128::MAX,
        ensures
            final(self).wf(),
            final(self).token.total_supply == old(self).token.total_supply + amount,
            forall|k: AccountId| #[trigger] final(self).token.balance(k) == old(self).token.balance(k) + (if k == to {
                amount as int
            } else {
                0
            }),
            final(self).records == old(self).records,
            final(self).same_setup(old(self)),
            final(self).mutex == old(self).mutex,
            final(self).pending == old(self).pending,
            final(self).events == old(self).events,
    {
        let this = self.this;
        let minted = self.token.mint(this, amount);
        assert(minted is Ok);
        let pushed = self.token.push(this, to, amount);
        assert(pushed is Ok);
    }

    /// Takes `amount` shares from `from`: `fee` to the fee collector, the rest
    /// burnt.
    fn take_shares(&mut self, from: AccountId, amount: u128, fee: u128)
        requires
            old(self).wf(),
            old(self).finalized,
            old(self).token.balance(from) >= amount,
            fee <= amount,
        ensures
            final(self).wf(),
            final(self).shares_taken(old(self), from, amount, fee),
            final(self).records == old(self).records,
            final(self).same_setup(old(self)),
            final(self).mutex == old(self).mutex,
            final(self).pending == old(self).pending,
            final(self).events == old(self).events,
    {
        let this = self.this;
        let factory = self.factory;
        let pulled = self.token.pull(this, from, amount);
        assert(pulled is Ok);
        let pushed = self.token.push(this, factory, fee);
        assert(pushed is Ok);
        let burnt = self.token.burn(this, amount - fee);
        assert(burnt is Ok);
    }
    /// What `join_swap_extern_amount_in` computes before it changes anything:
    /// the shares out and the new balance of `token_in`.
    pub open spec fn join_extern_quote(&self, token_in: AccountId, token_amount_in: u128, min_pool_amount_out: u128) -> Result<(u128, u128), PoolError> {
        let r = self.record(token_in);
        let supply = self.token.total_supply;
        if !self.finalized || !self.bound(token_in) {
            Err(PoolError::State)
        } else {
            then(lift_result(mul_result(r.balance, MAX_IN_RATIO)), |cap: u128| {
            if token_amount_in > cap { Err(PoolError::Validation) } else {
            then(lift_result(pool_out_given_single_in_result(r.balance, r.de_norm, supply, self.total_weight, token_amount_in, self.swap_fee)), |pao: u128| {
            if pao == 0 { Err(PoolError::MathApproximation) }
            else if pao < min_pool_amount_out { Err(PoolError::Validation) } else {
            then(lift_result(add_result(r.balance, token_amount_in)), |new_bal: u128| {
            if supply + pao > u128::MAX { Err(PoolError::Arithmetic(MathError::Overflow)) } else { Ok((pao, new_bal)) } })
            } })
            } })
        }
    }

    /// What `join_swap_pool_amount_out` computes before it changes anything:
    /// the amount in and the new balance of `token_in`.
    pub open spec fn join_pool_out_quote(&self, token_in: AccountId, pool_amount_out: u128, max_amount_in: u128) -> Result<(u128, u128), PoolError> {
        let r = self.record(token_in);
        let supply = self.token.total_supply;
        if !self.finalized || !self.bound(token_in) {
            Err(PoolError::State)
        } else {
            then(lift_result(single_in_given_pool_out_result(r.balance, r.de_norm, supply, self.total_weight, pool_amount_out, self.swap_fee)), |ai: u128| {
            if ai == 0 { Err(PoolError::MathApproximation) }
            else if ai > max_amount_in { Err(PoolError::Validation) } else {
            then(lift_result(mul_result(r.balance, MAX_IN_RATIO)), |cap: u128| {
            if ai > cap { Err(PoolError::Validation) } else {
            then(lift_result(add_result(r.balance, ai)), |new_bal: u128| {
            if supply + pool_amount_out > u128::MAX { Err(PoolError::Arithmetic(MathError::Overflow)) } else { Ok((ai, new_bal)) } })
            } })
            } })
        }
    }

    /// What `exit_swap_pool_amount_in` computes before it changes anything:
    /// the amount out and the new balance of `token_out`.
    pub open spec fn exit_pool_in_quote(&self, caller: AccountId, token_out: AccountId, pool_amount_in: u128, min_amount_out: u128) -> Result<(u128, u128), PoolError> {
        let r = self.record(token_out);
        let supply = self.token.total_supply;
        if !self.finalized || !self.bound(token_out) {
            Err(PoolError::State)
        } else {
            then(lift_result(single_out_given_pool_in_result(r.balance, r.de_norm, supply, self.total_weight, pool_amount_in, self.swap_fee)), |ao: u128| {
            if ao == 0 { Err(PoolError::MathApproximation) }
            else if ao < min_amount_out { Err(PoolError::Validation) } else {
            then(lift_result(mul_result(r.balance, MAX_OUT_RATIO)), |cap: u128| {
            if ao > cap { Err(PoolError::Validation) } else {
            then(lift_result(sub_result(r.balance, ao)), |new_bal: u128|
            then(lift_result(mul_result(pool_amount_in, EXIT_FEE)), |fee: u128| {
            if self.token.balance(caller) < pool_amount_in { Err(PoolError::Ledger(Error::InsufficientBalance)) } else {
            then(lift_result(sub_result(pool_amount_in, fee)), |_burnt: u128| Ok((ao, new_bal))) } }))
            } })
            } })
        }
    }

    /// What `exit_swap_extern_amount_out` computes before it changes anything:
    /// the shares in and the new balance of `token_out`.
    pub open spec fn exit_extern_quote(&self, caller: AccountId, token_out: AccountId, token_amount_out: u128, max_pool_amount_in: u128) -> Result<(u128, u128), PoolError> {
        let r = self.record(token_out);
        let supply = self.token.total_supply;
        if !self.finalized || !self.bound(token_out) {
            Err(PoolError::State)
        } else {
            then(lift_result(mul_result(r.balance, MAX_OUT_RATIO)), |cap: u128| {
            if token_amount_out > cap { Err(PoolError::Validation) } else {
            then(lift_result(pool_in_given_single_out_result(r.balance, r.de_norm, supply, self.total_weight, token_amount_out, self.swap_fee)), |pai: u128| {
            if pai == 0 { Err(PoolError::MathApproximation) }
            else if pai > max_pool_amount_in { Err(PoolError::Validation) } else {
            then(lift_result(sub_result(r.balance, token_amount_out)), |new_bal: u128|
            then(lift_result(mul_result(pai, EXIT_FEE)), |fee: u128| {
            if self.token.balance(caller) < pai { Err(PoolError::Ledger(Error::InsufficientBalance)) } else {
            then(lift_result(sub_result(pai, fee)), |_burnt: u128| Ok((pai, new_bal))) } }))
            } })
            } })
        }
    }

    /// Pays exactly `token_amount_in` of `token_in` into a finalized pool for
    /// as many new shares as the pricing gives, if at least
    /// `min_pool_amount_out`. Returns the shares out.
    pub fn join_swap_extern_amount_in(
        &mut self,
        caller: AccountId,
        token_in: AccountId,
        token_amount_in: u128,
        min_pool_amount_out: u128,
    ) -> (r: Result<u128, PoolError>)
        requires
            old(self).wf(),
        ensures
            final(self).wf(),
            old(self).mutex ==> r == Err::<u128, PoolError>(PoolError::Reentry),
            !old(self).mutex ==> match old(self).join_extern_quote(token_in, token_amount_in, min_pool_amount_out) {
                Ok(q) => r == Ok::<u128, PoolError>(q.0),
                Err(e) => r == Err::<u128, PoolError>(e),
            },
            r is Err ==> *final(self) == *old(self),
            r matches Ok(pao) ==> {
                let q = old(self).join_extern_quote(token_in, token_amount_in, min_pool_amount_out)->Ok_0;
                &&& final(self).balance_set(old(self), token_in, q.1)
                &&& final(self).mutex
                &&& final(self).token.total_supply == old(self).token.total_supply + pao
                &&& forall|k: AccountId| #[trigger] final(self).token.balance(k) == old(self).token.balance(k) + (if k == caller {
                    pao as int
                } else {
                    0
                })
                &&& final(self).pending@ == old(self).pending@.push(
                    AssetTransfer { token: token_in, from: caller, to: old(self).this, amount: token_amount_in },
                )
                &&& final(self).events@ == old(self).events@.push(
                    PoolEvent::Join(LogJoin { caller: Some(caller), token_in: Some(token_in), token_amount_in }),
                )
            },
    {
        if self.mutex {
            return Err(PoolError::Reentry);
        }
        if !self.finalized || !self.is_bound(token_in) {
            return Err(PoolError::State);
        }
        let r = self.get_record(token_in);
        let supply = self.token.total_supply;
        let cap = lift(self.math.bmul(r.balance, MAX_IN_RATIO))?;
        if token_amount_in > cap {
            return Err(PoolError::Validation);
        }
        let pao = lift(self.base.calc_pool_out_given_single_in(r.balance, r.de_norm, supply, self.total_weight, token_amount_in, self.swap_fee))?;
        if pao == 0 {
            return Err(PoolError::MathApproximation);
        }
        if pao < min_pool_amount_out {
            return Err(PoolError::Validation);
        }
        let new_bal = lift(self.math.badd(r.balance, token_amount_in))?;
        if pao > u128::MAX - supply {
            return Err(PoolError::Arithmetic(MathError::Overflow));
        }
        let this = self.this;
        self.mutex = true;
        self.pending.push(AssetTransfer { token: token_in, from: caller, to: this, amount: token_amount_in });
        self.events.push(PoolEvent::Join(LogJoin { caller: Some(caller), token_in: Some(token_in), token_amount_in }));
        self.set_balance(token_in, new_bal);
        self.mint_shares_to(caller, pao);
        Ok(pao)
    }

    /// Mints exactly `pool_amount_out` new shares of a finalized pool for as
    /// little `token_in` as the pricing asks, if no more than `max_amount_in`.
    /// Returns the amount in.
    pub fn join_swap_pool_amount_out(
        &mut self,
        caller: AccountId,
        token_in: AccountId,
        pool_amount_out: u128,
        max_amount_in: u128,
    ) -> (r: Result<u128, PoolError>)
        requires
            old(self).wf(),
        ensures
            final(self).wf(),
            old(self).mutex ==> r == Err::<u128, PoolError>(PoolError::Reentry),
            !old(self).mutex ==> match old(self).join_pool_out_quote(token_in, pool_amount_out, max_amount_in) {
                Ok(q) => r == Ok::<u128, PoolError>(q.0),
                Err(e) => r == Err::<u128, PoolError>(e),
            },
            r is Err ==> *final(self) == *old(self),
            r matches Ok(ai) ==> {
                let q = old(self).join_pool_out_quote(token_in, pool_amount_out, max_amount_in)->Ok_0;
                &&& final(self).balance_set(old(self), token_in, q.1)
                &&& final(self).mutex
                &&& final(self).token.total_supply == old(self).token.total_supply + pool_amount_out
                &&& forall|k: AccountId| #[trigger] final(self).token.balance(k) == old(self).token.balance(k) + (if k == caller {
                    pool_amount_out as int
                } else {
                    0
                })
                &&& final(self).pending@ == old(self).pending@.push(
                    AssetTransfer { token: token_in, from: caller, to: old(self).this, amount: ai },
                )
                &&& final(self).events@ == old(self).events@.push(
                    PoolEvent::Join(LogJoin { caller: Some(caller), token_in: Some(token_in), token_amount_in: ai }),
                )
            },
    {
        if self.mutex {
            return Err(PoolError::Reentry);
        }
        if !self.finalized || !self.is_bound(token_in) {
            return Err(PoolError::State);
        }
        let r = self.get_record(token_in);
        let supply = self.token.total_supply;
        let ai = lift(self.base.calc_single_in_given_pool_out(r.balance, r.de_norm, supply, self.total_weight, pool_amount_out, self.swap_fee))?;
        if ai == 0 {
            return Err(PoolError::MathApproximation);
        }
        if ai > max_amount_in {
            return Err(PoolError::Validation);
        }
        let cap = lift(self.math.bmul(r.balance, MAX_IN_RATIO))?;
        if ai > cap {
            return Err(PoolError::Validation);
        }
        let new_bal = lift(self.math.badd(r.balance, ai))?;
        if pool_amount_out > u128::MAX - supply {
            return Err(PoolError::Arithmetic(MathError::Overflow));
        }
        let this = self.this;
        self.mutex = true;
        self.pending.push(AssetTransfer { token: token_in, from: caller, to: this, amount: ai });
        self.events.push(PoolEvent::Join(LogJoin { caller: Some(caller), token_in: Some(token_in), token_amount_in: ai }));
        self.set_balance(token_in, new_bal);
        self.mint_shares_to(caller, pool_amount_out);
        Ok(ai)
    }

    /// Takes exactly `pool_amount_in` of the caller's shares of a finalized
    /// pool for as much `token_out` as the pricing gives, if at least
    /// `min_amount_out`. Returns the amount out.
    pub fn exit_swap_pool_amount_in(
        &mut self,
        caller: AccountId,
        token_out: AccountId,
        pool_amount_in: u128,
        min_amount_out: u128,
    ) -> (r: Result<u128, PoolError>)
        requires
            old(self).wf(),
        ensures
            final(self).wf(),
            old(self).mutex ==> r == Err::<u128, PoolError>(PoolError::Reentry),
            !old(self).mutex ==> match old(self).exit_pool_in_quote(caller, token_out, pool_amount_in, min_amount_out) {
                Ok(q) => r == Ok::<u128, PoolError>(q.0),
                Err(e) => r == Err::<u128, PoolError>(e),
            },
            r is Err ==> *final(self) == *old(self),
            r matches Ok(ao) ==> {
                let q = old(self).exit_pool_in_quote(caller, token_out, pool_amount_in, min_amount_out)->Ok_0;
                &&& final(self).balance_set(old(self), token_out, q.1)
                &&& final(self).mutex
                &&& final(self).shares_taken(old(self), caller, pool_amount_in, Self::exit_fee_on(pool_amount_in))
                &&& final(self).pending@ == old(self).pending@.push(
                    AssetTransfer { token: token_out, from: old(self).this, to: caller, amount: ao },
                )
                &&& final(self).events@ == old(self).events@.push(
                    PoolEvent::Exit(LogExit { caller: Some(caller), token_out: Some(token_out), token_amount_out: ao }),
                )
            },
    {
        if self.mutex {
            return Err(PoolError::Reentry);
        }
        if !self.finalized || !self.is_bound(token_out) {
            return Err(PoolError::State);
        }
        let r = self.get_record(token_out);
        let supply = self.token.total_supply;
        let ao = lift(self.base.calc_single_out_given_pool_in(r.balance, r.de_norm, supply, self.total_weight, pool_amount_in, self.swap_fee))?;
        if ao == 0 {
            return Err(PoolError::MathApproximation);
        }
        if ao < min_amount_out {
            return Err(PoolError::Validation);
        }
        let cap = lift(self.math.bmul(r.balance, MAX_OUT_RATIO))?;
        if ao > cap {
            return Err(PoolError::Validation);
        }
        let new_bal = lift(self.math.bsub(r.balance, ao))?;
        let fee = lift(self.math.bmul(pool_amount_in, EXIT_FEE))?;
        if self.token.balance_of(caller) < pool_amount_in {
            return Err(PoolError::Ledger(Error::InsufficientBalance));
        }
        lift(self.math.bsub(pool_amount_in, fee))?;
        let this = self.this;
        self.mutex = true;
        self.pending.push(AssetTransfer { token: token_out, from: this, to: caller, amount: ao });
        self.events.push(PoolEvent::Exit(LogExit { caller: Some(caller), token_out: Some(token_out), token_amount_out: ao }));
        self.set_balance(token_out, new_bal);
        self.take_shares(caller, pool_amount_in, fee);
        Ok(ao)
    }

    /// Pays exactly `token_amount_out` of `token_out` out of a finalized pool
    /// for as few of the caller's shares as the pricing asks, if no more than
    /// `max_pool_amount_in`. Returns the shares in.
    pub fn exit_swap_extern_amount_out(
        &mut self,
        caller: AccountId,
        token_out: AccountId,
        token_amount_out: u128,
        max_pool_amount_in: u128,
    ) -> (r: Result<u128, PoolError>)
        requires
            old(self).wf(),
        ensures
            final(self).wf(),
            old(self).mutex ==> r == Err::<u128, PoolError>(PoolError::Reentry),
            !old(self).mutex ==> match old(self).exit_extern_quote(caller, token_out, token_amount_out, max_pool_amount_in) {
                Ok(q) => r == Ok::<u128, PoolError>(q.0),
                Err(e) => r == Err::<u128, PoolError>(e),
            },
            r is Err ==> *final(self) == *old(self),
            r matches Ok(pai) ==> {
                let q = old(self).exit_extern_quote(caller, token_out, token_amount_out, max_pool_amount_in)->Ok_0;
                &&& final(self).balance_set(old(self), token_out, q.1)
                &&& final(self).mutex
                &&& final(self).shares_taken(old(self), caller, pai, Self::exit_fee_on(pai))
                &&& final(self).pending@ == old(self).pending@.push(
                    AssetTransfer { token: token_out, from: old(self).this, to: caller, amount: token_amount_out },
                )
                &&& final(self).events@ == old(self).events@.push(
                    PoolEvent::Exit(LogExit { caller: Some(caller), token_out: Some(token_out), token_amount_out }),
                )
            },
    {
        if self.mutex {
            return Err(PoolError::Reentry);
        }
        if !self.finalized || !self.is_bound(token_out) {
            return Err(PoolError::State);
        }
        let r = self.get_record(token_out);
        let supply = self.token.total_supply;
        let cap = lift(self.math.bmul(r.balance, MAX_OUT_RATIO))?;
        if token_amount_out > cap {
            return Err(PoolError::Validation);
        }
        let pai = lift(self.base.calc_pool_in_given_single_out(r.balance, r.de_norm, supply, self.total_weight, token_amount_out, self.swap_fee))?;
        if pai == 0 {
            return Err(PoolError::MathApproximation);
        }
        if pai > max_pool_amount_in {
            return Err(PoolError::Validation);
        }
        let new_bal = lift(self.math.bsub(r.balance, token_amount_out))?;
        let fee = lift(self.math.bmul(pai, EXIT_FEE))?;
        if self.token.balance_of(caller) < pai {
            return Err(PoolError::Ledger(Error::InsufficientBalance));
        }
        lift(self.math.bsub(pai, fee))?;
        let this = self.this;
        self.mutex = true;
        self.pending.push(AssetTransfer { token: token_out, from: this, to: caller, amount: token_amount_out });
        self.events.push(PoolEvent::Exit(LogExit { caller: Some(caller), token_out: Some(token_out), token_amount_out }));
        self.set_balance(token_out, new_bal);
        self.take_shares(caller, pai, fee);
        Ok(pai)
    }
}

/// Binding an asset, releasing the call, rebinding the asset with any other
/// weight, releasing, and unbinding it gives back the total weight from
/// before the bind.
pub proof fn lemma_bind_rebind_unbind_total_weight(
    before: Pool,
    bound: Pool,
    bound_released: Pool,
    rebound: Pool,
    rebound_released: Pool,
    after: Pool,
    caller: AccountId,
    token: AccountId,
    balance: u128,
    denorm: u128,
    balance2: u128,
    denorm2: u128,
)
    requires
        bound.bind_done(&before, caller, token, balance, denorm),
        bound_released.release_done(&bound),
        rebound.rebind_done(&bound_released, caller, token, balance2, denorm2),
        rebound_released.release_done(&rebound),
        after.unbind_done(&rebound_released, caller, token),
    ensures
        after.total_weight == before.total_weight,
{
    assert(bound.record(token).de_norm == denorm);
    assert(bound_released.record(token) == bound.record(token));
    assert(rebound.record(token).de_norm == denorm2);
    assert(rebound_released.record(token) == rebound.record(token));
}

/// A proportional join, then, once its call is released, a proportional exit
/// of the same shares: of each asset, the join pays in no more than the
/// caller's cap, and the exit pays out no more than what the join paid in,
/// but for the rounding of the fixed-point steps:
/// `out < in + 1 + (2 * b + in) / (2 * BONE)`, `b` the balance before the join.
pub proof fn lemma_join_then_exit(
    before: Pool,
    joined: Pool,
    released: Pool,
    caller: AccountId,
    pool_amount: u128,
    max_amounts_in: Seq<u128>,
    min_amounts_out: Seq<u128>,
)
    requires
        before.wf(),
        before.join_pool_quote(pool_amount, max_amounts_in) is Ok,
        joined.join_pool_done(&before, caller, pool_amount, before.join_pool_quote(pool_amount, max_amounts_in)->Ok_0),
        released.release_done(&joined),
        released.exit_pool_quote(caller, pool_amount, min_amounts_out) is Ok,
    ensures
        forall|i: int| 0 <= i < before.tokens().len() ==> {
            let paid = #[trigger] before.join_pool_quote(pool_amount, max_amounts_in)->Ok_0[i];
            let got = released.exit_pool_quote(caller, pool_amount, min_amounts_out)->Ok_0[i];
            &&& paid <= max_amounts_in[i]
            &&& 2 * BONE * got < 2 * BONE * (paid + 1) + 2 * before.balances()[i] + paid
        },
{
    let n = before.tokens().len();
    let t = before.token.total_supply;
    let r1 = div_result(pool_amount, t)->Ok_0;
    let ins = before.join_pool_quote(pool_amount, max_amounts_in)->Ok_0;
    assert(div_result(pool_amount, t) is Ok);
    assert(proportional_amounts(r1, before.balances(), max_amounts_in, n, true) == Ok::<Seq<u128>, PoolError>(ins));
    lemma_amounts_len(r1, before.balances(), max_amounts_in, n, true);
    let s = released.token.total_supply;
    assert(s == t + pool_amount);
    assert(mul_result(pool_amount, EXIT_FEE) == Ok::<u128, MathError>(0));
    assert(sub_result(pool_amount, 0) == Ok::<u128, MathError>(pool_amount));
    let r2 = div_result(pool_amount, s)->Ok_0;
    let outs = released.exit_pool_quote(caller, pool_amount, min_amounts_out)->Ok_0;
    assert(div_result(pool_amount, s) is Ok);
    assert(released.tokens().len() == n);
    assert(proportional_amounts(r2, released.balances(), min_amounts_out, n, false) == Ok::<Seq<u128>, PoolError>(outs));
    lemma_amounts_len(r2, released.balances(), min_amounts_out, n, false);
    assert forall|i: int| 0 <= i < n implies {
        let paid = #[trigger] ins[i];
        let got = outs[i];
        &&& paid <= max_amounts_in[i]
        &&& 2 * BONE * got < 2 * BONE * (paid + 1) + 2 * before.balances()[i] + paid
    } by {
        let b = before.balances()[i];
        assert(proportional_amount(r1, b, max_amounts_in[i], true) == Ok::<u128, PoolError>(ins[i]));
        assert(mul_result(r1, b) == Ok::<u128, MathError>(ins[i]));
        assert(add_result(b, ins[i]) is Ok);
        assert(released.records == joined.records);
        assert(released.balances()[i] == joined.records.values@[i].balance);
        assert(joined.records.values@[i] == moved_balances(before.records.values@, ins, true)[i]);
        assert(released.balances()[i] == b + ins[i]);
        assert(proportional_amount(r2, released.balances()[i], min_amounts_out[i], false) == Ok::<u128, PoolError>(outs[i]));
        assert(mul_result(r2, (b + ins[i]) as u128) == Ok::<u128, MathError>(outs[i]));
        lemma_share_round_trip(pool_amount, t, b);
    }
}

} // verus!
