//! The pricing formulas of a weighted pool, over the fixed-point arithmetic of
//! `math`. Each is a fixed sequence of rounded operations; the spec function
//! beside it states that sequence, and any failing step fails the formula.
use vstd::prelude::*;
use crate::math::{
    add_result, div_result, mul_result, pow_result, sub_result, Math, MathError, BONE, EXIT_FEE,
};

verus! {

/// Feeds the value of `r` to `f`, or passes its error on.
pub open spec fn and_then(
    r: Result<u128, MathError>,
    f: spec_fn(u128) -> Result<u128, MathError>,
) -> Result<u128, MathError> {
    match r {
        Ok(v) => f(v),
        Err(e) => Err(e),
    }
}

/// Spot price `(bI / wI) / (bO / wO) / (1 - sF)`.
pub open spec fn spot_price_result(bi: u128, wi: u128, bo: u128, wo: u128, fee: u128) -> Result<u128, MathError> {
    and_then(div_result(bi, wi), |numer: u128|
    and_then(div_result(bo, wo), |denom: u128|
    and_then(div_result(numer, denom), |ratio: u128|
    and_then(sub_result(BONE, fee), |keep: u128|
    and_then(div_result(BONE, keep), |scale: u128|
    mul_result(ratio, scale))))))
}

/// Amount out for an exact amount in:
/// `bO * (1 - (bI / (bI + aI * (1 - sF)))^(wI / wO))`.
pub open spec fn out_given_in_result(bi: u128, wi: u128, bo: u128, wo: u128, ai: u128, fee: u128) -> Result<u128, MathError> {
    and_then(div_result(wi, wo), |weight_ratio: u128|
    and_then(sub_result(BONE, fee), |fee_in: u128|
    and_then(mul_result(ai, fee_in), |adjusted_in: u128|
    and_then(add_result(bi, adjusted_in), |grown: u128|
    and_then(div_result(bi, grown), |y: u128|
    and_then(pow_result(y, weight_ratio), |foo: u128|
    and_then(sub_result(BONE, foo), |bar: u128|
    mul_result(bo, bar))))))))
}

/// Amount in for an exact amount out:
/// `bI * ((bO / (bO - aO))^(wO / wI) - 1) / (1 - sF)`.
pub open spec fn in_given_out_result(bi: u128, wi: u128, bo: u128, wo: u128, ao: u128, fee: u128) -> Result<u128, MathError> {
    and_then(div_result(wo, wi), |weight_ratio: u128|
    and_then(sub_result(bo, ao), |diff: u128|
    and_then(div_result(bo, diff), |y: u128|
    and_then(pow_result(y, weight_ratio), |foo: u128|
    and_then(sub_result(foo, BONE), |grow: u128|
    and_then(sub_result(BONE, fee), |keep: u128|
    and_then(mul_result(bi, grow), |scaled: u128|
    div_result(scaled, keep))))))))
}

/// Pool shares out for an exact single-asset deposit; the swap fee is charged
/// on the share `1 - wI / tW` of the deposit before the shares are computed.
pub open spec fn pool_out_given_single_in_result(bi: u128, wi: u128, ps: u128, tw: u128, ai: u128, fee: u128) -> Result<u128, MathError> {
    and_then(div_result(wi, tw), |nw: u128|
    and_then(sub_result(BONE, nw), |rest: u128|
    and_then(mul_result(rest, fee), |zaz: u128|
    and_then(sub_result(BONE, zaz), |keep: u128|
    and_then(mul_result(ai, keep), |after_fee: u128|
    and_then(add_result(bi, after_fee), |new_bi: u128|
    and_then(div_result(new_bi, bi), |in_ratio: u128|
    and_then(pow_result(in_ratio, nw), |pool_ratio: u128|
    and_then(mul_result(pool_ratio, ps), |new_ps: u128|
    sub_result(new_ps, ps))))))))))
}

/// Single-asset deposit needed for an exact number of pool shares out; the fee
/// is added back after the deposit is computed.
pub open spec fn single_in_given_pool_out_result(bi: u128, wi: u128, ps: u128, tw: u128, pao: u128, fee: u128) -> Result<u128, MathError> {
    and_then(div_result(wi, tw), |nw: u128|
    and_then(add_result(ps, pao), |new_ps: u128|
    and_then(div_result(new_ps, ps), |pool_ratio: u128|
    and_then(div_result(BONE, nw), |boo: u128|
    and_then(pow_result(pool_ratio, boo), |in_ratio: u128|
    and_then(mul_result(in_ratio, bi), |new_bi: u128|
    and_then(sub_result(new_bi, bi), |after_fee: u128|
    and_then(sub_result(BONE, nw), |rest: u128|
    and_then(mul_result(rest, fee), |zar: u128|
    and_then(sub_result(BONE, zar), |keep: u128|
    div_result(after_fee, keep)))))))))))
}

/// Single-asset withdrawal for an exact number of pool shares in; the exit fee
/// is charged on the shares, the swap fee on the asset afterwards.
pub open spec fn single_out_given_pool_in_result(bo: u128, wo: u128, ps: u128, tw: u128, pai: u128, fee: u128) -> Result<u128, MathError> {
    and_then(div_result(wo, tw), |nw: u128|
    and_then(sub_result(BONE, EXIT_FEE), |keep_exit: u128|
    and_then(mul_result(pai, keep_exit), |pai_after: u128|
    and_then(sub_result(ps, pai_after), |new_ps: u128|
    and_then(div_result(new_ps, ps), |pool_ratio: u128|
    and_then(div_result(BONE, nw), |inv_nw: u128|
    and_then(pow_result(pool_ratio, inv_nw), |out_ratio: u128|
    and_then(mul_result(out_ratio, bo), |new_bo: u128|
    and_then(sub_result(bo, new_bo), |before_fee: u128|
    and_then(sub_result(BONE, nw), |rest: u128|
    and_then(mul_result(rest, fee), |zaz: u128|
    and_then(sub_result(BONE, zaz), |keep: u128|
    mul_result(before_fee, keep)))))))))))))
}

/// Pool shares in for an exact single-asset withdrawal; the inverse order of
/// fees of `single_out_given_pool_in_result`.
pub open spec fn pool_in_given_single_out_result(bo: u128, wo: u128, ps: u128, tw: u128, ao: u128, fee: u128) -> Result<u128, MathError> {
    and_then(div_result(wo, tw), |nw: u128|
    and_then(sub_result(BONE, nw), |zoo: u128|
    and_then(mul_result(zoo, fee), |zar: u128|
    and_then(sub_result(BONE, zar), |keep: u128|
    and_then(div_result(ao, keep), |before_fee: u128|
    and_then(sub_result(bo, before_fee), |new_bo: u128|
    and_then(div_result(new_bo, bo), |out_ratio: u128|
    and_then(pow_result(out_ratio, nw), |pool_ratio: u128|
    and_then(mul_result(pool_ratio, ps), |new_ps: u128|
    and_then(sub_result(ps, new_ps), |pai_after: u128|
    and_then(sub_result(BONE, EXIT_FEE), |keep_exit: u128|
    div_result(pai_after, keep_exit))))))))))))
}

/// The pricing engine.
#[derive(Debug, Clone, Copy)]
pub struct Base {
    pub math: Math,
}

impl Base {
    pub fn new() -> (r: Base) {
        Base { math: Math::new() }
    }

    pub fn calc_spot_price(
        &self,
        token_balance_in: u128,
        token_weight_in: u128,
        token_balance_out: u128,
        token_weight_out: u128,
        swap_fee: u128,
    ) -> (r: Result<u128, MathError>)
        ensures
            r == spot_price_result(token_balance_in, token_weight_in, token_balance_out, token_weight_out, swap_fee),
    {
        let m = &self.math;
        let numer = m.bdiv(token_balance_in, token_weight_in)?;
        let denom = m.bdiv(token_balance_out, token_weight_out)?;
        let ratio = m.bdiv(numer, denom)?;
        let keep = m.bsub(BONE, swap_fee)?;
        let scale = m.bdiv(BONE, keep)?;
        m.bmul(ratio, scale)
    }

    pub fn calc_out_given_in(
        &self,
        token_balance_in: u128,
        token_weight_in: u128,
        token_balance_out: u128,
        token_weight_out: u128,
        token_amount_in: u128,
        swap_fee: u128,
    ) -> (r: Result<u128, MathError>)
        ensures
            r == out_given_in_result(token_balance_in, token_weight_in, token_balance_out, token_weight_out,
                token_amount_in, swap_fee),
    {
        let m = &self.math;
        let weight_ratio = m.bdiv(token_weight_in, token_weight_out)?;
        let fee_in = m.bsub(BONE, swap_fee)?;
        let adjusted_in = m.bmul(token_amount_in, fee_in)?;
        let grown = m.badd(token_balance_in, adjusted_in)?;
        let y = m.bdiv(token_balance_in, grown)?;
        let foo = m.bpow(y, weight_ratio)?;
        let bar = m.bsub(BONE, foo)?;
        m.bmul(token_balance_out, bar)
    }

    pub fn calc_in_given_out(
        &self,
        token_balance_in: u128,
        token_weight_in: u128,
        token_balance_out: u128,
        token_weight_out: u128,
        token_amount_out: u128,
        swap_fee: u128,
    ) -> (r: Result<u128, MathError>)
        ensures
            r == in_given_out_result(token_balance_in, token_weight_in, token_balance_out, token_weight_out,
                token_amount_out, swap_fee),
    {
        let m = &self.math;
        let weight_ratio = m.bdiv(token_weight_out, token_weight_in)?;
        let diff = m.bsub(token_balance_out, token_amount_out)?;
        let y = m.bdiv(token_balance_out, diff)?;
        let foo = m.bpow(y, weight_ratio)?;
        let grow = m.bsub(foo, BONE)?;
        let keep = m.bsub(BONE, swap_fee)?;
        let scaled = m.bmul(token_balance_in, grow)?;
        m.bdiv(scaled, keep)
    }

    pub fn calc_pool_out_given_single_in(
        &self,
        token_balance_in: u128,
        token_weight_in: u128,
        pool_supply: u128,
        total_weight: u128,
        token_amount_in: u128,
        swap_fee: u128,
    ) -> (r: Result<u128, MathError>)
        ensures
            r == pool_out_given_single_in_result(token_balance_in, token_weight_in, pool_supply, total_weight,
                token_amount_in, swap_fee),
    {
        let m = &self.math;
        let normalized_weight = m.bdiv(token_weight_in, total_weight)?;
        let rest = m.bsub(BONE, normalized_weight)?;
        let zaz = m.bmul(rest, swap_fee)?;
        let keep = m.bsub(BONE, zaz)?;
        let token_amount_in_after_fee = m.bmul(token_amount_in, keep)?;
        let new_token_balance_in = m.badd(token_balance_in, token_amount_in_after_fee)?;
        let token_in_ratio = m.bdiv(new_token_balance_in, token_balance_in)?;
        let pool_ratio = m.bpow(token_in_ratio, normalized_weight)?;
        let new_pool_supply = m.bmul(pool_ratio, pool_supply)?;
        m.bsub(new_pool_supply, pool_supply)
    }

    pub fn calc_single_in_given_pool_out(
        &self,
        token_balance_in: u128,
        token_weight_in: u128,
        pool_supply: u128,
        total_weight: u128,
        pool_amount_out: u128,
        swap_fee: u128,
    ) -> (r: Result<u128, MathError>)
        ensures
            r == single_in_given_pool_out_result(token_balance_in, token_weight_in, pool_supply, total_weight,
                pool_amount_out, swap_fee),
    {
        let m = &self.math;
        let normalized_weight = m.bdiv(token_weight_in, total_weight)?;
        let new_pool_supply = m.badd(pool_supply, pool_amount_out)?;
        let pool_ratio = m.bdiv(new_pool_supply, pool_supply)?;
        let boo = m.bdiv(BONE, normalized_weight)?;
        let token_in_ratio = m.bpow(pool_ratio, boo)?;
        let new_token_balance_in = m.bmul(token_in_ratio, token_balance_in)?;
        let token_amount_in_after_fee = m.bsub(new_token_balance_in, token_balance_in)?;
        let rest = m.bsub(BONE, normalized_weight)?;
        let zar = m.bmul(rest, swap_fee)?;
        let keep = m.bsub(BONE, zar)?;
        m.bdiv(token_amount_in_after_fee, keep)
    }

    pub fn calc_single_out_given_pool_in(
        &self,
        token_balance_out: u128,
        token_weight_out: u128,
        pool_supply: u128,
        total_weight: u128,
        pool_amount_in: u128,
        swap_fee: u128,
    ) -> (r: Result<u128, MathError>)
        ensures
            r == single_out_given_pool_in_result(token_balance_out, token_weight_out, pool_supply, total_weight,
                pool_amount_in, swap_fee),
    {
        let m = &self.math;
        let normalized_weight = m.bdiv(token_weight_out, total_weight)?;
        let keep_exit = m.bsub(BONE, EXIT_FEE)?;
        let pool_amount_in_after_exit_fee = m.bmul(pool_amount_in, keep_exit)?;
        let new_pool_supply = m.bsub(pool_supply, pool_amount_in_after_exit_fee)?;
        let pool_ratio = m.bdiv(new_pool_supply, pool_supply)?;
        let inv_weight = m.bdiv(BONE, normalized_weight)?;
        let token_out_ratio = m.bpow(pool_ratio, inv_weight)?;
        let new_token_balance_out = m.bmul(token_out_ratio, token_balance_out)?;
        let token_amount_out_before_swap_fee = m.bsub(token_balance_out, new_token_balance_out)?;
        let rest = m.bsub(BONE, normalized_weight)?;
        let zaz = m.bmul(rest, swap_fee)?;
        let keep = m.bsub(BONE, zaz)?;
        m.bmul(token_amount_out_before_swap_fee, keep)
    }

    pub fn calc_pool_in_given_single_out(
        &self,
        token_balance_out: u128,
        token_weight_out: u128,
        pool_supply: u128,
        total_weight: u128,
        token_amount_out: u128,
        swap_fee: u128,
    ) -> (r: Result<u128, MathError>)
        ensures
            r == pool_in_given_single_out_result(token_balance_out, token_weight_out, pool_supply, total_weight,
                token_amount_out, swap_fee),
    {
        let m = &self.math;
        let normalized_weight = m.bdiv(token_weight_out, total_weight)?;
        let zoo = m.bsub(BONE, normalized_weight)?;
        let zar = m.bmul(zoo, swap_fee)?;
        let keep = m.bsub(BONE, zar)?;
        let token_amount_out_before_swap_fee = m.bdiv(token_amount_out, keep)?;
        let new_token_balance_out = m.bsub(token_balance_out, token_amount_out_before_swap_fee)?;
        let token_out_ratio = m.bdiv(new_token_balance_out, token_balance_out)?;
        let pool_ratio = m.bpow(token_out_ratio, normalized_weight)?;
        let new_pool_supply = m.bmul(pool_ratio, pool_supply)?;
        let pool_amount_in_after_exit_fee = m.bsub(pool_supply, new_pool_supply)?;
        let keep_exit = m.bsub(BONE, EXIT_FEE)?;
        m.bdiv(pool_amount_in_after_exit_fee, keep_exit)
    }
}

} // verus!
