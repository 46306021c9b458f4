use vstd::prelude::*;
use vstd::arithmetic::div_mod::{
    lemma_div_multiples_vanish, lemma_fundamental_div_mod, lemma_hoist_over_denominator, lemma_mod_pos_bound,
};
use crate::types::{Config, EngineError, Loan};

verus! {

/// The asset borrowed by the flash loan that bridges a rebalance.
#[derive(Clone, Copy, Debug, PartialEq, Eq, Structural)]
pub enum Currency {
    Eth,
    Usd,
}

/// A rebalance plan. ETH amounts are in the loans' unit; USD amounts are
/// ETH amounts times `eth_price`.
///
/// With `Currency::Eth` the short leg shrinks and the long leg grows, and
/// every field is a positive-means-act amount: `short_collateral_delta`
/// is USD of collateral withdrawn, `short_debt_delta` ETH of debt repaid,
/// `long_collateral_delta` ETH of collateral deposited, `long_debt_delta`
/// USD borrowed. With `Currency::Usd` the four signs invert: USD deposited
/// and ETH borrowed on the short leg, ETH withdrawn and USD repaid on the
/// long leg.
#[derive(Clone, Copy, Debug, PartialEq, Eq, Structural)]
pub struct Equalize {
    pub eth_price: u32,
    pub flash_loan_currency: Currency,
    pub flash_loan_value: i128,
    /// ETH taken out as profit.
    pub keep_value: i128,
    /// The same, in USD.
    pub keep_usd: i128,
    pub short_collateral_delta: i128,
    pub short_debt_delta: i128,
    pub long_collateral_delta: i128,
    pub long_debt_delta: i128,
}

/// Net value of both legs.
pub open spec fn total_value(short: Loan, long: Loan) -> int {
    short.collateral + long.collateral - short.debt - long.debt
}

/// `x * r.num / r.den`, rounded down.
pub open spec fn part(x: int, num: u16, den: u16) -> int {
    (x * num) / (den as int)
}

/// The value kept out of `total`.
pub open spec fn kept(cfg: Config, total: int) -> int {
    part(total, cfg.keep_ratio.num, cfg.keep_ratio.den)
}

/// The value given to the short leg.
pub open spec fn short_value(cfg: Config, total: int) -> int {
    part(total - kept(cfg, total), cfg.short_share.num, cfg.short_share.den)
}

/// The value given to the long leg.
pub open spec fn long_value(cfg: Config, total: int) -> int {
    total - kept(cfg, total) - short_value(cfg, total)
}

/// Debt of a leg of net value `v` at the target ratio `n / d`:
/// `v * d / (n - d)`, rounded down.
pub open spec fn target_debt(cfg: Config, v: int) -> int {
    (v * cfg.target_ratio.den) / (cfg.target_ratio.num - cfg.target_ratio.den)
}

/// Collateral of a leg of net value `v` at the target ratio; the same as
/// `v * n / (n - d)` rounded down (see `lemma_leg_at_target`).
pub open spec fn target_collateral(cfg: Config, v: int) -> int {
    v + target_debt(cfg, v)
}

/// The plan that `equalize` returns on valid inputs.
pub open spec fn plan(short: Loan, long: Loan, price: u32, cfg: Config) -> Equalize {
    let t = total_value(short, long);
    let keep = kept(cfg, t);
    let sc = target_collateral(cfg, short_value(cfg, t));
    let sd = target_debt(cfg, short_value(cfg, t));
    let lc = target_collateral(cfg, long_value(cfg, t));
    let ld = target_debt(cfg, long_value(cfg, t));
    if short.collateral > sc {
        Equalize {
            eth_price: price,
            flash_loan_currency: Currency::Eth,
            flash_loan_value: ((short.debt - sd) + (lc - long.collateral)) as i128,
            keep_value: keep as i128,
            keep_usd: (keep * price) as i128,
            short_collateral_delta: ((short.collateral - sc) * price) as i128,
            short_debt_delta: (short.debt - sd) as i128,
            long_collateral_delta: (lc - long.collateral) as i128,
            long_debt_delta: ((ld - long.debt) * price) as i128,
        }
    } else {
        Equalize {
            eth_price: price,
            flash_loan_currency: Currency::Usd,
            flash_loan_value: ((long.debt - ld) * price + (sc - short.collateral) * price) as i128,
            keep_value: keep as i128,
            keep_usd: (keep * price) as i128,
            short_collateral_delta: ((sc - short.collateral) * price) as i128,
            short_debt_delta: (sd - short.debt) as i128,
            long_collateral_delta: (long.collateral - lc) as i128,
            long_debt_delta: ((long.debt - ld) * price) as i128,
        }
    }
}

/// `0 <= x * n / d <= x`.
proof fn lemma_part_le(x: int, n: int, d: int)
    requires
        x >= 0,
        0 <= n <= d,
        d > 0,
    ensures
        0 <= (x * n) / d <= x,
{
    lemma_fundamental_div_mod(x * n, d);
    lemma_mod_pos_bound(x * n, d);
    let q = (x * n) / d;
    let r = (x * n) % d;
    assert(x * n <= x * d) by (nonlinear_arith) requires x >= 0, n <= d;
    assert(x * n >= 0) by (nonlinear_arith) requires x >= 0, n >= 0;
    assert(0 <= q <= x) by (nonlinear_arith)
        requires x * n == d * q + r, 0 <= r < d, x * n <= x * d, x * n >= 0, d > 0;
}

/// A leg of value `v` at the target: its debt is at most `v * 2^16`.
proof fn lemma_target_bounds(cfg: Config, v: int)
    requires
        cfg.wf(),
        0 <= v,
    ensures
        0 <= target_debt(cfg, v) <= v * 0x10000,
        v <= target_collateral(cfg, v) <= v * 0x10001,
{
    let n = cfg.target_ratio.num as int;
    let d = cfg.target_ratio.den as int;
    assert(v * d <= v * 0x10000) by (nonlinear_arith) requires v >= 0, d <= 0xFFFF;
    assert(v * d >= 0) by (nonlinear_arith) requires v >= 0, d >= 0;
    lemma_part_le(v * d, 1, n - d);
    assert(v * d * 1 == v * d);
}

/// A rebalance plan for the two legs at `eth_price`: the net value, less
/// the kept share, is split between the legs, each leg is set to the
/// target ratio, and the flash loan is taken in ETH when the short leg
/// holds more collateral than its target, in USD otherwise.
pub fn equalize(short: Loan, long: Loan, eth_price: u32, cfg: &Config) -> (r: Result<Equalize, EngineError>)
    requires
        cfg.wf(),
    ensures
        r is Err <==> eth_price == 0 || total_value(short, long) <= 0,
        r is Err ==> r->Err_0 == EngineError::InvalidInput,
        r is Ok ==> r->Ok_0 == plan(short, long, eth_price, *cfg),
        r is Ok ==> r->Ok_0.keep_usd == r->Ok_0.keep_value * eth_price,
{
    let t: i128 = short.collateral as i128 + long.collateral as i128 - short.debt as i128 - long.debt as i128;
    if eth_price == 0 || t <= 0 {
        return Err(EngineError::InvalidInput);
    }
    let ghost ti = t as int;
    let price: i128 = eth_price as i128;
    let kn: i128 = cfg.keep_ratio.num as i128;
    let kd: i128 = cfg.keep_ratio.den as i128;
    assert(t * kn <= 0x2_0000_0000_0000_0000i128 * 0xFFFF) by (nonlinear_arith)
        requires t <= 0x2_0000_0000_0000_0000i128, 0 <= kn <= 0xFFFF;
    proof {
        lemma_part_le(ti, kn as int, kd as int);
    }
    let keep: i128 = t * kn / kd;
    let rem: i128 = t - keep;
    let sn: i128 = cfg.short_share.num as i128;
    let sdn: i128 = cfg.short_share.den as i128;
    assert(rem * sn <= 0x2_0000_0000_0000_0000i128 * 0xFFFF) by (nonlinear_arith)
        requires 0 <= rem <= 0x2_0000_0000_0000_0000i128, 0 <= sn <= 0xFFFF;
    proof {
        lemma_part_le(rem as int, sn as int, sdn as int);
    }
    let sv: i128 = rem * sn / sdn;
    let lv: i128 = rem - sv;
    let tn: i128 = cfg.target_ratio.num as i128;
    let td: i128 = cfg.target_ratio.den as i128;
    proof {
        lemma_target_bounds(*cfg, sv as int);
        lemma_target_bounds(*cfg, lv as int);
    }
    assert(sv * td <= 0x2_0000_0000_0000_0000i128 * 0xFFFF) by (nonlinear_arith)
        requires 0 <= sv <= 0x2_0000_0000_0000_0000i128, 0 <= td <= 0xFFFF;
    assert(lv * td <= 0x2_0000_0000_0000_0000i128 * 0xFFFF) by (nonlinear_arith)
        requires 0 <= lv <= 0x2_0000_0000_0000_0000i128, 0 <= td <= 0xFFFF;
    let sd: i128 = sv * td / (tn - td);
    let sc: i128 = sv + sd;
    let ld: i128 = lv * td / (tn - td);
    let lc: i128 = lv + ld;
    assert(sv * 0x10001 <= 0x2_0000_0000_0000_0000i128 * 0x10001) by (nonlinear_arith)
        requires 0 <= sv <= 0x2_0000_0000_0000_0000i128;
    assert(lv * 0x10001 <= 0x2_0000_0000_0000_0000i128 * 0x10001) by (nonlinear_arith)
        requires 0 <= lv <= 0x2_0000_0000_0000_0000i128;
    let s_col: i128 = short.collateral as i128;
    let s_debt: i128 = short.debt as i128;
    let l_col: i128 = long.collateral as i128;
    let l_debt: i128 = long.debt as i128;
    let bound: i128 = 0x4_0000_0000_0000_0000_0000i128;
    assert(-bound < sc - s_col < bound && -bound < sd - s_debt < bound);
    assert(-bound < lc - l_col < bound && -bound < ld - l_debt < bound);
    assert(keep * price <= 0x2_0000_0000_0000_0000i128 * 0xFFFF_FFFF) by (nonlinear_arith)
        requires 0 <= keep <= 0x2_0000_0000_0000_0000i128, 0 <= price <= 0xFFFF_FFFF;
    proof {
        lemma_scaled_fits(sc - s_col, price as int);
        lemma_scaled_fits(ld - l_debt, price as int);
    }
    let keep_usd: i128 = keep * price;
    if s_col > sc {
        Ok(Equalize {
            eth_price,
            flash_loan_currency: Currency::Eth,
            flash_loan_value: (s_debt - sd) + (lc - l_col),
            keep_value: keep,
            keep_usd,
            short_collateral_delta: (s_col - sc) * price,
            short_debt_delta: s_debt - sd,
            long_collateral_delta: lc - l_col,
            long_debt_delta: (ld - l_debt) * price,
        })
    } else {
        Ok(Equalize {
            eth_price,
            flash_loan_currency: Currency::Usd,
            flash_loan_value: (l_debt - ld) * price + (sc - s_col) * price,
            keep_value: keep,
            keep_usd,
            short_collateral_delta: (sc - s_col) * price,
            short_debt_delta: sd - s_debt,
            long_collateral_delta: l_col - lc,
            long_debt_delta: (l_debt - ld) * price,
        })
    }
}

/// The short leg after carrying out `e`: (collateral, debt) in ETH.
pub open spec fn short_after(short: Loan, e: Equalize) -> (int, int) {
    match e.flash_loan_currency {
        Currency::Eth => (
            short.collateral - (e.short_collateral_delta as int) / (e.eth_price as int),
            short.debt - e.short_debt_delta,
        ),
        Currency::Usd => (
            short.collateral + (e.short_collateral_delta as int) / (e.eth_price as int),
            short.debt + e.short_debt_delta,
        ),
    }
}

/// The long leg after carrying out `e`: (collateral, debt) in ETH.
pub open spec fn long_after(long: Loan, e: Equalize) -> (int, int) {
    match e.flash_loan_currency {
        Currency::Eth => (
            long.collateral + e.long_collateral_delta,
            long.debt + (e.long_debt_delta as int) / (e.eth_price as int),
        ),
        Currency::Usd => (
            long.collateral - e.long_collateral_delta,
            long.debt - (e.long_debt_delta as int) / (e.eth_price as int),
        ),
    }
}

/// `col / debt` is the target ratio `n / d`, up to the rounding of the
/// debt down to a whole unit: `0 <= col * d - n * debt < n - d`.
pub open spec fn at_target(col: int, debt: int, cfg: Config) -> bool {
    let n = cfg.target_ratio.num as int;
    let d = cfg.target_ratio.den as int;
    0 <= col * d - n * debt < n - d
}

/// A leg set to the target holds its value, at the target ratio, with
/// collateral `v * n / (n - d)` rounded down.
pub proof fn lemma_leg_at_target(cfg: Config, v: int)
    requires
        cfg.wf(),
        v >= 0,
    ensures
        at_target(target_collateral(cfg, v), target_debt(cfg, v), cfg),
        target_collateral(cfg, v) - target_debt(cfg, v) == v,
        target_collateral(cfg, v) == (v * cfg.target_ratio.num) / (cfg.target_ratio.num - cfg.target_ratio.den),
{
    let nn = cfg.target_ratio.num as int;
    let dd = cfg.target_ratio.den as int;
    lemma_hoist_over_denominator(v * dd, v, (nn - dd) as nat);
    assert(v * dd + v * (nn - dd) == v * nn) by (nonlinear_arith);
    let n = cfg.target_ratio.num as int;
    let d = cfg.target_ratio.den as int;
    let b = target_debt(cfg, v);
    lemma_fundamental_div_mod(v * d, n - d);
    lemma_mod_pos_bound(v * d, n - d);
    assert(v * d >= 0) by (nonlinear_arith) requires v >= 0, d >= 0;
    assert((v + b) * d - n * b == v * d - (n - d) * b) by (nonlinear_arith);
}

/// Carrying out the plan of `equalize` sets each leg to its share of the
/// value at the target ratio, and the legs plus the kept value add up to
/// the net value before.
pub proof fn lemma_equalize_reaches_target(short: Loan, long: Loan, eth_price: u32, cfg: Config)
    requires
        cfg.wf(),
        eth_price > 0,
        total_value(short, long) > 0,
    ensures
        ({
            let e = plan(short, long, eth_price, cfg);
            let t = total_value(short, long);
            let (sc, sd) = short_after(short, e);
            let (lc, ld) = long_after(long, e);
            &&& sc == target_collateral(cfg, short_value(cfg, t))
            &&& sd == target_debt(cfg, short_value(cfg, t))
            &&& lc == target_collateral(cfg, long_value(cfg, t))
            &&& ld == target_debt(cfg, long_value(cfg, t))
            &&& at_target(sc, sd, cfg)
            &&& at_target(lc, ld, cfg)
            &&& (sc - sd) + (lc - ld) + e.keep_value == t
        }),
{
    let t = total_value(short, long);
    let price = eth_price as int;
    let keep = kept(cfg, t);
    lemma_part_le(t, cfg.keep_ratio.num as int, cfg.keep_ratio.den as int);
    lemma_part_le(t - keep, cfg.short_share.num as int, cfg.short_share.den as int);
    let sv = short_value(cfg, t);
    let lv = long_value(cfg, t);
    lemma_target_bounds(cfg, sv);
    lemma_target_bounds(cfg, lv);
    lemma_leg_at_target(cfg, sv);
    lemma_leg_at_target(cfg, lv);
    let sc = target_collateral(cfg, sv);
    let sd = target_debt(cfg, sv);
    let lc = target_collateral(cfg, lv);
    let ld = target_debt(cfg, lv);
    assert(sv * 0x10001 <= 0x2_0000_0000_0000_0000 * 0x10001) by (nonlinear_arith)
        requires 0 <= sv <= 0x2_0000_0000_0000_0000;
    assert(lv * 0x10001 <= 0x2_0000_0000_0000_0000 * 0x10001) by (nonlinear_arith)
        requires 0 <= lv <= 0x2_0000_0000_0000_0000;
    lemma_scaled_fits(sc - short.collateral, price);
    lemma_scaled_fits(ld - long.debt, price);
    lemma_scaled_fits(short.collateral - sc, price);
    lemma_scaled_fits(long.debt - ld, price);
    assert(keep * price <= 0x2_0000_0000_0000_0000 * 0xFFFF_FFFF) by (nonlinear_arith)
        requires 0 <= keep <= 0x2_0000_0000_0000_0000, 0 <= price <= 0xFFFF_FFFF;
    assert((short.collateral - sc) * price == price * (short.collateral - sc)) by (nonlinear_arith);
    assert((sc - short.collateral) * price == price * (sc - short.collateral)) by (nonlinear_arith);
    assert((ld - long.debt) * price == price * (ld - long.debt)) by (nonlinear_arith);
    assert((long.debt - ld) * price == price * (long.debt - ld)) by (nonlinear_arith);
    lemma_div_multiples_vanish(short.collateral - sc, price);
    lemma_div_multiples_vanish(sc - short.collateral, price);
    lemma_div_multiples_vanish(ld - long.debt, price);
    lemma_div_multiples_vanish(long.debt - ld, price);
}

/// `x * price` stays well inside `i128` for `|x| < 2^82`.
proof fn lemma_scaled_fits(x: int, price: int)
    requires
        -0x4_0000_0000_0000_0000_0000 < x < 0x4_0000_0000_0000_0000_0000,
        0 <= price <= 0xFFFF_FFFF,
    ensures
        -0x4_0000_0000_0000_0000_0000_0000_0000 < x * price < 0x4_0000_0000_0000_0000_0000_0000_0000,
        -0x4_0000_0000_0000_0000_0000_0000_0000 < -x * price < 0x4_0000_0000_0000_0000_0000_0000_0000,
{
    assert(-0x4_0000_0000_0000_0000_0000_0000_0000 < x * price < 0x4_0000_0000_0000_0000_0000_0000_0000)
        by (nonlinear_arith)
        requires -0x4_0000_0000_0000_0000_0000 < x < 0x4_0000_0000_0000_0000_0000, 0 <= price <= 0xFFFF_FFFF;
    assert(-x * price == -(x * price)) by (nonlinear_arith);
}

} // verus!
