use vstd::prelude::*;
use vstd::arithmetic::div_mod::lemma_div_multiples_vanish;
use crate::types::{Direction, Factor, Prediction, Price};
use crate::ladder::{
    beyond, is_next_rung, ladder_step, lemma_rung_bounds, lemma_rung_succ, on_ladder, one_step, rung_den, rung_fits,
    rung_num, step_rung, stepped,
};

verus! {

/// The long leg carried to price `q`: `long * p / q`, rounded down.
pub open spec fn carried_long(c: Prediction, q: Price) -> int {
    (c.long as int * c.price.num as int * q.den as int) / (c.price.den as int * q.num as int)
}

/// The power-law projection of `c` to price `q`, with `fac` standing for
/// `(c.price / q)^exponent`: the short leg is multiplied by the factor and
/// the long leg by `c.price / (fac * q)`, each rounded down. `None` when an
/// intermediate exceeds `u128` or a leg exceeds `u64`.
pub open spec fn projection(c: Prediction, q: Price, fac: Factor) -> Option<Prediction> {
    let s = (c.short as int * fac.num as int) / fac.den as int;
    let x = carried_long(c, q);
    let l = (x * fac.den as int) / fac.num as int;
    if s <= u64::MAX && x * fac.den <= u128::MAX && l <= u64::MAX {
        Some(Prediction { price: q, short: s as u64, long: l as u64 })
    } else {
        None
    }
}

/// The projected legs stand near their starting proportion: `short / long`
/// lies strictly between 2 and 5.
pub open spec fn near_start(p: Prediction) -> bool {
    2 * p.long < p.short && p.short < 5 * p.long
}

/// The outcome at the first rung `r`: its projection, unless that lies near
/// the starting proportion, in which case the projection one rung further.
pub open spec fn settle(
    c: Prediction,
    r: Price,
    f: nat,
    dir: Direction,
    near: Factor,
    far: Factor,
) -> Option<Prediction> {
    match projection(c, r, near) {
        None => None,
        Some(p) => if near_start(p) {
            match stepped(r, f, dir) {
                None => None,
                Some(q) => projection(c, q, far),
            }
        } else {
            Some(p)
        },
    }
}

/// Rung `k` written as a price.
pub open spec fn rung_price(base: int, f: nat, k: int) -> Price {
    Price { num: rung_num(base, f, k) as u32, den: rung_den(f, k) as u32 }
}

/// Projects `current` to `next_price`, given the power-law factor
/// `fac = (current.price / next_price)^exponent`.
pub fn predict(current: &Prediction, next_price: Price, fac: Factor) -> (r: Option<Prediction>)
    requires
        current.price.wf(),
        next_price.wf(),
        fac.wf(),
    ensures
        r == projection(*current, next_price, fac),
{
    let sh: u128 = current.short as u128;
    let fnum: u128 = fac.num as u128;
    assert(sh * fnum <= u64::MAX * u64::MAX) by (nonlinear_arith)
        requires sh <= u64::MAX, fnum <= u64::MAX;
    let short: u128 = sh * fnum / (fac.den as u128);
    let a: u128 = current.long as u128;
    let pn: u128 = current.price.num as u128;
    let pd: u128 = current.price.den as u128;
    let qn: u128 = next_price.num as u128;
    let qd: u128 = next_price.den as u128;
    assert(a * pn <= u64::MAX * u32::MAX) by (nonlinear_arith)
        requires a <= u64::MAX, pn <= u32::MAX;
    assert(a * pn * qd <= (u64::MAX * u32::MAX) * u32::MAX) by (nonlinear_arith)
        requires a * pn <= u64::MAX * u32::MAX, qd <= u32::MAX;
    assert(pd * qn <= u32::MAX * u32::MAX) by (nonlinear_arith)
        requires pd <= u32::MAX, qn <= u32::MAX;
    assert(pd * qn > 0) by (nonlinear_arith) requires pd > 0, qn > 0;
    let x: u128 = a * pn * qd / (pd * qn);
    if short > u64::MAX as u128 {
        return None;
    }
    match x.checked_mul(fac.den as u128) {
        None => None,
        Some(y) => {
            let long: u128 = y / (fac.num as u128);
            if long > u64::MAX as u128 {
                None
            } else {
                Some(Prediction { price: next_price, short: short as u64, long: long as u64 })
            }
        },
    }
}

/// Whether `p` lies near the starting proportion of the legs.
pub fn is_near_start(p: &Prediction) -> (r: bool)
    ensures
        r == near_start(*p),
{
    let s: u128 = p.short as u128;
    let l: u128 = p.long as u128;
    2 * l < s && s < 5 * l
}

/// A projection at an unchanged price, with the factor one, is the
/// position itself.
pub proof fn lemma_predict_identity(c: Prediction, n: u64)
    requires
        c.price.wf(),
        n > 0,
    ensures
        projection(c, c.price, Factor { num: n, den: n }) == Some(c),
{
    let pn = c.price.num as int;
    let pd = c.price.den as int;
    lemma_div_multiples_vanish(c.short as int, n as int);
    assert(c.short * n == n * c.short) by (nonlinear_arith);
    assert(c.long * pn * pd == (pd * pn) * c.long) by (nonlinear_arith);
    assert(pd * pn > 0) by (nonlinear_arith) requires pd > 0, pn > 0;
    lemma_div_multiples_vanish(c.long as int, pd * pn);
    assert(carried_long(c, c.price) == c.long);
    lemma_div_multiples_vanish(c.long as int, n as int);
    assert(c.long * n == n * c.long) by (nonlinear_arith);
    assert(c.long * n <= u64::MAX * u64::MAX) by (nonlinear_arith)
        requires c.long <= u64::MAX, n <= u64::MAX;
}

/// One more step in the search direction keeps a price on the ladder and
/// strictly past `p`.
pub proof fn lemma_step_stays_past(base: int, f: nat, k: int, p: Price, dir: Direction, q: Price)
    requires
        f >= 2,
        base >= 1,
        p.wf(),
        q.wf(),
        rung_fits(base, f, k),
        beyond(rung_price(base, f, k), p, dir),
        one_step(rung_price(base, f, k), q, f, dir),
    ensures
        beyond(q, p, dir),
        on_ladder(q, base, f),
{
    let r = rung_price(base, f, k);
    let nk = rung_num(base, f, k);
    let dk = rung_den(f, k);
    assert(r.num == nk && r.den == dk);
    lemma_rung_succ(base, f, k);
    lemma_rung_succ(base, f, k - 1);
    lemma_rung_bounds(base, f, k);
    match dir {
        Direction::Up => {
            let n1 = rung_num(base, f, k + 1);
            let d1 = rung_den(f, k + 1);
            lemma_rung_bounds(base, f, k + 1);
            assert(q.num * d1 == n1 * q.den) by (nonlinear_arith)
                requires q.num * dk == f * nk * q.den, n1 * dk == f * nk * d1, dk >= 1;
            assert(n1 * q.den == q.num * d1);
            assert(p.num * q.den < q.num * p.den) by (nonlinear_arith)
                requires q.num * dk == f * nk * q.den, p.num * dk < nk * p.den, dk >= 1, f >= 2,
                    q.den >= 1, p.num >= 1, p.den >= 1;
        },
        Direction::Down => {
            let n0 = rung_num(base, f, k - 1);
            let d0 = rung_den(f, k - 1);
            lemma_rung_bounds(base, f, k - 1);
            assert(n0 * q.den == q.num * d0) by (nonlinear_arith)
                requires f * q.num * dk == nk * q.den, nk * d0 == f * n0 * dk, dk >= 1, f >= 2;
            assert(q.num * p.den < p.num * q.den) by (nonlinear_arith)
                requires f * q.num * dk == nk * q.den, nk * p.den < p.num * dk, dk >= 1, f >= 2,
                    q.num >= 1, p.num >= 1, p.den >= 1;
        },
    }
}

/// The prediction at the next threshold price in direction `dir`: the
/// projection at the first rung `base * ladder^k` strictly past
/// `current.price`, or, when that lies near the starting proportion, the
/// projection one rung further. `near` and `far` are the power-law factors
/// for those two rungs. `None` when a rung or a projection is out of range.
pub fn predict_next(
    current: &Prediction,
    base_price: u32,
    ladder: u32,
    dir: Direction,
    near: Factor,
    far: Factor,
) -> (r: Option<Prediction>)
    requires
        current.price.wf(),
        base_price > 0,
        ladder >= 2,
        near.wf(),
        far.wf(),
    ensures
        exists|k: int| #[trigger] is_next_rung(base_price as int, ladder as nat, current.price, dir, k)
            && r == (if rung_fits(base_price as int, ladder as nat, k) {
                settle(*current, rung_price(base_price as int, ladder as nat, k), ladder as nat, dir, near, far)
            } else {
                None
            }),
        r is Some ==> on_ladder(r->0.price, base_price as int, ladder as nat)
            && beyond(r->0.price, current.price, dir),
{
    let first = ladder_step(current.price, base_price, ladder, dir);
    let ghost k = choose|k: int| #[trigger] is_next_rung(base_price as int, ladder as nat, current.price, dir, k)
        && (first is Some <==> rung_fits(base_price as int, ladder as nat, k))
        && (first is Some ==> first->0.num == rung_num(base_price as int, ladder as nat, k)
            && first->0.den == rung_den(ladder as nat, k));
    match first {
        None => None,
        Some(r1) => {
            assert(r1 == rung_price(base_price as int, ladder as nat, k));
            match predict(current, r1, near) {
                None => None,
                Some(p1) => {
                    if is_near_start(&p1) {
                        match step_rung(r1, ladder, dir) {
                            None => None,
                            Some(r2) => {
                                proof {
                                    lemma_step_stays_past(base_price as int, ladder as nat, k, current.price, dir, r2);
                                }
                                predict(current, r2, far)
                            },
                        }
                    } else {
                        Some(p1)
                    }
                },
            }
        },
    }
}

/// `predict_next` going up.
pub fn predict_up(current: &Prediction, base_price: u32, ladder: u32, near: Factor, far: Factor) -> (r: Option<Prediction>)
    requires
        current.price.wf(),
        base_price > 0,
        ladder >= 2,
        near.wf(),
        far.wf(),
    ensures
        exists|k: int| #[trigger] is_next_rung(base_price as int, ladder as nat, current.price, Direction::Up, k)
            && r == (if rung_fits(base_price as int, ladder as nat, k) {
                settle(*current, rung_price(base_price as int, ladder as nat, k), ladder as nat, Direction::Up, near, far)
            } else {
                None
            }),
        r is Some ==> on_ladder(r->0.price, base_price as int, ladder as nat)
            && current.price.lt(r->0.price),
{
    predict_next(current, base_price, ladder, Direction::Up, near, far)
}

/// `predict_next` going down.
pub fn predict_down(current: &Prediction, base_price: u32, ladder: u32, near: Factor, far: Factor) -> (r: Option<Prediction>)
    requires
        current.price.wf(),
        base_price > 0,
        ladder >= 2,
        near.wf(),
        far.wf(),
    ensures
        exists|k: int| #[trigger] is_next_rung(base_price as int, ladder as nat, current.price, Direction::Down, k)
            && r == (if rung_fits(base_price as int, ladder as nat, k) {
                settle(*current, rung_price(base_price as int, ladder as nat, k), ladder as nat, Direction::Down, near, far)
            } else {
                None
            }),
        r is Some ==> on_ladder(r->0.price, base_price as int, ladder as nat)
            && r->0.price.lt(current.price),
{
    predict_next(current, base_price, ladder, Direction::Down, near, far)
}

} // verus!
