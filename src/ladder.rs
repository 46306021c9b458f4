use vstd::prelude::*;
use vstd::arithmetic::div_mod::lemma_div_multiples_vanish;
use crate::types::{Direction, Price};

verus! {

/// `f` raised to the power `e`.
pub open spec fn power(f: nat, e: nat) -> nat
    decreases e,
{
    if e == 0 {
        1
    } else {
        f * power(f, (e - 1) as nat)
    }
}

/// Numerator of the rung `base * f^k`, written with denominator `f^-k` when `k < 0`.
pub open spec fn rung_num(base: int, f: nat, k: int) -> int {
    if k >= 0 {
        base * power(f, k as nat)
    } else {
        base
    }
}

/// Denominator of the rung `base * f^k`.
pub open spec fn rung_den(f: nat, k: int) -> int {
    if k >= 0 {
        1
    } else {
        power(f, (-k) as nat) as int
    }
}

/// The rung `base * f^k` lies strictly above `p`.
pub open spec fn rung_above(base: int, f: nat, k: int, p: Price) -> bool {
    rung_num(base, f, k) * p.den > p.num * rung_den(f, k)
}

/// The rung `base * f^k` lies strictly below `p`.
pub open spec fn rung_below(base: int, f: nat, k: int, p: Price) -> bool {
    rung_num(base, f, k) * p.den < p.num * rung_den(f, k)
}

/// Rung `k` is the first one strictly past `p` in direction `dir`: the
/// smallest rung above `p` going up, the largest rung below it going down.
pub open spec fn is_next_rung(base: int, f: nat, p: Price, dir: Direction, k: int) -> bool {
    match dir {
        Direction::Up => rung_above(base, f, k, p) && !rung_above(base, f, k - 1, p),
        Direction::Down => rung_below(base, f, k, p) && !rung_below(base, f, k + 1, p),
    }
}

/// Both parts of rung `k` fit in a `Price`.
pub open spec fn rung_fits(base: int, f: nat, k: int) -> bool {
    rung_num(base, f, k) <= u32::MAX && rung_den(f, k) <= u32::MAX
}

/// `r` is, as a rational, the rung `base * f^j` for some integer `j`.
pub open spec fn on_ladder(r: Price, base: int, f: nat) -> bool {
    exists|j: int| #[trigger] rung_num(base, f, j) * r.den == r.num * rung_den(f, j)
}

/// `q` is `r` moved one factor `f` in direction `dir`, as rationals.
pub open spec fn one_step(r: Price, q: Price, f: nat, dir: Direction) -> bool {
    match dir {
        Direction::Up => q.num * r.den == f * r.num * q.den,
        Direction::Down => f * q.num * r.den == r.num * q.den,
    }
}

/// `q` lies strictly past `p` in direction `dir`.
pub open spec fn beyond(q: Price, p: Price, dir: Direction) -> bool {
    match dir {
        Direction::Up => p.lt(q),
        Direction::Down => q.lt(p),
    }
}

proof fn lemma_power_pos(f: nat, e: nat)
    requires
        f >= 2,
    ensures
        power(f, e) >= 1,
        e >= 1 ==> power(f, e) >= 2,
    decreases e,
{
    if e > 0 {
        lemma_power_pos(f, (e - 1) as nat);
        assert(f * power(f, (e - 1) as nat) >= 2) by (nonlinear_arith)
            requires f >= 2, power(f, (e - 1) as nat) >= 1;
    }
}

/// Rung `k + 1` is rung `k` times `f`, as rationals.
pub proof fn lemma_rung_succ(base: int, f: nat, k: int)
    requires
        f >= 2,
    ensures
        rung_num(base, f, k + 1) * rung_den(f, k) == f * rung_num(base, f, k) * rung_den(f, k + 1),
{
    lemma_rung_shape(base, f, k);
    lemma_rung_shape(base, f, k + 1);
    let n = rung_num(base, f, k);
    let d = rung_den(f, k);
    let n1 = rung_num(base, f, k + 1);
    let d1 = rung_den(f, k + 1);
    if k >= 0 {
        assert(n1 * d == f * n * d1) by (nonlinear_arith) requires n1 == f * n, d == 1, d1 == 1;
    } else {
        assert(n1 * d == f * n * d1) by (nonlinear_arith) requires n1 == n, d == f * d1;
    }
}

/// How consecutive rungs are written.
proof fn lemma_rung_shape(base: int, f: nat, k: int)
    requires
        f >= 2,
    ensures
        k <= 0 ==> rung_num(base, f, k) == base,
        k >= 0 ==> rung_den(f, k) == 1,
        k >= 0 ==> rung_num(base, f, k + 1) == f * rung_num(base, f, k),
        k < 0 ==> rung_den(f, k) == f * rung_den(f, k + 1),
        rung_den(f, k) >= 1,
        k < 0 ==> rung_den(f, k) >= 2,
        base >= 1 ==> rung_num(base, f, k) >= base,
        base >= 1 && k > 0 ==> rung_num(base, f, k) >= 2 * base,
{
    assert(power(f, 0) == 1);
    assert(base * 1 == base);
    if k >= 0 {
        let a = power(f, k as nat);
        assert(power(f, (k + 1) as nat) == f * a);
        assert(base * (f * a) == f * (base * a)) by (nonlinear_arith);
        lemma_power_pos(f, k as nat);
        if base >= 1 {
            assert(base * a >= base) by (nonlinear_arith) requires base >= 1, a >= 1;
            if k > 0 {
                assert(base * a >= 2 * base) by (nonlinear_arith) requires base >= 1, a >= 2;
            }
        }
    } else {
        assert(power(f, (-k) as nat) == f * power(f, (-(k + 1)) as nat));
        lemma_power_pos(f, (-k) as nat);
    }
}

/// Every rung is written with positive parts.
pub proof fn lemma_rung_bounds(base: int, f: nat, k: int)
    requires
        f >= 2,
        base >= 1,
    ensures
        rung_den(f, k) >= 1,
        rung_num(base, f, k) >= 1,
{
    lemma_rung_shape(base, f, k);
}

/// Exact comparison `num * pd > pn * den` on bounded operands.
fn exceeds(num: u128, den: u128, pn: u128, pd: u128) -> (r: bool)
    requires
        num < 0x1_0000_0000_0000_0000u128,
        den < 0x1_0000_0000_0000_0000_0000_0000u128,
        pn <= u32::MAX,
        pd <= u32::MAX,
    ensures
        r == (num * pd > pn * den),
{
    assert(num * pd < 0x1_0000_0000_0000_0000_0000_0000u128) by (nonlinear_arith)
        requires num < 0x1_0000_0000_0000_0000u128, pd <= u32::MAX;
    assert(pn * den <= u32::MAX * 0x1_0000_0000_0000_0000_0000_0000u128) by (nonlinear_arith)
        requires den < 0x1_0000_0000_0000_0000_0000_0000u128, pn <= u32::MAX;
    num * pd > pn * den
}

/// Exact comparison `num * pd < pn * den` on bounded operands.
fn falls_short(num: u128, den: u128, pn: u128, pd: u128) -> (r: bool)
    requires
        num < 0x1_0000_0000_0000_0000u128,
        den < 0x1_0000_0000_0000_0000_0000_0000u128,
        pn <= u32::MAX,
        pd <= u32::MAX,
    ensures
        r == (num * pd < pn * den),
{
    assert(num * pd < 0x1_0000_0000_0000_0000_0000_0000u128) by (nonlinear_arith)
        requires num < 0x1_0000_0000_0000_0000u128, pd <= u32::MAX;
    assert(pn * den <= u32::MAX * 0x1_0000_0000_0000_0000_0000_0000u128) by (nonlinear_arith)
        requires den < 0x1_0000_0000_0000_0000_0000_0000u128, pn <= u32::MAX;
    num * pd < pn * den
}

/// The first rung `base * f^k` strictly past `p` in direction `dir`.
/// `None` when that rung's numerator or denominator exceeds `u32`.
pub fn ladder_step(p: Price, base: u32, f: u32, dir: Direction) -> (r: Option<Price>)
    requires
        p.wf(),
        base > 0,
        f >= 2,
    ensures
        exists|k: int| #[trigger] is_next_rung(base as int, f as nat, p, dir, k)
            && (r is Some <==> rung_fits(base as int, f as nat, k))
            && (r is Some ==> r->0.num == rung_num(base as int, f as nat, k)
                && r->0.den == rung_den(f as nat, k)),
        r is Some ==> r->0.wf() && beyond(r->0, p, dir) && on_ladder(r->0, base as int, f as nat),
{
    let pn: u128 = p.num as u128;
    let pd: u128 = p.den as u128;
    let ff: u128 = f as u128;
    let b: u128 = base as u128;
    let mut num: u128 = b;
    let mut den: u128 = 1;
    let ghost mut k: int = 0;
    let ghost fi: nat = f as nat;
    let ghost bi: int = base as int;
    proof {
        lemma_rung_shape(bi, fi, 0);
    }
    match dir {
        Direction::Up => {
            while exceeds(num, den, pn, pd)
                invariant
                    k <= 0,
                    num == b,
                    num == rung_num(bi, fi, k),
                    den == rung_den(fi, k),
                    1 <= den < 0x1_0000_0000_0000_0000_0000_0000u128,
                    pn == p.num, pd == p.den, ff == f, b == base, fi == f, bi == base,
                    1 <= pn <= u32::MAX, 1 <= pd <= u32::MAX, 2 <= ff <= u32::MAX, 1 <= b <= u32::MAX,
                decreases 0x1_0000_0000_0000_0000_0000_0000u128 - den,
            {
                proof {
                    assert(den < 0x1_0000_0000_0000_0000u128) by (nonlinear_arith)
                        requires num * pd > pn * den, num <= u32::MAX, pd <= u32::MAX, pn >= 1, den >= 1;
                    assert(den * ff < 0x1_0000_0000_0000_0000_0000_0000u128) by (nonlinear_arith)
                        requires den < 0x1_0000_0000_0000_0000u128, ff <= u32::MAX;
                    assert(den * ff > den) by (nonlinear_arith) requires den >= 1, ff >= 2;
                    lemma_rung_shape(bi, fi, k - 1);
                    assert(den * ff == fi * den) by (nonlinear_arith) requires ff == fi;
                }
                den = den * ff;
                proof {
                    k = k - 1;
                }
            }
            while !exceeds(num, den, pn, pd)
                invariant
                    num == rung_num(bi, fi, k),
                    den == rung_den(fi, k),
                    1 <= num < 0x1_0000_0000_0000_0000u128,
                    1 <= den < 0x1_0000_0000_0000_0000_0000_0000u128,
                    rung_above(bi, fi, k, p) ==> !rung_above(bi, fi, k - 1, p),
                    pn == p.num, pd == p.den, ff == f, b == base, fi == f, bi == base,
                    1 <= pn <= u32::MAX, 1 <= pd <= u32::MAX, 2 <= ff <= u32::MAX, 1 <= b <= u32::MAX,
                decreases den, 0x1_0000_0000_0000_0000u128 - num,
            {
                proof {
                    lemma_rung_shape(bi, fi, k);
                    lemma_rung_shape(bi, fi, k + 1);
                }
                if den > 1 {
                    proof {
                        lemma_div_multiples_vanish(rung_den(fi, k + 1), fi as int);
                        assert(den / ff < den) by (nonlinear_arith) requires den >= 1, ff >= 2;
                    }
                    den = den / ff;
                } else {
                    proof {
                        assert(num <= pn) by (nonlinear_arith) requires num * pd <= pn * den, pd >= 1, den == 1;
                        assert(num * ff < 0x1_0000_0000_0000_0000u128) by (nonlinear_arith)
                            requires num <= u32::MAX, ff <= u32::MAX;
                        assert(num * ff > num) by (nonlinear_arith) requires num >= 1, ff >= 2;
                    }
                    num = num * ff;
                }
                proof {
                    k = k + 1;
                }
            }
        }
        Direction::Down => {
            while falls_short(num, den, pn, pd)
                invariant
                    k >= 0,
                    den == 1,
                    num == rung_num(bi, fi, k),
                    den == rung_den(fi, k),
                    1 <= num < 0x1_0000_0000_0000_0000u128,
                    pn == p.num, pd == p.den, ff == f, b == base, fi == f, bi == base,
                    1 <= pn <= u32::MAX, 1 <= pd <= u32::MAX, 2 <= ff <= u32::MAX, 1 <= b <= u32::MAX,
                decreases 0x1_0000_0000_0000_0000u128 - num,
            {
                proof {
                    lemma_rung_shape(bi, fi, k);
                    lemma_rung_shape(bi, fi, k + 1);
                    assert(num <= pn) by (nonlinear_arith) requires num * pd < pn * den, pd >= 1, den == 1;
                    assert(num * ff < 0x1_0000_0000_0000_0000u128) by (nonlinear_arith)
                        requires num <= u32::MAX, ff <= u32::MAX;
                    assert(num * ff > num) by (nonlinear_arith) requires num >= 1, ff >= 2;
                }
                num = num * ff;
                proof {
                    k = k + 1;
                }
            }
            while !falls_short(num, den, pn, pd)
                invariant
                    num == rung_num(bi, fi, k),
                    den == rung_den(fi, k),
                    1 <= num < 0x1_0000_0000_0000_0000u128,
                    1 <= den < 0x1_0000_0000_0000_0000_0000_0000u128,
                    rung_below(bi, fi, k, p) ==> !rung_below(bi, fi, k + 1, p),
                    pn == p.num, pd == p.den, ff == f, b == base, fi == f, bi == base,
                    1 <= pn <= u32::MAX, 1 <= pd <= u32::MAX, 2 <= ff <= u32::MAX, 1 <= b <= u32::MAX,
                decreases num, 0x1_0000_0000_0000_0000_0000_0000u128 - den,
            {
                proof {
                    lemma_rung_shape(bi, fi, k);
                    lemma_rung_shape(bi, fi, k - 1);
                }
                if num > b {
                    proof {
                        assert(k > 0);
                        lemma_div_multiples_vanish(rung_num(bi, fi, k - 1), fi as int);
                        assert(num / ff < num) by (nonlinear_arith) requires num >= 1, ff >= 2;
                    }
                    num = num / ff;
                } else {
                    proof {
                        assert(k <= 0);
                        assert(den < 0x1_0000_0000_0000_0000u128) by (nonlinear_arith)
                            requires num * pd >= pn * den, num <= u32::MAX, pd <= u32::MAX, pn >= 1, den >= 1;
                        assert(den * ff < 0x1_0000_0000_0000_0000_0000_0000u128) by (nonlinear_arith)
                            requires den < 0x1_0000_0000_0000_0000u128, ff <= u32::MAX;
                        assert(den * ff > den) by (nonlinear_arith) requires den >= 1, ff >= 2;
                        assert(den * ff == fi * den) by (nonlinear_arith) requires ff == fi;
                    }
                    den = den * ff;
                }
                proof {
                    k = k - 1;
                }
            }
        }
    }
    assert(is_next_rung(bi, fi, p, dir, k));
    if num <= u32::MAX as u128 && den <= u32::MAX as u128 {
        let r = Price { num: num as u32, den: den as u32 };
        assert(rung_num(bi, fi, k) * r.den == r.num * rung_den(fi, k)) by (nonlinear_arith)
            requires r.num == rung_num(bi, fi, k), r.den == rung_den(fi, k);
        Some(r)
    } else {
        None
    }
}

/// What `step_rung` returns.
pub open spec fn stepped(r: Price, f: nat, dir: Direction) -> Option<Price> {
    match dir {
        Direction::Up => if r.den as int % f as int == 0 {
            Some(Price { num: r.num, den: (r.den as int / f as int) as u32 })
        } else if r.num * f <= u32::MAX {
            Some(Price { num: (r.num * f) as u32, den: r.den })
        } else {
            None
        },
        Direction::Down => if r.num as int % f as int == 0 {
            Some(Price { num: (r.num as int / f as int) as u32, den: r.den })
        } else if r.den * f <= u32::MAX {
            Some(Price { num: r.num, den: (r.den * f) as u32 })
        } else {
            None
        },
    }
}

/// Whether `a * b` fits in a `u32`.
fn mul_fits(a: u32, b: u32) -> (r: bool)
    ensures
        r == (a * b <= u32::MAX),
{
    assert((a as u64) * (b as u64) <= u32::MAX * u32::MAX) by (nonlinear_arith)
        requires a <= u32::MAX, b <= u32::MAX;
    (a as u64) * (b as u64) <= u32::MAX as u64
}

/// The price one factor `f` further in direction `dir`: `r * f` going up,
/// `r / f` going down. The denominator (up) or numerator (down) is divided
/// by `f` when it is a multiple of it; otherwise the other part is
/// multiplied, and `None` is returned when that product exceeds `u32`.
pub fn step_rung(r: Price, f: u32, dir: Direction) -> (q: Option<Price>)
    requires
        r.wf(),
        f >= 2,
    ensures
        q is Some <==> match dir {
            Direction::Up => r.den % f == 0 || r.num * f <= u32::MAX,
            Direction::Down => r.num % f == 0 || r.den * f <= u32::MAX,
        },
        q == stepped(r, f as nat, dir),
        q is Some ==> q->0.wf() && one_step(r, q->0, f as nat, dir),
{
    match dir {
        Direction::Up => {
            if r.den % f == 0 {
                proof {
                    vstd::arithmetic::div_mod::lemma_fundamental_div_mod(r.den as int, f as int);
                    assert(r.num * r.den == f * r.num * (r.den / f)) by (nonlinear_arith)
                        requires r.den == f * (r.den / f);
                    assert(r.den / f > 0) by (nonlinear_arith) requires r.den == f * (r.den / f), r.den > 0, f > 0;
                }
                Some(Price { num: r.num, den: r.den / f })
            } else if mul_fits(r.num, f) {
                let q = Price { num: ((r.num as u64) * (f as u64)) as u32, den: r.den };
                assert(q.num * r.den == f * r.num * q.den) by (nonlinear_arith)
                    requires q.num == r.num * f, q.den == r.den;
                assert(q.num > 0) by (nonlinear_arith) requires q.num == r.num * f, r.num > 0, f > 0;
                Some(q)
            } else {
                None
            }
        }
        Direction::Down => {
            if r.num % f == 0 {
                proof {
                    vstd::arithmetic::div_mod::lemma_fundamental_div_mod(r.num as int, f as int);
                    assert(f * (r.num / f) * r.den == r.num * r.den) by (nonlinear_arith)
                        requires r.num == f * (r.num / f);
                    assert(r.num / f > 0) by (nonlinear_arith) requires r.num == f * (r.num / f), r.num > 0, f > 0;
                }
                Some(Price { num: r.num / f, den: r.den })
            } else if mul_fits(r.den, f) {
                let q = Price { num: r.num, den: ((r.den as u64) * (f as u64)) as u32 };
                assert(f * q.num * r.den == r.num * q.den) by (nonlinear_arith)
                    requires q.num == r.num, q.den == r.den * f;
                assert(q.den > 0) by (nonlinear_arith) requires q.den == r.den * f, r.den > 0, f > 0;
                Some(q)
            } else {
                None
            }
        }
    }
}

} // verus!
