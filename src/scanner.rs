use vstd::prelude::*;
use crate::types::{Factor, Prediction, Price};
use crate::predictor::{predict, projection};

verus! {

/// Prices `start, start + step, ...` below `end`, or up to `end` when
/// `inclusive`.
#[derive(Clone, Copy, Debug, PartialEq, Eq, Structural)]
pub struct Band {
    pub start: u32,
    pub end: u32,
    pub step: u32,
    pub inclusive: bool,
}

impl Band {
    pub open spec fn wf(self) -> bool {
        self.start > 0 && self.step > 0
    }

    /// `x` lies within the band's upper bound.
    pub open spec fn admits(self, x: int) -> bool {
        if self.inclusive {
            x <= self.end
        } else {
            x < self.end
        }
    }
}

/// The band's prices from `x` on.
pub open spec fn band_from(b: Band, x: int) -> Seq<u32>
    decreases (if x <= b.end { b.end + 1 - x } else { 0 }),
{
    if b.step > 0 && b.admits(x) && x >= 0 {
        seq![x as u32] + band_from(b, x + b.step)
    } else {
        seq![]
    }
}

/// The grid: each band's prices, band after band.
pub open spec fn grid(bands: Seq<Band>) -> Seq<u32>
    decreases bands.len(),
{
    if bands.len() == 0 {
        seq![]
    } else {
        grid(bands.drop_last()) + band_from(bands.last(), bands.last().start as int)
    }
}

/// The prices of one band, in increasing order.
pub fn band_prices(b: Band) -> (r: Vec<u32>)
    requires
        b.wf(),
    ensures
        r@ == band_from(b, b.start as int),
{
    let mut out: Vec<u32> = Vec::new();
    let mut x: u64 = b.start as u64;
    let end: u64 = b.end as u64;
    let step: u64 = b.step as u64;
    while (b.inclusive && x <= end) || (!b.inclusive && x < end)
        invariant
            out@ + band_from(b, x as int) == band_from(b, b.start as int),
            b.start <= x,
            x <= end + step || x == b.start,
            end == b.end, step == b.step, step > 0,
        decreases end + step - x,
    {
        assert(band_from(b, x as int) == seq![x as u32] + band_from(b, x + step));
        out.push(x as u32);
        assert(out@ + band_from(b, (x + step) as int) =~= band_from(b, b.start as int));
        x = x + step;
    }
    assert(band_from(b, x as int) == Seq::<u32>::empty());
    assert(out@ =~= out@ + band_from(b, x as int));
    out
}

/// The price grid of `bands`, band after band.
pub fn price_grid(bands: &Vec<Band>) -> (r: Vec<u32>)
    requires
        forall|i: int| 0 <= i < bands@.len() ==> (#[trigger] bands@[i]).wf(),
    ensures
        r@ == grid(bands@),
{
    let mut out: Vec<u32> = Vec::new();
    let mut i: usize = 0;
    while i < bands.len()
        invariant
            i <= bands@.len(),
            out@ == grid(bands@.subrange(0, i as int)),
            forall|j: int| 0 <= j < bands@.len() ==> (#[trigger] bands@[j]).wf(),
        decreases bands.len() - i,
    {
        let mut part = band_prices(bands[i]);
        assert(bands@.subrange(0, i + 1).drop_last() =~= bands@.subrange(0, i as int));
        out.append(&mut part);
        i = i + 1;
    }
    assert(bands@.subrange(0, i as int) =~= bands@);
    out
}

/// The standard grid: steps of 50 from 500, 100 from 1000, 250 from 3000,
/// 500 from 5000 and 1000 from 10000 up to 20000 included.
pub fn standard_bands() -> (r: Vec<Band>)
    ensures
        r@.len() == 5,
        forall|i: int| 0 <= i < r@.len() ==> (#[trigger] r@[i]).wf(),
        r@[0] == (Band { start: 500, end: 1000, step: 50, inclusive: false }),
        r@[1] == (Band { start: 1000, end: 3000, step: 100, inclusive: false }),
        r@[2] == (Band { start: 3000, end: 5000, step: 250, inclusive: false }),
        r@[3] == (Band { start: 5000, end: 10000, step: 500, inclusive: false }),
        r@[4] == (Band { start: 10000, end: 20000, step: 1000, inclusive: true }),
{
    vec![
        Band { start: 500, end: 1000, step: 50, inclusive: false },
        Band { start: 1000, end: 3000, step: 100, inclusive: false },
        Band { start: 3000, end: 5000, step: 250, inclusive: false },
        Band { start: 5000, end: 10000, step: 500, inclusive: false },
        Band { start: 10000, end: 20000, step: 1000, inclusive: true },
    ]
}

/// Projects `current` to each of `prices`, with the matching factor.
/// `None` when any projection is out of range.
pub fn predict_all(current: &Prediction, prices: &Vec<Price>, factors: &Vec<Factor>) -> (r: Option<Vec<Prediction>>)
    requires
        current.price.wf(),
        prices@.len() == factors@.len(),
        forall|i: int| 0 <= i < prices@.len() ==> (#[trigger] prices@[i]).wf(),
        forall|i: int| 0 <= i < factors@.len() ==> (#[trigger] factors@[i]).wf(),
    ensures
        r is Some <==> forall|i: int| 0 <= i < prices@.len()
            ==> (#[trigger] projection(*current, prices@[i], factors@[i])) is Some,
        r is Some ==> r->0@.len() == prices@.len() && forall|i: int| 0 <= i < prices@.len()
            ==> r->0@[i] == (#[trigger] projection(*current, prices@[i], factors@[i]))->0,
{
    let mut out: Vec<Prediction> = Vec::new();
    let mut i: usize = 0;
    while i < prices.len()
        invariant
            i <= prices@.len(),
            prices@.len() == factors@.len(),
            current.price.wf(),
            forall|j: int| 0 <= j < prices@.len() ==> (#[trigger] prices@[j]).wf(),
            forall|j: int| 0 <= j < factors@.len() ==> (#[trigger] factors@[j]).wf(),
            out@.len() == i,
            forall|j: int| 0 <= j < i ==> (#[trigger] projection(*current, prices@[j], factors@[j])) is Some
                && out@[j] == projection(*current, prices@[j], factors@[j])->0,
        decreases prices.len() - i,
    {
        match predict(current, prices[i], factors[i]) {
            None => {
                return None;
            },
            Some(p) => {
                out.push(p);
            },
        }
        i = i + 1;
    }
    Some(out)
}

/// The long leg has grown to `threshold` times the short one or more.
pub open spec fn up_trigger(p: Prediction, threshold: u16) -> bool {
    p.short * threshold <= p.long
}

/// The short leg has grown to `threshold` times the long one or more.
pub open spec fn down_trigger(p: Prediction, threshold: u16) -> bool {
    p.long * threshold <= p.short
}

fn is_up_trigger(p: &Prediction, threshold: u16) -> (r: bool)
    ensures
        r == up_trigger(*p, threshold),
{
    let s: u128 = p.short as u128;
    let t: u128 = threshold as u128;
    assert(s * t <= u64::MAX * u16::MAX) by (nonlinear_arith) requires s <= u64::MAX, t <= u16::MAX;
    s * t <= p.long as u128
}

fn is_down_trigger(p: &Prediction, threshold: u16) -> (r: bool)
    ensures
        r == down_trigger(*p, threshold),
{
    let l: u128 = p.long as u128;
    let t: u128 = threshold as u128;
    assert(l * t <= u64::MAX * u16::MAX) by (nonlinear_arith) requires l <= u64::MAX, t <= u16::MAX;
    l * t <= p.short as u128
}

/// The price of the first prediction, in scan order, at which the long leg
/// reaches `threshold` times the short one; `None` when there is none.
pub fn find_rebalance_up(predictions: &Vec<Prediction>, threshold: u16) -> (r: Option<Price>)
    ensures
        r is None <==> forall|i: int| 0 <= i < predictions@.len()
            ==> !up_trigger(#[trigger] predictions@[i], threshold),
        r is Some ==> exists|i: int| 0 <= i < predictions@.len()
            && up_trigger(#[trigger] predictions@[i], threshold)
            && r->0 == predictions@[i].price
            && forall|j: int| 0 <= j < i ==> !up_trigger(#[trigger] predictions@[j], threshold),
{
    let mut i: usize = 0;
    while i < predictions.len()
        invariant
            i <= predictions@.len(),
            forall|j: int| 0 <= j < i ==> !up_trigger(#[trigger] predictions@[j], threshold),
        decreases predictions.len() - i,
    {
        if is_up_trigger(&predictions[i], threshold) {
            return Some(predictions[i].price);
        }
        i = i + 1;
    }
    None
}

/// The price of the last prediction, in scan order, at which the short leg
/// reaches `threshold` times the long one; `None` when there is none.
pub fn find_rebalance_down(predictions: &Vec<Prediction>, threshold: u16) -> (r: Option<Price>)
    ensures
        r is None <==> forall|i: int| 0 <= i < predictions@.len()
            ==> !down_trigger(#[trigger] predictions@[i], threshold),
        r is Some ==> exists|i: int| 0 <= i < predictions@.len()
            && down_trigger(#[trigger] predictions@[i], threshold)
            && r->0 == predictions@[i].price
            && forall|j: int| i < j < predictions@.len() ==> !down_trigger(#[trigger] predictions@[j], threshold),
{
    let mut i: usize = predictions.len();
    while i > 0
        invariant
            i <= predictions@.len(),
            forall|j: int| i <= j < predictions@.len() ==> !down_trigger(#[trigger] predictions@[j], threshold),
        decreases i,
    {
        i = i - 1;
        if is_down_trigger(&predictions[i], threshold) {
            return Some(predictions[i].price);
        }
    }
    None
}

} // verus!
