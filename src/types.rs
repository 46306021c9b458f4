use vstd::prelude::*;

verus! {

/// A positive rational price: `num / den` price units per ETH.
#[derive(Clone, Copy, Debug, PartialEq, Eq, Structural)]
pub struct Price {
    pub num: u32,
    pub den: u32,
}

impl Price {
    pub open spec fn wf(self) -> bool {
        self.num > 0 && self.den > 0
    }

    /// `self < other` as rationals.
    pub open spec fn lt(self, other: Price) -> bool {
        self.num * other.den < other.num * self.den
    }

    /// A whole price.
    pub fn whole(n: u32) -> (r: Price)
        requires
            n > 0,
        ensures
            r.wf(),
            r.num == n,
            r.den == 1,
    {
        Price { num: n, den: 1 }
    }

    /// Exact strict comparison of two prices.
    pub fn less_than(&self, other: &Price) -> (r: bool)
        ensures
            r == self.lt(*other),
    {
        let a: u64 = self.num as u64;
        let b: u64 = other.den as u64;
        let c: u64 = other.num as u64;
        let d: u64 = self.den as u64;
        assert(a * b <= u32::MAX * u32::MAX && c * d <= u32::MAX * u32::MAX) by (nonlinear_arith)
            requires a <= u32::MAX, b <= u32::MAX, c <= u32::MAX, d <= u32::MAX;
        a * b < c * d
    }
}

/// A non-negative fraction `num / den` of small integers.
#[derive(Clone, Copy, Debug, PartialEq, Eq, Structural)]
pub struct Ratio {
    pub num: u16,
    pub den: u16,
}

/// The power-law factor of a projection, `num / den`, computed by the caller.
#[derive(Clone, Copy, Debug, PartialEq, Eq, Structural)]
pub struct Factor {
    pub num: u64,
    pub den: u64,
}

impl Factor {
    pub open spec fn wf(self) -> bool {
        self.num > 0 && self.den > 0
    }
}

/// Ladder search polarity.
#[derive(Clone, Copy, Debug, PartialEq, Eq, Structural)]
pub enum Direction {
    Up,
    Down,
}

/// Projected ETH exposure of each leg at a price.
#[derive(Clone, Copy, Debug, PartialEq, Eq, Structural)]
pub struct Prediction {
    pub price: Price,
    pub short: u64,
    pub long: u64,
}

/// One wallet's position on one lending protocol, in ETH units.
#[derive(Clone, Copy, Debug, PartialEq, Eq, Structural)]
pub struct Loan {
    pub collateral: u64,
    pub debt: u64,
}

/// Tunable constants of the engine.
#[derive(Clone, Copy, Debug, PartialEq, Eq, Structural)]
pub struct Config {
    /// The power-law exponent of a projection; used by whoever computes factors.
    pub exponent: Ratio,
    /// Desired collateral / debt of each leg; above one.
    pub target_ratio: Ratio,
    /// Share of the net value taken out at a rebalance; below one.
    pub keep_ratio: Ratio,
    /// Share of the remaining value given to the short leg; at most one.
    pub short_share: Ratio,
    /// Spacing factor of the price ladder; at least two.
    pub ladder: u32,
    /// Rebalance up once `short * up_threshold <= long`.
    pub up_threshold: u16,
    /// Rebalance down once `long * down_threshold <= short`.
    pub down_threshold: u16,
}

impl Config {
    pub open spec fn wf(self) -> bool {
        &&& self.exponent.den > 0
        &&& self.target_ratio.den > 0 && self.target_ratio.num > self.target_ratio.den
        &&& self.keep_ratio.den > 0 && self.keep_ratio.num < self.keep_ratio.den
        &&& self.short_share.den > 0 && self.short_share.num <= self.short_share.den
        &&& self.ladder >= 2
    }

    /// A checked configuration.
    pub fn new(
        exponent: Ratio,
        target_ratio: Ratio,
        keep_ratio: Ratio,
        short_share: Ratio,
        ladder: u32,
        up_threshold: u16,
        down_threshold: u16,
    ) -> (r: Result<Config, EngineError>)
        ensures
            r is Ok <==> (Config { exponent, target_ratio, keep_ratio, short_share, ladder, up_threshold, down_threshold }).wf(),
            r is Ok ==> r->Ok_0 == (Config { exponent, target_ratio, keep_ratio, short_share, ladder, up_threshold, down_threshold }),
            r is Err ==> r->Err_0 == EngineError::InvalidConfiguration,
    {
        let c = Config { exponent, target_ratio, keep_ratio, short_share, ladder, up_threshold, down_threshold };
        if exponent.den > 0 && target_ratio.den > 0 && target_ratio.num > target_ratio.den
            && keep_ratio.den > 0 && keep_ratio.num < keep_ratio.den && short_share.den > 0
            && short_share.num <= short_share.den && ladder >= 2 {
            Ok(c)
        } else {
            Err(EngineError::InvalidConfiguration)
        }
    }

    /// The usual constants around a chosen exponent, target and skim: two
    /// thirds of the value on the short leg, a ladder of factor three, and
    /// rebalance thresholds of six and thirty-six.
    pub fn standard(exponent: Ratio, target_ratio: Ratio, keep_ratio: Ratio) -> (r: Result<Config, EngineError>)
        ensures
            r is Ok <==> (Config {
                exponent,
                target_ratio,
                keep_ratio,
                short_share: Ratio { num: 2, den: 3 },
                ladder: 3,
                up_threshold: 6,
                down_threshold: 36,
            }).wf(),
            r is Ok ==> r->Ok_0 == (Config {
                exponent,
                target_ratio,
                keep_ratio,
                short_share: Ratio { num: 2, den: 3 },
                ladder: 3,
                up_threshold: 6,
                down_threshold: 36,
            }),
            r is Err ==> r->Err_0 == EngineError::InvalidConfiguration,
    {
        Config::new(exponent, target_ratio, keep_ratio, Ratio { num: 2, den: 3 }, 3, 6, 36)
    }
}

/// Rejections of the engine.
#[derive(Clone, Copy, Debug, PartialEq, Eq, Structural)]
pub enum EngineError {
    InvalidConfiguration,
    InvalidInput,
}

/// An error reported by a chain reader.
#[derive(Clone, Debug)]
pub struct BlockchainError(pub String);

impl BlockchainError {
    /// The message carried by the error.
    pub fn description(&self) -> (r: &str)
        ensures
            r@ == self.0@,
    {
        self.0.as_str()
    }
}

} // verus!
