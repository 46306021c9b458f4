use vstd::prelude::*;
use vstd::arithmetic::div_mod::lemma_div_denominator;
use crate::ladder::power;
use crate::types::Loan;

verus! {

/// Wei in one loan unit: loan amounts count nano-ETH.
pub const WEI_PER_UNIT: u128 = 1_000_000_000;

/// Wei in one ETH.
pub const WEI_PER_ETH: u128 = 1_000_000_000_000_000_000;

/// A wei amount in loan units, rounded down; `None` beyond `u64`.
pub fn units_from_wei(wei: u128) -> (r: Option<u64>)
    ensures
        r is Some <==> wei / WEI_PER_UNIT <= u64::MAX,
        r is Some ==> r->0 == wei / WEI_PER_UNIT,
{
    let u: u128 = wei / WEI_PER_UNIT;
    if u <= u64::MAX as u128 {
        Some(u as u64)
    } else {
        None
    }
}

/// A loan from its collateral and debt in wei.
pub fn loan_from_wei(collateral: u128, debt: u128) -> (r: Option<Loan>)
    ensures
        r is Some <==> collateral / WEI_PER_UNIT <= u64::MAX && debt / WEI_PER_UNIT <= u64::MAX,
        r is Some ==> r->0.collateral == collateral / WEI_PER_UNIT && r->0.debt == debt / WEI_PER_UNIT,
{
    match (units_from_wei(collateral), units_from_wei(debt)) {
        (Some(c), Some(d)) => Some(Loan { collateral: c, debt: d }),
        _ => None,
    }
}

/// Net ETH value of a loan: collateral less debt.
pub fn net_value(loan: &Loan) -> (r: i128)
    ensures
        r == loan.collateral - loan.debt,
{
    loan.collateral as i128 - loan.debt as i128
}

/// The ETH price in whole USD from a feed answer that gives the wei of ETH
/// worth one USD: `10^18 / answer`, rounded down. `None` when the answer is
/// zero or the price is zero or beyond `u32`.
pub fn price_from_answer(answer: u128) -> (r: Option<u32>)
    ensures
        r is Some <==> answer > 0 && 0 < WEI_PER_ETH / answer <= u32::MAX,
        r is Some ==> r->0 == WEI_PER_ETH / answer,
{
    if answer == 0 {
        return None;
    }
    let p: u128 = WEI_PER_ETH / answer;
    if p > 0 && p <= u32::MAX as u128 {
        Some(p as u32)
    } else {
        None
    }
}

/// `10^n`, for `n <= 38`.
fn ten_to(n: u32) -> (r: u128)
    requires
        n <= 38,
    ensures
        r == power(10, n as nat),
{
    let mut r: u128 = 1;
    let mut i: u32 = 0;
    proof {
        lemma_power_mono(0, 38);
        lemma_ten_to_38();
    }
    while i < n
        invariant
            i <= n <= 38,
            r == power(10, i as nat),
            r <= power(10, 38),
            power(10, 38) == 100_000_000_000_000_000_000_000_000_000_000_000_000,
        decreases n - i,
    {
        proof {
            lemma_power_mono(i as nat + 1, 38);
        }
        r = r * 10;
        i = i + 1;
    }
    r
}

proof fn lemma_ten_to_38()
    ensures
        power(10, 38) == 100_000_000_000_000_000_000_000_000_000_000_000_000,
{
    reveal_with_fuel(power, 39);
}

proof fn lemma_power_mono(a: nat, b: nat)
    requires
        a <= b,
    ensures
        power(10, a) <= power(10, b),
        power(10, a) >= 1,
    decreases b,
{
    if b > a {
        lemma_power_mono(a, (b - 1) as nat);
    } else if a > 0 {
        lemma_power_mono((a - 1) as nat, (a - 1) as nat);
    }
}

/// A stablecoin amount given with `decimals` decimals, worth USD one to one,
/// in loan units of ETH at `eth_price` USD per ETH:
/// `raw * 10^9 / (10^decimals * eth_price)`, rounded down. `None` when the
/// price is zero, `decimals` exceeds 38, `raw * 10^9` exceeds `u128`, or the
/// result exceeds `u64`.
pub fn stable_in_units(raw: u128, decimals: u32, eth_price: u32) -> (r: Option<u64>)
    ensures
        r is Some <==> eth_price > 0 && decimals <= 38 && raw * WEI_PER_UNIT <= u128::MAX
            && (raw * WEI_PER_UNIT) / (power(10, decimals as nat) * eth_price) <= u64::MAX,
        r is Some ==> r->0 == (raw * WEI_PER_UNIT) / (power(10, decimals as nat) * eth_price),
{
    if eth_price == 0 || decimals > 38 {
        return None;
    }
    let scale: u128 = ten_to(decimals);
    proof {
        lemma_power_mono(0, decimals as nat);
    }
    match raw.checked_mul(WEI_PER_UNIT) {
        None => None,
        Some(x) => {
            let v: u128 = x / scale / (eth_price as u128);
            proof {
                lemma_div_denominator(x as int, scale as int, eth_price as int);
            }
            if v <= u64::MAX as u128 {
                Some(v as u64)
            } else {
                None
            }
        },
    }
}

/// The last `n` bytes of `data`, or all of it when shorter.
pub fn last_bytes(data: &Vec<u8>, n: usize) -> (r: Vec<u8>)
    ensures
        r@ == data@.subrange(if data@.len() > n { data@.len() - n } else { 0 }, data@.len() as int),
{
    let start: usize = if data.len() > n { data.len() - n } else { 0 };
    let mut out: Vec<u8> = Vec::new();
    let mut i: usize = start;
    while i < data.len()
        invariant
            start <= i <= data@.len(),
            out@ == data@.subrange(start as int, i as int),
        decreases data.len() - i,
    {
        out.push(data[i]);
        assert(out@ =~= data@.subrange(start as int, i + 1));
        i = i + 1;
    }
    out
}

} // verus!
