use vstd::prelude::*;
use rustc_hex::FromHex;
use crate::ladder::power;
use crate::units::units_from_wei;
use crate::units::last_bytes;

verus! {

/// Characters that hex decoding skips.
pub open spec fn is_blank(c: char) -> bool {
    c == ' ' || c == '\r' || c == '\n' || c == '\t'
}

/// The value of a hex digit, or -1 for any other character.
pub open spec fn digit_value(c: char) -> int {
    let u = c as u32;
    if 48 <= u <= 57 {
        u - 48
    } else if 97 <= u <= 102 {
        u - 87
    } else if 65 <= u <= 70 {
        u - 55
    } else {
        -1
    }
}

/// The digits of `cs`, blanks removed.
pub open spec fn hex_digits(cs: Seq<char>) -> Seq<char> {
    cs.filter(|c: char| !is_blank(c))
}

/// `cs` holds only hex digits and blanks, and an even number of digits.
pub open spec fn hex_ok(cs: Seq<char>) -> bool {
    &&& forall|i: int| 0 <= i < cs.len() ==> is_blank(#[trigger] cs[i]) || digit_value(cs[i]) >= 0
    &&& hex_digits(cs).len() % 2 == 0
}

/// The bytes that pairs of hex digits stand for.
pub open spec fn hex_bytes(ds: Seq<char>) -> Seq<u8> {
    Seq::new(ds.len() / 2, |i: int| (16 * digit_value(ds[2 * i]) + digit_value(ds[2 * i + 1])) as u8)
}

/// The unsigned big-endian number that `bs` writes.
pub open spec fn big_endian(bs: Seq<u8>) -> nat
    decreases bs.len(),
{
    if bs.len() == 0 {
        0
    } else {
        (big_endian(bs.drop_last()) * 256 + bs.last()) as nat
    }
}

/// Relies on rustc_hex's `FromHex for str`: it skips blanks, turns each
/// pair of hex digits into a byte, and fails on any other character or on
/// an odd number of digits.
#[verifier::external_body]
fn from_hex(s: &str) -> (r: Option<Vec<u8>>)
    ensures
        r is Some <==> hex_ok(s@),
        r is Some ==> r->0@ == hex_bytes(hex_digits(s@)),
{
    s.from_hex::<Vec<u8>>().ok()
}

/// Relies on `concat` of string slices: the pieces joined in order.
#[verifier::external_body]
fn zero_prefixed(s: &str) -> (r: String)
    ensures
        r@ == seq!['0'] + s@,
{
    ["0", s].concat()
}

/// The bytes of a hex payload (without its `0x`); `None` when it is not
/// valid hex.
pub fn payload_bytes(payload: &str) -> (r: Option<Vec<u8>>)
    ensures
        r is Some <==> hex_ok(payload@),
        r is Some ==> r->0@ == hex_bytes(hex_digits(payload@)),
{
    from_hex(payload)
}

/// The bytes of a hex quantity, which nodes may write with an odd number
/// of digits: decoded as it stands, or else with a leading zero digit.
pub fn quantity_bytes(payload: &str) -> (r: Option<Vec<u8>>)
    ensures
        r is Some <==> hex_ok(payload@) || hex_ok(seq!['0'] + payload@),
        r is Some && hex_ok(payload@) ==> r->0@ == hex_bytes(hex_digits(payload@)),
        r is Some && !hex_ok(payload@) ==> r->0@ == hex_bytes(hex_digits(seq!['0'] + payload@)),
{
    match from_hex(payload) {
        Some(v) => Some(v),
        None => {
            let padded = zero_prefixed(payload);
            from_hex(padded.as_str())
        },
    }
}

/// The low 16 bytes of a hex storage word.
pub fn storage_bytes(payload: &str) -> (r: Option<Vec<u8>>)
    ensures
        r is Some <==> hex_ok(payload@),
        r is Some ==> ({
            let bs = hex_bytes(hex_digits(payload@));
            r->0@ == bs.subrange(if bs.len() > 16 { bs.len() - 16 } else { 0 }, bs.len() as int)
        }),
{
    match from_hex(payload) {
        Some(v) => Some(last_bytes(&v, 16)),
        None => None,
    }
}

proof fn lemma_big_endian_bound(bs: Seq<u8>)
    ensures
        big_endian(bs) < power(256, bs.len()),
    decreases bs.len(),
{
    if bs.len() > 0 {
        lemma_big_endian_bound(bs.drop_last());
        let a = big_endian(bs.drop_last());
        let p = power(256, (bs.len() - 1) as nat);
        assert(power(256, bs.len()) == 256 * p);
        assert(a * 256 + bs.last() < 256 * p) by (nonlinear_arith)
            requires a < p, bs.last() < 256;
    }
}

proof fn lemma_power_256_mono(a: nat, b: nat)
    requires
        a <= b,
    ensures
        power(256, a) <= power(256, b),
    decreases b,
{
    if b > a {
        lemma_power_256_mono(a, (b - 1) as nat);
    }
}

/// The number that at most 16 big-endian bytes write.
pub fn big_endian_u128(bytes: &Vec<u8>) -> (r: u128)
    requires
        bytes@.len() <= 16,
    ensures
        r == big_endian(bytes@),
{
    proof {
        reveal_with_fuel(power, 17);
        assert(power(256, 16) == 0x1_0000_0000_0000_0000_0000_0000_0000_0000);
    }
    let mut acc: u128 = 0;
    let mut i: usize = 0;
    while i < bytes.len()
        invariant
            i <= bytes@.len() <= 16,
            acc == big_endian(bytes@.subrange(0, i as int)),
            power(256, 16) == 0x1_0000_0000_0000_0000_0000_0000_0000_0000,
        decreases bytes.len() - i,
    {
        let ghost head = bytes@.subrange(0, i + 1);
        proof {
            assert(head.drop_last() =~= bytes@.subrange(0, i as int));
            lemma_big_endian_bound(head);
            lemma_power_256_mono(head.len(), 16);
        }
        acc = acc * 256 + bytes[i] as u128;
        i = i + 1;
    }
    assert(bytes@.subrange(0, i as int) =~= bytes@);
    acc
}

/// An account balance from its hex quantity, in loan units.
pub fn balance_units(payload: &str) -> (r: Option<u64>)
    ensures
        r is Some ==> hex_ok(payload@) || hex_ok(seq!['0'] + payload@),
        r is Some ==> ({
            let ds = if hex_ok(payload@) { hex_digits(payload@) } else { hex_digits(seq!['0'] + payload@) };
            let bs = hex_bytes(ds);
            let low = bs.subrange(if bs.len() > 16 { bs.len() - 16 } else { 0 }, bs.len() as int);
            r->0 == big_endian(low) / (crate::units::WEI_PER_UNIT as nat)
        }),
        r is None ==> (!hex_ok(payload@) && !hex_ok(seq!['0'] + payload@)) || ({
            let ds = if hex_ok(payload@) { hex_digits(payload@) } else { hex_digits(seq!['0'] + payload@) };
            let bs = hex_bytes(ds);
            let low = bs.subrange(if bs.len() > 16 { bs.len() - 16 } else { 0 }, bs.len() as int);
            big_endian(low) / (crate::units::WEI_PER_UNIT as nat) > u64::MAX
        }),
{
    match quantity_bytes(payload) {
        None => None,
        Some(bytes) => {
            let low = last_bytes(&bytes, 16);
            let wei = big_endian_u128(&low);
            units_from_wei(wei)
        },
    }
}

} // verus!
