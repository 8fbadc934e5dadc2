//! Time constants, the decimal formatter and readers for metadata values.

use candid::Nat;
use num_bigint::BigUint;
use num_integer::Integer;
use num_traits::cast::ToPrimitive;
use vstd::prelude::*;

verus! {

/// One minute, in nanoseconds.
pub const MINUTE_NS: u64 = 60_000_000_000;

/// One day, in nanoseconds.
pub const DAY_NS: u64 = 86_400_000_000_000;

/// One week, in nanoseconds.
pub const WEEK_NS: u64 = 604_800_000_000_000;

/// One day, in seconds.
pub const DAY_SECS: u64 = 86_400;

/// One week, in seconds.
pub const WEEK_SECS: u64 = 604_800;

/// Largest number of decimal places a token may declare.
pub const MAX_DECIMALS: u8 = 18;

/// The arbitrary-precision unsigned integer of the `num_bigint` crate.
#[verifier::external_type_specification]
#[verifier::external_body]
pub struct ExBigUint(BigUint);

/// The arbitrary-precision natural of the `candid` crate.
#[verifier::external_type_specification]
#[verifier::external_body]
pub struct ExNat(Nat);

/// The number that an arbitrary-precision unsigned integer holds.
pub uninterp spec fn big_value(b: BigUint) -> nat;

/// The number that an arbitrary-precision natural of the wire format holds.
pub uninterp spec fn nat_value(n: Nat) -> nat;

/// `base` to the power `exp`.
pub open spec fn pow_nat(base: nat, exp: nat) -> nat
    decreases exp,
{
    if exp == 0 {
        1
    } else {
        base * pow_nat(base, (exp - 1) as nat)
    }
}

/// Two to the power `e`.
pub open spec fn pow2(e: nat) -> nat
    decreases e,
{
    if e == 0 {
        1
    } else {
        2 * pow2((e - 1) as nat)
    }
}

/// A larger exponent gives a larger power of two.
pub proof fn lemma_pow2_monotonic(a: nat, b: nat)
    requires
        a <= b,
    ensures
        pow2(a) <= pow2(b),
        pow2(a) >= 1,
    decreases b,
{
    if a < b {
        lemma_pow2_monotonic(a, (b - 1) as nat);
    } else if a > 0 {
        lemma_pow2_monotonic((a - 1) as nat, (a - 1) as nat);
    }
}

/// The character of a digit below ten.
pub open spec fn digit_char(d: nat) -> char {
    seq!['0', '1', '2', '3', '4', '5', '6', '7', '8', '9'][d as int]
}

/// The digits of `n` in a radix of at most ten, most significant first,
/// without leading zeros; zero is the single digit `0`.
pub open spec fn digits_in(n: nat, radix: nat) -> Seq<char>
    recommends
        2 <= radix <= 10,
    decreases n,
    via digits_in_decreases
{
    if n < radix || radix < 2 {
        seq![digit_char(n)]
    } else {
        digits_in(n / radix, radix).push(digit_char(n % radix))
    }
}

#[via_fn]
proof fn digits_in_decreases(n: nat, radix: nat) {
    if !(n < radix || radix < 2) {
        assert(n / radix < n) by (nonlinear_arith)
            requires
                n >= radix,
                radix >= 2,
        ;
    }
}

/// `count` zeros.
pub open spec fn zeros(count: nat) -> Seq<char> {
    Seq::new(count, |i: int| '0')
}

/// `s` with zeros in front until it is `width` characters long.
pub open spec fn zero_padded(s: Seq<char>, width: nat) -> Seq<char> {
    if s.len() >= width {
        s
    } else {
        zeros((width - s.len()) as nat) + s
    }
}

/// The canonical decimal string of the integer `value` read with `decimals`
/// decimal places: the whole part, and for `decimals > 0` a point and
/// the remainder padded to `decimals` digits.
pub open spec fn amount_text(value: nat, decimals: nat) -> Seq<char> {
    let unit = pow_nat(10, decimals);
    if decimals == 0 {
        digits_in(value, 10)
    } else {
        digits_in(value / unit, 10) + seq!['.'] + zero_padded(digits_in(value % unit, 10), decimals)
    }
}

/// A power of a positive base is positive.
pub proof fn lemma_pow_positive(base: nat, exp: nat)
    requires
        base > 0,
    ensures
        pow_nat(base, exp) > 0,
    decreases exp,
{
    if exp > 0 {
        lemma_pow_positive(base, (exp - 1) as nat);
        assert(base * pow_nat(base, (exp - 1) as nat) > 0) by (nonlinear_arith)
            requires
                base > 0,
                pow_nat(base, (exp - 1) as nat) > 0,
        ;
    }
}

/// Calls `BigUint::from` on a `u32`: the result holds that number.
#[verifier::external_body]
fn big_from_u32(x: u32) -> (b: BigUint)
    ensures
        big_value(b) == x,
{
    BigUint::from(x)
}

/// Calls `BigUint::pow`: the result holds `base` raised to `exp`.
#[verifier::external_body]
fn big_pow(base: &BigUint, exp: u32) -> (b: BigUint)
    ensures
        big_value(b) == pow_nat(big_value(*base), exp as nat),
{
    base.pow(exp)
}

/// Calls `Integer::div_rem` on two `BigUint`: quotient and remainder of the
/// division, which panics on a zero divisor.
#[verifier::external_body]
fn big_div_rem(n: &BigUint, d: &BigUint) -> (qr: (BigUint, BigUint))
    requires
        big_value(*d) > 0,
    ensures
        big_value(qr.0) == big_value(*n) / big_value(*d),
        big_value(qr.1) == big_value(*n) % big_value(*d),
{
    n.div_rem(d)
}

/// Calls `BigUint::to_str_radix`, which panics outside radix 2 to 36: the
/// digits of the number in that radix. Stated for radix up to ten.
#[verifier::external_body]
fn big_to_str_radix(n: &BigUint, radix: u32) -> (s: String)
    requires
        2 <= radix <= 10,
    ensures
        s@ == digits_in(big_value(*n), radix as nat),
{
    n.to_str_radix(radix)
}

/// Calls `ToPrimitive::to_u64` on a `BigUint`: the number where it fits in
/// 64 bits, else `None`.
#[verifier::external_body]
fn big_to_u64(n: &BigUint) -> (r: Option<u64>)
    ensures
        r == (if big_value(*n) <= u64::MAX {
            Some(big_value(*n) as u64)
        } else {
            None
        }),
{
    n.to_u64()
}

/// Borrows the `BigUint` inside a `Nat`, which is a wrapper around it.
#[verifier::external_body]
fn nat_as_big(n: &Nat) -> (b: &BigUint)
    ensures
        big_value(*b) == nat_value(*n),
{
    &n.0
}

/// Formats an integer balance with `decimals` decimal places as an exact
/// decimal string.
pub fn format_amount(n: Nat, decimals: u8) -> (s: String)
    ensures
        s@ == amount_text(nat_value(n), decimals as nat),
{
    format_amount_of(&n, decimals)
}

/// [`format_amount`] of a borrowed balance.
pub fn format_amount_of(n: &Nat, decimals: u8) -> (s: String)
    ensures
        s@ == amount_text(nat_value(*n), decimals as nat),
{
    let ten = big_from_u32(10);
    let unit = big_pow(&ten, decimals as u32);
    proof {
        lemma_pow_positive(10, decimals as nat);
    }
    let value = nat_as_big(n);
    let (q, r) = big_div_rem(value, &unit);
    let whole = big_to_str_radix(&q, 10);
    if decimals == 0 {
        assert(pow_nat(10, 0) == 1);
        return whole;
    }
    let frac = big_to_str_radix(&r, 10);
    let width: usize = frac.as_str().unicode_len();
    let mut out = whole.concat(".");
    proof {
        reveal_strlit(".");
        assert("."@ =~= seq!['.']);
        assert(out@ =~= whole@ + seq!['.'] + zeros(0));
    }
    let mut k: usize = width;
    while k < decimals as usize
        invariant
            width <= k,
            k <= width || k <= decimals,
            out@ == whole@ + seq!['.'] + zeros((k - width) as nat),
        decreases decimals as usize - k,
    {
        out.append("0");
        proof {
            reveal_strlit("0");
            assert("0"@ =~= seq!['0']);
            assert(out@ =~= whole@ + seq!['.'] + zeros((k + 1 - width) as nat));
        }
        k += 1;
    }
    out.append(frac.as_str());
    proof {
        if width >= decimals {
            assert(zeros((k - width) as nat) =~= Seq::<char>::empty());
            assert(out@ =~= whole@ + seq!['.'] + frac@);
        } else {
            assert(out@ =~= whole@ + seq!['.'] + (zeros((decimals - width) as nat) + frac@));
        }
    }
    out
}

/// The one-character string of a digit below ten.
fn digit_str(d: u8) -> (s: &'static str)
    requires
        d < 10,
    ensures
        s@ == seq![digit_char(d as nat)],
{
    proof {
        reveal_strlit("0");
        reveal_strlit("1");
        reveal_strlit("2");
        reveal_strlit("3");
        reveal_strlit("4");
        reveal_strlit("5");
        reveal_strlit("6");
        reveal_strlit("7");
        reveal_strlit("8");
        reveal_strlit("9");
    }
    let s = if d == 0 {
        "0"
    } else if d == 1 {
        "1"
    } else if d == 2 {
        "2"
    } else if d == 3 {
        "3"
    } else if d == 4 {
        "4"
    } else if d == 5 {
        "5"
    } else if d == 6 {
        "6"
    } else if d == 7 {
        "7"
    } else if d == 8 {
        "8"
    } else {
        "9"
    };
    assert(s@ =~= seq![digit_char(d as nat)]);
    s
}

/// The decimal digits of a number.
pub fn decimal_string(n: u128) -> (s: String)
    ensures
        s@ == digits_in(n as nat, 10),
    decreases n,
{
    if n < 10 {
        String::from_str(digit_str(n as u8))
    } else {
        let head = decimal_string(n / 10);
        let out = head.concat(digit_str((n % 10) as u8));
        proof {
            assert(out@ =~= digits_in((n / 10) as nat, 10).push(digit_char((n % 10) as nat)));
        }
        out
    }
}

/// A value of a metadata item, as far as this library reads it.
pub enum MetadataValue {
    /// An arbitrary-precision natural.
    Nat(Nat),
    /// An 8-bit natural.
    Nat8(u8),
    /// A 16-bit natural.
    Nat16(u16),
    /// A 32-bit natural.
    Nat32(u32),
    /// A 64-bit natural.
    Nat64(u64),
    /// A text.
    Text(String),
    /// Any other kind of value.
    Other,
}

/// Mathematical value of a [`MetadataValue`].
pub enum MetadataValueView {
    /// A natural of any width.
    Number(nat),
    /// A text.
    Text(Seq<char>),
    /// Any other kind of value.
    Other,
}

impl View for MetadataValue {
    type V = MetadataValueView;

    open spec fn view(&self) -> MetadataValueView {
        match self {
            MetadataValue::Nat(n) => MetadataValueView::Number(nat_value(*n)),
            MetadataValue::Nat8(n) => MetadataValueView::Number(*n as nat),
            MetadataValue::Nat16(n) => MetadataValueView::Number(*n as nat),
            MetadataValue::Nat32(n) => MetadataValueView::Number(*n as nat),
            MetadataValue::Nat64(n) => MetadataValueView::Number(*n as nat),
            MetadataValue::Text(s) => MetadataValueView::Text(s@),
            MetadataValue::Other => MetadataValueView::Other,
        }
    }
}

/// What [`idl_to_u64`] reads from a value: a natural that fits in 64 bits
/// is itself, a larger one is zero, anything else is nothing.
pub open spec fn value_as_u64(v: MetadataValueView) -> Option<u64> {
    match v {
        MetadataValueView::Number(n) => if n <= u64::MAX {
            Some(n as u64)
        } else {
            Some(0u64)
        },
        _ => None,
    }
}

/// What [`idl_to_u8`] reads from a value: the low eight bits of
/// [`value_as_u64`].
pub open spec fn value_as_u8(v: MetadataValueView) -> Option<u8> {
    match value_as_u64(v) {
        Some(n) => Some((n % 256) as u8),
        None => None,
    }
}

/// What [`idl_to_string`] reads from a value: the text, if it is one.
pub open spec fn value_as_text(v: MetadataValueView) -> Option<Seq<char>> {
    match v {
        MetadataValueView::Text(s) => Some(s),
        _ => None,
    }
}

/// Reads a natural of any width as a `u64`.
pub fn idl_to_u64(val: &MetadataValue) -> (r: Option<u64>)
    ensures
        r == value_as_u64(val@),
{
    match val {
        MetadataValue::Nat(n) => {
            match big_to_u64(nat_as_big(n)) {
                Some(v) => Some(v),
                None => Some(0),
            }
        },
        MetadataValue::Nat8(n) => Some(*n as u64),
        MetadataValue::Nat16(n) => Some(*n as u64),
        MetadataValue::Nat32(n) => Some(*n as u64),
        MetadataValue::Nat64(n) => Some(*n),
        _ => None,
    }
}

/// Reads a natural of any width as a `u8`, keeping its low eight bits.
pub fn idl_to_u8(val: &MetadataValue) -> (r: Option<u8>)
    ensures
        r == value_as_u8(val@),
{
    match idl_to_u64(val) {
        Some(v) => Some((v % 256) as u8),
        None => None,
    }
}

/// Reads a text value.
pub fn idl_to_string(val: &MetadataValue) -> (r: Option<String>)
    ensures
        r.is_some() == value_as_text(val@).is_some(),
        r.is_some() ==> r.unwrap()@ == value_as_text(val@).unwrap(),
{
    match val {
        MetadataValue::Text(s) => Some(s.clone()),
        _ => None,
    }
}

} // verus!
