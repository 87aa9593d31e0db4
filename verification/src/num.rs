//! Arbitrary-precision integers of the virtual machine.
//!
//! A `Num` holds an integer as its two's-complement bytes, least significant
//! first; the arithmetic itself is done by `num_bigint::BigInt`.

use vstd::prelude::*;
use num_bigint::BigInt;
use num_traits::ToPrimitive;

verus! {

pub open spec fn pow256(n: nat) -> nat
    decreases n,
{
    if n == 0 {
        1
    } else {
        256 * pow256((n - 1) as nat)
    }
}

/// The unsigned value of little-endian bytes.
pub open spec fn le_unsigned(s: Seq<u8>) -> nat
    decreases s.len(),
{
    if s.len() == 0 {
        0
    } else {
        s[0] as nat + 256 * le_unsigned(s.drop_first())
    }
}

/// The two's-complement value of little-endian bytes (0 for no bytes).
pub open spec fn le_signed(s: Seq<u8>) -> int {
    if s.len() > 0 && s.last() >= 128 {
        le_unsigned(s) - pow256(s.len())
    } else {
        le_unsigned(s) as int
    }
}

/// Bitwise exclusive or of two integers in infinite two's complement.
pub open spec fn bit_xor(a: int, b: int) -> int
    decreases (if a < 0 { -a } else { a }) + (if b < 0 { -b } else { b }),
{
    if (a == 0 || a == -1) && (b == 0 || b == -1) {
        if a == b {
            0
        } else {
            -1
        }
    } else {
        2 * bit_xor(a / 2, b / 2) + if a % 2 == b % 2 {
            0int
        } else {
            1int
        }
    }
}

/// Bitwise or of two integers in infinite two's complement.
pub open spec fn bit_or(a: int, b: int) -> int
    decreases (if a < 0 { -a } else { a }) + (if b < 0 { -b } else { b }),
{
    if (a == 0 || a == -1) && (b == 0 || b == -1) {
        if a == -1 || b == -1 {
            -1
        } else {
            0
        }
    } else {
        2 * bit_or(a / 2, b / 2) + if a % 2 == 1 || b % 2 == 1 {
            1int
        } else {
            0int
        }
    }
}

pub open spec fn abs(a: int) -> int {
    if a < 0 {
        -a
    } else {
        a
    }
}

/// Division rounding toward zero.
pub open spec fn trunc_div(a: int, b: int) -> int {
    let q = abs(a) / abs(b);
    if (a < 0) != (b < 0) {
        -q
    } else {
        q
    }
}

/// The value of the decimal digits of `s`, skipping `_` separators.
pub open spec fn digits_value(s: Seq<char>) -> nat
    decreases s.len(),
{
    if s.len() == 0 {
        0
    } else if s.last() == '_' {
        digits_value(s.drop_last())
    } else {
        digits_value(s.drop_last()) * 10 + (s.last() as nat - '0' as nat) as nat
    }
}

/// Decimal digits with `_` separators, not starting with `_`.
pub open spec fn is_digit_run(s: Seq<char>) -> bool {
    &&& s.len() > 0
    &&& s[0] != '_'
    &&& forall|i: int| 0 <= i < s.len() ==> ('0' <= #[trigger] s[i] && s[i] <= '9') || s[i] == '_'
}

/// `s` without one leading `+`, unless a second `+` follows it.
pub open spec fn without_plus(s: Seq<char>) -> Seq<char> {
    if s.len() >= 1 && s[0] == '+' && !(s.len() >= 2 && s[1] == '+') {
        s.drop_first()
    } else {
        s
    }
}

/// The integer that `BigInt::parse_bytes(s, 10)` reads from `s`: an optional
/// `-` (not followed by `+`), an optional `+` (not followed by another `+`),
/// then decimal digits that may be separated by `_`.
pub open spec fn parse_decimal(s: Seq<char>) -> Option<int> {
    if s.len() >= 1 && s[0] == '-' && !(s.len() >= 2 && s[1] == '+') {
        let body = without_plus(s.drop_first());
        if is_digit_run(body) {
            Some(-(digits_value(body) as int))
        } else {
            None
        }
    } else {
        let body = without_plus(s);
        if is_digit_run(body) {
            Some(digits_value(body) as int)
        } else {
            None
        }
    }
}

/// An integer of any size, as two's-complement bytes (least significant first).
pub struct Num {
    pub bytes: Vec<u8>,
}

impl View for Num {
    type V = int;

    open spec fn view(&self) -> int {
        le_signed(self.bytes@)
    }
}

impl Num {
    /// A copy of the number.
    pub fn duplicate(&self) -> (n: Num)
        ensures
            n@ == self@,
    {
        Num { bytes: vstd::slice::slice_to_vec(self.bytes.as_slice()) }
    }
}

/// `BigInt::from(i128)`: the number `x`.
#[verifier::external_body]
pub fn num_from_i128(x: i128) -> (r: Num)
    ensures
        r@ == x as int,
{
    Num { bytes: BigInt::from(x).to_signed_bytes_le() }
}

/// `BigInt + BigInt`: exact integer sum.
#[verifier::external_body]
pub fn num_add(a: &Num, b: &Num) -> (r: Num)
    ensures
        r@ == a@ + b@,
{
    let s = BigInt::from_signed_bytes_le(&a.bytes) + BigInt::from_signed_bytes_le(&b.bytes);
    Num { bytes: s.to_signed_bytes_le() }
}

/// `BigInt - BigInt`: exact integer difference.
#[verifier::external_body]
pub fn num_sub(a: &Num, b: &Num) -> (r: Num)
    ensures
        r@ == a@ - b@,
{
    let s = BigInt::from_signed_bytes_le(&a.bytes) - BigInt::from_signed_bytes_le(&b.bytes);
    Num { bytes: s.to_signed_bytes_le() }
}

/// `BigInt * BigInt`: exact integer product.
#[verifier::external_body]
pub fn num_mul(a: &Num, b: &Num) -> (r: Num)
    ensures
        r@ == a@ * b@,
{
    let s = BigInt::from_signed_bytes_le(&a.bytes) * BigInt::from_signed_bytes_le(&b.bytes);
    Num { bytes: s.to_signed_bytes_le() }
}

/// `BigInt / BigInt`: quotient rounded toward zero; it panics on a zero divisor,
/// which is excluded.
#[verifier::external_body]
pub fn num_div(a: &Num, b: &Num) -> (r: Num)
    requires
        b@ != 0,
    ensures
        r@ == trunc_div(a@, b@),
{
    let s = BigInt::from_signed_bytes_le(&a.bytes) / BigInt::from_signed_bytes_le(&b.bytes);
    Num { bytes: s.to_signed_bytes_le() }
}

/// `BigInt ^ BigInt`: bitwise exclusive or in two's complement.
#[verifier::external_body]
pub fn num_xor(a: &Num, b: &Num) -> (r: Num)
    ensures
        r@ == bit_xor(a@, b@),
{
    let s = BigInt::from_signed_bytes_le(&a.bytes) ^ BigInt::from_signed_bytes_le(&b.bytes);
    Num { bytes: s.to_signed_bytes_le() }
}

/// `BigInt | BigInt`: bitwise or in two's complement.
#[verifier::external_body]
pub fn num_or(a: &Num, b: &Num) -> (r: Num)
    ensures
        r@ == bit_or(a@, b@),
{
    let s = BigInt::from_signed_bytes_le(&a.bytes) | BigInt::from_signed_bytes_le(&b.bytes);
    Num { bytes: s.to_signed_bytes_le() }
}

/// `BigInt == BigInt`: equality of the values.
#[verifier::external_body]
pub fn num_eq(a: &Num, b: &Num) -> (r: bool)
    ensures
        r == (a@ == b@),
{
    BigInt::from_signed_bytes_le(&a.bytes) == BigInt::from_signed_bytes_le(&b.bytes)
}

/// `BigInt < BigInt`: order of the values.
#[verifier::external_body]
pub fn num_lt(a: &Num, b: &Num) -> (r: bool)
    ensures
        r == (a@ < b@),
{
    BigInt::from_signed_bytes_le(&a.bytes) < BigInt::from_signed_bytes_le(&b.bytes)
}

/// `ToPrimitive::to_usize` on a `BigInt`: the value when it fits in a `usize`.
#[verifier::external_body]
pub fn num_to_usize(a: &Num) -> (r: Option<usize>)
    ensures
        r == (if 0 <= a@ <= usize::MAX {
            Some(a@ as usize)
        } else {
            None::<usize>
        }),
{
    BigInt::from_signed_bytes_le(&a.bytes).to_usize()
}

/// `BigInt::parse_bytes(s, 10)`: the decimal integer written in `s`, if it is one.
#[verifier::external_body]
pub fn num_parse_decimal(s: &String) -> (r: Option<Num>)
    ensures
        match r {
            Some(n) => parse_decimal(s@) == Some(n@),
            None => parse_decimal(s@) is None,
        },
{
    match BigInt::parse_bytes(s.as_bytes(), 10) {
        Some(n) => Some(Num { bytes: n.to_signed_bytes_le() }),
        None => None,
    }
}

} // verus!
