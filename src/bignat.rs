//! Arbitrary-precision natural numbers, held as big-endian bytes.
//!
//! The arithmetic itself is done by `num_bigint::BigUint`; each operation
//! below converts to it, makes one call, and converts the result back.
use num::Num;
use num_bigint::{BigUint, RandBigInt};
use vstd::arithmetic::power::pow;
use vstd::prelude::*;

verus! {

/// The value of a big-endian byte string.
pub open spec fn be_value(s: Seq<u8>) -> nat
    decreases s.len(),
{
    if s.len() == 0 {
        0
    } else {
        be_value(s.drop_last()) * 256 + s.last() as nat
    }
}

/// Whether `s` is the shortest big-endian form of its value: one zero byte
/// for zero, and no leading zero byte otherwise.
pub open spec fn is_shortest_be(s: Seq<u8>) -> bool {
    s.len() > 0 && (s[0] == 0 ==> s.len() == 1)
}

/// Whether `c` is an ASCII hexadecimal digit.
pub open spec fn is_hex_digit(c: char) -> bool {
    ('0' <= c && c <= '9') || ('a' <= c && c <= 'f') || ('A' <= c && c <= 'F')
}

/// The value of the hexadecimal digit `c`.
pub open spec fn hex_digit_value(c: char) -> nat {
    if '0' <= c && c <= '9' {
        (c as nat - '0' as nat) as nat
    } else if 'a' <= c && c <= 'f' {
        (c as nat - 'a' as nat + 10) as nat
    } else {
        (c as nat - 'A' as nat + 10) as nat
    }
}

/// The value of a string of hexadecimal digits, most significant first.
pub open spec fn hex_value(s: Seq<char>) -> nat
    decreases s.len(),
{
    if s.len() == 0 {
        0
    } else {
        hex_value(s.drop_last()) * 16 + hex_digit_value(s.last())
    }
}

/// The part of `s` that holds the digits: `s` without one leading `+`.
pub open spec fn hex_body(s: Seq<char>) -> Seq<char> {
    if s.len() > 0 && s[0] == '+' {
        s.drop_first()
    } else {
        s
    }
}

/// Whether `s` is a numeral in base 16: after an optional `+`, a digit
/// followed by digits and `_` separators.
pub open spec fn hex_accepts(s: Seq<char>) -> bool {
    let b = hex_body(s);
    &&& b.len() > 0
    &&& b[0] != '_'
    &&& forall|i: int| 0 <= i < b.len() ==> is_hex_digit(#[trigger] b[i]) || b[i] == '_'
}

/// The digits of the numeral `s`, most significant first.
pub open spec fn hex_digits(s: Seq<char>) -> Seq<char> {
    hex_body(s).filter(|c: char| c != '_')
}

/// `b` to the power `e`, modulo `m`.
pub open spec fn mod_pow(b: nat, e: nat, m: nat) -> nat
    recommends
        m > 0,
{
    (pow(b as int, e) % (m as int)) as nat
}

/// A natural number of any size.
#[derive(Debug)]
pub struct BigNat {
    bytes: Vec<u8>,
}

impl View for BigNat {
    type V = nat;

    closed spec fn view(&self) -> nat {
        be_value(self.bytes@)
    }
}

/// Relies on `BigUint::from(u64)` and `BigUint::to_bytes_be`: the bytes of `n`.
#[verifier::external_body]
fn bytes_of_u64(n: u64) -> (r: BigNat)
    ensures
        r@ == n as nat,
{
    BigNat { bytes: BigUint::from(n).to_bytes_be() }
}

/// Relies on `BigUint::modpow`, which panics on a zero modulus.
#[verifier::external_body]
fn big_modpow(b: &BigNat, e: &BigNat, m: &BigNat) -> (r: BigNat)
    requires
        m@ > 0,
    ensures
        r@ == mod_pow(b@, e@, m@),
{
    let base = BigUint::from_bytes_be(&b.bytes);
    let r = base.modpow(&BigUint::from_bytes_be(&e.bytes), &BigUint::from_bytes_be(&m.bytes));
    BigNat { bytes: r.to_bytes_be() }
}

/// Relies on `BigUint`'s `*`: the product.
#[verifier::external_body]
fn big_mul(a: &BigNat, b: &BigNat) -> (r: BigNat)
    ensures
        r@ == a@ * b@,
{
    let r = BigUint::from_bytes_be(&a.bytes) * BigUint::from_bytes_be(&b.bytes);
    BigNat { bytes: r.to_bytes_be() }
}

/// Relies on `BigUint`'s `-`, which panics where the result would be negative.
#[verifier::external_body]
fn big_sub(a: &BigNat, b: &BigNat) -> (r: BigNat)
    requires
        a@ >= b@,
    ensures
        r@ == a@ - b@,
{
    let r = BigUint::from_bytes_be(&a.bytes) - BigUint::from_bytes_be(&b.bytes);
    BigNat { bytes: r.to_bytes_be() }
}

/// Relies on `BigUint`'s `%`, which panics on a zero divisor.
#[verifier::external_body]
fn big_rem(a: &BigNat, m: &BigNat) -> (r: BigNat)
    requires
        m@ > 0,
    ensures
        r@ == a@ % m@,
{
    let r = BigUint::from_bytes_be(&a.bytes) % BigUint::from_bytes_be(&m.bytes);
    BigNat { bytes: r.to_bytes_be() }
}

/// Relies on `BigUint`'s `>=`: the numeric order.
#[verifier::external_body]
fn big_ge(a: &BigNat, b: &BigNat) -> (r: bool)
    ensures
        r == (a@ >= b@),
{
    BigUint::from_bytes_be(&a.bytes) >= BigUint::from_bytes_be(&b.bytes)
}

/// Relies on `BigUint`'s `==`: numeric equality.
#[verifier::external_body]
fn big_eq(a: &BigNat, b: &BigNat) -> (r: bool)
    ensures
        r == (a@ == b@),
{
    BigUint::from_bytes_be(&a.bytes) == BigUint::from_bytes_be(&b.bytes)
}

/// Relies on `RandBigInt::gen_biguint_below` over `rand::thread_rng`: a value
/// below the bound, which must not be zero.
#[verifier::external_body]
fn big_random_below(bound: &BigNat) -> (r: BigNat)
    requires
        bound@ > 0,
    ensures
        r@ < bound@,
{
    let r = rand::thread_rng().gen_biguint_below(&BigUint::from_bytes_be(&bound.bytes));
    BigNat { bytes: r.to_bytes_be() }
}

/// Relies on `BigUint::from_str_radix` in base 16: digits in either case,
/// most significant first, with `_` separators and a leading `+` allowed.
#[verifier::external_body]
fn big_from_hex(s: &str) -> (r: Option<BigNat>)
    ensures
        r.is_some() == hex_accepts(s@),
        r.is_some() ==> r.unwrap()@ == hex_value(hex_digits(s@)),
{
    BigUint::from_str_radix(s, 16).ok().map(|b| BigNat { bytes: b.to_bytes_be() })
}

/// Relies on `BigUint::from_bytes_be` and `BigUint::to_bytes_be`: the same
/// number in its shortest big-endian form.
#[verifier::external_body]
fn big_canonical_bytes(a: &BigNat) -> (r: Vec<u8>)
    ensures
        be_value(r@) == a@,
        is_shortest_be(r@),
{
    BigUint::from_bytes_be(&a.bytes).to_bytes_be()
}

impl BigNat {
    /// The number `n`.
    pub fn from_u64(n: u64) -> (r: BigNat)
        ensures
            r@ == n as nat,
    {
        bytes_of_u64(n)
    }

    /// The number that `bytes` spell in big-endian order (empty is zero).
    pub fn from_bytes_be(bytes: Vec<u8>) -> (r: BigNat)
        ensures
            r@ == be_value(bytes@),
    {
        BigNat { bytes }
    }

    /// The number spelt by the hexadecimal numeral `s`; `None` where `s` is
    /// no such numeral.
    pub fn from_hex(s: &str) -> (r: Option<BigNat>)
        ensures
            r.is_some() == hex_accepts(s@),
            r.is_some() ==> r.unwrap()@ == hex_value(hex_digits(s@)),
    {
        big_from_hex(s)
    }

    /// The shortest big-endian bytes of this number (zero is one zero byte).
    pub fn to_bytes_be(&self) -> (r: Vec<u8>)
        ensures
            be_value(r@) == self@,
            is_shortest_be(r@),
    {
        big_canonical_bytes(self)
    }

    /// `self` to the power `e`, modulo `m`.
    pub fn modpow(&self, e: &BigNat, m: &BigNat) -> (r: BigNat)
        requires
            m@ > 0,
        ensures
            r@ == mod_pow(self@, e@, m@),
    {
        big_modpow(self, e, m)
    }

    /// The product `self * o`.
    pub fn mul(&self, o: &BigNat) -> (r: BigNat)
        ensures
            r@ == self@ * o@,
    {
        big_mul(self, o)
    }

    /// The difference `self - o`, which must not be negative.
    pub fn sub(&self, o: &BigNat) -> (r: BigNat)
        requires
            self@ >= o@,
        ensures
            r@ == self@ - o@,
    {
        big_sub(self, o)
    }

    /// The remainder of `self` divided by `m`.
    pub fn rem(&self, m: &BigNat) -> (r: BigNat)
        requires
            m@ > 0,
        ensures
            r@ == self@ % m@,
    {
        big_rem(self, m)
    }

    /// Whether `self` is at least `o`.
    pub fn ge(&self, o: &BigNat) -> (r: bool)
        ensures
            r == (self@ >= o@),
    {
        big_ge(self, o)
    }

    /// A number drawn uniformly from a cryptographically secure source below
    /// `bound`, which must not be zero.
    pub fn random_below(bound: &BigNat) -> (r: BigNat)
        requires
            bound@ > 0,
        ensures
            r@ < bound@,
    {
        big_random_below(bound)
    }

    /// The same number, held separately.
    pub fn copy(&self) -> (r: BigNat)
        ensures
            r@ == self@,
    {
        let bytes = self.bytes.clone();
        assert(bytes@ =~= self.bytes@);
        BigNat { bytes }
    }
}

/// Two numbers are equal when their values are, whatever leading zero bytes
/// they were written with.
impl PartialEq for BigNat {
    fn eq(&self, o: &BigNat) -> (r: bool)
        ensures
            r == (self@ == o@),
    {
        big_eq(self, o)
    }
}

impl vstd::std_specs::cmp::PartialEqSpecImpl for BigNat {
    open spec fn obeys_eq_spec() -> bool {
        true
    }

    open spec fn eq_spec(&self, o: &BigNat) -> bool {
        self@ == o@
    }
}

} // verus!
