//! The Chaum-Pedersen sigma protocol over a discrete-log group: commitments,
//! the prover's response and the verifier's check, with the completeness of
//! the protocol proved over the group's arithmetic.
use crate::bignat::{mod_pow, BigNat};
use vstd::arithmetic::div_mod::{
    lemma_fundamental_div_mod, lemma_mod_bound, lemma_small_mod, lemma_mod_multiples_vanish, lemma_mul_mod_noop,
    lemma_mul_mod_noop_left,
};
use vstd::arithmetic::power::{lemma1_pow, lemma_pow_adds, lemma_pow_mod_noop, lemma_pow_multiplies, pow};
use vstd::prelude::*;

verus! {

/// The difference `a - b` modulo `m`, taken without going below zero: where
/// `b` exceeds `a`, it is `m` less the remainder of `b - a`.
pub open spec fn mod_sub_value(a: nat, b: nat, m: nat) -> nat
    recommends
        m > 0,
{
    if a >= b {
        (a - b) as nat % m
    } else {
        (m - (b - a) as nat % m) as nat
    }
}

/// The modular difference of `a` and `b`, plus `b`, is `a` modulo `m`.
pub proof fn lemma_mod_sub_congruent(a: nat, b: nat, m: nat)
    requires
        m > 0,
    ensures
        (mod_sub_value(a, b, m) + b) % m == a % m,
{
    let mi = m as int;
    if a >= b {
        let d = a - b;
        lemma_fundamental_div_mod(d, mi);
        lemma_mod_bound(d, mi);
        assert(mi * (-(d / mi)) == -(mi * (d / mi))) by (nonlinear_arith);
        assert(d % mi + b == mi * (-(d / mi)) + a);
        lemma_mod_multiples_vanish(-(d / mi), a as int, mi);
    } else {
        let d = b - a;
        lemma_fundamental_div_mod(d, mi);
        lemma_mod_bound(d, mi);
        assert(mi * (d / mi + 1) == mi * (d / mi) + mi) by (nonlinear_arith);
        assert(mi - d % mi + b == mi * (d / mi + 1) + a);
        lemma_mod_multiples_vanish(d / mi + 1, a as int, mi);
    }
}

/// The difference `a - b` modulo `m`, computed on unsigned numbers so that
/// nothing ever goes below zero.
pub fn mod_sub(a: &BigNat, b: &BigNat, m: &BigNat) -> (r: BigNat)
    requires
        m@ > 0,
    ensures
        r@ == mod_sub_value(a@, b@, m@),
        (r@ + b@) % m@ == a@ % m@,
{
    proof {
        lemma_mod_sub_congruent(a@, b@, m@);
    }
    if a.ge(b) {
        a.sub(b).rem(m)
    } else {
        let d = b.sub(a).rem(m);
        m.sub(&d)
    }
}

/// Where `b` to the power `q` is one modulo `p`, exponents count modulo `q`.
pub proof fn lemma_exponent_mod_order(b: nat, e: nat, q: nat, p: nat)
    requires
        p > 1,
        q > 0,
        mod_pow(b, q, p) == 1,
    ensures
        mod_pow(b, e, p) == mod_pow(b, e % q, p),
{
    let n = e / q;
    let r = e % q;
    let bi = b as int;
    let pi = p as int;
    lemma_fundamental_div_mod(e as int, q as int);
    assert(e == q * n + r);
    let a = pow(pow(bi, q), n);
    let rest = pow(bi, r);
    lemma_pow_adds(bi, q * n, r);
    lemma_pow_multiplies(bi, q, n);
    assert(pow(bi, e) == a * rest);
    assert(pow(bi, q) % pi == 1);
    lemma_pow_mod_noop(pow(bi, q), n, pi);
    lemma1_pow(n);
    lemma_small_mod(1, p);
    assert(a % pi == 1);
    lemma_mul_mod_noop_left(a, rest, pi);
    assert((a * rest) % pi == rest % pi);
}

/// `b^s * (b^x mod p)^c` is `b^(s + c * x)` modulo `p`.
pub proof fn lemma_combine(b: nat, s: nat, x: nat, c: nat, p: nat)
    requires
        p > 0,
    ensures
        (mod_pow(b, s, p) * mod_pow(mod_pow(b, x, p), c, p)) % p == mod_pow(b, s + c * x, p),
{
    let bi = b as int;
    let pi = p as int;
    lemma_pow_mod_noop(pow(bi, x), c, pi);
    lemma_pow_multiplies(bi, x, c);
    assert(mod_pow(mod_pow(b, x, p), c, p) == pow(bi, x * c) % pi);
    lemma_mul_mod_noop(pow(bi, s), pow(bi, x * c), pi);
    lemma_pow_adds(bi, s, x * c);
    assert(x * c == c * x) by (nonlinear_arith);
}

/// One half of the verifier's check holds of an honest response: with a
/// base of order dividing `q`, `b^s * (b^x)^c` is `b^k` modulo `p` whenever
/// `s + c * x` is `k` modulo `q`.
pub proof fn lemma_honest_half(b: nat, x: nat, k: nat, c: nat, s: nat, q: nat, p: nat)
    requires
        p > 1,
        q > 0,
        mod_pow(b, q, p) == 1,
        (s + c * x) % q == k % q,
    ensures
        (mod_pow(b, s, p) * mod_pow(mod_pow(b, x, p), c, p)) % p == mod_pow(b, k, p),
{
    lemma_combine(b, s, x, c, p);
    lemma_exponent_mod_order(b, s + c * x, q, p);
    lemma_exponent_mod_order(b, k, q, p);
}

/// The error of a response whose first half of the check fails.
pub const R1_MISMATCH: &'static str = "r1 value does not match";

/// The error of a response whose second half of the check fails.
pub const R2_MISMATCH: &'static str = "r2 value does not match";

/// The parameters of a discrete-log group: the modulus `p`, the order `q` of
/// the subgroup, and two generators `g` and `h` of it.
pub struct ChaumPedersen {
    pub p: BigNat,
    pub q: BigNat,
    pub g: BigNat,
    pub h: BigNat,
}

impl ChaumPedersen {
    /// Neither the modulus nor the order is zero, so that every operation is
    /// defined.
    pub open spec fn wf(&self) -> bool {
        self.p@ > 0 && self.q@ > 0
    }

    /// The subgroup invariant: `p` exceeds one and both `g` and `h` raised to
    /// `q` are one modulo `p`.
    pub open spec fn is_group(&self) -> bool {
        &&& self.p@ > 1
        &&& self.q@ > 0
        &&& mod_pow(self.g@, self.q@, self.p@) == 1
        &&& mod_pow(self.h@, self.q@, self.p@) == 1
    }

    /// The commitment pair `(g^e mod p, h^e mod p)`.
    pub open spec fn pair(&self, e: nat) -> (nat, nat) {
        (mod_pow(self.g@, e, self.p@), mod_pow(self.h@, e, self.p@))
    }

    /// The prover's response `k - c * x` modulo `q`.
    pub open spec fn response(&self, k: nat, c: nat, x: nat) -> nat {
        mod_sub_value(k, c * x, self.q@)
    }

    /// The first half of the verifier's check: `g^s * y1^c` is `r1` modulo
    /// `p`.
    pub open spec fn accepts_first(&self, r1: nat, y1: nat, c: nat, s: nat) -> bool {
        let p = self.p@;
        r1 == (mod_pow(self.g@, s, p) * mod_pow(y1, c, p)) % p
    }

    /// The verifier's check: `g^s * y1^c` is `r1` and `h^s * y2^c` is `r2`,
    /// both modulo `p`.
    pub open spec fn accepts(&self, r1: nat, r2: nat, y1: nat, y2: nat, c: nat, s: nat) -> bool {
        let p = self.p@;
        &&& self.accepts_first(r1, y1, c, s)
        &&& r2 == (mod_pow(self.h@, s, p) * mod_pow(y2, c, p)) % p
    }

    /// The group with the given parameters.
    pub fn new(p: BigNat, q: BigNat, g: BigNat, h: BigNat) -> (r: ChaumPedersen)
        ensures
            r.p@ == p@,
            r.q@ == q@,
            r.g@ == g@,
            r.h@ == h@,
    {
        ChaumPedersen { p, q, g, h }
    }

    /// The pair `(g^exponent mod p, h^exponent mod p)`: the commitment to a
    /// secret, or to a nonce.
    pub fn generate_pair(&self, exponent: &BigNat) -> (r: (BigNat, BigNat))
        requires
            self.p@ > 0,
        ensures
            (r.0@, r.1@) == self.pair(exponent@),
    {
        (self.g.modpow(exponent, &self.p), self.h.modpow(exponent, &self.p))
    }

    /// A random exponent below `q`, from a cryptographically secure source.
    pub fn generate_q_random(&self) -> (r: BigNat)
        requires
            self.q@ > 0,
        ensures
            r@ < self.q@,
    {
        BigNat::random_below(&self.q)
    }

    /// The response `s = k - c * x` modulo `q` to the challenge `c`, for the
    /// nonce `k` and the secret `x`.
    pub fn solve(&self, k: &BigNat, c: &BigNat, x: &BigNat) -> (r: BigNat)
        requires
            self.q@ > 0,
        ensures
            r@ == self.response(k@, c@, x@),
            (r@ + c@ * x@) % self.q@ == k@ % self.q@,
    {
        let cx = c.mul(x);
        mod_sub(k, &cx, &self.q)
    }

    /// Checks the response `s` against the nonce commitment `(r1, r2)`, the
    /// secret commitment `(y1, y2)` and the challenge `c`.
    pub fn verify(&self, r1: &BigNat, r2: &BigNat, y1: &BigNat, y2: &BigNat, c: &BigNat, s: &BigNat) -> (r: Result<(), &str>)
        requires
            self.p@ > 0,
        ensures
            r.is_ok() == self.accepts(r1@, r2@, y1@, y2@, c@, s@),
            !self.accepts_first(r1@, y1@, c@, s@) ==> r == Err::<(), &str>(R1_MISMATCH),
            self.accepts_first(r1@, y1@, c@, s@) && !self.accepts(r1@, r2@, y1@, y2@, c@, s@) ==> r
                == Err::<(), &str>(R2_MISMATCH),
    {
        let (g_power_s, h_power_s) = self.generate_pair(s);
        let calculated_r1 = g_power_s.mul(&y1.modpow(c, &self.p)).rem(&self.p);
        if *r1 != calculated_r1 {
            return Err(R1_MISMATCH);
        }
        let calculated_r2 = h_power_s.mul(&y2.modpow(c, &self.p)).rem(&self.p);
        if *r2 != calculated_r2 {
            return Err(R2_MISMATCH);
        }
        Ok(())
    }
}

/// Completeness: in a group that keeps the subgroup invariant, the honest
/// response to any challenge passes the verifier's check, for any secret `x`
/// and any nonce `k`.
pub proof fn lemma_completeness(cp: ChaumPedersen, x: nat, k: nat, c: nat)
    requires
        cp.is_group(),
    ensures
        cp.accepts(cp.pair(k).0, cp.pair(k).1, cp.pair(x).0, cp.pair(x).1, c, cp.response(k, c, x)),
{
    let s = cp.response(k, c, x);
    lemma_mod_sub_congruent(k, c * x, cp.q@);
    lemma_honest_half(cp.g@, x, k, c, s, cp.q@, cp.p@);
    lemma_honest_half(cp.h@, x, k, c, s, cp.q@, cp.p@);
}

} // verus!
