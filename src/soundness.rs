//! Soundness of the protocol in a group of prime order: a response computed
//! from a secret other than the committed one fails the verifier's check for
//! every challenge but zero, so for all but one of the `q` challenges the
//! verifier may draw.
use crate::bignat::mod_pow;
use crate::chaum_pedersen::{lemma_combine, lemma_exponent_mod_order, lemma_mod_sub_congruent, ChaumPedersen};
use vstd::arithmetic::div_mod::{
    lemma_fundamental_div_mod, lemma_mod_bound, lemma_mod_multiples_basic, lemma_mod_multiples_vanish,
    lemma_mul_mod_noop_general, lemma_mul_mod_noop_left, lemma_small_mod,
};
use vstd::arithmetic::power::{lemma_pow0, lemma_pow1, lemma_pow_adds, pow};
use vstd::prelude::*;

verus! {

/// `q` is a prime number.
pub open spec fn is_prime(q: nat) -> bool {
    q > 1 && forall|d: nat| 1 < d < q ==> #[trigger] (q % d) != 0
}

/// A set of numbers that holds the prime `q` and some `n` between zero and
/// `q`, and that holds `a % b` whenever it holds `a` and a positive `b`,
/// holds one: this is Euclid's algorithm run on `q` and `n`.
proof fn lemma_descent(member: spec_fn(nat) -> bool, q: nat, n: nat)
    requires
        is_prime(q),
        member(q),
        member(n),
        0 < n < q,
        forall|a: nat, b: nat| #[trigger] member(a) && #[trigger] member(b) && b > 0 ==> member(a % b),
    ensures
        member(1),
    decreases n,
{
    let r = q % n;
    lemma_mod_bound(q as int, n as int);
    if r == 0 {
        if n > 1 {
            assert(q % n != 0);
        }
    } else {
        assert(member(r));
        lemma_descent(member, q, r);
    }
}

/// Euclid's lemma: a prime divides no product of two numbers that lie
/// strictly between zero and it.
proof fn lemma_euclid(q: nat, c: nat, d: nat)
    requires
        is_prime(q),
        0 < c < q,
        0 < d < q,
    ensures
        (c * d) % q != 0,
{
    let qi = q as int;
    let member = |n: nat| (n * d) % q == 0;
    if (c * d) % q == 0 {
        lemma_mod_multiples_basic(d as int, qi);
        assert((q * d) == (d * q)) by (nonlinear_arith);
        assert(member(q));
        assert(member(c));
        assert forall|a: nat, b: nat| #[trigger] member(a) && #[trigger] member(b) && b > 0 implies member(a % b) by {
            let ai = a as int;
            let bi = b as int;
            let di = d as int;
            lemma_fundamental_div_mod(ai, bi);
            lemma_fundamental_div_mod(ai * di, qi);
            lemma_fundamental_div_mod(bi * di, qi);
            let u = (ai * di) / qi;
            let v = (bi * di) / qi;
            assert(ai * di == qi * u);
            assert(bi * di == qi * v);
            assert((ai % bi) * di == qi * (u - v * (ai / bi))) by (nonlinear_arith)
                requires
                    ai == bi * (ai / bi) + ai % bi,
                    ai * di == qi * u,
                    bi * di == qi * v,
            ;
            lemma_mod_multiples_vanish(u - v * (ai / bi), 0, qi);
        }
        lemma_descent(member, q, c);
        lemma_small_mod(d, q);
    }
}

/// In a group of prime order `q`, no power of `g` strictly between the zeroth
/// and the `q`-th is one unless `g` itself is.
proof fn lemma_prime_order(g: nat, n: nat, q: nat, p: nat)
    requires
        p > 1,
        is_prime(q),
        mod_pow(g, q, p) == 1,
        0 < n < q,
        mod_pow(g, n, p) == 1,
    ensures
        mod_pow(g, 1, p) == 1,
{
    let member = |e: nat| mod_pow(g, e, p) == 1;
    assert forall|a: nat, b: nat| #[trigger] member(a) && #[trigger] member(b) && b > 0 implies member(a % b) by {
        lemma_exponent_mod_order(g, a, b, p);
    }
    lemma_descent(member, q, n);
}

/// Where `g^(a + e)` and `g^a` agree modulo `p`, `g^e` is one.
proof fn lemma_cancel(g: nat, a: nat, e: nat, q: nat, p: nat)
    requires
        p > 1,
        q > 0,
        mod_pow(g, q, p) == 1,
        mod_pow(g, a + e, p) == mod_pow(g, a, p),
    ensures
        mod_pow(g, e, p) == 1,
{
    let gi = g as int;
    let pi = p as int;
    let qi = q as int;
    lemma_mod_bound(a as int, qi);
    let t = (q - a % q) as nat;
    lemma_fundamental_div_mod(a as int, qi);
    let j = a / q + 1;
    assert(t + a % q == q);
    assert(q * j == q * (a / q) + q) by (nonlinear_arith)
        requires
            j == a / q + 1,
    ;
    assert(a + t == q * j);
    lemma_pow_adds(gi, a + e, t);
    lemma_pow_adds(gi, a, t);
    lemma_mul_mod_noop_left(pow(gi, a + e), pow(gi, t), pi);
    lemma_mul_mod_noop_left(pow(gi, a), pow(gi, t), pi);
    assert(a + e + t == (a + t) + e);
    assert(mod_pow(g, (a + t) + e, p) == mod_pow(g, a + t, p));
    lemma_mod_multiples_vanish(j as int, e as int, qi);
    lemma_mod_multiples_vanish(j as int, 0, qi);
    lemma_exponent_mod_order(g, (a + t) + e, q, p);
    lemma_exponent_mod_order(g, e, q, p);
    lemma_exponent_mod_order(g, a + t, q, p);
    lemma_pow0(gi);
    lemma_small_mod(1, p);
}

/// Soundness: where `g` is not one and `g^q` is one modulo `p` for a prime
/// `q`, a response computed from a secret `x2` that differs from the
/// committed secret `x` modulo `q` fails the first half of the verifier's
/// check, and so the whole check, for every non-zero challenge below `q`.
pub proof fn lemma_soundness(cp: ChaumPedersen, x: nat, x2: nat, k: nat, c: nat)
    requires
        cp.p@ > 1,
        is_prime(cp.q@),
        mod_pow(cp.g@, cp.q@, cp.p@) == 1,
        cp.g@ % cp.p@ != 1,
        0 < c < cp.q@,
        x % cp.q@ != x2 % cp.q@,
    ensures
        !cp.accepts_first(cp.pair(k).0, cp.pair(x).0, c, cp.response(k, c, x2)),
        !cp.accepts(cp.pair(k).0, cp.pair(k).1, cp.pair(x).0, cp.pair(x).1, c, cp.response(k, c, x2)),
{
    let p = cp.p@;
    let q = cp.q@;
    let g = cp.g@;
    let s2 = cp.response(k, c, x2);
    if cp.accepts_first(cp.pair(k).0, cp.pair(x).0, c, s2) {
        lemma_mod_sub_congruent(k, c * x2, q);
        lemma_combine(g, s2, x, c, p);
        lemma_exponent_mod_order(g, s2 + c * x2, q, p);
        lemma_exponent_mod_order(g, k, q, p);
        assert(mod_pow(g, s2 + c * x, p) == mod_pow(g, s2 + c * x2, p));
        let lo = if x < x2 { x } else { x2 };
        let hi = if x < x2 { x2 } else { x };
        let delta = (hi - lo) as nat;
        assert(c * hi == c * lo + c * delta) by (nonlinear_arith)
            requires
                hi == lo + delta,
        ;
        lemma_cancel(g, s2 + c * lo, c * delta, q, p);
        let d = delta % q;
        lemma_mod_bound(delta as int, q as int);
        if d == 0 {
            lemma_fundamental_div_mod(delta as int, q as int);
            lemma_mod_multiples_vanish((delta / q) as int, lo as int, q as int);
            assert(hi == q * (delta / q) + lo) by (nonlinear_arith)
                requires
                    hi == lo + delta,
                    delta == q * (delta / q) + delta % q,
                    delta % q == 0,
            ;
        }
        lemma_euclid(q, c, d);
        lemma_mul_mod_noop_general(c as int, delta as int, q as int);
        let n = (c * delta) % q;
        lemma_mod_bound((c * delta) as int, q as int);
        lemma_exponent_mod_order(g, c * delta, q, p);
        lemma_prime_order(g, n, q, p);
        lemma_pow1(g as int);
    }
}

} // verus!
