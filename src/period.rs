//! The recurrence has full period: from any state, every residue modulo
//! `2^k` (`k <= 31`) comes up within `2^k` steps. The proof follows the
//! bits of the modulus: `2^k` steps of the recurrence add `2^k` modulo
//! `2^(k+1)`, because the multiplier is `1 mod 4` and the increment odd.

use vstd::arithmetic::div_mod::{
    lemma_add_mod_noop, lemma_fundamental_div_mod, lemma_fundamental_div_mod_converse, lemma_mod_mod,
    lemma_mod_multiples_vanish, lemma_mul_mod_noop_right,
};
use vstd::arithmetic::power2::{lemma_pow2_pos, lemma_pow2_unfold, pow2};
use vstd::prelude::*;
use crate::base::{
    acceptance_ceiling, bounded_state, is_power_of_two, next_state, rejection_walk, INCREMENT, MODULUS,
    MULTIPLIER, RETRY_LIMIT,
};

verus! {

/// The state after `j` steps of the recurrence from `s`.
pub open spec fn iterate(s: u128, j: nat) -> u128
    decreases j,
{
    if j == 0 {
        s
    } else {
        next_state(iterate(s, (j - 1) as nat))
    }
}

/// `i + j` steps are `i` steps followed by `j` steps.
pub proof fn lemma_iterate_adds(s: u128, i: nat, j: nat)
    ensures
        iterate(s, i + j) == iterate(iterate(s, i), j),
    decreases j,
{
    if j > 0 {
        lemma_iterate_adds(s, i, (j - 1) as nat);
        assert(i + j - 1 == i + (j - 1));
    }
}

/// Every state after the first step lies below the modulus.
proof fn lemma_iterate_below(s: u128, j: nat)
    requires
        s < MODULUS,
    ensures
        iterate(s, j) < MODULUS,
    decreases j,
{
    if j > 0 {
        lemma_iterate_below(s, (j - 1) as nat);
    }
}

/// The multiplier of `2^k` steps as one affine map modulo `MODULUS`.
spec fn span_mul(k: nat) -> int
    decreases k,
{
    if k == 0 {
        MULTIPLIER as int
    } else {
        span_mul((k - 1) as nat) * span_mul((k - 1) as nat)
    }
}

/// The increment of `2^k` steps as one affine map modulo `MODULUS`.
spec fn span_inc(k: nat) -> int
    decreases k,
{
    if k == 0 {
        INCREMENT as int
    } else {
        span_mul((k - 1) as nat) * span_inc((k - 1) as nat) + span_inc((k - 1) as nat)
    }
}

/// `2^k` steps from a reduced state are one affine map.
proof fn lemma_span_affine(y: u128, k: nat)
    requires
        y < MODULUS,
    ensures
        iterate(y, pow2(k)) as int == (span_mul(k) * y + span_inc(k)) % (MODULUS as int),
    decreases k,
{
    let m = MODULUS as int;
    if k == 0 {
        assert(pow2(0) == 1) by {
            vstd::arithmetic::power2::lemma2_to64();
        }
        assert(iterate(y, 1) == next_state(iterate(y, 0)));
    } else {
        let h = (k - 1) as nat;
        lemma_pow2_unfold(k);
        lemma_iterate_adds(y, pow2(h), pow2(h));
        lemma_span_affine(y, h);
        let z = iterate(y, pow2(h));
        lemma_iterate_below(y, pow2(h));
        lemma_span_affine(z, h);
        let a = span_mul(h);
        let c = span_inc(h);
        // a * ((a * y + c) % m) + c == a * a * y + (a * c + c)  (mod m)
        lemma_mul_mod_noop_right(a, a * y + c, m);
        lemma_add_mod_noop(a * ((a * y + c) % m), c, m);
        lemma_add_mod_noop(a * (a * y + c), c, m);
        assert(a * (a * y + c) + c == a * a * y + (a * c + c)) by (nonlinear_arith);
    }
}

/// After `2^k` steps the multiplier is `1 mod 2^(k+2)` and the increment
/// is `2^k` times an odd number.
proof fn lemma_span_two_adic(k: nat)
    ensures
        span_mul(k) % (4 * pow2(k) as int) == 1,
        span_inc(k) % (2 * pow2(k) as int) == pow2(k) as int,
    decreases k,
{
    if k == 0 {
        assert(pow2(0) == 1) by {
            vstd::arithmetic::power2::lemma2_to64();
        }
        assert(1103515245int % 4 == 1);
        assert(12345int % 2 == 1);
    } else {
        let h = (k - 1) as nat;
        lemma_span_two_adic(h);
        lemma_pow2_unfold(k);
        lemma_pow2_pos(h);
        let p = pow2(h) as int;
        let a = span_mul(h);
        let c = span_inc(h);
        lemma_fundamental_div_mod(a, 4 * p);
        lemma_fundamental_div_mod(c, 2 * p);
        let q = a / (4 * p);
        let r = c / (2 * p);
        assert(a == 4 * p * q + 1);
        assert(c == 2 * p * r + p);
        assert(a * a == (8 * p) * (2 * p * q * q + q) + 1) by (nonlinear_arith)
            requires a == 4 * p * q + 1;
        assert(a * c + c == (4 * p) * (2 * p * q * r + p * q + r) + 2 * p) by (nonlinear_arith)
            requires a == 4 * p * q + 1, c == 2 * p * r + p;
        lemma_fundamental_div_mod_converse(a * a, 8 * p, 2 * p * q * q + q, 1);
        lemma_fundamental_div_mod_converse(a * c + c, 4 * p, 2 * p * q * r + p * q + r, 2 * p);
        assert(span_mul(k) == a * a);
        assert(span_inc(k) == a * c + c);
        assert(4 * (pow2(k) as int) == 8 * p);
        assert(2 * (pow2(k) as int) == 4 * p);
    }
}

/// `2^k` steps from a reduced state add `2^k` modulo `2^(k+1)`.
proof fn lemma_span_adds_half(y: u128, k: nat)
    requires
        y < MODULUS,
        k < 31,
    ensures
        iterate(y, pow2(k)) as int % (2 * pow2(k) as int) == (y + pow2(k) as int) % (2 * pow2(k) as int),
{
    let m = MODULUS as int;
    let p = pow2(k) as int;
    lemma_pow2_pos(k);
    lemma_span_affine(y, k);
    lemma_span_two_adic(k);
    let a = span_mul(k);
    let c = span_inc(k);
    // 2p divides the modulus
    assert(m == (2 * p) * pow2((30 - k) as nat)) by {
        vstd::arithmetic::power2::lemma_pow2_adds(k + 1, (30 - k) as nat);
        vstd::arithmetic::power2::lemma2_to64();
        lemma_pow2_unfold(k + 1);
        assert(k + 1 + (30 - k) == 31);
    }
    lemma_mod_mod(a * y + c, 2 * p, pow2((30 - k) as nat) as int);
    lemma_fundamental_div_mod(a, 4 * p);
    lemma_fundamental_div_mod(c, 2 * p);
    let q = a / (4 * p);
    let r = c / (2 * p);
    assert(a * y + c == (2 * p) * (2 * q * y + r) + (y + p)) by (nonlinear_arith)
        requires a == 4 * p * q + 1, c == 2 * p * r + p;
    lemma_mod_multiples_vanish(2 * q * y + r, y + p, 2 * p);
}

/// Two numbers equal modulo `p` are equal modulo `2p`, or differ by `p`.
proof fn lemma_mod_split(y: int, t: int, p: int)
    requires
        p > 0,
        y % p == t % p,
    ensures
        y % (2 * p) == t % (2 * p) || y % (2 * p) == (t + p) % (2 * p),
{
    let b = y % (2 * p);
    let d = t % (2 * p);
    lemma_mod_mod(y, p, 2);
    lemma_mod_mod(t, p, 2);
    assert(p * 2 == 2 * p);
    lemma_fundamental_div_mod(t, 2 * p);
    let c = t / (2 * p);
    assert(t == c * (2 * p) + d) by (nonlinear_arith)
        requires t == (2 * p) * c + d;
    assert(t + p + p == (c + 1) * (2 * p) + d) by (nonlinear_arith)
        requires t == c * (2 * p) + d;
    if b < p {
        lemma_fundamental_div_mod_converse(b, p, 0, b);
    } else {
        lemma_fundamental_div_mod_converse(b, p, 1, b - p);
    }
    if d < p {
        lemma_fundamental_div_mod_converse(d, p, 0, d);
        lemma_fundamental_div_mod_converse(t + p, 2 * p, c, d + p);
    } else {
        lemma_fundamental_div_mod_converse(d, p, 1, d - p);
        lemma_fundamental_div_mod_converse(t + p, 2 * p, c + 1, d - p);
    }
}

/// From a reduced state every residue modulo `2^k`, `k <= 31`, comes up
/// within `2^k` steps; the result is a number of steps that reaches it.
pub proof fn lemma_reaches_residue(x: u128, t: int, k: nat) -> (j: nat)
    requires
        x < MODULUS,
        k <= 31,
    ensures
        j < pow2(k),
        iterate(x, j) as int % (pow2(k) as int) == t % (pow2(k) as int),
    decreases k,
{
    if k == 0 {
        assert(pow2(0) == 1) by {
            vstd::arithmetic::power2::lemma2_to64();
        }
        0
    } else {
        let h = (k - 1) as nat;
        let p = pow2(h) as int;
        lemma_pow2_unfold(k);
        lemma_pow2_pos(h);
        let j0 = lemma_reaches_residue(x, t, h);
        let y = iterate(x, j0);
        lemma_iterate_below(x, j0);
        if y as int % (2 * p) == t % (2 * p) {
            j0
        } else {
            lemma_mod_split(y as int, t, p);
            lemma_span_adds_half(y, h);
            lemma_iterate_adds(x, j0, pow2(h));
            lemma_add_mod_noop(y as int, p, 2 * p);
            lemma_add_mod_noop(t + p, p, 2 * p);
            lemma_mod_multiples_vanish(1, t, 2 * p);
            assert(t + p + p == 2 * p * 1 + t);
            j0 + pow2(h)
        }
    }
}

proof fn lemma_pow2_31()
    ensures
        pow2(31) == MODULUS,
{
    vstd::arithmetic::power2::lemma2_to64();
}

/// From any state the recurrence reaches state zero within `MODULUS`
/// steps; the result is such a number of steps.
pub proof fn lemma_reaches_zero(s: u128) -> (i: nat)
    ensures
        1 <= i <= MODULUS,
        iterate(s, i) == 0,
{
    let x = iterate(s, 1);
    assert(iterate(s, 0) == s);
    assert(x == next_state(s));
    let j = lemma_reaches_residue(x, 0, 31);
    lemma_pow2_31();
    lemma_iterate_below(x, j);
    let y = iterate(x, j);
    vstd::arithmetic::div_mod::lemma_small_mod(y as nat, MODULUS as nat);
    assert(y == 0);
    lemma_iterate_adds(s, 1, j);
    assert(1 + j == j + 1);
    j + 1
}

/// Where some step `i0` in `1..=fuel + 1` is at most `ceiling`, the walk
/// ends on the first such step; the result is its number.
proof fn lemma_walk_first_accepted(s: u128, ceiling: u128, fuel: nat, i0: nat) -> (i: nat)
    requires
        1 <= i0 <= fuel + 1,
        iterate(s, i0) <= ceiling,
    ensures
        1 <= i <= i0,
        rejection_walk(s, ceiling, fuel) == iterate(s, i),
        iterate(s, i) <= ceiling,
        forall|e: nat| 1 <= e < i ==> iterate(s, e) > ceiling,
    decreases fuel,
{
    let v = next_state(s);
    assert(iterate(s, 0) == s);
    assert(iterate(s, 1) == v);
    if v <= ceiling {
        1
    } else {
        lemma_iterate_adds(s, 1, (i0 - 1) as nat);
        let i1 = lemma_walk_first_accepted(v, ceiling, (fuel - 1) as nat, (i0 - 1) as nat);
        lemma_iterate_adds(s, 1, i1);
        assert forall|e: nat| 1 <= e < i1 + 1 implies iterate(s, e) > ceiling by {
            if e > 1 {
                lemma_iterate_adds(s, 1, (e - 1) as nat);
            }
        }
        i1 + 1
    }
}

/// A draw that is not a power-of-two bound stops on the first accepted
/// state of the orbit: `i` steps lead to it, none of the steps before is
/// accepted, and `i` is at most `MODULUS`, so the retry bound never ends a
/// search.
pub proof fn lemma_rejection_stops_on_first_accepted(s: u128, n: u128) -> (i: nat)
    requires
        n > 0,
        !is_power_of_two(n),
    ensures
        1 <= i <= MODULUS,
        bounded_state(s, n) == iterate(s, i),
        bounded_state(s, n) <= acceptance_ceiling(n),
        forall|e: nat| 1 <= e < i ==> iterate(s, e) > acceptance_ceiling(n),
{
    let z = lemma_reaches_zero(s);
    lemma_walk_first_accepted(s, acceptance_ceiling(n), RETRY_LIMIT as nat, z)
}

/// A state that comes back after `d` steps comes back every `d` steps.
proof fn lemma_cycle_repeats(y: u128, d: nat, e: nat)
    requires
        d > 0,
        iterate(y, d) == y,
    ensures
        iterate(y, e) == iterate(y, e % d),
    decreases e,
{
    if e < d {
        vstd::arithmetic::div_mod::lemma_small_mod(e, d);
    } else {
        let rest = (e - d) as nat;
        lemma_iterate_adds(y, d, rest);
        assert(d + rest == e);
        lemma_cycle_repeats(y, d, rest);
        lemma_mod_multiples_vanish(1, rest as int, d as int);
        assert(d * 1 + rest == e);
    }
}

/// Within one period the recurrence never comes back to a state: the
/// states after steps `1..=MODULUS` are pairwise distinct, so callers that
/// share one generator, in whatever order their draws interleave, never
/// see the same state twice within `MODULUS` draws.
pub proof fn lemma_states_distinct_within_period(s: u128, i: nat, j: nat)
    requires
        1 <= i < j <= MODULUS,
    ensures
        iterate(s, i) != iterate(s, j),
{
    if iterate(s, i) == iterate(s, j) {
        let y = iterate(s, i);
        let d = (j - i) as nat;
        assert(iterate(s, 0) == s);
        lemma_iterate_below(next_state(s), (i - 1) as nat);
        lemma_iterate_adds(s, 1, (i - 1) as nat);
        assert(iterate(s, 1) == next_state(s));
        lemma_iterate_adds(s, i, d);
        let m = MODULUS as int;
        let g = |e: int| iterate(y, e as nat) as int;
        let small = vstd::set_lib::set_int_range(0, d as int);
        let all = vstd::set_lib::set_int_range(0, m);
        vstd::set_lib::lemma_int_range(0, d as int);
        vstd::set_lib::lemma_int_range(0, m);
        lemma_pow2_31();
        assert forall|t: int| all.contains(t) implies small.map(g).contains(t) by {
            let jt = lemma_reaches_residue(y, t, 31);
            lemma_iterate_below(y, jt);
            vstd::arithmetic::div_mod::lemma_small_mod(iterate(y, jt) as nat, MODULUS as nat);
            vstd::arithmetic::div_mod::lemma_small_mod(t as nat, MODULUS as nat);
            lemma_cycle_repeats(y, d, jt);
            let e = (jt % d) as int;
            assert(small.contains(e));
            assert(g(e) == t);
        }
        vstd::set_lib::lemma_map_size_bound(small, small.map(g), g);
        vstd::set_lib::lemma_len_subset(all, small.map(g));
    }
}

} // verus!
