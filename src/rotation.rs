//! What repeated round-robin selection does to a pool: after `k` steps the
//! pool is rotated by `k` places, the `i`-th selection is the endpoint at
//! place `i` modulo the pool's size, and selections share out evenly.
use vstd::prelude::*;

use vstd::arithmetic::div_mod::{
    lemma_fundamental_div_mod, lemma_fundamental_div_mod_converse, lemma_mod_bound,
};

use crate::pool::rotate;

verus! {

/// The pool after `k` round-robin steps.
pub open spec fn rotate_n(s: Seq<Seq<char>>, k: nat) -> Seq<Seq<char>>
    decreases k,
{
    if k == 0 {
        s
    } else {
        rotate(rotate_n(s, (k - 1) as nat))
    }
}

/// How many of the first `m` selections from pool `s` return `e`.
pub open spec fn times_selected(s: Seq<Seq<char>>, m: nat, e: Seq<char>) -> nat
    decreases m,
{
    if m == 0 {
        0
    } else {
        times_selected(s, (m - 1) as nat, e) + if rotate_n(s, (m - 1) as nat)[0] == e {
            1nat
        } else {
            0nat
        }
    }
}

proof fn lemma_succ_div_mod(k: int, n: int)
    requires
        0 <= k,
        0 < n,
    ensures
        0 <= k % n < n,
        k % n + 1 < n ==> (k + 1) % n == k % n + 1 && (k + 1) / n == k / n,
        k % n + 1 == n ==> (k + 1) % n == 0 && (k + 1) / n == k / n + 1,
{
    lemma_mod_bound(k, n);
    lemma_fundamental_div_mod(k, n);
    if k % n + 1 < n {
        assert(k + 1 == (k / n) * n + (k % n + 1)) by (nonlinear_arith)
            requires
                k == n * (k / n) + (k % n),
        ;
        lemma_fundamental_div_mod_converse(k + 1, n, k / n, k % n + 1);
    } else {
        assert(k + 1 == (k / n + 1) * n + 0) by (nonlinear_arith)
            requires
                k == n * (k / n) + (k % n),
                k % n + 1 == n,
        ;
        lemma_fundamental_div_mod_converse(k + 1, n, k / n + 1, 0);
    }
}

/// After `k` steps the pool is rotated by `k` places modulo its size.
pub proof fn lemma_rotate_n_shape(s: Seq<Seq<char>>, k: nat)
    requires
        s.len() > 0,
    ensures
        0 <= k % s.len() < s.len(),
        rotate_n(s, k) == s.subrange((k % s.len()) as int, s.len() as int) + s.subrange(
            0,
            (k % s.len()) as int,
        ),
    decreases k,
{
    let n = s.len() as int;
    lemma_mod_bound(k as int, n);
    if k == 0 {
        assert(0int % n == 0) by (nonlinear_arith)
            requires
                n > 0,
        ;
        assert(s.subrange(0, n) + s.subrange(0, 0) =~= s);
    } else {
        let j = (k - 1) as nat;
        lemma_rotate_n_shape(s, j);
        lemma_succ_div_mod(j as int, n);
        let r = (j % s.len()) as int;
        let prev = rotate_n(s, j);
        assert(prev[0] == s[r as int]);
        if r + 1 < n {
            assert(rotate(prev) =~= s.subrange(r + 1, n) + s.subrange(0, r + 1));
        } else {
            assert(rotate(prev) =~= s.subrange(0, n) + s.subrange(0, 0));
        }
    }
}

/// Selection `i` (counting from zero) returns the endpoint at place `i`
/// modulo the pool's size.
pub proof fn lemma_selection_order(s: Seq<Seq<char>>, i: nat)
    requires
        s.len() > 0,
    ensures
        rotate_n(s, i).len() == s.len(),
        rotate_n(s, i)[0] == s[(i % s.len()) as int],
{
    lemma_rotate_n_shape(s, i);
}

/// Round-robin steps keep the endpoints distinct and their number fixed.
pub proof fn lemma_rotate_n_wf(s: Seq<Seq<char>>, k: nat)
    ensures
        rotate_n(s, k).len() == s.len(),
        s.no_duplicates() ==> rotate_n(s, k).no_duplicates(),
        k == 1 ==> rotate_n(s, k) == rotate(s),
    decreases k,
{
    if s.len() == 0 && k > 0 {
        lemma_rotate_n_wf(s, (k - 1) as nat);
    }
    if s.len() > 0 {
        lemma_rotate_n_shape(s, k);
        let r = (k % s.len()) as int;
        let t = rotate_n(s, k);
        if s.no_duplicates() {
            assert forall|a: int, b: int| 0 <= a < b < t.len() implies t[a] != t[b] by {
                let n = s.len() as int;
                let ia = if a < n - r { a + r } else { a - (n - r) };
                let ib = if b < n - r { b + r } else { b - (n - r) };
                assert(t[a] == s[ia] && t[b] == s[ib]);
            }
        }
    }
    if k == 1 {
        assert(rotate_n(s, 0) == s);
    }
}

/// A full cycle of selections leaves the pool as it was.
pub proof fn lemma_full_cycle_restores(s: Seq<Seq<char>>)
    ensures
        rotate_n(s, s.len()) == s,
{
    if s.len() > 0 {
        lemma_rotate_n_shape(s, s.len());
        vstd::arithmetic::div_mod::lemma_mod_self_0(s.len() as int);
        assert(s.subrange(0, s.len() as int) + s.subrange(0, 0) =~= s);
    }
}

proof fn lemma_times_selected_exact(s: Seq<Seq<char>>, m: nat, j: int)
    requires
        s.no_duplicates(),
        0 <= j < s.len(),
    ensures
        times_selected(s, m, s[j]) == m / s.len() + if j < m % s.len() {
            1nat
        } else {
            0nat
        },
    decreases m,
{
    let n = s.len() as int;
    if m == 0 {
        assert(0int / n == 0) by (nonlinear_arith)
            requires
                n > 0,
        ;
        assert(0int % n == 0) by (nonlinear_arith)
            requires
                n > 0,
        ;
    } else {
        let k = (m - 1) as nat;
        lemma_times_selected_exact(s, k, j);
        lemma_selection_order(s, k);
        lemma_succ_div_mod(k as int, n);
        let r = (k % s.len()) as int;
        assert(rotate_n(s, k)[0] == s[j] <==> r == j);
    }
}

/// Round-robin fairness: with `n` distinct endpoints, each is returned by at
/// least `m / n` and at most `ceil(m / n)` of `m` consecutive selections.
pub proof fn lemma_round_robin_fair(s: Seq<Seq<char>>, m: nat, j: int)
    requires
        s.no_duplicates(),
        0 <= j < s.len(),
        m >= s.len(),
    ensures
        m / s.len() <= times_selected(s, m, s[j]),
        times_selected(s, m, s[j]) <= m / s.len() + if m % s.len() == 0 {
            0nat
        } else {
            1nat
        },
{
    lemma_times_selected_exact(s, m, j);
    lemma_mod_bound(m as int, s.len() as int);
}

} // verus!
