use vstd::prelude::*;
use vstd::arithmetic::div_mod::{lemma_fundamental_div_mod, lemma_fundamental_div_mod_converse};

verus! {

/// Sum of a sequence of nanosecond samples.
pub open spec fn sum(s: Seq<usize>) -> int
    decreases s.len(),
{
    if s.len() == 0 {
        0
    } else {
        sum(s.drop_last()) + s.last()
    }
}

/// Mean of the `k`-th complete window of `w` consecutive samples, truncated.
pub open spec fn window_mean(s: Seq<usize>, w: nat, k: int) -> int {
    sum(s.subrange(k * w, (k + 1) * w)) / (w as int)
}

/// Means of every complete window of `w` samples, oldest first.
pub open spec fn window_means(s: Seq<usize>, w: nat) -> Seq<int> {
    Seq::new(s.len() / w, |k: int| window_mean(s, w, k))
}

/// The last (at most) `a` elements of `m`.
pub open spec fn keep_last(m: Seq<int>, a: nat) -> Seq<int> {
    if m.len() <= a {
        m
    } else {
        m.subrange(m.len() - a, m.len() as int)
    }
}

/// The history of window means retained after the samples `s`, with window
/// size `w` and history length `a`.
pub open spec fn history(s: Seq<usize>, w: nat, a: nat) -> Seq<int> {
    keep_last(window_means(s, w), a)
}

/// The samples of the window that has not completed yet.
pub open spec fn open_window(s: Seq<usize>, w: nat) -> Seq<usize> {
    s.subrange(s.len() - (s.len() as int) % (w as int), s.len() as int)
}

/// Integers as seen by the model.
pub open spec fn as_ints(v: Seq<usize>) -> Seq<int> {
    v.map_values(|x: usize| x as int)
}

pub proof fn lemma_sum_push(s: Seq<usize>, x: usize)
    ensures
        sum(s.push(x)) == sum(s) + x,
{
    assert(s.push(x).drop_last() =~= s);
}

pub proof fn lemma_sum_nonneg(s: Seq<usize>)
    ensures
        sum(s) >= 0,
    decreases s.len(),
{
    if s.len() > 0 {
        lemma_sum_nonneg(s.drop_last());
    }
}

pub proof fn lemma_sum_concat(a: Seq<usize>, b: Seq<usize>)
    ensures
        sum(a + b) == sum(a) + sum(b),
    decreases b.len(),
{
    if b.len() == 0 {
        assert(a + b =~= a);
    } else {
        lemma_sum_concat(a, b.drop_last());
        assert((a + b).drop_last() =~= a + b.drop_last());
    }
}

/// A contiguous part of the samples never sums to more than all of them.
pub proof fn lemma_sum_subrange_le(s: Seq<usize>, i: int, j: int)
    requires
        0 <= i <= j <= s.len(),
    ensures
        0 <= sum(s.subrange(i, j)) <= sum(s),
{
    let a = s.subrange(0, i);
    let b = s.subrange(i, j);
    let c = s.subrange(j, s.len() as int);
    assert(s =~= a + b + c);
    lemma_sum_concat(a + b, c);
    lemma_sum_concat(a, b);
    lemma_sum_nonneg(a);
    lemma_sum_nonneg(b);
    lemma_sum_nonneg(c);
}

/// Complete windows before the last one lie within the first `n` samples.
proof fn lemma_window_within(n: int, w: int, k: int)
    requires
        w > 0,
        n >= 0,
        0 <= k < n / w,
    ensures
        0 <= k * w,
        (k + 1) * w <= n,
        k * w + w == (k + 1) * w,
{
    lemma_fundamental_div_mod(n, w);
    let q = n / w;
    assert((k + 1) * w <= q * w) by (nonlinear_arith)
        requires
            k + 1 <= q,
            w > 0,
    ;
    assert(0 <= k * w) by (nonlinear_arith)
        requires
            k >= 0,
            w > 0,
    ;
    assert(k * w + w == (k + 1) * w) by (nonlinear_arith);
    assert(q * w == w * q) by (nonlinear_arith);
}

/// What one more sample does to the windows, the open window and its sum.
pub proof fn lemma_push_sample(s: Seq<usize>, w: nat, x: usize)
    requires
        w > 0,
    ensures
        ({
            let n = s.len() as int;
            let c = n % (w as int);
            let s2 = s.push(x);
            &&& sum(s2) == sum(s) + x
            &&& c + 1 < w ==> {
                &&& (s2.len() as int) % (w as int) == c + 1
                &&& (s2.len() as int) / (w as int) == n / (w as int)
                &&& window_means(s2, w) == window_means(s, w)
                &&& sum(open_window(s2, w)) == sum(open_window(s, w)) + x
            }
            &&& c + 1 == w ==> {
                &&& (s2.len() as int) % (w as int) == 0
                &&& (s2.len() as int) / (w as int) == n / (w as int) + 1
                &&& window_means(s2, w) == window_means(s, w).push(
                    (sum(open_window(s, w)) + x) / (w as int),
                )
                &&& open_window(s2, w) == Seq::<usize>::empty()
            }
        }),
{
    let n = s.len() as int;
    let wi = w as int;
    let c = n % wi;
    let q = n / wi;
    let s2 = s.push(x);
    lemma_sum_push(s, x);
    lemma_fundamental_div_mod(n, wi);
    assert(n == q * wi + c) by (nonlinear_arith)
        requires
            n == wi * q + c,
    ;
    assert(s2.subrange(n - c, n + 1) =~= open_window(s, w).push(x));
    lemma_sum_push(open_window(s, w), x);
    assert forall|k: int| 0 <= k < q implies #[trigger] s2.subrange(k * wi, (k + 1) * wi)
        == s.subrange(k * wi, (k + 1) * wi) by {
        lemma_window_within(n, wi, k);
        assert(s2.subrange(k * wi, (k + 1) * wi) =~= s.subrange(k * wi, (k + 1) * wi));
    }
    if c + 1 < w {
        lemma_fundamental_div_mod_converse(n + 1, wi, q, c + 1);
        assert(window_means(s2, w) =~= window_means(s, w));
        assert(open_window(s2, w) =~= s2.subrange(n - c, n + 1));
    } else if c + 1 == w {
        assert(q * wi == n - c);
        assert((q + 1) * wi == n + 1) by (nonlinear_arith)
            requires
                q * wi == n - c,
                c + 1 == wi,
        ;
        lemma_fundamental_div_mod_converse(n + 1, wi, q + 1, 0);
        assert(window_means(s2, w) =~= window_means(s, w).push((sum(open_window(s, w)) + x) / wi));
        assert(open_window(s2, w) =~= Seq::<usize>::empty());
    }
}

/// Appending to a bounded history evicts the oldest mean once it is full.
pub proof fn lemma_keep_last_push(m: Seq<int>, a: nat, x: int)
    requires
        a > 0,
    ensures
        keep_last(m, a).len() == a ==> keep_last(m.push(x), a) == keep_last(m, a).drop_first().push(x),
        keep_last(m, a).len() < a ==> keep_last(m.push(x), a) == keep_last(m, a).push(x),
        keep_last(m, a).len() <= a,
{
    if keep_last(m, a).len() == a {
        assert(keep_last(m.push(x), a) =~= keep_last(m, a).drop_first().push(x));
    } else {
        assert(keep_last(m.push(x), a) =~= keep_last(m, a).push(x));
    }
}

/// The length of the retained history after `n` samples is `min(n / w, a)`.
pub proof fn lemma_history_len(s: Seq<usize>, w: nat, a: nat)
    requires
        w > 0,
    ensures
        history(s, w, a).len() == if (s.len() as int) / (w as int) <= a {
            (s.len() as int) / (w as int)
        } else {
            a as int
        },
{
    vstd::arithmetic::div_mod::lemma_div_pos_is_pos(s.len() as int, w as int);
}

} // verus!
