//! Sums over sequences.
use vstd::prelude::*;

verus! {

/// The sum of the first `n` entries.
pub open spec fn prefix_sum(s: Seq<u16>, n: int) -> int
    decreases n,
{
    if n <= 0 {
        0
    } else {
        prefix_sum(s, n - 1) + s[n - 1]
    }
}

/// Changing an entry changes the sums beyond it by the difference.
pub proof fn lemma_prefix_update(s: Seq<u16>, k: int, v: u16, n: int)
    requires
        0 <= k < s.len(),
        0 <= n <= s.len(),
    ensures
        prefix_sum(s.update(k, v), n) == prefix_sum(s, n) + if k < n {
            v - s[k]
        } else {
            0
        },
    decreases n,
{
    if n > 0 {
        lemma_prefix_update(s, k, v, n - 1);
    }
}

/// The sum of all entries.
pub open spec fn total(s: Seq<u16>) -> int {
    prefix_sum(s, s.len() as int)
}

/// Sums over the first `n` entries depend on those alone.
pub proof fn lemma_prefix_same(s: Seq<u16>, t: Seq<u16>, n: int)
    requires
        n <= s.len(),
        n <= t.len(),
        forall|i: int| 0 <= i < n ==> s[i] == t[i],
    ensures
        prefix_sum(s, n) == prefix_sum(t, n),
    decreases n,
{
    if n > 0 {
        lemma_prefix_same(s, t, n - 1);
    }
}

/// Every entry is at most the sum that it is part of.
pub proof fn lemma_entry_at_most_prefix(s: Seq<u16>, i: int, n: int)
    requires
        0 <= i < n <= s.len(),
    ensures
        s[i] <= prefix_sum(s, n),
    decreases n,
{
    lemma_prefix_nonnegative(s, n - 1);
    if i < n - 1 {
        lemma_entry_at_most_prefix(s, i, n - 1);
    }
}

pub proof fn lemma_prefix_nonnegative(s: Seq<u16>, n: int)
    ensures
        prefix_sum(s, n) >= 0,
    decreases n,
{
    if n > 0 {
        lemma_prefix_nonnegative(s, n - 1);
    }
}

/// Appending adds to the sum.
pub proof fn lemma_total_push(s: Seq<u16>, v: u16)
    ensures
        total(s.push(v)) == total(s) + v,
{
    lemma_prefix_same(s.push(v), s, s.len() as int);
}

/// Changing an entry changes the sum by the difference.
pub proof fn lemma_total_update(s: Seq<u16>, i: int, v: u16)
    requires
        0 <= i < s.len(),
    ensures
        total(s.update(i, v)) == total(s) - s[i] + v,
{
    lemma_prefix_update(s, i, v, s.len() as int);
}

/// Entries of at least one bound the length by the sum.
pub proof fn lemma_length_at_most_total(s: Seq<u16>, n: int)
    requires
        1 <= n <= s.len(),
        forall|i: int| 1 <= i < s.len() ==> s[i] >= 1,
    ensures
        n - 1 <= prefix_sum(s, n),
    decreases n,
{
    if n > 1 {
        lemma_length_at_most_total(s, n - 1);
    } else {
        lemma_prefix_nonnegative(s, 1);
    }
}

} // verus!
