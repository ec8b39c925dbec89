//! Sequences that hold `1 ..= n` exactly once, and the prefix-reversal
//! ("flip") transform that pancake sorting is built from.

use vstd::prelude::*;

verus! {

/// `s` holds each of the values `1 ..= n` exactly once.
pub open spec fn is_permutation(s: Seq<i32>, n: nat) -> bool {
    &&& s.len() == n
    &&& forall|i: int| 0 <= i < n ==> 1 <= #[trigger] s[i] <= n
    &&& s.no_duplicates()
    &&& forall|v: i32| 1 <= v <= n ==> s.contains(v)
}

/// The identity arrangement: index `i` holds value `i + 1`.
pub open spec fn ascending_run(n: nat) -> Seq<i32> {
    Seq::new(n, |i: int| (i + 1) as i32)
}

/// The sequence after reversing the prefix `0 ..= k`.
pub open spec fn flipped(s: Seq<i32>, k: int) -> Seq<i32> {
    Seq::new(s.len(), |i: int| if 0 <= i <= k { s[k - i] } else { s[i] })
}

/// Every index at or above `b` already holds its final value `i + 1`.
pub open spec fn tail_in_place(s: Seq<i32>, b: int) -> bool {
    forall|i: int| b <= i < s.len() ==> #[trigger] s[i] == i + 1
}

pub proof fn lemma_ascending_is_permutation(n: nat)
    requires
        n <= 0x7fff_ffff,
    ensures
        is_permutation(ascending_run(n), n),
{
    let s = ascending_run(n);
    assert forall|v: i32| 1 <= v <= n implies s.contains(v) by {
        assert(s[v - 1] == v);
    }
}

/// Reversing a prefix only rearranges the values: whatever was a
/// permutation of `1 ..= n` still is one.
pub proof fn lemma_flipped_permutation(s: Seq<i32>, k: int, n: nat)
    requires
        is_permutation(s, n),
        0 <= k < s.len(),
    ensures
        is_permutation(flipped(s, k), n),
{
    let t = flipped(s, k);
    assert forall|i: int| 0 <= i < n implies 1 <= #[trigger] t[i] <= n by {
        if i <= k {
            assert(t[i] == s[k - i]);
        }
    }
    assert forall|i: int, j: int|
        0 <= i < t.len() && 0 <= j < t.len() && i != j implies t[i] != t[j] by {
        let si = if i <= k { k - i } else { i };
        let sj = if j <= k { k - j } else { j };
        assert(t[i] == s[si]);
        assert(t[j] == s[sj]);
        assert(si != sj);
    }
    assert forall|v: i32| 1 <= v <= n implies t.contains(v) by {
        assert(s.contains(v));
        let i = choose|i: int| 0 <= i < s.len() && #[trigger] s[i] == v;
        let ti = if i <= k { k - i } else { i };
        assert(t[ti] == s[i]);
    }
}

/// Each flip preserves the multiset of array values: no value is created,
/// destroyed, or duplicated by the transform.
pub proof fn lemma_flip_preserves_multiset(s: Seq<i32>, k: int)
    requires
        0 <= k < s.len(),
    ensures
        flipped(s, k).to_multiset() == s.to_multiset(),
{
    let pre = s.subrange(0, k + 1);
    let suf = s.subrange(k + 1, s.len() as int);
    assert(s =~= pre + suf);
    assert(flipped(s, k) =~= pre.reverse() + suf);
    pre.lemma_reverse_to_multiset();
    vstd::seq_lib::lemma_multiset_commutative(pre, suf);
    vstd::seq_lib::lemma_multiset_commutative(pre.reverse(), suf);
    assert(flipped(s, k).to_multiset() =~= s.to_multiset());
}

/// A sequence with the same values as a permutation of `1 ..= n` is itself
/// such a permutation.
pub proof fn lemma_permutation_from_multiset(s: Seq<i32>, t: Seq<i32>, n: nat)
    requires
        is_permutation(s, n),
        t.to_multiset() == s.to_multiset(),
    ensures
        is_permutation(t, n),
{
    broadcast use vstd::seq_lib::group_to_multiset_ensures;

    assert(t.len() == t.to_multiset().len());
    assert(s.len() == s.to_multiset().len());
    s.lemma_multiset_has_no_duplicates();
    t.lemma_multiset_has_no_duplicates_conv();
    assert forall|i: int| 0 <= i < n implies 1 <= #[trigger] t[i] <= n by {
        assert(t.contains(t[i]));
        assert(t.to_multiset().count(t[i]) > 0);
        assert(s.contains(t[i]));
        let j = choose|j: int| 0 <= j < s.len() && s[j] == t[i];
        assert(1 <= s[j] <= n);
    }
    assert forall|v: i32| 1 <= v <= n implies t.contains(v) by {
        assert(s.contains(v));
        assert(s.to_multiset().count(v) > 0);
    }
}

} // verus!
