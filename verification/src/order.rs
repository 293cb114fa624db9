//! The members of a set of positions, listed in order.
//!
//! The iterators over indices promise these sequences; the lemmas say what
//! the sequences hold and how the two directions relate.

use vstd::prelude::*;

verus! {

/// The members of `s` from `lo` up to, not including, `hi`: smallest first.
pub open spec fn ascending(s: Set<nat>, lo: nat, hi: nat) -> Seq<nat>
    decreases hi - lo,
{
    if lo >= hi {
        Seq::empty()
    } else if s.contains(lo) {
        seq![lo] + ascending(s, lo + 1, hi)
    } else {
        ascending(s, lo + 1, hi)
    }
}

/// The members of `s` from `lo` up to, not including, `hi`: largest first.
pub open spec fn descending(s: Set<nat>, lo: nat, hi: nat) -> Seq<nat>
    decreases hi,
{
    if lo >= hi {
        Seq::empty()
    } else if s.contains((hi - 1) as nat) {
        seq![(hi - 1) as nat] + descending(s, lo, (hi - 1) as nat)
    } else {
        descending(s, lo, (hi - 1) as nat)
    }
}

/// Whether each element of `q` is smaller than the one after it.
pub open spec fn strictly_increasing(q: Seq<nat>) -> bool {
    forall|i: int, j: int| 0 <= i < j < q.len() ==> q[i] < q[j]
}

/// Whether `m` is the smallest member of `s`.
pub open spec fn is_least(s: Set<nat>, m: nat) -> bool {
    s.contains(m) && forall|j: nat| s.contains(j) ==> m <= j
}

/// Whether `m` is the largest member of `s`.
pub open spec fn is_greatest(s: Set<nat>, m: nat) -> bool {
    s.contains(m) && forall|j: nat| s.contains(j) ==> j <= m
}

/// The ascending sequence holds exactly the members within its bounds, each
/// once, in increasing order.
pub proof fn lemma_ascending_contents(s: Set<nat>, lo: nat, hi: nat)
    ensures
        forall|x: nat| #[trigger]
            ascending(s, lo, hi).contains(x) <==> lo <= x < hi && s.contains(x),
        strictly_increasing(ascending(s, lo, hi)),
        ascending(s, lo, hi).no_duplicates(),
    decreases hi - lo,
{
    let q = ascending(s, lo, hi);
    if lo < hi {
        let rest = ascending(s, lo + 1, hi);
        lemma_ascending_contents(s, lo + 1, hi);
        if s.contains(lo) {
            assert(q == seq![lo] + rest);
            assert(q.len() == rest.len() + 1);
            assert(q[0] == lo);
            assert forall|i: int| 0 < i < q.len() implies q[i] == rest[i - 1] by {
            }
            assert forall|i: int| 0 < i < q.len() implies lo < q[i] by {
                assert(q[i] == rest[i - 1]);
                assert(rest.contains(rest[i - 1]));
            }
            assert forall|x: nat| #[trigger] q.contains(x) <==> lo <= x < hi && s.contains(x) by {
                if q.contains(x) {
                    let i = choose|i: int| 0 <= i < q.len() && q[i] == x;
                    if i > 0 {
                        assert(rest.contains(rest[i - 1]));
                    }
                }
                if lo <= x < hi && s.contains(x) {
                    if x == lo {
                        assert(q[0] == x);
                    } else {
                        assert(rest.contains(x));
                        let i = choose|i: int| 0 <= i < rest.len() && rest[i] == x;
                        assert(q[i + 1] == x);
                    }
                }
            }
            assert forall|i: int, j: int| 0 <= i < j < q.len() implies q[i] < q[j] by {
                if i > 0 {
                    assert(rest[i - 1] < rest[j - 1]);
                }
            }
        }
    }
}

/// Where `s` has no member from `lo` up to `k`, listing from `lo` is listing
/// from `k`.
pub proof fn lemma_ascending_skip(s: Set<nat>, lo: nat, k: nat, hi: nat)
    requires
        lo <= k <= hi,
        forall|j: nat| lo <= j < k ==> !s.contains(j),
    ensures
        ascending(s, lo, hi) == ascending(s, k, hi),
    decreases k - lo,
{
    if lo < k {
        lemma_ascending_skip(s, lo + 1, k, hi);
    }
}

/// Where `s` has no member from `k` up to `hi`, listing down from `hi` is
/// listing down from `k`.
pub proof fn lemma_descending_skip(s: Set<nat>, lo: nat, k: nat, hi: nat)
    requires
        lo <= k <= hi,
        forall|j: nat| k <= j < hi ==> !s.contains(j),
    ensures
        descending(s, lo, hi) == descending(s, lo, k),
    decreases hi - k,
{
    if k < hi {
        lemma_descending_skip(s, lo, k, (hi - 1) as nat);
    }
}

/// The ascending sequence depends only on the members within its bounds.
pub proof fn lemma_ascending_same(s: Set<nat>, t: Set<nat>, lo: nat, hi: nat)
    requires
        forall|j: nat| lo <= j < hi ==> s.contains(j) == t.contains(j),
    ensures
        ascending(s, lo, hi) == ascending(t, lo, hi),
    decreases hi - lo,
{
    if lo < hi {
        lemma_ascending_same(s, t, lo + 1, hi);
    }
}

/// The descending sequence depends only on the members within its bounds.
pub proof fn lemma_descending_same(s: Set<nat>, t: Set<nat>, lo: nat, hi: nat)
    requires
        forall|j: nat| lo <= j < hi ==> s.contains(j) == t.contains(j),
    ensures
        descending(s, lo, hi) == descending(t, lo, hi),
    decreases hi,
{
    if lo < hi {
        lemma_descending_same(s, t, lo, (hi - 1) as nat);
    }
}

/// The ascending sequence up to `hi + 1` is the one up to `hi`, followed by
/// `hi` where that is a member.
pub proof fn lemma_ascending_last(s: Set<nat>, lo: nat, hi: nat)
    requires
        lo <= hi,
    ensures
        ascending(s, lo, hi + 1) == if s.contains(hi) {
            ascending(s, lo, hi).push(hi)
        } else {
            ascending(s, lo, hi)
        },
    decreases hi - lo,
{
    if lo < hi {
        lemma_ascending_last(s, lo + 1, hi);
        if s.contains(lo) && s.contains(hi) {
            assert(seq![lo] + ascending(s, lo + 1, hi).push(hi) =~= (seq![lo] + ascending(
                s,
                lo + 1,
                hi,
            )).push(hi));
        }
    } else {
        assert(ascending(s, lo + 1, hi + 1) =~= Seq::<nat>::empty());
        assert(ascending(s, lo, hi) =~= Seq::<nat>::empty());
        if s.contains(hi) {
            assert(seq![lo] + Seq::<nat>::empty() =~= Seq::<nat>::empty().push(hi));
        }
    }
}

/// Listing largest first is listing smallest first, read backwards.
pub proof fn lemma_descending_is_reverse(s: Set<nat>, lo: nat, hi: nat)
    ensures
        descending(s, lo, hi) == ascending(s, lo, hi).reverse(),
    decreases hi,
{
    if lo < hi {
        let top = (hi - 1) as nat;
        lemma_descending_is_reverse(s, lo, top);
        lemma_ascending_last(s, lo, top);
        let below = ascending(s, lo, top);
        if s.contains(top) {
            assert(below.push(top).reverse() =~= seq![top] + below.reverse());
        }
    } else {
        assert(ascending(s, lo, hi).reverse() =~= Seq::<nat>::empty());
    }
}

/// Listing a set of positions below `hi` from 0 gives each member once: the
/// sequence is as long as the set is large.
pub proof fn lemma_ascending_len(s: Set<nat>, hi: nat)
    requires
        forall|j: nat| s.contains(j) ==> j < hi,
    ensures
        ascending(s, 0, hi).to_set() == s,
        s.finite(),
        ascending(s, 0, hi).len() == s.len(),
{
    let q = ascending(s, 0, hi);
    lemma_ascending_contents(s, 0, hi);
    assert(q.to_set() =~= s);
    q.unique_seq_to_set();
}

} // verus!
