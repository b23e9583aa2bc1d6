//! First occurrences in sequences.

use vstd::prelude::*;

verus! {

/// Position of the first occurrence of `x` in `s`, or `s.len()` when there
/// is none.
pub open spec fn first_index<A>(s: Seq<A>, x: A) -> int
    decreases s.len(),
{
    if s.len() == 0 || s[0] == x {
        0
    } else {
        1 + first_index(s.drop_first(), x)
    }
}

/// `first_index` is the least position holding `x`, bounded by the length.
pub proof fn lemma_first_index<A>(s: Seq<A>, x: A)
    ensures
        0 <= first_index(s, x) <= s.len(),
        forall|i: int| 0 <= i < first_index(s, x) ==> s[i] != x,
        first_index(s, x) < s.len() ==> s[first_index(s, x)] == x,
    decreases s.len(),
{
    if s.len() == 0 || s[0] == x {
    } else {
        let t = s.drop_first();
        lemma_first_index(t, x);
        assert forall|i: int| 0 <= i < first_index(s, x) implies s[i] != x by {
            if i > 0 {
                assert(s[i] == t[i - 1]);
            }
        }
        assert(first_index(t, x) < t.len() ==> t[first_index(t, x)] == s[first_index(s, x)]);
    }
}

/// Any position that holds the first `x` (or the end, when there is no `x`
/// at all) is what `first_index` returns.
pub proof fn lemma_first_index_is<A>(s: Seq<A>, x: A, n: int)
    requires
        0 <= n <= s.len(),
        forall|i: int| 0 <= i < n ==> s[i] != x,
        n < s.len() ==> s[n] == x,
    ensures
        first_index(s, x) == n,
{
    lemma_first_index(s, x);
    let m = first_index(s, x);
    if m < n {
        assert(s[m] == x);
    } else if m > n {
        assert(s[n] != x);
    }
}

/// Appending to a sequence does not move the first occurrence of a value
/// that is already there.
pub proof fn lemma_first_index_push_present<A>(s: Seq<A>, y: A, x: A)
    requires
        first_index(s, x) < s.len(),
    ensures
        first_index(s.push(y), x) == first_index(s, x),
{
    lemma_first_index(s, x);
    lemma_first_index_is(s.push(y), x, first_index(s, x));
}

/// Appending a value to a sequence that lacks it puts its first occurrence
/// at the end; appending another value leaves it absent.
pub proof fn lemma_first_index_push_absent<A>(s: Seq<A>, y: A, x: A)
    requires
        first_index(s, x) == s.len(),
    ensures
        first_index(s.push(y), x) == (if y == x {
            s.len() as int
        } else {
            s.len() as int + 1
        }),
{
    lemma_first_index(s, x);
    if y == x {
        lemma_first_index_is(s.push(y), x, s.len() as int);
    } else {
        lemma_first_index_is(s.push(y), x, s.len() as int + 1);
    }
}

/// A value that occurs in a prefix of a sequence occurs first in the
/// sequence where it occurs first in the prefix.
pub proof fn lemma_first_index_prefix<A>(p: Seq<A>, s: Seq<A>, x: A)
    requires
        p.is_prefix_of(s),
        first_index(p, x) < p.len(),
    ensures
        first_index(s, x) == first_index(p, x),
{
    lemma_first_index(p, x);
    let n = first_index(p, x);
    assert forall|i: int| 0 <= i <= n implies s[i] == p[i] by {
        assert(s.subrange(0, p.len() as int)[i] == s[i]);
    }
    lemma_first_index_is(s, x, n);
}

/// A prefix of a prefix is a prefix.
pub proof fn lemma_prefix_of_prefix<A>(a: Seq<A>, b: Seq<A>, c: Seq<A>)
    requires
        a.is_prefix_of(b),
        b.is_prefix_of(c),
    ensures
        a.is_prefix_of(c),
{
    assert forall|i: int| 0 <= i < a.len() implies a[i] == c[i] by {
        assert(b.subrange(0, a.len() as int)[i] == b[i]);
        assert(c.subrange(0, b.len() as int)[i] == c[i]);
    }
    assert(a =~= c.subrange(0, a.len() as int));
}

} // verus!
