//! Sums over sequences.

use vstd::prelude::*;

verus! {

/// The sum of `f` over `s`.
pub open spec fn total<A>(s: Seq<A>, f: spec_fn(A) -> nat) -> nat
    decreases s.len(),
{
    if s.len() == 0 {
        0
    } else {
        total(s.drop_last(), f) + f(s.last())
    }
}

/// One more element adds its own value.
pub proof fn total_push<A>(s: Seq<A>, a: A, f: spec_fn(A) -> nat)
    ensures
        total(s.push(a), f) == total(s, f) + f(a),
{
    assert(s.push(a).drop_last() =~= s);
}

/// One step of a running sum.
pub proof fn total_take<A>(s: Seq<A>, i: int, f: spec_fn(A) -> nat)
    requires
        0 <= i < s.len(),
    ensures
        total(s.take(i + 1), f) == total(s.take(i), f) + f(s[i]),
        total(s.take(i + 1), f) <= total(s, f),
    decreases s.len() - i,
{
    assert(s.take(i + 1) =~= s.take(i).push(s[i]));
    total_push(s.take(i), s[i], f);
    if i + 1 < s.len() {
        total_take(s, i + 1, f);
    } else {
        assert(s.take(i + 1) =~= s);
    }
}

/// The sum over two sequences is the sum of their sums.
pub proof fn total_concat<A>(a: Seq<A>, b: Seq<A>, f: spec_fn(A) -> nat)
    ensures
        total(a + b, f) == total(a, f) + total(b, f),
    decreases b.len(),
{
    if b.len() == 0 {
        assert(a + b =~= a);
    } else {
        assert((a + b).drop_last() =~= a + b.drop_last());
        total_concat(a, b.drop_last(), f);
    }
}

/// A sum in which every element counts no more than in another is no larger.
pub proof fn total_monotone<A>(s: Seq<A>, f: spec_fn(A) -> nat, g: spec_fn(A) -> nat)
    requires
        forall|i: int| 0 <= i < s.len() ==> f(#[trigger] s[i]) <= g(s[i]),
    ensures
        total(s, f) <= total(s, g),
    decreases s.len(),
{
    if s.len() > 0 {
        let front = s.drop_last();
        assert(s.last() == s[s.len() - 1]);
        assert forall|i: int| 0 <= i < front.len() implies f(#[trigger] front[i]) <= g(front[i]) by {
            assert(front[i] == s[i]);
        }
        total_monotone(front, f, g);
    }
}

/// What is left of a sequence by a partial function comes from one of its
/// elements.
pub proof fn filter_map_source<A, B>(s: Seq<A>, f: spec_fn(A) -> Option<B>, k: int) -> (i: int)
    requires
        0 <= k < s.filter_map(f).len(),
    ensures
        0 <= i < s.len(),
        f(s[i]) == Some(s.filter_map(f)[k]),
    decreases s.len(),
{
    let front = s.drop_last();
    if k < front.filter_map(f).len() {
        let i = filter_map_source(front, f, k);
        assert(front[i] == s[i]);
        assert(s.filter_map(f)[k] == front.filter_map(f)[k]);
        i
    } else {
        assert(f(s.last()) is Some);
        s.len() - 1
    }
}

/// What a partial function gives for an element is among what is left.
pub proof fn filter_map_keeps<A, B>(s: Seq<A>, f: spec_fn(A) -> Option<B>, i: int) -> (k: int)
    requires
        0 <= i < s.len(),
        f(s[i]) is Some,
    ensures
        0 <= k < s.filter_map(f).len(),
        s.filter_map(f)[k] == f(s[i])->0,
    decreases s.len(),
{
    let front = s.drop_last();
    if i == s.len() - 1 {
        front.filter_map(f).len() as int
    } else {
        assert(front[i] == s[i]);
        filter_map_keeps(front, f, i)
    }
}

/// What is left by a partial function is as much as it applies to.
pub proof fn filter_map_count<A, B>(s: Seq<A>, f: spec_fn(A) -> Option<B>, one: spec_fn(A) -> nat)
    requires
        forall|a: A| #[trigger] one(a) == (if f(a) is Some {
            1nat
        } else {
            0nat
        }),
    ensures
        s.filter_map(f).len() == total(s, one),
    decreases s.len(),
{
    if s.len() > 0 {
        filter_map_count(s.drop_last(), f, one);
        assert(one(s.last()) == (if f(s.last()) is Some {
            1nat
        } else {
            0nat
        }));
    }
}

/// An element that counts makes the sum positive.
pub proof fn total_counts<A>(s: Seq<A>, f: spec_fn(A) -> nat, i: int)
    requires
        0 <= i < s.len(),
    ensures
        f(s[i]) <= total(s, f),
    decreases s.len(),
{
    if i < s.len() - 1 {
        assert(s.drop_last()[i] == s[i]);
        total_counts(s.drop_last(), f, i);
    }
}

/// A sum that is positive has an element that counts.
pub proof fn total_is_counted<A>(s: Seq<A>, f: spec_fn(A) -> nat) -> (i: int)
    requires
        total(s, f) > 0,
    ensures
        0 <= i < s.len(),
        f(s[i]) > 0,
    decreases s.len(),
{
    if f(s.last()) > 0 {
        s.len() - 1
    } else {
        let i = total_is_counted(s.drop_last(), f);
        assert(s.drop_last()[i] == s[i]);
        i
    }
}

/// Two partial functions of which exactly one applies to each element part a
/// sequence in two.
pub proof fn filter_map_parts<A, B, C>(
    s: Seq<A>,
    f: spec_fn(A) -> Option<B>,
    g: spec_fn(A) -> Option<C>,
)
    requires
        forall|a: A| #[trigger] f(a) is Some == g(a) is None,
    ensures
        s.filter_map(f).len() + s.filter_map(g).len() == s.len(),
    decreases s.len(),
{
    if s.len() > 0 {
        filter_map_parts(s.drop_last(), f, g);
        assert(f(s.last()) is Some == g(s.last()) is None);
    }
}

/// A filter that every element passes changes nothing.
pub proof fn filter_keeps_all<A>(s: Seq<A>, keep: spec_fn(A) -> bool)
    requires
        forall|i: int| 0 <= i < s.len() ==> keep(#[trigger] s[i]),
    ensures
        s.filter(keep) == s,
    decreases s.len(),
{
    reveal(Seq::filter);
    if s.len() > 0 {
        let front = s.drop_last();
        assert(s.last() == s[s.len() - 1]);
        assert forall|i: int| 0 <= i < front.len() implies keep(#[trigger] front[i]) by {
            assert(front[i] == s[i]);
        }
        filter_keeps_all(front, keep);
        assert(front.push(s.last()) =~= s);
    } else {
        assert(s.filter(keep) =~= s);
    }
}

} // verus!
