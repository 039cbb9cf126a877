//! Facts about filtering sequences.

use vstd::prelude::*;

verus! {

/// Filtering one element more either adds that element or changes nothing.
pub proof fn lemma_filter_step<A>(s: Seq<A>, f: spec_fn(A) -> bool, i: int)
    requires
        0 <= i < s.len(),
    ensures
        s.take(i + 1).filter(f) == if f(s[i]) {
            s.take(i).filter(f).push(s[i])
        } else {
            s.take(i).filter(f)
        },
{
    reveal(Seq::filter);
    assert(s.take(i + 1).drop_last() =~= s.take(i));
    assert(s.take(i + 1).last() == s[i]);
}

/// A sequence without an element that passes the filter is filtered to
/// nothing.
pub proof fn lemma_filter_none<A>(s: Seq<A>, f: spec_fn(A) -> bool)
    requires
        forall|k: int| 0 <= k < s.len() ==> !f(#[trigger] s[k]),
    ensures
        s.filter(f) == Seq::<A>::empty(),
    decreases s.len(),
{
    reveal(Seq::filter);
    if s.len() > 0 {
        lemma_filter_none(s.drop_last(), f);
    }
}

/// A sequence with one element that passes the filter is filtered to that
/// element.
pub proof fn lemma_filter_one<A>(s: Seq<A>, f: spec_fn(A) -> bool, a: int)
    requires
        0 <= a < s.len(),
        forall|k: int| 0 <= k < s.len() ==> (f(#[trigger] s[k]) <==> k == a),
    ensures
        s.filter(f) == seq![s[a]],
    decreases s.len(),
{
    reveal(Seq::filter);
    let t = s.drop_last();
    if a == s.len() - 1 {
        lemma_filter_none(t, f);
        assert(Seq::<A>::empty().push(s[a]) =~= seq![s[a]]);
    } else {
        assert(t[a] == s[a]);
        lemma_filter_one(t, f, a);
    }
}

/// A sequence with two elements that pass the filter is filtered to those
/// two, in their order.
pub proof fn lemma_filter_two<A>(s: Seq<A>, f: spec_fn(A) -> bool, a: int, b: int)
    requires
        0 <= a < b < s.len(),
        forall|k: int| 0 <= k < s.len() ==> (f(#[trigger] s[k]) <==> (k == a || k == b)),
    ensures
        s.filter(f) == seq![s[a], s[b]],
    decreases s.len(),
{
    reveal(Seq::filter);
    let t = s.drop_last();
    if b == s.len() - 1 {
        assert(t[a] == s[a]);
        lemma_filter_one(t, f, a);
        assert(seq![s[a]].push(s[b]) =~= seq![s[a], s[b]]);
    } else {
        assert(t[a] == s[a] && t[b] == s[b]);
        lemma_filter_two(t, f, a, b);
    }
}

} // verus!
