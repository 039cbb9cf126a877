//! The order of texts: character by character, as in a dictionary.

use vstd::prelude::*;

verus! {

/// How one text stands to another.
#[derive(Clone, Copy, Debug, PartialEq, Eq, Structural)]
pub enum Order {
    Less,
    Equal,
    Greater,
}

/// The two texts are the same up to `i`, and at `i` one of them ends or
/// they differ.
pub open spec fn parts_at(a: Seq<char>, b: Seq<char>, i: int) -> bool {
    &&& 0 <= i <= a.len() && i <= b.len()
    &&& forall|k: int| 0 <= k < i ==> a[k] == b[k]
    &&& i == a.len() || i == b.len() || a[i] != b[i]
}

/// What the place where two texts part says about their order: the one
/// that ends there comes first; else the one with the lower character.
pub open spec fn order_at(a: Seq<char>, b: Seq<char>, i: int) -> Order {
    if i == a.len() && i == b.len() {
        Order::Equal
    } else if i == a.len() {
        Order::Less
    } else if i == b.len() {
        Order::Greater
    } else if a[i] < b[i] {
        Order::Less
    } else {
        Order::Greater
    }
}

/// How `a` stands to `b`, as the place where they part says.
pub open spec fn order_of(a: Seq<char>, b: Seq<char>) -> Order {
    order_at(a, b, choose|i: int| parts_at(a, b, i))
}

/// Two texts part at one place only.
pub proof fn lemma_parts_once(a: Seq<char>, b: Seq<char>, i: int)
    requires
        parts_at(a, b, i),
    ensures
        order_of(a, b) == order_at(a, b, i),
{
    let c = choose|c: int| parts_at(a, b, c);
    if c < i {
        assert(a[c] == b[c]);
    } else if i < c {
        assert(a[i] == b[i]);
    }
}

/// Texts are equal in this order exactly when they are the same.
pub proof fn lemma_equal_is_same(a: Seq<char>, b: Seq<char>)
    ensures
        order_of(a, b) == Order::Equal <==> a == b,
{
    if a == b {
        assert(parts_at(a, b, a.len() as int));
        lemma_parts_once(a, b, a.len() as int);
    }
    if order_of(a, b) == Order::Equal {
        lemma_parts_exist(a, b, 0);
        let c = choose|c: int| parts_at(a, b, c);
        assert(a =~= b);
    }
}

/// Two texts part somewhere.
pub proof fn lemma_parts_exist(a: Seq<char>, b: Seq<char>, from: int)
    requires
        0 <= from <= a.len(),
        from <= b.len(),
        forall|k: int| 0 <= k < from ==> a[k] == b[k],
    ensures
        exists|i: int| parts_at(a, b, i),
    decreases a.len() - from,
{
    if from == a.len() || from == b.len() || a[from] != b[from] {
        assert(parts_at(a, b, from));
    } else {
        lemma_parts_exist(a, b, from + 1);
    }
}

/// Turning two texts round turns their order round.
pub proof fn lemma_order_turns(a: Seq<char>, b: Seq<char>)
    ensures
        order_of(a, b) == Order::Less <==> order_of(b, a) == Order::Greater,
        order_of(a, b) == Order::Equal <==> order_of(b, a) == Order::Equal,
{
    lemma_parts_exist(a, b, 0);
    let c = choose|c: int| parts_at(a, b, c);
    assert(parts_at(b, a, c));
    lemma_parts_once(b, a, c);
}

/// How `a` stands to `b`.
pub fn compare_texts(a: &Vec<char>, b: &Vec<char>) -> (r: Order)
    ensures
        r == order_of(a@, b@),
{
    let mut i: usize = 0;
    while i < a.len() && i < b.len()
        invariant
            i <= a.len(),
            i <= b.len(),
            forall|k: int| 0 <= k < i ==> a@[k] == b@[k],
        decreases a.len() - i,
    {
        if a[i] != b[i] {
            proof {
                lemma_parts_once(a@, b@, i as int);
            }
            return if a[i] < b[i] {
                Order::Less
            } else {
                Order::Greater
            };
        }
        i += 1;
    }
    proof {
        lemma_parts_once(a@, b@, i as int);
    }
    if i == a.len() && i == b.len() {
        Order::Equal
    } else if i == a.len() {
        Order::Less
    } else {
        Order::Greater
    }
}

} // verus!
