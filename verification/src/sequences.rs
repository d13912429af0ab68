//! Facts about sequences and small verified routines on vectors.

use vstd::prelude::*;

verus! {

/// A filtered sequence holds exactly the members of the sequence that meet
/// the predicate, and is no longer than the sequence.
pub proof fn lemma_filter_members<A>(s: Seq<A>, pred: spec_fn(A) -> bool)
    ensures
        forall|x: A| #[trigger] s.filter(pred).contains(x) <==> s.contains(x) && pred(x),
        s.filter(pred).len() <= s.len(),
    decreases s.len(),
{
    reveal(Seq::filter);
    if s.len() > 0 {
        let front = s.drop_last();
        let last = s.last();
        lemma_filter_members(front, pred);
        let sub = front.filter(pred);
        let out = s.filter(pred);
        assert(out == if pred(last) {
            sub.push(last)
        } else {
            sub
        });
        assert forall|x: A| #[trigger] out.contains(x) <==> s.contains(x) && pred(x) by {
            if out.contains(x) {
                let i = choose|i: int| 0 <= i < out.len() && out[i] == x;
                if pred(last) && i == out.len() - 1 {
                    assert(s[s.len() - 1] == x);
                } else {
                    assert(sub[i] == x);
                    assert(sub.contains(x));
                    let j = choose|j: int| 0 <= j < front.len() && front[j] == x;
                    assert(s[j] == x);
                }
            }
            if s.contains(x) && pred(x) {
                let j = choose|j: int| 0 <= j < s.len() && s[j] == x;
                if j == s.len() - 1 {
                    assert(out[out.len() - 1] == x);
                } else {
                    assert(front[j] == x);
                    assert(front.contains(x));
                    assert(sub.contains(x));
                    let i = choose|i: int| 0 <= i < sub.len() && sub[i] == x;
                    assert(out[i] == x);
                }
            }
        }
    }
}

/// Filtering a sequence extended by one element filters the sequence and
/// then keeps or drops that element.
pub proof fn lemma_filter_push<A>(s: Seq<A>, x: A, pred: spec_fn(A) -> bool)
    ensures
        s.push(x).filter(pred) == if pred(x) {
            s.filter(pred).push(x)
        } else {
            s.filter(pred)
        },
{
    reveal(Seq::filter);
    assert(s.push(x).drop_last() =~= s);
}

/// Filtering changes nothing in a sequence whose every member meets the
/// predicate.
pub proof fn lemma_filter_all<A>(s: Seq<A>, pred: spec_fn(A) -> bool)
    requires
        forall|i: int| 0 <= i < s.len() ==> pred(#[trigger] s[i]),
    ensures
        s.filter(pred) == s,
    decreases s.len(),
{
    reveal(Seq::filter);
    if s.len() > 0 {
        lemma_filter_all(s.drop_last(), pred);
        assert(s.drop_last().push(s.last()) =~= s);
    }
}

/// The predicate that holds of every value but `x`.
pub open spec fn other_than(x: usize) -> spec_fn(usize) -> bool {
    |y: usize| y != x
}

/// Whether `items` holds `x`.
pub fn holds(items: &Vec<usize>, x: usize) -> (found: bool)
    ensures
        found == items@.contains(x),
{
    let mut i: usize = 0;
    while i < items.len()
        invariant
            i <= items.len(),
            forall|j: int| 0 <= j < i ==> items@[j] != x,
        decreases items.len() - i,
    {
        if items[i] == x {
            return true;
        }
        i += 1;
    }
    false
}

/// Remove every occurrence of `x` from `items`, keeping the order of the rest.
pub fn discard(items: &mut Vec<usize>, x: usize)
    ensures
        final(items)@ == old(items)@.filter(other_than(x)),
{
    let ghost pred = other_than(x);
    let ghost before = items@;
    let mut kept: Vec<usize> = Vec::new();
    let mut i: usize = 0;
    proof {
        assert(before.take(0) =~= Seq::<usize>::empty());
        reveal(Seq::filter);
    }
    while i < items.len()
        invariant
            items@ == before,
            i <= items.len(),
            kept@ == before.take(i as int).filter(pred),
            pred == other_than(x),
        decreases items.len() - i,
    {
        let y: usize = items[i];
        proof {
            lemma_filter_push(before.take(i as int), y, pred);
            assert(before.take(i as int).push(y) =~= before.take(i + 1));
        }
        if y != x {
            kept.push(y);
        }
        i += 1;
    }
    proof {
        assert(before.take(i as int) =~= before);
    }
    *items = kept;
}

/// A copy of `items`.
pub fn copy_of<T: Copy>(items: &Vec<T>) -> (copy: Vec<T>)
    ensures
        copy@ == items@,
{
    let mut copy: Vec<T> = Vec::new();
    let mut i: usize = 0;
    while i < items.len()
        invariant
            i <= items.len(),
            copy@ == items@.take(i as int),
        decreases items.len() - i,
    {
        copy.push(items[i]);
        proof {
            assert(items@.take(i as int).push(items@[i as int]) =~= items@.take(i + 1));
        }
        i += 1;
    }
    proof {
        assert(items@.take(i as int) =~= items@);
    }
    copy
}

} // verus!
