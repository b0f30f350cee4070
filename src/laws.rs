//! Laws that relate several operations of the stack, stated over the
//! sequence model that the operations' contracts use: `push` appends to the
//! sequence, `pop` hands out its last element and drops it.
use vstd::prelude::*;

use crate::stack::{Stack, StackIter};

verus! {

/// The sequence after pushing each element of `vals` in turn onto `s`.
pub open spec fn pushed_all<T>(s: Seq<T>, vals: Seq<T>) -> Seq<T>
    decreases vals.len(),
{
    if vals.len() == 0 {
        s
    } else {
        pushed_all(s, vals.drop_last()).push(vals.last())
    }
}

/// The values that `n` pops hand out from `s`, in the order they come.
pub open spec fn popped<T>(s: Seq<T>, n: nat) -> Seq<T>
    decreases n,
{
    if n == 0 || s.len() == 0 {
        Seq::empty()
    } else {
        seq![s.last()] + popped(s.drop_last(), (n - 1) as nat)
    }
}

/// The sequence left after `n` pops from `s`.
pub open spec fn after_pops<T>(s: Seq<T>, n: nat) -> Seq<T>
    decreases n,
{
    if n == 0 || s.len() == 0 {
        s
    } else {
        after_pops(s.drop_last(), (n - 1) as nat)
    }
}

/// Pushing the elements of `vals` one at a time appends them, which is what
/// a bulk push does.
pub proof fn lemma_pushed_all_appends<T>(s: Seq<T>, vals: Seq<T>)
    ensures
        pushed_all(s, vals) == s + vals,
    decreases vals.len(),
{
    if vals.len() > 0 {
        lemma_pushed_all_appends(s, vals.drop_last());
        assert(s + vals =~= (s + vals.drop_last()).push(vals.last()));
    }
}

/// Popping as many elements as were appended to `s` hands them out last one
/// first and leaves `s`.
pub proof fn lemma_pop_appended<T>(s: Seq<T>, vals: Seq<T>)
    ensures
        popped(s + vals, vals.len()) == vals.reverse(),
        after_pops(s + vals, vals.len()) == s,
    decreases vals.len(),
{
    if vals.len() == 0 {
        assert(s + vals =~= s);
    } else {
        let rest = vals.drop_last();
        assert((s + vals).drop_last() =~= s + rest);
        assert((s + vals).last() == vals.last());
        lemma_pop_appended(s, rest);
        assert(seq![vals.last()] + rest.reverse() =~= vals.reverse());
    }
}

/// Pushes followed by as many pops: the pops hand out the pushed values in
/// exactly the reverse order and leave the stack as it was before.
pub proof fn lemma_lifo<T>(s: Seq<T>, vals: Seq<T>)
    ensures
        popped(pushed_all(s, vals), vals.len()) == vals.reverse(),
        after_pops(pushed_all(s, vals), vals.len()) == s,
{
    lemma_pushed_all_appends(s, vals);
    lemma_pop_appended(s, vals);
}

/// A push followed by a pop hands back the pushed value and leaves the size
/// and the top as they were.
pub proof fn lemma_push_pop_inverse<T>(s: Seq<T>, v: T)
    ensures
        s.push(v).last() == v,
        s.push(v).drop_last() == s,
        s.push(v).drop_last().len() == s.len(),
{
    assert(s.push(v).drop_last() =~= s);
}

/// A bulk push of `vals` followed by `vals.len()` pops hands out `vals` last
/// element first and leaves the stack as it was before.
pub proof fn lemma_push_slice_then_pops<T>(s: Seq<T>, vals: Seq<T>)
    ensures
        popped(s + vals, vals.len()) == vals.reverse(),
        after_pops(s + vals, vals.len()) == s,
{
    lemma_pop_appended(s, vals);
}

/// A clone and its original have the same size and hand out the same values
/// under any number of pops.
pub proof fn lemma_clone_same_pops<T: Copy>(orig: &Stack<T>, copy: &Stack<T>, n: nat)
    requires
        copy@ == orig@,
    ensures
        copy@.len() == orig@.len(),
        popped(copy@, n) == popped(orig@, n),
        after_pops(copy@, n) == after_pops(orig@, n),
{
}

/// A traversal of an empty stack, as `clear` leaves it, yields nothing.
pub proof fn lemma_cleared_traversal_empty<T: Copy>(stack: &Stack<T>, it: &StackIter<'_, T>)
    requires
        stack@ == Seq::<T>::empty(),
        it.remaining() == stack@.reverse(),
    ensures
        it.remaining().len() == 0,
{
}

} // verus!
