//! The stack itself: a slot buffer whose occupied region `[top, capacity)`
//! sits at the high end, so that pushing moves `top` toward slot 0.
use vstd::prelude::*;

use crate::growth::{
    cap_inc, grown_cap, lemma_grown_cap_bounds, lemma_grown_cap_idempotent, lemma_grown_cap_monotone,
    lemma_grown_cap_reachable,
};

verus! {

/// Why an operation on a stack could not be carried out.
#[derive(Debug, Clone, Copy, PartialEq, Eq, Structural)]
pub enum StackError {
    /// The capacity that the growth policy asks for would take more bytes
    /// than a single allocation may span.
    CapacityOverflow,
    /// An index past the end of the range that it addresses.
    OutOfRange,
}

/// The largest number of slots a buffer of `T` may have: its size in bytes
/// must not exceed `isize::MAX`.
pub open spec fn max_slots<T>() -> nat {
    let width = vstd::layout::size_of::<Option<T>>();
    if width == 0 {
        usize::MAX as nat
    } else {
        (isize::MAX as nat) / width
    }
}

fn slot_limit<T>() -> (r: usize)
    ensures
        r as nat == max_slots::<T>(),
{
    let width = core::mem::size_of::<Option<T>>();
    if width == 0 {
        usize::MAX
    } else {
        (isize::MAX as usize) / width
    }
}

/// The capacity that the growth policy reaches from `cap` for `needed`
/// slots, or `CapacityOverflow` where a buffer of that size could not exist.
fn checked_cap<T>(cap: usize, needed: usize) -> (r: Result<usize, StackError>)
    ensures
        r is Ok <==> grown_cap(cap as nat, needed as nat) <= max_slots::<T>(),
        r matches Ok(c) ==> c == grown_cap(cap as nat, needed as nat),
        r is Err ==> r == Err::<usize, StackError>(StackError::CapacityOverflow),
{
    let limit = slot_limit::<T>();
    match cap_inc(cap, needed) {
        Some(c) => {
            if c <= limit {
                Ok(c)
            } else {
                Err(StackError::CapacityOverflow)
            }
        },
        None => Err(StackError::CapacityOverflow),
    }
}

/// A buffer of `cap` free slots.
fn allocate<T>(cap: usize) -> (r: Vec<Option<T>>)
    ensures
        r.len() == cap,
        forall|i: int| 0 <= i < cap ==> (#[trigger] r@[i]) is None,
{
    let mut slots: Vec<Option<T>> = Vec::with_capacity(cap);
    while slots.len() < cap
        invariant
            slots.len() <= cap,
            forall|i: int| 0 <= i < slots.len() ==> (#[trigger] slots@[i]) is None,
        decreases cap - slots.len(),
    {
        slots.push(None);
    }
    slots
}

/// Copies the slots `src[start..end]` into `dst` so that they end just below
/// `dst_end`, walking from the high end down; returns where the copied run
/// starts in `dst`.
fn rmemcpy<T: Copy>(dst: &mut Vec<Option<T>>, dst_end: usize, src: &Vec<Option<T>>, start: usize, end: usize) -> (r: usize)
    requires
        start <= end <= src.len(),
        end - start <= dst_end <= old(dst).len(),
    ensures
        r == dst_end - (end - start),
        final(dst).len() == old(dst).len(),
        forall|i: int| r <= i < dst_end ==> #[trigger] final(dst)@[i] == src@[i - r + start],
        forall|i: int| 0 <= i < final(dst).len() && !(r <= i < dst_end) ==> #[trigger] final(dst)@[i] == old(dst)@[i],
{
    let mut d: usize = dst_end;
    let mut e: usize = end;
    while start < e
        invariant
            start <= e <= end <= src.len(),
            d == dst_end - (end - e),
            end - start <= dst_end <= dst.len(),
            dst.len() == old(dst).len(),
            forall|i: int| d <= i < dst_end ==> #[trigger] dst@[i] == src@[i - d + e],
            forall|i: int| 0 <= i < dst.len() && !(d <= i < dst_end) ==> #[trigger] dst@[i] == old(dst)@[i],
        decreases e - start,
    {
        e = e - 1;
        d = d - 1;
        dst[d] = src[e];
    }
    d
}

/// Stores `val` in slot `i`.
fn write_slot<T>(slots: &mut Vec<Option<T>>, i: usize, val: T)
    requires
        i < old(slots).len(),
    ensures
        final(slots)@ == old(slots)@.update(i as int, Some(val)),
    no_unwind
{
    slots[i] = Some(val);
}

/// A last-in-first-out stack of `T`.
///
/// The buffer `slots` has as many slots as the stack's capacity. The
/// occupied slots are `slots[top..]`; `slots[top]` holds the element pushed
/// last and the last slot the element pushed first. Slots below `top` are
/// free and their content is of no meaning.
pub struct Stack<T: Copy> {
    slots: Vec<Option<T>>,
    top: usize,
}

impl<T: Copy> View for Stack<T> {
    type V = Seq<T>;

    /// The elements from the bottom (pushed first) to the top (pushed last).
    closed spec fn view(&self) -> Seq<T> {
        Seq::new(
            (self.slots.len() - self.top) as nat,
            |j: int| self.slots@[self.slots.len() - 1 - j]->Some_0,
        )
    }
}

impl<T: Copy> Stack<T> {
    #[verifier::type_invariant]
    spec fn well_formed(self) -> bool {
        &&& self.top <= self.slots.len()
        &&& self.slots.len() <= max_slots::<T>()
        &&& grown_cap(0, self.slots.len() as nat) == self.slots.len()
        &&& forall|i: int| self.top <= i < self.slots.len() ==> (#[trigger] self.slots@[i]) is Some
    }

    /// The number of slots in the stack's buffer, occupied or not.
    pub closed spec fn spec_cap(self) -> nat {
        self.slots.len() as nat
    }

    /// An empty stack whose capacity is what the growth policy reaches from
    /// an empty buffer for `size` elements.
    pub fn new(size: usize) -> (r: Result<Self, StackError>)
        ensures
            r is Ok <==> grown_cap(0, size as nat) <= max_slots::<T>(),
            r matches Ok(s) ==> s@ == Seq::<T>::empty() && s.spec_cap() == grown_cap(0, size as nat),
            r is Err ==> r == Err::<Self, StackError>(StackError::CapacityOverflow),
    {
        match checked_cap::<T>(0, size) {
            Ok(cap) => {
                proof {
                    lemma_grown_cap_idempotent(0, size as nat);
                }
                let slots = allocate::<T>(cap);
                let s = Stack { slots, top: cap };
                assert(s@ =~= Seq::<T>::empty());
                Ok(s)
            },
            Err(e) => Err(e),
        }
    }

    /// The number of elements on the stack.
    pub fn size(&self) -> (r: usize)
        ensures
            r == self@.len(),
            r <= self.spec_cap(),
    {
        proof {
            use_type_invariant(self);
        }
        self.slots.len() - self.top
    }

    /// The number of slots in the stack's buffer.
    pub fn cap(&self) -> (r: usize)
        ensures
            r == self.spec_cap(),
    {
        self.slots.len()
    }

    /// Whether every slot of the current buffer is occupied, so that the
    /// next push has to grow it.
    pub fn full(&self) -> (r: bool)
        ensures
            r <==> self@.len() == self.spec_cap(),
    {
        proof {
            use_type_invariant(self);
        }
        self.top == 0
    }

    /// Whether the stack holds no element.
    pub fn empty(&self) -> (r: bool)
        ensures
            r <==> self@.len() == 0,
    {
        proof {
            use_type_invariant(self);
        }
        self.top == self.slots.len()
    }

    /// Moves the elements into a fresh buffer of `new_cap` slots, keeping
    /// them at its high end in the same order.
    fn realloc(&mut self, new_cap: usize)
        requires
            old(self).spec_cap() <= new_cap <= max_slots::<T>(),
            grown_cap(0, new_cap as nat) == new_cap,
        ensures
            final(self)@ == old(self)@,
            final(self).spec_cap() == new_cap,
    {
        proof {
            use_type_invariant(&*self);
        }
        let mut slots = allocate::<T>(new_cap);
        let top = rmemcpy(&mut slots, new_cap, &self.slots, self.top, self.slots.len());
        let grown = Stack { slots, top };
        assert(grown@ =~= self@);
        *self = grown;
    }

    /// Writes `val` into the free slot just below the top and makes it the
    /// new top.
    fn put_below_top(&mut self, val: T)
        requires
            old(self)@.len() < old(self).spec_cap(),
        ensures
            final(self)@ == old(self)@.push(val),
            final(self).spec_cap() == old(self).spec_cap(),
    {
        proof {
            use_type_invariant(&*self);
        }
        let t = self.top - 1;
        write_slot(&mut self.slots, t, val);
        self.top = t;
        assert(self@ =~= old(self)@.push(val));
    }

    /// Grows the buffer, by the growth policy, until it has room for
    /// `supposed_size` elements; leaves the stack as it is where that
    /// capacity could not exist.
    fn check_cap(&mut self, supposed_size: usize) -> (r: Result<(), StackError>)
        ensures
            final(self)@ == old(self)@,
            r is Ok <==> grown_cap(old(self).spec_cap(), supposed_size as nat) <= max_slots::<T>(),
            r is Ok ==> final(self).spec_cap() == grown_cap(old(self).spec_cap(), supposed_size as nat),
            r is Err ==> r == Err::<(), StackError>(StackError::CapacityOverflow)
                && *final(self) == *old(self),
    {
        proof {
            use_type_invariant(&*self);
        }
        let cap = self.slots.len();
        let new_cap = checked_cap::<T>(cap, supposed_size);
        match new_cap {
            Ok(new_cap) => {
                proof {
                    lemma_grown_cap_bounds(cap as nat, supposed_size as nat);
                }
                if new_cap > cap {
                    proof {
                        lemma_grown_cap_reachable(cap as nat, supposed_size as nat);
                    }
                    self.realloc(new_cap);
                }
                Ok(())
            },
            Err(e) => Err(e),
        }
    }

    /// Puts `val` on top of the stack, growing the buffer where it is full.
    pub fn push(&mut self, val: T) -> (r: Result<(), StackError>)
        ensures
            r is Ok <==> grown_cap(old(self).spec_cap(), old(self)@.len() + 1) <= max_slots::<T>(),
            r is Ok ==> final(self)@ == old(self)@.push(val)
                && final(self).spec_cap() == grown_cap(old(self).spec_cap(), old(self)@.len() + 1),
            r is Err ==> r == Err::<(), StackError>(StackError::CapacityOverflow)
                && *final(self) == *old(self),
    {
        proof {
            use_type_invariant(&*self);
        }
        let size = self.size();
        if size == usize::MAX {
            proof {
                lemma_grown_cap_bounds(self.slots.len() as nat, size as nat + 1);
            }
            return Err(StackError::CapacityOverflow);
        }
        match self.check_cap(size + 1) {
            Ok(()) => {},
            Err(e) => return Err(e),
        }
        proof {
            use_type_invariant(&*self);
            lemma_grown_cap_bounds(old(self).spec_cap(), size as nat + 1);
        }
        self.put_below_top(val);
        Ok(())
    }

    /// Puts the elements of `slice` on the stack in their order, as many
    /// pushes would: the last element of `slice` ends on top. The buffer
    /// grows at most once.
    pub fn push_slice(&mut self, slice: &[T]) -> (r: Result<(), StackError>)
        ensures
            r is Ok <==> grown_cap(old(self).spec_cap(), old(self)@.len() + slice@.len()) <= max_slots::<T>(),
            r is Ok ==> final(self)@ == old(self)@ + slice@
                && final(self).spec_cap() == grown_cap(old(self).spec_cap(), old(self)@.len() + slice@.len()),
            r is Err ==> r == Err::<(), StackError>(StackError::CapacityOverflow)
                && *final(self) == *old(self),
    {
        proof {
            use_type_invariant(&*self);
        }
        let size = self.size();
        let n = slice.len();
        if n > usize::MAX - size {
            proof {
                lemma_grown_cap_bounds(self.slots.len() as nat, size as nat + n as nat);
            }
            return Err(StackError::CapacityOverflow);
        }
        match self.check_cap(size + n) {
            Ok(()) => {},
            Err(e) => return Err(e),
        }
        proof {
            use_type_invariant(&*self);
            lemma_grown_cap_bounds(old(self).spec_cap(), size as nat + n as nat);
        }
        let ghost start = self@;
        let mut j: usize = 0;
        while j < n
            invariant
                j <= n == slice@.len(),
                self@.len() == size + j,
                size + n <= self.spec_cap(),
                self.spec_cap() == grown_cap(old(self).spec_cap(), old(self)@.len() + slice@.len()),
                self@ == start + slice@.subrange(0, j as int),
            decreases n - j,
        {
            proof {
                use_type_invariant(&*self);
            }
            self.put_below_top(slice[j]);
            proof {
                assert(slice@.subrange(0, j + 1) =~= slice@.subrange(0, j as int).push(slice@[j as int]));
            }
            j = j + 1;
        }
        assert(slice@.subrange(0, n as int) =~= slice@);
        Ok(())
    }

    /// A copy of the element on top, or `None` on an empty stack.
    pub fn top(&self) -> (r: Option<T>)
        ensures
            r == (if self@.len() == 0 { None } else { Some(self@.last()) }),
    {
        proof {
            use_type_invariant(self);
        }
        if self.top == self.slots.len() {
            None
        } else {
            self.slots[self.top]
        }
    }

    /// Takes the element on top off the stack; `None`, with the stack left
    /// as it is, where it is empty. The buffer never shrinks.
    pub fn pop(&mut self) -> (r: Option<T>)
        ensures
            old(self)@.len() == 0 ==> r is None && *final(self) == *old(self),
            old(self)@.len() > 0 ==> r == Some(old(self)@.last())
                && final(self)@ == old(self)@.drop_last()
                && final(self).spec_cap() == old(self).spec_cap(),
    {
        proof {
            use_type_invariant(&*self);
        }
        if self.top == self.slots.len() {
            None
        } else {
            let val = self.slots[self.top];
            self.top = self.top + 1;
            assert(self@ =~= old(self)@.drop_last());
            val
        }
    }

    /// Empties the stack, keeping its buffer.
    pub fn clear(&mut self)
        ensures
            final(self)@ == Seq::<T>::empty(),
            final(self).spec_cap() == old(self).spec_cap(),
    {
        proof {
            use_type_invariant(&*self);
        }
        self.top = self.slots.len();
        assert(self@ =~= Seq::<T>::empty());
    }

    /// The element `index` places below the top: index 0 is the top, index
    /// `size() - 1` the bottom. `OutOfRange` past the bottom.
    pub fn get(&self, index: usize) -> (r: Result<T, StackError>)
        ensures
            index < self@.len() ==> r == Ok::<T, StackError>(self@[self@.len() - 1 - index]),
            index >= self@.len() ==> r == Err::<T, StackError>(StackError::OutOfRange),
    {
        proof {
            use_type_invariant(self);
        }
        if index >= self.slots.len() - self.top {
            Err(StackError::OutOfRange)
        } else {
            Ok(self.slots[self.top + index].unwrap())
        }
    }

    /// Overwrites slot `slot` of the buffer, counted from its low end: slot
    /// 0 is the lowest slot, not the bottom of the stack. A slot below the
    /// occupied region is free, and writing it leaves the elements as they
    /// are; an occupied one is the element `capacity - 1 - slot` counted
    /// from the bottom. `OutOfRange` past the end of the buffer.
    pub fn set_slot(&mut self, slot: usize, val: T) -> (r: Result<(), StackError>)
        ensures
            slot >= old(self).spec_cap() ==> r == Err::<(), StackError>(StackError::OutOfRange)
                && *final(self) == *old(self),
            slot < old(self).spec_cap() ==> r is Ok
                && final(self).spec_cap() == old(self).spec_cap()
                && final(self)@ == (if slot + old(self)@.len() >= old(self).spec_cap() {
                    old(self)@.update(old(self).spec_cap() - 1 - slot, val)
                } else {
                    old(self)@
                }),
    {
        proof {
            use_type_invariant(&*self);
        }
        if slot >= self.slots.len() {
            return Err(StackError::OutOfRange);
        }
        write_slot(&mut self.slots, slot, val);
        proof {
            if slot + old(self)@.len() >= old(self).spec_cap() {
                assert(self@ =~= old(self)@.update(old(self).spec_cap() - 1 - slot, val));
            } else {
                assert(self@ =~= old(self)@);
            }
        }
        Ok(())
    }
}


impl<T: Copy> Stack<T> {
    /// A stack holding the elements of `arr`, pushed in their order: the
    /// last element of `arr` ends on top.
    pub fn from_array<const N: usize>(arr: [T; N]) -> (r: Result<Self, StackError>)
        ensures
            r is Ok <==> grown_cap(0, N as nat) <= max_slots::<T>(),
            r matches Ok(s) ==> s@ == arr@ && s.spec_cap() == grown_cap(0, N as nat),
            r is Err ==> r == Err::<Self, StackError>(StackError::CapacityOverflow),
    {
        let mut stack = Stack::<T>::default();
        match stack.push_slice(arr.as_slice()) {
            Ok(()) => {
                assert(Seq::<T>::empty() + arr@ =~= arr@);
                Ok(stack)
            },
            Err(e) => Err(e),
        }
    }

    /// A stack holding the elements of `vec`, pushed in their order: the
    /// last element of `vec` ends on top.
    pub fn from_vec(vec: Vec<T>) -> (r: Result<Self, StackError>)
        ensures
            r is Ok <==> grown_cap(0, vec@.len()) <= max_slots::<T>(),
            r matches Ok(s) ==> s@ == vec@ && s.spec_cap() == grown_cap(0, vec@.len()),
            r is Err ==> r == Err::<Self, StackError>(StackError::CapacityOverflow),
    {
        let mut stack = Stack::<T>::default();
        match stack.push_slice(vec.as_slice()) {
            Ok(()) => {
                assert(Seq::<T>::empty() + vec@ =~= vec@);
                Ok(stack)
            },
            Err(e) => Err(e),
        }
    }

    /// A traversal of the elements from the top down, in the order in which
    /// pops would hand them out.
    pub fn iter(&self) -> (r: StackIter<'_, T>)
        ensures
            r.remaining() == self@.reverse(),
    {
        StackIter::new(self)
    }
}

impl<T: Copy> Default for Stack<T> {
    /// An empty stack with no buffer.
    fn default() -> (r: Self)
        ensures
            r@ == Seq::<T>::empty(),
            r.spec_cap() == 0,
    {
        let s = Stack { slots: Vec::new(), top: 0 };
        assert(s@ =~= Seq::<T>::empty());
        s
    }
}

impl<T: Copy> Clone for Stack<T> {
    /// An independent stack with the same elements in a fresh buffer, sized
    /// by the growth policy for exactly those elements.
    fn clone(&self) -> (r: Self)
        ensures
            r@ == self@,
            r.spec_cap() == grown_cap(0, self@.len()),
    {
        proof {
            use_type_invariant(self);
            lemma_grown_cap_monotone(0, self@.len(), self.spec_cap());
            lemma_grown_cap_idempotent(0, self@.len());
            lemma_grown_cap_bounds(0, self@.len());
        }
        let size = self.slots.len() - self.top;
        let cap = cap_inc(0, size).unwrap();
        let mut slots = allocate::<T>(cap);
        let top = rmemcpy(&mut slots, cap, &self.slots, self.top, self.slots.len());
        let copy = Stack { slots, top };
        assert(copy@ =~= self@);
        copy
    }
}

/// A read-only traversal of a stack from its top down.
pub struct StackIter<'a, T: Copy> {
    stack: &'a Stack<T>,
    index: usize,
}

impl<'a, T: Copy> StackIter<'a, T> {
    #[verifier::type_invariant]
    spec fn well_formed(self) -> bool {
        self.index <= self.stack@.len()
    }

    /// The elements still to come, the next one first.
    pub closed spec fn remaining(self) -> Seq<T> {
        let items = self.stack@;
        Seq::new(
            (items.len() - self.index) as nat,
            |k: int| items[items.len() - 1 - self.index - k],
        )
    }

    /// A traversal of `stack` that has yielded nothing yet.
    pub fn new(stack: &'a Stack<T>) -> (r: Self)
        ensures
            r.remaining() == stack@.reverse(),
    {
        let r = StackIter { stack, index: 0 };
        assert(r.remaining() =~= stack@.reverse());
        r
    }

    /// The next element, or `None` once every element has been yielded.
    pub fn next(&mut self) -> (r: Option<&'a T>)
        ensures
            old(self).remaining().len() == 0 ==> r is None
                && final(self).remaining() == old(self).remaining(),
            old(self).remaining().len() > 0 ==> r == Some(&old(self).remaining()[0])
                && final(self).remaining() == old(self).remaining().drop_first(),
    {
        proof {
            use_type_invariant(&*self);
            use_type_invariant(self.stack);
        }
        let stack: &'a Stack<T> = self.stack;
        if self.index < stack.slots.len() - stack.top {
            let item: &'a Option<T> = &stack.slots[stack.top + self.index];
            self.index = self.index + 1;
            assert(self.remaining() =~= old(self).remaining().drop_first());
            item.as_ref()
        } else {
            None
        }
    }
}

} // verus!
