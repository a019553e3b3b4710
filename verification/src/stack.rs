use vstd::prelude::*;

use crate::error::Error;

verus! {

/// A fixed-capacity LIFO of return addresses: no growth, no reallocation.
/// The live entries are `data[0 .. sp]`, oldest first.
pub struct Stack<const SIZE: usize> {
    pub sp: usize,
    pub data: [usize; SIZE],
}

impl<const SIZE: usize> View for Stack<SIZE> {
    type V = Seq<usize>;

    /// The stack's contents, bottom of the stack first.
    open spec fn view(&self) -> Seq<usize> {
        self.data@.take(self.sp as int)
    }
}

impl<const SIZE: usize> Stack<SIZE> {
    /// The stack pointer never runs past the storage.
    pub open spec fn wf(self) -> bool {
        self.sp <= SIZE
    }

    /// An empty stack with zeroed storage.
    pub fn new() -> (s: Stack<SIZE>)
        ensures
            s.wf(),
            s@ == Seq::<usize>::empty(),
            s.sp == 0,
            forall|j: int| 0 <= j < SIZE ==> s.data@[j] == 0,
    {
        let s = Stack { sp: 0, data: [0usize; SIZE] };
        proof {
            assert(s@ =~= Seq::<usize>::empty());
        }
        s
    }

    /// Appends `value` on top; fails, changing nothing, exactly when the
    /// stack already holds `SIZE` entries.
    pub fn push(&mut self, value: usize) -> (r: Result<(), Error>)
        requires
            old(self).wf(),
        ensures
            final(self).wf(),
            old(self)@.len() < SIZE ==> r == Ok::<(), Error>(()) && final(self)@ == old(self)@.push(
                value,
            ),
            old(self)@.len() == SIZE ==> r == Err::<(), Error>(Error::StackOverflow) && *final(self)
                == *old(self),
    {
        if self.sp >= SIZE {
            return Err(Error::StackOverflow);
        }
        self.data[self.sp] = value;
        self.sp = self.sp + 1;
        proof {
            assert(self@ =~= old(self)@.push(value));
        }
        Ok(())
    }

    /// Removes and returns the top entry; fails, changing nothing, exactly
    /// when the stack is empty.
    pub fn pop(&mut self) -> (r: Result<usize, Error>)
        requires
            old(self).wf(),
        ensures
            final(self).wf(),
            old(self)@.len() > 0 ==> r == Ok::<usize, Error>(old(self)@.last()) && final(self)@
                == old(self)@.drop_last(),
            old(self)@.len() == 0 ==> r == Err::<usize, Error>(Error::StackUnderflow)
                && *final(self) == *old(self),
    {
        if self.sp == 0 {
            return Err(Error::StackUnderflow);
        }
        self.sp = self.sp - 1;
        proof {
            assert(self@ =~= old(self)@.drop_last());
        }
        Ok(self.data[self.sp])
    }

    /// Empties the stack and zeroes its storage.
    pub fn reset(&mut self)
        ensures
            final(self).wf(),
            final(self)@ == Seq::<usize>::empty(),
            final(self).sp == 0,
            forall|j: int| 0 <= j < SIZE ==> final(self).data@[j] == 0,
    {
        self.sp = 0;
        self.data = [0usize; SIZE];
        proof {
            assert(self@ =~= Seq::<usize>::empty());
        }
    }
}

/// Last in, first out: for any prior contents and any two values, pushing `a`
/// then `b` leaves `b` on top; popping it uncovers `a`; popping again restores
/// the prior contents.
pub proof fn lemma_stack_lifo(s: Seq<usize>, a: usize, b: usize)
    ensures
        s.push(a).push(b).last() == b,
        s.push(a).push(b).drop_last() == s.push(a),
        s.push(a).last() == a,
        s.push(a).drop_last() == s,
{
    assert(s.push(a).push(b).drop_last() =~= s.push(a));
    assert(s.push(a).drop_last() =~= s);
}

} // verus!
