//! The operand stack: an ordered last-in-first-out sequence of words.

use vstd::prelude::*;
use vstd::pervasive::VecAdditionalExecFns;

use crate::error::VmError;
use crate::word::Word;

verus! {

/// The operand stack. Words are pushed and popped at the tail (the "top");
/// its view is the sequence of words it holds, bottom first. The depth is
/// unbounded; only taking more words than are present is a fault.
#[derive(Debug)]
pub struct Stack {
    inner: Vec<Word>,
}

impl View for Stack {
    type V = Seq<Word>;

    closed spec fn view(&self) -> Seq<Word> {
        self.inner@
    }
}

impl Stack {
    /// The values of the stack's words, bottom first.
    pub open spec fn vals(&self) -> Seq<nat> {
        Seq::new(self@.len(), |i: int| self@[i]@)
    }

    /// A fresh, empty stack.
    pub fn new() -> (r: Stack)
        ensures
            r@ == Seq::<Word>::empty(),
    {
        Stack { inner: Vec::new() }
    }

    /// The number of words on the stack.
    pub fn len(&self) -> (r: usize)
        ensures
            r == self@.len(),
    {
        self.inner.len()
    }

    /// Push a word on top of the stack; this always succeeds.
    pub fn push(&mut self, item: Word)
        ensures
            final(self)@ == old(self)@.push(item),
    {
        self.inner.push(item);
    }

    /// Remove and return the top word; on an empty stack this is a stack
    /// underflow and the stack is left as it was.
    pub fn pop(&mut self) -> (r: Result<Word, VmError>)
        ensures
            old(self)@.len() == 0 ==> r == Result::<Word, VmError>::Err(VmError::StackUnderflow)
                && final(self)@ == old(self)@,
            old(self)@.len() > 0 ==> r == Result::<Word, VmError>::Ok(old(self)@.last())
                && final(self)@ == old(self)@.drop_last(),
    {
        match self.inner.pop() {
            Some(w) => Ok(w),
            None => Err(VmError::StackUnderflow),
        }
    }

    /// Return, without removing it, the `n`-th word from the top, where 1
    /// names the top itself; a depth below `n`, or `n` of zero, is a stack
    /// underflow.
    pub fn peek(&self, n: usize) -> (r: Result<Word, VmError>)
        ensures
            1 <= n <= self@.len() ==> r == Result::<Word, VmError>::Ok(
                self@[self@.len() - n],
            ),
            !(1 <= n <= self@.len()) ==> r == Result::<Word, VmError>::Err(
                VmError::StackUnderflow,
            ),
    {
        if 1 <= n && n <= self.inner.len() {
            Ok(self.inner[self.inner.len() - n])
        } else {
            Err(VmError::StackUnderflow)
        }
    }

    /// Exchange the top word with the word `n` positions below it; a depth
    /// of `n` or less is a stack underflow and leaves the stack as it was.
    pub fn swap(&mut self, n: usize) -> (r: Result<(), VmError>)
        ensures
            n < old(self)@.len() ==> r == Result::<(), VmError>::Ok(()) && final(self)@ == old(
                self,
            )@.update(old(self)@.len() - 1, old(self)@[old(self)@.len() - 1 - n]).update(
                old(self)@.len() - 1 - n,
                old(self)@.last(),
            ),
            n >= old(self)@.len() ==> r == Result::<(), VmError>::Err(VmError::StackUnderflow)
                && final(self)@ == old(self)@,
    {
        let len = self.inner.len();
        if n < len {
            let top = self.inner[len - 1];
            let other = self.inner[len - 1 - n];
            self.inner.set(len - 1, other);
            self.inner.set(len - 1 - n, top);
            Ok(())
        } else {
            Err(VmError::StackUnderflow)
        }
    }

    /// The stack's words as a read-only slice, bottom first.
    pub fn dump(&self) -> (r: &[Word])
        ensures
            r@ == self@,
    {
        self.inner.as_slice()
    }
}

impl PartialEq for Stack {
    /// Two stacks are equal when they hold the same words in the same order.
    fn eq(&self, other: &Stack) -> (r: bool) {
        if self.inner.len() != other.inner.len() {
            return false;
        }
        let mut i: usize = 0;
        while i < self.inner.len()
            invariant
                i <= self.inner.len(),
                self.inner.len() == other.inner.len(),
                forall|j: int| 0 <= j < i ==> self.inner@[j] == other.inner@[j],
            decreases self.inner.len() - i,
        {
            if self.inner[i] != other.inner[i] {
                return false;
            }
            i += 1;
        }
        proof {
            assert(self@ =~= other@);
        }
        true
    }
}

impl vstd::std_specs::cmp::PartialEqSpecImpl for Stack {
    open spec fn obeys_eq_spec() -> bool {
        true
    }

    open spec fn eq_spec(&self, other: &Stack) -> bool {
        self@ == other@
    }
}

} // verus!
