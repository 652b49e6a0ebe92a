//! The bounded operand stack: a last-in-first-out container with a fixed
//! capacity chosen at construction.
use vstd::prelude::*;

use crate::errors::VmError;

verus! {

/// A bounded stack. The view is the sequence of items, oldest first; the
/// length never exceeds the capacity.
pub struct Stack<T> {
    stack: Vec<T>,
    size: usize,
}

impl<T> View for Stack<T> {
    type V = Seq<T>;

    closed spec fn view(&self) -> Seq<T> {
        self.stack@
    }
}

impl<T> Stack<T> {
    /// The fixed capacity this stack was built with.
    pub closed spec fn capacity(&self) -> nat {
        self.size as nat
    }

    /// Well-formedness: the stack never holds more items than its capacity.
    pub closed spec fn wf(&self) -> bool {
        self.stack@.len() <= self.size
    }

    /// A well-formed stack never holds more items than its capacity.
    pub proof fn lemma_wf_len(&self)
        requires
            self.wf(),
        ensures
            self@.len() <= self.capacity(),
    {
    }

    /// An empty stack of the given capacity.
    pub fn new(stack_size: usize) -> (r: Stack<T>)
        ensures
            r@ =~= Seq::<T>::empty(),
            r.capacity() == stack_size,
            r.wf(),
    {
        Stack { stack: Vec::new(), size: stack_size }
    }

    /// Appends an item; a push onto a full stack is an overflow and
    /// leaves the stack unchanged.
    pub fn push(&mut self, item: T) -> (r: Result<(), VmError>)
        requires
            old(self).wf(),
        ensures
            final(self).wf(),
            final(self).capacity() == old(self).capacity(),
            old(self)@.len() < old(self).capacity() ==> r == Ok::<(), VmError>(())
                && final(self)@ == old(self)@.push(item),
            old(self)@.len() == old(self).capacity() ==> r == Err::<(), VmError>(
                VmError::StackOverflow,
            ) && final(self)@ == old(self)@,
    {
        if self.stack.len() >= self.size {
            return Err(VmError::StackOverflow);
        }
        self.stack.push(item);
        Ok(())
    }

    /// Removes and returns the top item; `None` signals underflow on an
    /// empty stack.
    pub fn pop(&mut self) -> (r: Option<T>)
        requires
            old(self).wf(),
        ensures
            final(self).wf(),
            final(self).capacity() == old(self).capacity(),
            match r {
                Some(v) => old(self)@.len() > 0 && v == old(self)@.last() && final(self)@ == old(
                    self,
                )@.drop_last(),
                None => old(self)@.len() == 0 && final(self)@ == old(self)@,
            },
    {
        self.stack.pop()
    }

    /// A read-only borrow of the top item; `None` signals underflow.
    pub fn peek(&self) -> (r: Option<&T>)
        ensures
            match r {
                Some(v) => self@.len() > 0 && *v == self@.last(),
                None => self@.len() == 0,
            },
    {
        if self.stack.len() == 0 {
            None
        } else {
            Some(&self.stack[self.stack.len() - 1])
        }
    }

    /// The number of items held.
    pub fn len(&self) -> (r: usize)
        ensures
            r == self@.len(),
    {
        self.stack.len()
    }

    /// Whether the stack holds nothing.
    pub fn is_empty(&self) -> (r: bool)
        ensures
            r == (self@.len() == 0),
    {
        self.stack.is_empty()
    }
}

} // verus!
