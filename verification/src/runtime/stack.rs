//! The operand stack of the virtual machine.
use vstd::prelude::*;

verus! {

/// A last-in first-out stack; its abstract value is its items, bottom first.
#[derive(Debug)]
pub struct Stack<T> {
    data: Vec<T>,
}

impl<T> View for Stack<T> {
    type V = Seq<T>;

    closed spec fn view(&self) -> Seq<T> {
        self.data@
    }
}

impl<T> Stack<T> {
    /// An empty stack.
    pub fn new() -> (s: Self)
        ensures
            s@ == Seq::<T>::empty(),
    {
        Stack { data: Vec::new() }
    }

    /// Puts `value` on top.
    pub fn push(&mut self, value: T)
        ensures
            final(self)@ == old(self)@.push(value),
    {
        self.data.push(value);
    }

    /// Takes the top value off. The stack must not be empty.
    pub fn pop(&mut self) -> (v: T)
        requires
            old(self)@.len() > 0,
        ensures
            v == old(self)@.last(),
            final(self)@ == old(self)@.drop_last(),
    {
        self.data.pop().unwrap()
    }

    /// The top value, if any.
    pub fn top(&self) -> (r: Option<&T>)
        ensures
            self@.len() == 0 ==> r is None,
            self@.len() > 0 ==> r == Some(&self@.last()),
    {
        self.data.last()
    }

    /// The number of values on the stack.
    pub fn len(&self) -> (n: usize)
        ensures
            n == self@.len(),
    {
        self.data.len()
    }

    /// Keeps the `len` bottom values and drops the others; a stack no higher
    /// than `len` stays as it is.
    pub fn truncate(&mut self, len: usize)
        ensures
            len < old(self)@.len() ==> final(self)@ == old(self)@.subrange(0, len as int),
            len >= old(self)@.len() ==> final(self)@ == old(self)@,
    {
        self.data.truncate(len);
    }

    /// Puts the values of `items` on top, the first of them lowest.
    pub fn extend(&mut self, items: Vec<T>)
        ensures
            final(self)@ == old(self)@ + items@,
    {
        let mut items = items;
        self.data.append(&mut items);
    }

    /// The value at `index`, counted from the bottom.
    pub fn get(&self, index: usize) -> (v: &T)
        requires
            index < self@.len(),
        ensures
            *v == self@[index as int],
    {
        &self.data[index]
    }
}

} // verus!
