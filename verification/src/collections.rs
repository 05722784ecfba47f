//! Collections that give a `Vec` the meaning of how it is used.
use vstd::prelude::*;

verus! {

/// A last-in first-out stack; its abstract value is the sequence of its
/// items, bottom first.
#[derive(PartialEq, Debug)]
pub struct Stack<T> {
    items: Vec<T>,
}

impl<T> View for Stack<T> {
    type V = Seq<T>;

    closed spec fn view(&self) -> Seq<T> {
        self.items@
    }
}

impl<T> Stack<T> {
    /// An empty stack.
    pub fn new() -> (s: Self)
        ensures
            s@ == Seq::<T>::empty(),
    {
        Stack { items: Vec::new() }
    }

    /// A stack that holds `value` alone.
    pub fn from(value: T) -> (s: Self)
        ensures
            s@ == seq![value],
    {
        let mut s: Stack<T> = Stack::new();
        s.push(value);
        s
    }

    /// Puts `value` on top.
    pub fn push(&mut self, value: T)
        ensures
            final(self)@ == old(self)@.push(value),
    {
        self.items.push(value);
    }

    /// Takes the top value off, or gives `None` when the stack is empty.
    pub fn pop(&mut self) -> (r: Option<T>)
        ensures
            old(self)@.len() == 0 ==> r is None && final(self)@ == old(self)@,
            old(self)@.len() > 0 ==> r == Some(old(self)@.last())
                && final(self)@ == old(self)@.drop_last(),
    {
        self.items.pop()
    }

    /// The top value, if any.
    pub fn top(&self) -> (r: Option<&T>)
        ensures
            self@.len() == 0 ==> r is None,
            self@.len() > 0 ==> r == Some(&self@.last()),
    {
        self.items.last()
    }

    /// A mutable reference to the top value, if any.
    pub fn top_mut(&mut self) -> (r: Option<&mut T>)
        ensures
            old(self)@.len() == 0 ==> r is None && final(self)@ == old(self)@,
            old(self)@.len() > 0 ==> r is Some && *r->0 == old(self)@.last()
                && final(self)@ == old(self)@.update(old(self)@.len() - 1, *final(r->0)),
    {
        self.items.last_mut()
    }

    /// The number of values on the stack.
    pub fn size(&self) -> (n: usize)
        ensures
            n == self@.len(),
    {
        self.items.len()
    }

    /// Whether the stack holds no value.
    pub fn is_empty(&self) -> (b: bool)
        ensures
            b == (self@.len() == 0),
    {
        self.items.is_empty()
    }

    /// An iterator over the values, bottom first.
    pub fn iter(&self) -> (it: std::slice::Iter<'_, T>)
        ensures
            vstd::std_specs::slice::into_iter_elts(it) == self@,
    {
        self.items.iter()
    }
}

/// Popping right after pushing `v` gives `v` back and leaves the stack as
/// it was; the stack grows by one on a push. This holds of each stack of
/// this library, whose `push` and `pop` are stated over the same sequence
/// operations.
pub proof fn lemma_pop_undoes_push<T>(s: Seq<T>, v: T)
    ensures
        s.push(v).len() == s.len() + 1,
        s.push(v).len() > 0,
        s.push(v).last() == v,
        s.push(v).drop_last() == s,
{
    assert(s.push(v).drop_last() =~= s);
}

} // verus!
