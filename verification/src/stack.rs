//! A minimal last-in first-out stack over a `Vec`.
use vstd::prelude::*;

verus! {

/// A stack whose abstract value is the sequence of its items, bottom first.
pub struct Stack<T> {
    items: Vec<T>,
}

impl<T> View for Stack<T> {
    type V = Seq<T>;

    closed spec fn view(&self) -> Seq<T> {
        self.items@
    }
}

impl<T> Stack<T> {
    /// An empty stack.
    pub fn new() -> (s: Self)
        ensures
            s@ == Seq::<T>::empty(),
    {
        Stack { items: Vec::new() }
    }

    /// Puts `value` on top.
    pub fn push(&mut self, value: T)
        ensures
            final(self)@ == old(self)@.push(value),
    {
        self.items.push(value);
    }

    /// Takes the top value off, or gives `None` when the stack is empty.
    pub fn pop(&mut self) -> (r: Option<T>)
        ensures
            old(self)@.len() == 0 ==> r is None && final(self)@ == old(self)@,
            old(self)@.len() > 0 ==> r == Some(old(self)@.last())
                && final(self)@ == old(self)@.drop_last(),
    {
        self.items.pop()
    }

    /// The top value, if any.
    pub fn top(&self) -> (r: Option<&T>)
        ensures
            self@.len() == 0 ==> r is None,
            self@.len() > 0 ==> r == Some(&self@.last()),
    {
        self.items.last()
    }

    /// The number of values on the stack.
    pub fn size(&self) -> (n: usize)
        ensures
            n == self@.len(),
    {
        self.items.len()
    }
}

/// A call on a stack: `Push` of a value, or `Pop`.
pub enum StackOp<T> {
    Push(T),
    Pop,
}

/// The items of a stack with items `s` after the calls `ops`, as `push`
/// and `pop` state them.
pub open spec fn after_ops<T>(s: Seq<T>, ops: Seq<StackOp<T>>) -> Seq<T>
    decreases ops.len(),
{
    if ops.len() == 0 {
        s
    } else {
        let t = after_ops(s, ops.drop_last());
        match ops.last() {
            StackOp::Push(v) => t.push(v),
            StackOp::Pop => if t.len() > 0 { t.drop_last() } else { t },
        }
    }
}

/// The number of `Push` calls in `ops`.
pub open spec fn push_count<T>(ops: Seq<StackOp<T>>) -> nat
    decreases ops.len(),
{
    if ops.len() == 0 {
        0
    } else {
        push_count(ops.drop_last()) + if ops.last() is Push { 1nat } else { 0nat }
    }
}

/// The number of `Pop` calls in `ops` that gave a value, from items `s`.
pub open spec fn taken_count<T>(s: Seq<T>, ops: Seq<StackOp<T>>) -> nat
    decreases ops.len(),
{
    if ops.len() == 0 {
        0
    } else {
        taken_count(s, ops.drop_last()) + if ops.last() is Pop && after_ops(s, ops.drop_last()).len() > 0 { 1nat } else { 0nat }
    }
}

/// The size of a stack made by `new` and then the calls `ops` is the number
/// of pushes less the number of pops that gave a value.
pub proof fn lemma_size_counts<T>(ops: Seq<StackOp<T>>)
    ensures
        after_ops(Seq::<T>::empty(), ops).len() + taken_count(Seq::<T>::empty(), ops) == push_count(ops),
    decreases ops.len(),
{
    if ops.len() > 0 {
        lemma_size_counts(ops.drop_last());
    }
}

} // verus!
