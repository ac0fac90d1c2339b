use vstd::prelude::*;

verus! {

/// A last-in first-out store of words.
pub struct Stack {
    data: Vec<u64>,
}

impl View for Stack {
    type V = Seq<u64>;

    /// The stored words, oldest first.
    closed spec fn view(&self) -> Seq<u64> {
        self.data@
    }
}

impl Stack {
    pub fn new() -> (stack: Self)
        ensures
            stack@ == Seq::<u64>::empty(),
    {
        Self { data: Vec::new() }
    }

    pub fn push(&mut self, value: u64)
        ensures
            final(self)@ == old(self)@.push(value),
    {
        self.data.push(value);
    }

    /// Removes and returns the newest word; the stack must not be empty.
    pub fn pop(&mut self) -> (value: u64)
        requires
            old(self)@.len() > 0,
        ensures
            value == old(self)@.last(),
            final(self)@ == old(self)@.drop_last(),
    {
        self.data.pop().unwrap()
    }
}

/// Popping right after a push gives back the pushed word and the stack as it was.
pub proof fn lemma_pop_after_push(stack: Seq<u64>, value: u64)
    ensures
        stack.push(value).last() == value,
        stack.push(value).drop_last() == stack,
{
    assert(stack.push(value).drop_last() =~= stack);
}

} // verus!
