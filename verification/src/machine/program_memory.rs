use crate::translator::common::Address;
use vstd::prelude::*;

verus! {

/// Word-addressed memory that holds the instructions of a program.
pub struct ProgramMemory {
    pub data: Vec<u32>,
}

impl ProgramMemory {
    /// A memory of `size` words, all zero.
    pub fn new(size: usize) -> (memory: Self)
        ensures
            memory.data@ == Seq::new(size as nat, |i: int| 0u32),
    {
        let mut data: Vec<u32> = Vec::new();
        let mut i: usize = 0;
        while i < size
            invariant
                i <= size,
                data@ == Seq::new(i as nat, |j: int| 0u32),
            decreases size - i,
        {
            data.push(0);
            i = i + 1;
        }
        Self { data }
    }

    /// The word at `address`, which must lie inside the memory.
    pub fn read(&self, address: Address) -> (word: u32)
        requires
            address < self.data@.len(),
        ensures
            word == self.data@[address as int],
    {
        let len = self.data.len();
        assert(address < len);
        self.data[address as usize]
    }

    /// Stores `value` at `address`, which must lie inside the memory.
    pub fn write(&mut self, address: Address, value: u32)
        requires
            address < old(self).data@.len(),
        ensures
            final(self).data@ == old(self).data@.update(address as int, value),
    {
        let len = self.data.len();
        assert(address < len);
        self.data.set(address as usize, value);
    }
}

} // verus!
