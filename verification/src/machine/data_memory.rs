use crate::translator::common::Address;
use vstd::prelude::*;

verus! {

/// Four words that the data memory stores and moves together.
pub type VectorWord = [u64; 4];

/// Memory of vector words, addressed by vector word.
pub struct DataMemory {
    pub data: Vec<VectorWord>,
}

impl DataMemory {
    /// A memory of `size` vector words, all zero.
    pub fn new(size: usize) -> (memory: Self)
        ensures
            memory.data@.len() == size,
            forall|i: int| 0 <= i < size ==> #[trigger] memory.data@[i]@ == seq![0u64, 0, 0, 0],
    {
        let mut data: Vec<VectorWord> = Vec::new();
        let mut i: usize = 0;
        while i < size
            invariant
                i <= size,
                data@.len() == i,
                forall|j: int| 0 <= j < i ==> #[trigger] data@[j]@ == seq![0u64, 0, 0, 0],
            decreases size - i,
        {
            data.push([0u64, 0, 0, 0]);
            i = i + 1;
        }
        Self { data }
    }

    /// The vector word at `address`, which must lie inside the memory.
    pub fn read(&self, address: Address) -> (word: VectorWord)
        requires
            address < self.data@.len(),
        ensures
            word == self.data@[address as int],
    {
        let len = self.data.len();
        assert(address < len);
        self.data[address as usize]
    }

    /// Stores `value` at `address`, which must lie inside the memory.
    pub fn write(&mut self, address: Address, value: VectorWord)
        requires
            address < old(self).data@.len(),
        ensures
            final(self).data@ == old(self).data@.update(address as int, value),
    {
        let len = self.data.len();
        assert(address < len);
        self.data.set(address as usize, value);
    }
}

/// The memory contents after a sequence of writes, each an address and a vector word,
/// applied in order.
pub open spec fn after_writes(contents: Seq<VectorWord>, writes: Seq<(int, VectorWord)>) -> Seq<
    VectorWord,
>
    decreases writes.len(),
{
    if writes.len() == 0 {
        contents
    } else {
        let last = writes.last();
        after_writes(contents, writes.drop_last()).update(last.0, last.1)
    }
}

/// The word that the last write to `address` among `writes` stored, if any.
pub open spec fn last_written(writes: Seq<(int, VectorWord)>, address: int) -> Option<VectorWord>
    decreases writes.len(),
{
    if writes.len() == 0 {
        None
    } else if writes.last().0 == address {
        Some(writes.last().1)
    } else {
        last_written(writes.drop_last(), address)
    }
}

/// After any number of writes inside the memory, a read gives what the last write to that
/// address stored, or the word that was there before where none wrote it.
pub proof fn lemma_read_after_writes(
    contents: Seq<VectorWord>,
    writes: Seq<(int, VectorWord)>,
    address: int,
)
    requires
        0 <= address < contents.len(),
        forall|k: int| 0 <= k < writes.len() ==> 0 <= #[trigger] writes[k].0 < contents.len(),
    ensures
        after_writes(contents, writes).len() == contents.len(),
        after_writes(contents, writes)[address] == match last_written(writes, address) {
            Some(word) => word,
            None => contents[address],
        },
    decreases writes.len(),
{
    if writes.len() > 0 {
        let rest = writes.drop_last();
        assert forall|k: int| 0 <= k < rest.len() implies 0 <= #[trigger] rest[k].0 < contents.len() by {
            assert(rest[k] == writes[k]);
        }
        assert(0 <= writes[writes.len() - 1].0 < contents.len());
        lemma_read_after_writes(contents, rest, address);
    }
}

} // verus!
