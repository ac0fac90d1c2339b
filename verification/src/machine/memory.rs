use crate::translator::common::Address;
use vstd::prelude::*;

verus! {

/// Byte-addressed memory that stores words most significant byte first.
pub struct Memory {
    data: Vec<u8>,
}

/// The number held by the four bytes at `address`, most significant first.
pub open spec fn big_endian_u32(bytes: Seq<u8>, address: int) -> int {
    bytes[address] * 0x100_0000 + bytes[address + 1] * 0x1_0000 + bytes[address + 2] * 0x100
        + bytes[address + 3]
}

/// The number held by the eight bytes at `address`, most significant first.
pub open spec fn big_endian_u64(bytes: Seq<u8>, address: int) -> int {
    big_endian_u32(bytes, address) * 0x1_0000_0000 + big_endian_u32(bytes, address + 4)
}

/// Byte `index` of the `width`-byte big-endian encoding of `value`.
pub open spec fn big_endian_byte(value: int, width: int, index: int) -> u8 {
    ((value / (byte_weight((width - 1 - index) as nat) as int)) % 256) as u8
}

/// `bytes` with the `width`-byte big-endian encoding of `value` stored at `address`.
pub open spec fn stored(bytes: Seq<u8>, address: int, value: int, width: int) -> Seq<u8> {
    Seq::new(
        bytes.len(),
        |i: int|
            if address <= i < address + width {
                big_endian_byte(value, width, i - address)
            } else {
                bytes[i]
            },
    )
}

impl View for Memory {
    type V = Seq<u8>;

    closed spec fn view(&self) -> Seq<u8> {
        self.data@
    }
}

/// 256 raised to `k`: the weight of the byte `k` places from the least significant one.
pub open spec fn byte_weight(k: nat) -> nat
    decreases k,
{
    if k == 0 {
        1
    } else {
        256 * byte_weight((k - 1) as nat)
    }
}

proof fn lemma_pow256()
    ensures
        byte_weight(0) == 1,
        byte_weight(1) == 0x100,
        byte_weight(2) == 0x1_0000,
        byte_weight(3) == 0x100_0000,
        byte_weight(4) == 0x1_0000_0000,
        byte_weight(5) == 0x100_0000_0000,
        byte_weight(6) == 0x1_0000_0000_0000,
        byte_weight(7) == 0x100_0000_0000_0000,
{
    reveal_with_fuel(byte_weight, 8);
}

proof fn lemma_byte_of_u32(v: u32)
    ensures
        ((v >> 24u32) & 0xff) as u8 == big_endian_byte(v as int, 4, 0),
        ((v >> 16u32) & 0xff) as u8 == big_endian_byte(v as int, 4, 1),
        ((v >> 8u32) & 0xff) as u8 == big_endian_byte(v as int, 4, 2),
        (v & 0xff) as u8 == big_endian_byte(v as int, 4, 3),
{
    lemma_pow256();
    assert((v >> 24u32) & 0xff == (v / 0x100_0000) % 256) by (bit_vector);
    assert((v >> 16u32) & 0xff == (v / 0x1_0000) % 256) by (bit_vector);
    assert((v >> 8u32) & 0xff == (v / 0x100) % 256) by (bit_vector);
    assert(v & 0xff == (v / 1) % 256) by (bit_vector);
}

proof fn lemma_byte_of_u64(v: u64)
    ensures
        forall|k: u64|
            k < 8 ==> (#[trigger] ((v >> ((7 - k) * 8)) & 0xff)) as u8 == big_endian_byte(
                v as int,
                8,
                k as int,
            ),
{
    lemma_pow256();
    assert forall|k: u64| k < 8 implies (#[trigger] ((v >> ((7 - k) * 8)) & 0xff)) as u8
        == big_endian_byte(v as int, 8, k as int) by {
        if k == 0 {
            assert((v >> 56u64) & 0xff == (v / 0x100_0000_0000_0000) % 256) by (bit_vector);
        } else if k == 1 {
            assert((v >> 48u64) & 0xff == (v / 0x1_0000_0000_0000) % 256) by (bit_vector);
        } else if k == 2 {
            assert((v >> 40u64) & 0xff == (v / 0x100_0000_0000) % 256) by (bit_vector);
        } else if k == 3 {
            assert((v >> 32u64) & 0xff == (v / 0x1_0000_0000) % 256) by (bit_vector);
        } else if k == 4 {
            assert((v >> 24u64) & 0xff == (v / 0x100_0000) % 256) by (bit_vector);
        } else if k == 5 {
            assert((v >> 16u64) & 0xff == (v / 0x1_0000) % 256) by (bit_vector);
        } else if k == 6 {
            assert((v >> 8u64) & 0xff == (v / 0x100) % 256) by (bit_vector);
        } else {
            assert((v >> 0u64) & 0xff == (v / 1) % 256) by (bit_vector);
        }
    }
}

/// Reading four bytes back after storing a word there gives the word.
pub proof fn lemma_read_after_write_u32(bytes: Seq<u8>, address: int, value: u32)
    requires
        0 <= address,
        address + 4 <= bytes.len(),
    ensures
        big_endian_u32(stored(bytes, address, value as int, 4), address) == value,
{
    lemma_byte_of_u32(value);
    let s = stored(bytes, address, value as int, 4);
    assert((value >> 24u32) & 0xff < 256 && (value >> 16u32) & 0xff < 256 && (value >> 8u32) & 0xff
        < 256 && value & 0xff < 256) by (bit_vector);
    assert(s[address] == ((value >> 24u32) & 0xff) as u8);
    assert(s[address + 1] == ((value >> 16u32) & 0xff) as u8);
    assert(s[address + 2] == ((value >> 8u32) & 0xff) as u8);
    assert(s[address + 3] == (value & 0xff) as u8);
    assert(((value >> 24u32) & 0xff) * 0x100_0000 + ((value >> 16u32) & 0xff) * 0x1_0000 + ((value
        >> 8u32) & 0xff) * 0x100 + (value & 0xff) == value) by (bit_vector);
}

/// Reading eight bytes back after storing a word there gives the word.
pub proof fn lemma_read_after_write_u64(bytes: Seq<u8>, address: int, value: u64)
    requires
        0 <= address,
        address + 8 <= bytes.len(),
    ensures
        big_endian_u64(stored(bytes, address, value as int, 8), address) == value,
{
    lemma_byte_of_u64(value);
    let s = stored(bytes, address, value as int, 8);
    assert(forall|k: u64| #![trigger (value >> k)] (value >> k) & 0xff < 256) by (bit_vector);
    assert(s[address] == ((value >> ((7 - 0u64) * 8)) & 0xff) as u8);
    assert(s[address + 1] == ((value >> ((7 - 1u64) * 8)) & 0xff) as u8);
    assert(s[address + 2] == ((value >> ((7 - 2u64) * 8)) & 0xff) as u8);
    assert(s[address + 3] == ((value >> ((7 - 3u64) * 8)) & 0xff) as u8);
    assert(s[address + 4] == ((value >> ((7 - 4u64) * 8)) & 0xff) as u8);
    assert(s[address + 5] == ((value >> ((7 - 5u64) * 8)) & 0xff) as u8);
    assert(s[address + 6] == ((value >> ((7 - 6u64) * 8)) & 0xff) as u8);
    assert(s[address + 7] == ((value >> ((7 - 7u64) * 8)) & 0xff) as u8);
    assert(((value >> 56u64) & 0xff) * 0x100_0000_0000_0000 + ((value >> 48u64) & 0xff)
        * 0x1_0000_0000_0000 + ((value >> 40u64) & 0xff) * 0x100_0000_0000 + ((value >> 32u64)
        & 0xff) * 0x1_0000_0000 + ((value >> 24u64) & 0xff) * 0x100_0000 + ((value >> 16u64)
        & 0xff) * 0x1_0000 + ((value >> 8u64) & 0xff) * 0x100 + ((value >> 0u64) & 0xff)
        == value) by (bit_vector);
}

impl Memory {
    /// A memory of `size` bytes, all zero.
    pub fn new(size: usize) -> (memory: Self)
        ensures
            memory@ == Seq::new(size as nat, |i: int| 0u8),
    {
        let mut data: Vec<u8> = Vec::new();
        let mut i: usize = 0;
        while i < size
            invariant
                i <= size,
                data@ == Seq::new(i as nat, |j: int| 0u8),
            decreases size - i,
        {
            data.push(0);
            i = i + 1;
        }
        Self { data }
    }

    /// The four bytes at `address` read as one big-endian word; they must lie inside the memory.
    pub fn read_u32(&self, address: Address) -> (word: u32)
        requires
            address + 4 <= self@.len(),
        ensures
            word == big_endian_u32(self@, address as int),
    {
        let len = self.data.len();
        assert(address + 4 <= len);
        let a = address as usize;
        let mut result: u32 = 0;
        let mut i: usize = 0;
        while i < 4
            invariant
                i <= 4,
                a + 4 <= self@.len(),
                len == self@.len(),
                result as int == (if i == 0 {
                    0
                } else if i == 1 {
                    self@[a as int] as int
                } else if i == 2 {
                    self@[a as int] * 0x100 + self@[a + 1]
                } else if i == 3 {
                    self@[a as int] * 0x1_0000 + self@[a + 1] * 0x100 + self@[a + 2]
                } else {
                    big_endian_u32(self@, a as int)
                }),
            decreases 4 - i,
        {
            result = result * 256 + self.data[a + i] as u32;
            i = i + 1;
        }
        result
    }

    /// The eight bytes at `address` read as one big-endian word; they must lie inside the memory.
    pub fn read_u64(&self, address: Address) -> (word: u64)
        requires
            address + 8 <= self@.len(),
        ensures
            word == big_endian_u64(self@, address as int),
    {
        let len = self.data.len();
        assert(address + 8 <= len);
        let high = self.read_u32(address) as u64;
        let low = self.read_u32(address + 4) as u64;
        high * 0x1_0000_0000 + low
    }

    /// Stores one byte at `address`, which must lie inside the memory.
    pub fn write_u8(&mut self, address: Address, value: u8)
        requires
            address < old(self)@.len(),
        ensures
            final(self)@ == old(self)@.update(address as int, value),
    {
        let len = self.data.len();
        assert(address < len);
        self.data.set(address as usize, value);
    }

    /// Stores `value` big-endian in the four bytes at `address`, which must lie inside the memory.
    pub fn write_u32(&mut self, address: Address, value: u32)
        requires
            address + 4 <= old(self)@.len(),
        ensures
            final(self)@ == stored(old(self)@, address as int, value as int, 4),
    {
        let len = self.data.len();
        assert(address + 4 <= len);
        let a = address as usize;
        proof {
            lemma_byte_of_u32(value);
        }
        self.data.set(a, ((value >> 24) & 0xff) as u8);
        self.data.set(a + 1, ((value >> 16) & 0xff) as u8);
        self.data.set(a + 2, ((value >> 8) & 0xff) as u8);
        self.data.set(a + 3, (value & 0xff) as u8);
        assert(self@ =~= stored(old(self)@, address as int, value as int, 4));
    }

    /// Stores `value` big-endian in the eight bytes at `address`, which must lie inside the memory.
    pub fn write_u64(&mut self, address: Address, value: u64)
        requires
            address + 8 <= old(self)@.len(),
        ensures
            final(self)@ == stored(old(self)@, address as int, value as int, 8),
    {
        let len = self.data.len();
        assert(address + 8 <= len);
        let a = address as usize;
        proof {
            lemma_byte_of_u64(value);
        }
        let mut i: usize = 0;
        while i < 8
            invariant
                i <= 8,
                a + 8 <= old(self)@.len(),
                len == self@.len(),
                self@.len() == old(self)@.len(),
                forall|j: int|
                    0 <= j < self@.len() ==> #[trigger] self@[j] == (if a <= j < a + i {
                        big_endian_byte(value as int, 8, j - a)
                    } else {
                        old(self)@[j]
                    }),
                forall|k: u64|
                    k < 8 ==> (#[trigger] ((value >> ((7 - k) * 8)) & 0xff)) as u8
                        == big_endian_byte(value as int, 8, k as int),
            decreases 8 - i,
        {
            let k = i as u64;
            let byte = ((value >> ((7 - k) * 8)) & 0xff) as u8;
            assert(byte == big_endian_byte(value as int, 8, k as int));
            self.data.set(a + i, byte);
            i = i + 1;
        }
        assert(self@ =~= stored(old(self)@, address as int, value as int, 8));
    }
}

} // verus!
