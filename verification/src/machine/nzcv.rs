use vstd::prelude::*;

verus! {

/// The condition flags of the processor: negative, zero, carry and overflow.
#[derive(Clone, Copy)]
pub struct Nzcv {
    pub negative: bool,
    pub zero: bool,
    pub carry: bool,
    pub overflow: bool,
}

/// The value of one flag as a number.
pub open spec fn flag_value(flag: bool) -> nat {
    if flag {
        1
    } else {
        0
    }
}

/// The byte that packs the flags as `N Z C V` in bits 3, 2, 1 and 0.
pub open spec fn packed_flags(nzcv: Nzcv) -> nat {
    8 * flag_value(nzcv.negative) + 4 * flag_value(nzcv.zero) + 2 * flag_value(nzcv.carry)
        + flag_value(nzcv.overflow)
}

/// Whether bit `index` of `byte` is set.
pub open spec fn bit_set(byte: u8, index: u8) -> bool {
    (byte >> index) & 1 == 1
}

/// The flags that a byte in the packed layout stands for.
pub open spec fn unpacked_flags(byte: u8) -> Nzcv {
    Nzcv {
        negative: bit_set(byte, 3),
        zero: bit_set(byte, 2),
        carry: bit_set(byte, 1),
        overflow: bit_set(byte, 0),
    }
}

impl Nzcv {
    pub fn new(negative: bool, zero: bool, carry: bool, overflow: bool) -> (nzcv: Self)
        ensures
            nzcv == (Nzcv { negative, zero, carry, overflow }),
    {
        Self { negative, zero, carry, overflow }
    }

    /// Packs the flags into the low four bits of a word.
    pub fn to_byte(&self) -> (byte: u64)
        ensures
            byte == packed_flags(*self),
            byte < 16,
    {
        let n: u64 = if self.negative { 8 } else { 0 };
        let z: u64 = if self.zero { 4 } else { 0 };
        let c: u64 = if self.carry { 2 } else { 0 };
        let v: u64 = if self.overflow { 1 } else { 0 };
        n + z + c + v
    }

    /// Sets the flags from the low four bits of `nzcv`.
    pub fn restore(&mut self, nzcv: u8)
        ensures
            *final(self) == unpacked_flags(nzcv),
    {
        self.negative = ((nzcv >> 3) & 1) == 1;
        self.zero = ((nzcv >> 2) & 1) == 1;
        self.carry = ((nzcv >> 1) & 1) == 1;
        self.overflow = (nzcv & 1) == 1;
        proof {
            assert(nzcv & 1 == (nzcv >> 0u8) & 1) by (bit_vector);
        }
    }
}

/// Packing the flags into a byte and restoring them from it gives back the same flags.
pub proof fn lemma_restore_packed_flags(nzcv: Nzcv)
    ensures
        unpacked_flags(packed_flags(nzcv) as u8) == nzcv,
{
    let n = flag_value(nzcv.negative) as u8;
    let z = flag_value(nzcv.zero) as u8;
    let c = flag_value(nzcv.carry) as u8;
    let v = flag_value(nzcv.overflow) as u8;
    assert(packed_flags(nzcv) as u8 == 8 * n + 4 * z + 2 * c + v);
    assert(n <= 1 && z <= 1 && c <= 1 && v <= 1 ==> {
        let b: u8 = (8 * n + 4 * z + 2 * c + v) as u8;
        &&& ((b >> 3u8) & 1 == 1) == (n == 1)
        &&& ((b >> 2u8) & 1 == 1) == (z == 1)
        &&& ((b >> 1u8) & 1 == 1) == (c == 1)
        &&& ((b >> 0u8) & 1 == 1) == (v == 1)
    }) by (bit_vector);
}

impl Default for Nzcv {
    /// The flags after reset: only the zero flag is set.
    fn default() -> (nzcv: Self)
        ensures
            nzcv == (Nzcv { negative: false, zero: true, carry: false, overflow: false }),
    {
        Self::new(false, true, false, false)
    }
}

} // verus!
