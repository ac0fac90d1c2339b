use vstd::prelude::*;

verus! {

/// A single 64-bit machine register.
pub struct Register {
    value: u64,
}

impl Register {
    /// The value the register currently holds.
    pub closed spec fn value(&self) -> u64 {
        self.value
    }

    pub fn new(value: u64) -> (register: Self)
        ensures
            register.value() == value,
    {
        Self { value }
    }

    pub fn read(&self) -> (value: u64)
        ensures
            value == self.value(),
    {
        self.value
    }

    pub fn write(&mut self, value: u64)
        ensures
            final(self).value() == value,
    {
        self.value = value;
    }
}

impl Default for Register {
    fn default() -> (register: Self)
        ensures
            register.value() == 0,
    {
        Self::new(0)
    }
}

} // verus!
