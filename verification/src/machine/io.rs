use vstd::prelude::*;

verus! {

/// A device that delivers integers and raises an interrupt when one arrives.
pub struct IntInputDevice {
    pub data: i64,
    pub vector: u8,
    pub interrupt: bool,
}

/// A device that delivers characters and raises an interrupt when one arrives.
pub struct CharInputDevice {
    pub data: char,
    pub vector: u8,
    pub interrupt: bool,
}

/// The input/output unit: two input devices, two output logs, and the two latches that
/// carry a value to and from the data path.
pub struct IO {
    pub input: i64,
    pub output: i64,
    pub int_input_device: IntInputDevice,
    pub char_input_device: CharInputDevice,
    pub int_output_log: Vec<i64>,
    pub char_output_log: Vec<char>,
    pub interrupt_vector: u8,
}

/// The character that the low byte of `value` codes.
pub open spec fn byte_char(value: i64) -> char {
    (value as u8) as char
}

/// The vector that an interrupt raises: the integer device's first, then the character
/// device's, else 0.
pub open spec fn pending_vector(io: IO) -> u8 {
    if io.int_input_device.interrupt {
        io.int_input_device.vector
    } else if io.char_input_device.interrupt {
        io.char_input_device.vector
    } else {
        0
    }
}

/// Whether either input device has raised an interrupt.
pub open spec fn interrupt_pending(io: IO) -> bool {
    io.int_input_device.interrupt || io.char_input_device.interrupt
}

/// The output latch after reading `port`: 0 reads the integer device's data, 1 its vector,
/// 2 the character device's data, 3 its vector; other ports leave it unchanged.
pub open spec fn read_port_value(io: IO, port: u8) -> i64 {
    if port == 0 {
        io.int_input_device.data
    } else if port == 1 {
        io.int_input_device.vector as i64
    } else if port == 2 {
        io.char_input_device.data as u32 as i64
    } else if port == 3 {
        io.char_input_device.vector as i64
    } else {
        io.output
    }
}

/// The integer device's interrupt after reading `port`: reading its data clears it.
pub open spec fn int_interrupt_after_read(io: IO, port: u8) -> bool {
    if port == 0 {
        false
    } else {
        io.int_input_device.interrupt
    }
}

/// The character device's interrupt after reading `port`: reading its data clears it.
pub open spec fn char_interrupt_after_read(io: IO, port: u8) -> bool {
    if port == 2 {
        false
    } else {
        io.char_input_device.interrupt
    }
}

impl IO {
    pub fn new() -> (io: Self)
        ensures
            io.input == 0,
            io.output == 0,
            io.int_input_device.data == 0,
            io.int_input_device.vector == 0,
            !io.int_input_device.interrupt,
            io.char_input_device.data == '\0',
            io.char_input_device.vector == 1,
            !io.char_input_device.interrupt,
            io.int_output_log@ == Seq::<i64>::empty(),
            io.char_output_log@ == Seq::<char>::empty(),
            io.interrupt_vector == 0,
    {
        Self {
            input: 0,
            output: 0,
            int_input_device: IntInputDevice { data: 0, vector: 0, interrupt: false },
            char_input_device: CharInputDevice { data: '\0', vector: 1, interrupt: false },
            int_output_log: Vec::new(),
            char_output_log: Vec::new(),
            interrupt_vector: 0,
        }
    }

    /// Latches the value of `port` into `output`; reading a device's data acknowledges its
    /// interrupt.
    pub fn read(&mut self, port: u8)
        ensures
            final(self).output == read_port_value(*old(self), port),
            final(self).int_input_device.interrupt == int_interrupt_after_read(*old(self), port),
            final(self).char_input_device.interrupt == char_interrupt_after_read(*old(self), port),
            final(self).input == old(self).input,
            final(self).int_input_device.data == old(self).int_input_device.data,
            final(self).int_input_device.vector == old(self).int_input_device.vector,
            final(self).char_input_device.data == old(self).char_input_device.data,
            final(self).char_input_device.vector == old(self).char_input_device.vector,
            final(self).int_output_log@ == old(self).int_output_log@,
            final(self).char_output_log@ == old(self).char_output_log@,
            final(self).interrupt_vector == old(self).interrupt_vector,
    {
        match port {
            0 => {
                self.output = self.int_input_device.data;
                self.int_input_device.interrupt = false;
            },
            1 => {
                self.output = self.int_input_device.vector as i64;
            },
            2 => {
                self.output = self.char_input_device.data as u32 as i64;
                self.char_input_device.interrupt = false;
            },
            3 => {
                self.output = self.char_input_device.vector as i64;
            },
            _ => {},
        }
    }

    /// Sends `input` to `port`: 1 and 3 set a device's vector, 4 logs an integer, 5 logs the
    /// character coded by the low byte; other ports ignore it.
    pub fn write(&mut self, port: u8)
        ensures
            final(self).int_input_device.vector == (if port == 1 {
                old(self).input as u8
            } else {
                old(self).int_input_device.vector
            }),
            final(self).char_input_device.vector == (if port == 3 {
                old(self).input as u8
            } else {
                old(self).char_input_device.vector
            }),
            final(self).int_output_log@ == (if port == 4 {
                old(self).int_output_log@.push(old(self).input)
            } else {
                old(self).int_output_log@
            }),
            final(self).char_output_log@ == (if port == 5 {
                old(self).char_output_log@.push(byte_char(old(self).input))
            } else {
                old(self).char_output_log@
            }),
            final(self).input == old(self).input,
            final(self).output == old(self).output,
            final(self).int_input_device.data == old(self).int_input_device.data,
            final(self).int_input_device.interrupt == old(self).int_input_device.interrupt,
            final(self).char_input_device.data == old(self).char_input_device.data,
            final(self).char_input_device.interrupt == old(self).char_input_device.interrupt,
            final(self).interrupt_vector == old(self).interrupt_vector,
    {
        match port {
            1 => {
                self.int_input_device.vector = self.input as u8;
            },
            3 => {
                self.char_input_device.vector = self.input as u8;
            },
            4 => {
                self.int_output_log.push(self.input);
            },
            5 => {
                self.char_output_log.push((self.input as u8) as char);
            },
            _ => {},
        }
    }

    /// Sets a device from outside the processor: 0 the integer data, 1 its vector, 2 the
    /// character data (its low byte), 3 its vector; 4 and 5 log `input` as `write` does.
    pub fn write_internal(&mut self, port: u8, value: i64)
        ensures
            final(self).int_input_device.data == (if port == 0 {
                value
            } else {
                old(self).int_input_device.data
            }),
            final(self).int_input_device.vector == (if port == 1 {
                value as u8
            } else {
                old(self).int_input_device.vector
            }),
            final(self).char_input_device.data == (if port == 2 {
                byte_char(value)
            } else {
                old(self).char_input_device.data
            }),
            final(self).char_input_device.vector == (if port == 3 {
                value as u8
            } else {
                old(self).char_input_device.vector
            }),
            final(self).int_output_log@ == (if port == 4 {
                old(self).int_output_log@.push(old(self).input)
            } else {
                old(self).int_output_log@
            }),
            final(self).char_output_log@ == (if port == 5 {
                old(self).char_output_log@.push(byte_char(old(self).input))
            } else {
                old(self).char_output_log@
            }),
            final(self).input == old(self).input,
            final(self).output == old(self).output,
            final(self).int_input_device.interrupt == old(self).int_input_device.interrupt,
            final(self).char_input_device.interrupt == old(self).char_input_device.interrupt,
            final(self).interrupt_vector == old(self).interrupt_vector,
    {
        match port {
            0 => {
                self.int_input_device.data = value;
            },
            1 => {
                self.int_input_device.vector = value as u8;
            },
            2 => {
                self.char_input_device.data = (value as u8) as char;
            },
            3 => {
                self.char_input_device.vector = value as u8;
            },
            4 => {
                self.int_output_log.push(self.input);
            },
            5 => {
                self.char_output_log.push((self.input as u8) as char);
            },
            _ => {},
        }
    }

    /// Whether either input device has raised an interrupt.
    pub fn check_interrupt(&mut self) -> (pending: bool)
        ensures
            pending == interrupt_pending(*old(self)),
            *final(self) == *old(self),
    {
        self.int_input_device.interrupt || self.char_input_device.interrupt
    }

    /// Latches the vector of the pending interrupt, the integer device first, or 0.
    pub fn update_interrupt_vector(&mut self)
        ensures
            final(self).interrupt_vector == pending_vector(*old(self)),
            final(self).input == old(self).input,
            final(self).output == old(self).output,
            final(self).int_input_device == old(self).int_input_device,
            final(self).char_input_device == old(self).char_input_device,
            final(self).int_output_log@ == old(self).int_output_log@,
            final(self).char_output_log@ == old(self).char_output_log@,
    {
        self.interrupt_vector = if self.int_input_device.interrupt {
            self.int_input_device.vector
        } else if self.char_input_device.interrupt {
            self.char_input_device.vector
        } else {
            0
        };
    }
}

} // verus!
