use vstd::prelude::*;

verus! {

/// Width of a word, of the bus and of the data registers, in bits.
pub const WORD_SIZE: usize = 8;

/// Width of the opcode field, the high-order bits of an instruction word.
pub const OPCODE_SIZE: usize = 4;

/// Number of words of memory: one for each address of
/// `WORD_SIZE - OPCODE_SIZE` bits.
pub const RAM_SIZE: usize = 16;

/// Pulse rate of the clock, in hertz.
pub const CLOCK_FREQUENCY: usize = 2;

} // verus!
