use crate::bits::{bits_of, bv_clone, bv_from_elem, bv_len};
use crate::bitvecutils::{increment_bitset, incremented};
use crate::bus::{Bus, BusSelector};
use crate::clock::ClockDriven;
use crate::config::{OPCODE_SIZE, WORD_SIZE};
use crate::control::control::ControlLine;
use crate::control::links::ControlLinks;
use crate::memory::register::{driven, latched};
use crate::word::zeros;
use bit_vec::BitVec;
use vstd::prelude::*;

verus! {

/// The program counter: the address of the next instruction.
pub struct ProgramCounter {
    address: BitVec,
}

/// The address after a high phase with the counting line as given.
pub open spec fn counted(address: Seq<bool>, count_high: bool) -> Seq<bool> {
    if count_high {
        incremented(address)
    } else {
        address
    }
}

impl View for ProgramCounter {
    type V = Seq<bool>;

    closed spec fn view(&self) -> Seq<bool> {
        bits_of(self.address)
    }
}

impl ProgramCounter {
    /// A counter at address 0, as wide as an address.
    pub fn new() -> (pc: Self)
        ensures
            pc@ == zeros((WORD_SIZE - OPCODE_SIZE) as nat),
    {
        Self { address: bv_from_elem(WORD_SIZE - OPCODE_SIZE, false) }
    }

    /// The address that the counter holds.
    pub fn read(&self) -> (address: BitVec)
        ensures
            bits_of(address) == self@,
    {
        bv_clone(&self.address)
    }
}

impl ClockDriven for ProgramCounter {
    /// With `CO` high the counter drives the bus with its address; with
    /// `J` high it then latches the low-order window of the bus; with `CE`
    /// high it then counts up by one, carrying, and wraps to 0 past the
    /// highest address.
    fn on_clock_high(&mut self, control_links: &ControlLinks, bus: &mut Bus)
        ensures
            final(bus)@ == driven(old(bus)@, control_links.state(ControlLine::CO), old(self)@),
            final(self)@ == counted(
                latched(
                    old(self)@,
                    control_links.state(ControlLine::J),
                    final(bus)@,
                    BusSelector::LSB,
                ),
                control_links.state(ControlLine::CE),
            ),
    {
        if control_links.get_state(ControlLine::CO) {
            bus.write(&self.address);
        }
        if control_links.get_state(ControlLine::J) {
            self.address = bus.read_part(bv_len(&self.address), BusSelector::LSB);
        }
        if control_links.get_state(ControlLine::CE) {
            increment_bitset(&mut self.address);
        }
    }
}

} // verus!
