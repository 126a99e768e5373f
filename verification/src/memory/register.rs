use crate::bits::{bits_of, bv_clone, bv_from_elem, bv_len};
use crate::bus::{bus_window, Bus, BusSelector};
use crate::clock::ClockDriven;
use crate::control::control::ControlLine;
use crate::control::links::ControlLinks;
use crate::word::{fit, zeros};
use bit_vec::BitVec;
use vstd::prelude::*;

verus! {

/// A register that only latches from the bus: it never drives it.
pub struct RORegister {
    name: String,
    bus_selector: BusSelector,
    regin_ctrl: ControlLine,
    data: BitVec,
}

/// A register that latches from the bus and drives it.
pub struct RWRegister {
    name: String,
    regin_ctrl: ControlLine,
    regout_ctrl: ControlLine,
    bus_selector: BusSelector,
    data: BitVec,
}

/// What a register of `width` bits holds after a high phase: the window of
/// the bus at its end when its input line is high, else what it held.
pub open spec fn latched(
    held: Seq<bool>,
    input_high: bool,
    bus: Seq<bool>,
    selector: BusSelector,
) -> Seq<bool> {
    if input_high {
        bus_window(bus, held.len(), selector)
    } else {
        held
    }
}

/// What the bus holds after a unit had the chance to drive `word` onto it.
pub open spec fn driven(bus: Seq<bool>, output_high: bool, word: Seq<bool>) -> Seq<bool> {
    if output_high {
        fit(word, bus.len())
    } else {
        bus
    }
}

impl View for RORegister {
    type V = Seq<bool>;

    closed spec fn view(&self) -> Seq<bool> {
        bits_of(self.data)
    }
}

impl View for RWRegister {
    type V = Seq<bool>;

    closed spec fn view(&self) -> Seq<bool> {
        bits_of(self.data)
    }
}

impl RORegister {
    /// The name of the register.
    pub closed spec fn label(&self) -> Seq<char> {
        self.name@
    }

    /// The name of the register.
    pub fn name(&self) -> (name: &String)
        ensures
            name@ == self.label(),
    {
        &self.name
    }

    /// The end of the bus that the register is wired to.
    pub closed spec fn selector(&self) -> BusSelector {
        self.bus_selector
    }

    /// The line that makes the register latch.
    pub closed spec fn input_line(&self) -> ControlLine {
        self.regin_ctrl
    }

    /// A cleared register of `size` bits.
    pub fn new(name: String, size: usize, bus_selector: BusSelector, regin_ctrl: ControlLine) -> (register: Self)
        ensures
            register@ == zeros(size as nat),
            register.label() == name@,
            register.selector() == bus_selector,
            register.input_line() == regin_ctrl,
    {
        Self { name, bus_selector, regin_ctrl, data: bv_from_elem(size, false) }
    }

    /// The word that the register holds.
    pub fn read(&self) -> (word: BitVec)
        ensures
            bits_of(word) == self@,
    {
        bv_clone(&self.data)
    }
}

impl ClockDriven for RORegister {
    /// Latches the window of the bus when the input line is high. The bus
    /// stays as it is.
    fn on_clock_high(&mut self, control_links: &ControlLinks, bus: &mut Bus)
        ensures
            final(self)@ == latched(
                old(self)@,
                control_links.state(old(self).input_line()),
                old(bus)@,
                old(self).selector(),
            ),
            final(self).label() == old(self).label(),
            final(self).selector() == old(self).selector(),
            final(self).input_line() == old(self).input_line(),
            final(bus)@ == old(bus)@,
    {
        if control_links.get_state(self.regin_ctrl) {
            self.data = bus.read_part(bv_len(&self.data), self.bus_selector);
        }
    }
}

impl RWRegister {
    /// The name of the register.
    pub closed spec fn label(&self) -> Seq<char> {
        self.name@
    }

    /// The name of the register.
    pub fn name(&self) -> (name: &String)
        ensures
            name@ == self.label(),
    {
        &self.name
    }

    /// The end of the bus that the register is wired to.
    pub closed spec fn selector(&self) -> BusSelector {
        self.bus_selector
    }

    /// The line that makes the register latch.
    pub closed spec fn input_line(&self) -> ControlLine {
        self.regin_ctrl
    }

    /// The line that makes the register drive the bus.
    pub closed spec fn output_line(&self) -> ControlLine {
        self.regout_ctrl
    }

    /// A cleared register of `size` bits.
    pub fn new(
        name: String,
        size: usize,
        bus_selector: BusSelector,
        regin_ctrl: ControlLine,
        regout_ctrl: ControlLine,
    ) -> (register: Self)
        ensures
            register@ == zeros(size as nat),
            register.label() == name@,
            register.selector() == bus_selector,
            register.input_line() == regin_ctrl,
            register.output_line() == regout_ctrl,
    {
        Self { name, regin_ctrl, regout_ctrl, bus_selector, data: bv_from_elem(size, false) }
    }

    /// The word that the register holds.
    pub fn read(&self) -> (word: BitVec)
        ensures
            bits_of(word) == self@,
    {
        bv_clone(&self.data)
    }
}

impl ClockDriven for RWRegister {
    /// Latches the window of the bus when the input line is high, then
    /// drives the bus with what it holds when the output line is high.
    fn on_clock_high(&mut self, control_links: &ControlLinks, bus: &mut Bus)
        ensures
            final(self)@ == latched(
                old(self)@,
                control_links.state(old(self).input_line()),
                old(bus)@,
                old(self).selector(),
            ),
            final(bus)@ == driven(
                old(bus)@,
                control_links.state(old(self).output_line()),
                final(self)@,
            ),
            final(self).label() == old(self).label(),
            final(self).selector() == old(self).selector(),
            final(self).input_line() == old(self).input_line(),
            final(self).output_line() == old(self).output_line(),
    {
        if control_links.get_state(self.regin_ctrl) {
            self.data = bus.read_part(bv_len(&self.data), self.bus_selector);
        }
        if control_links.get_state(self.regout_ctrl) {
            bus.write(&self.data);
        }
    }
}

} // verus!
