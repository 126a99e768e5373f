use crate::alu::{sum_bits, twos_complement, ALU};
use crate::bitvecutils::{bytes_to_bits, convert_ramdump_to_bitvec};
use crate::bus::{Bus, BusSelector};
use crate::clock::{Clock, ClockDriven};
use crate::config::{OPCODE_SIZE, RAM_SIZE, WORD_SIZE};
use crate::control::control::ControlLine;
use crate::control::controller::{controller_owner, fired_by, line_after_drive, Controller};
use crate::control::links::ControlLinks;
use crate::control::sequencer::{Sequencer, SequencerState};
use crate::link::{any_asserted, with_endpoint, with_state, Callback};
use crate::memory::memory::{image_words, stored, word_at, RAM};
use crate::memory::register::{driven, latched, RORegister, RWRegister};
use crate::pc::{counted, ProgramCounter};
use crate::word::{fit, zeros};
use vstd::prelude::*;

verus! {

/// The state of the machine as plain values: what each link, the bus, each
/// register and each word of memory holds, where the sequencer stands, and
/// whether the machine has halted.
pub struct Machine {
    pub lines: Map<ControlLine, Map<Seq<char>, bool>>,
    pub bus: Seq<bool>,
    pub pc: Seq<bool>,
    pub mar: Seq<bool>,
    pub ram: Seq<Seq<bool>>,
    pub ir: Seq<bool>,
    pub reg_a: Seq<bool>,
    pub reg_b: Seq<bool>,
    pub reg_out: Seq<bool>,
    pub sequencer: SequencerState,
    pub halted: bool,
}

/// The callbacks that the machine binds to `line`: the adder reacts to
/// `EO` and `SU`, the run ends on `HLT`.
pub open spec fn bound_callbacks(line: ControlLine) -> Seq<Callback> {
    match line {
        ControlLine::EO => seq![Callback::AluSum],
        ControlLine::SU => seq![Callback::AluDifference],
        ControlLine::HLT => seq![Callback::Halt],
        _ => seq![],
    }
}

/// The callbacks that setting an endpoint on each line of `step` reports.
pub open spec fn bound_fired(step: Seq<ControlLine>) -> Seq<Callback>
    decreases step.len(),
{
    if step.len() == 0 {
        seq![]
    } else {
        bound_fired(step.drop_last()) + bound_callbacks(step.last())
    }
}

impl Machine {
    /// Whether `line` is high.
    pub open spec fn high(self, line: ControlLine) -> bool {
        any_asserted(self.lines[line])
    }

    /// Every unit has its width, and the sequencer is within its cycle.
    pub open spec fn wf(self) -> bool {
        &&& self.lines.dom() == Set::<ControlLine>::full()
        &&& self.bus.len() == WORD_SIZE
        &&& self.pc.len() == WORD_SIZE - OPCODE_SIZE
        &&& self.mar.len() == WORD_SIZE - OPCODE_SIZE
        &&& self.ram.len() == RAM_SIZE
        &&& self.ir.len() == OPCODE_SIZE
        &&& self.reg_a.len() == WORD_SIZE
        &&& self.reg_b.len() == WORD_SIZE
        &&& self.reg_out.len() == WORD_SIZE
        &&& self.sequencer.in_cycle()
        &&& self.sequencer.program.len() <= 3
    }

    /// The machine after `owner` registered on `line`.
    pub open spec fn register(self, line: ControlLine, owner: Seq<char>) -> Machine {
        Machine { lines: self.lines.insert(line, with_endpoint(self.lines[line], owner)), ..self }
    }

    /// The machine after `owner` set its endpoint on `line` to `state`.
    pub open spec fn set(self, line: ControlLine, owner: Seq<char>, state: bool) -> Machine {
        Machine {
            lines: self.lines.insert(line, with_state(self.lines[line], owner, state)),
            ..self
        }
    }

    /// The machine after the controller set its endpoint on each line of
    /// `step` to `state`.
    pub open spec fn drive(self, step: Seq<ControlLine>, state: bool) -> Machine {
        Machine {
            lines: Map::new(
                |line: ControlLine| true,
                |line: ControlLine| line_after_drive(self.lines[line], line, step, state),
            ),
            ..self
        }
    }

    /// The machine after one callback. Each looks at its own line and does
    /// nothing while that line is low: the adder drives the bus with the
    /// sum while `EO` is high, with the difference while `SU` is high, and
    /// the machine halts while `HLT` is high.
    pub open spec fn react(self, callback: Callback) -> Machine {
        match callback {
            Callback::AluSum => if self.high(ControlLine::EO) {
                Machine { bus: fit(sum_bits(self.reg_a, self.reg_b), self.bus.len()), ..self }
            } else {
                self
            },
            Callback::AluDifference => if self.high(ControlLine::SU) {
                Machine {
                    bus: fit(
                        sum_bits(self.reg_a, twos_complement(self.reg_b, self.bus.len())),
                        self.bus.len(),
                    ),
                    ..self
                }
            } else {
                self
            },
            Callback::Halt => if self.high(ControlLine::HLT) {
                Machine { halted: true, ..self }
            } else {
                self
            },
        }
    }

    /// The machine after the callbacks of `fired`, in order.
    pub open spec fn react_all(self, fired: Seq<Callback>) -> Machine
        decreases fired.len(),
    {
        if fired.len() == 0 {
            self
        } else {
            self.react_all(fired.drop_last()).react(fired.last())
        }
    }

    /// The machine after each unit had its high phase, once, in this
    /// order: program counter, memory address register, memory,
    /// instruction register, register A, register B, output register. Each
    /// sees the bus as the units before it left it.
    pub open spec fn latch(self) -> Machine {
        let bus1 = driven(self.bus, self.high(ControlLine::CO), self.pc);
        let pc = counted(
            latched(self.pc, self.high(ControlLine::J), bus1, BusSelector::LSB),
            self.high(ControlLine::CE),
        );
        let mar = latched(self.mar, self.high(ControlLine::MI), bus1, BusSelector::LSB);
        let ram = stored(self.ram, self.high(ControlLine::RI), mar, bus1);
        let bus2 = driven(bus1, self.high(ControlLine::RO), word_at(ram, mar));
        let ir = latched(self.ir, self.high(ControlLine::II), bus2, BusSelector::HSB);
        let bus3 = driven(bus2, self.high(ControlLine::IO), ir);
        let reg_a = latched(self.reg_a, self.high(ControlLine::AI), bus3, BusSelector::LSB);
        let bus4 = driven(bus3, self.high(ControlLine::AO), reg_a);
        let reg_b = latched(self.reg_b, self.high(ControlLine::BI), bus4, BusSelector::LSB);
        let bus5 = driven(bus4, self.high(ControlLine::BO), reg_b);
        let reg_out = latched(self.reg_out, self.high(ControlLine::OI), bus5, BusSelector::LSB);
        Machine { bus: bus5, pc, mar, ram, ir, reg_a, reg_b, reg_out, ..self }
    }

    /// The high phase of the clock: the controller asserts the lines of
    /// the current step, the callbacks of those lines run, and then each
    /// unit has its high phase.
    pub open spec fn high_phase(self) -> Machine {
        let step = self.sequencer.controls();
        self.drive(step, true).react_all(bound_fired(step)).latch()
    }

    /// The low phase of the clock: the controller releases the lines of
    /// the current step and moves the sequencer on by one step, and the
    /// callbacks of those lines run. No unit latches.
    pub open spec fn low_phase(self) -> Machine {
        let step = self.sequencer.controls();
        let released = self.drive(step, false);
        let advanced = Machine { sequencer: released.sequencer.advance(released.ir), ..released };
        advanced.react_all(bound_fired(step))
    }

    /// The machine after one pulse of the clock at `level`.
    pub open spec fn pulse(self, level: bool) -> Machine {
        if level {
            self.high_phase()
        } else {
            self.low_phase()
        }
    }

    /// The machine after the next `count` pulses of a clock, which
    /// alternate: the first is low where the clock is `mid_cycle`, high
    /// where it is not.
    pub open spec fn pulses(self, mid_cycle: bool, count: nat) -> Machine
        decreases count,
    {
        if count == 0 {
            self
        } else {
            let before = (count - 1) as nat;
            self.pulses(mid_cycle, before).pulse((before % 2 == 0) != mid_cycle)
        }
    }
}

/// The computer: the bus, the control lines, the units, and the controller
/// with its sequencer.
pub struct Computer {
    control_links: ControlLinks,
    bus: Bus,
    pc: ProgramCounter,
    reg_a: RWRegister,
    reg_b: RWRegister,
    alu: ALU,
    mar: RORegister,
    ram: RAM,
    ir: RWRegister,
    reg_out: RORegister,
    controller: Controller,
    halted: bool,
}

impl View for Computer {
    type V = Machine;

    closed spec fn view(&self) -> Machine {
        Machine {
            lines: Map::new(
                |line: ControlLine| true,
                |line: ControlLine| self.control_links.endpoints(line),
            ),
            bus: self.bus@,
            pc: self.pc@,
            mar: self.mar@,
            ram: self.ram@,
            ir: self.ir@,
            reg_a: self.reg_a@,
            reg_b: self.reg_b@,
            reg_out: self.reg_out@,
            sequencer: self.controller@,
            halted: self.halted,
        }
    }
}

impl Computer {
    /// The parts are well-formed and wired as the machine needs them.
    pub closed spec fn wf(&self) -> bool {
        &&& self.control_links.wf()
        &&& self.controller.wf()
        &&& forall|line: ControlLine| #[trigger]
            self.control_links.callbacks(line) == bound_callbacks(line)
        &&& self.mar.selector() == BusSelector::LSB
        &&& self.mar.input_line() == ControlLine::MI
        &&& self.ir.selector() == BusSelector::HSB
        &&& self.ir.input_line() == ControlLine::II
        &&& self.ir.output_line() == ControlLine::IO
        &&& self.reg_a.selector() == BusSelector::LSB
        &&& self.reg_a.input_line() == ControlLine::AI
        &&& self.reg_a.output_line() == ControlLine::AO
        &&& self.reg_b.selector() == BusSelector::LSB
        &&& self.reg_b.input_line() == ControlLine::BI
        &&& self.reg_b.output_line() == ControlLine::BO
        &&& self.reg_out.selector() == BusSelector::LSB
        &&& self.reg_out.input_line() == ControlLine::OI
        &&& self.mar.label() == "Mem. Address Reg."@
        &&& self.ir.label() == "Instruction Reg."@
        &&& self.reg_a.label() == "A Register"@
        &&& self.reg_b.label() == "B Register"@
        &&& self.reg_out.label() == "Output Register"@
        &&& self@.wf()
    }

    fn init_control_links() -> (control_links: ControlLinks)
        ensures
            control_links.wf(),
            forall|line: ControlLine| #[trigger]
                control_links.endpoints(line) == Map::<Seq<char>, bool>::empty(),
            forall|line: ControlLine| #[trigger]
                control_links.callbacks(line) == bound_callbacks(line),
    {
        let mut control_links = ControlLinks::new();
        control_links.add_callback(ControlLine::EO, Callback::AluSum);
        control_links.add_callback(ControlLine::SU, Callback::AluDifference);
        control_links.add_callback(ControlLine::HLT, Callback::Halt);
        assert forall|line: ControlLine| #[trigger]
            control_links.callbacks(line) == bound_callbacks(line) by {
            assert(control_links.callbacks(line) =~= bound_callbacks(line));
        }
        control_links
    }

    fn init_register_a() -> (register: RWRegister)
        ensures
            register.label() == "A Register"@,
            register@ == zeros(WORD_SIZE as nat),
            register.selector() == BusSelector::LSB,
            register.input_line() == ControlLine::AI,
            register.output_line() == ControlLine::AO,
    {
        RWRegister::new(
            "A Register".to_owned(),
            WORD_SIZE,
            BusSelector::LSB,
            ControlLine::AI,
            ControlLine::AO,
        )
    }

    fn init_register_b() -> (register: RWRegister)
        ensures
            register.label() == "B Register"@,
            register@ == zeros(WORD_SIZE as nat),
            register.selector() == BusSelector::LSB,
            register.input_line() == ControlLine::BI,
            register.output_line() == ControlLine::BO,
    {
        RWRegister::new(
            "B Register".to_owned(),
            WORD_SIZE,
            BusSelector::LSB,
            ControlLine::BI,
            ControlLine::BO,
        )
    }

    fn init_memory_address_register() -> (register: RORegister)
        ensures
            register.label() == "Mem. Address Reg."@,
            register@ == zeros((WORD_SIZE - OPCODE_SIZE) as nat),
            register.selector() == BusSelector::LSB,
            register.input_line() == ControlLine::MI,
    {
        RORegister::new(
            "Mem. Address Reg.".to_owned(),
            WORD_SIZE - OPCODE_SIZE,
            BusSelector::LSB,
            ControlLine::MI,
        )
    }

    fn init_instruction_register() -> (register: RWRegister)
        ensures
            register.label() == "Instruction Reg."@,
            register@ == zeros(OPCODE_SIZE as nat),
            register.selector() == BusSelector::HSB,
            register.input_line() == ControlLine::II,
            register.output_line() == ControlLine::IO,
    {
        RWRegister::new(
            "Instruction Reg.".to_owned(),
            OPCODE_SIZE,
            BusSelector::HSB,
            ControlLine::II,
            ControlLine::IO,
        )
    }

    fn init_output_register() -> (register: RORegister)
        ensures
            register.label() == "Output Register"@,
            register@ == zeros(WORD_SIZE as nat),
            register.selector() == BusSelector::LSB,
            register.input_line() == ControlLine::OI,
    {
        RORegister::new("Output Register".to_owned(), WORD_SIZE, BusSelector::LSB, ControlLine::OI)
    }

    /// A computer at the first fetch step, with every register and the bus
    /// cleared, the controller registered on every control line and
    /// nothing asserted, and the memory filled from `ramdump`: byte `i` is
    /// word `i`, its least significant bit at index 0. Bytes past the size
    /// of the memory are left out; words that the image does not reach are
    /// cleared.
    pub fn new(ramdump: Vec<u8>) -> (computer: Self)
        ensures
            computer.wf(),
            computer@ == (Machine {
                lines: Map::new(
                    |line: ControlLine| true,
                    |line: ControlLine|
                        Map::<Seq<char>, bool>::empty().insert(controller_owner(), false),
                ),
                bus: zeros(WORD_SIZE as nat),
                pc: zeros((WORD_SIZE - OPCODE_SIZE) as nat),
                mar: zeros((WORD_SIZE - OPCODE_SIZE) as nat),
                ram: image_words(bytes_to_bits(ramdump@)),
                ir: zeros(OPCODE_SIZE as nat),
                reg_a: zeros(WORD_SIZE as nat),
                reg_b: zeros(WORD_SIZE as nat),
                reg_out: zeros(WORD_SIZE as nat),
                sequencer: SequencerState { step: 0, program: seq![] },
                halted: false,
            }),
    {
        let mut image = ramdump;
        image.truncate(RAM_SIZE * WORD_SIZE / 8);
        let bits = convert_ramdump_to_bitvec(&image);
        let ram = RAM::new(&bits);
        proof {
            let cut = bytes_to_bits(image@);
            let whole = bytes_to_bits(ramdump@);
            assert forall|i: int| 0 <= i < RAM_SIZE implies #[trigger] image_words(cut)[i]
                == image_words(whole)[i] by {
                assert(image_words(cut)[i] =~= image_words(whole)[i]);
            }
            assert(image_words(cut) =~= image_words(whole));
        }
        let mut control_links = Self::init_control_links();
        let controller = Controller::new(&mut control_links, Sequencer::new());
        let computer = Self {
            control_links,
            bus: Bus::new(),
            pc: ProgramCounter::new(),
            reg_a: Self::init_register_a(),
            reg_b: Self::init_register_b(),
            alu: ALU::new(),
            mar: Self::init_memory_address_register(),
            ram,
            ir: Self::init_instruction_register(),
            reg_out: Self::init_output_register(),
            controller,
            halted: false,
        };
        assert(computer@.lines =~= Map::new(
            |line: ControlLine| true,
            |line: ControlLine| Map::<Seq<char>, bool>::empty().insert(controller_owner(), false),
        ));
        assert(computer@.lines.dom() =~= Set::<ControlLine>::full());
        computer
    }

    /// Whether the machine has halted.
    pub fn halted(&self) -> (halted: bool)
        ensures
            halted == self@.halted,
    {
        self.halted
    }

    /// The control-line network.
    pub fn control_links(&self) -> (control_links: &ControlLinks)
        requires
            self.wf(),
        ensures
            control_links.wf(),
            forall|line: ControlLine| #[trigger]
                control_links.endpoints(line) == self@.lines[line],
            forall|line: ControlLine| #[trigger]
                control_links.callbacks(line) == bound_callbacks(line),
    {
        &self.control_links
    }

    /// The bus.
    pub fn bus(&self) -> (bus: &Bus)
        ensures
            bus@ == self@.bus,
    {
        &self.bus
    }

    /// The program counter.
    pub fn pc(&self) -> (pc: &ProgramCounter)
        ensures
            pc@ == self@.pc,
    {
        &self.pc
    }

    /// The memory address register.
    pub fn mar(&self) -> (mar: &RORegister)
        ensures
            mar@ == self@.mar,
            self.wf() ==> mar.label() == "Mem. Address Reg."@,
    {
        &self.mar
    }

    /// The memory.
    pub fn ram(&self) -> (ram: &RAM)
        ensures
            ram@ == self@.ram,
    {
        &self.ram
    }

    /// The instruction register.
    pub fn ir(&self) -> (ir: &RWRegister)
        ensures
            ir@ == self@.ir,
            self.wf() ==> ir.label() == "Instruction Reg."@,
    {
        &self.ir
    }

    /// Register A.
    pub fn reg_a(&self) -> (reg_a: &RWRegister)
        ensures
            reg_a@ == self@.reg_a,
            self.wf() ==> reg_a.label() == "A Register"@,
    {
        &self.reg_a
    }

    /// Register B.
    pub fn reg_b(&self) -> (reg_b: &RWRegister)
        ensures
            reg_b@ == self@.reg_b,
            self.wf() ==> reg_b.label() == "B Register"@,
    {
        &self.reg_b
    }

    /// The output register.
    pub fn reg_out(&self) -> (reg_out: &RORegister)
        ensures
            reg_out@ == self@.reg_out,
            self.wf() ==> reg_out.label() == "Output Register"@,
    {
        &self.reg_out
    }

    /// The controller.
    pub fn controller(&self) -> (controller: &Controller)
        ensures
            controller@ == self@.sequencer,
    {
        &self.controller
    }

    /// Registers `owner` on `line`, with a released endpoint: a
    /// participant from outside the machine, which can then assert the
    /// line under its own name.
    pub fn add_endpoint(&mut self, line: ControlLine, owner: String)
        requires
            old(self).wf(),
        ensures
            final(self).wf(),
            final(self)@ == old(self)@.register(line, owner@),
    {
        self.control_links.add_endpoint(line, owner);
        proof {
            assert(self@.lines =~= old(self)@.register(line, owner@).lines);
            assert(self@.lines.dom() =~= Set::<ControlLine>::full());
        }
    }

    /// Sets the endpoint of `owner` on `line` to `state`, and carries out
    /// the callbacks bound to that line.
    pub fn set_endpoint(&mut self, line: ControlLine, owner: String, state: bool)
        requires
            old(self).wf(),
        ensures
            final(self).wf(),
            final(self)@ == old(self)@.set(line, owner@, state).react_all(bound_callbacks(line)),
    {
        let fired = self.control_links.set_endpoint(line, owner, state);
        proof {
            assert(self@.lines =~= old(self)@.set(line, owner@, state).lines);
            assert(self@.lines.dom() =~= Set::<ControlLine>::full());
        }
        self.run_callbacks(&fired);
    }

    /// Carries out the callbacks that the links reported, in order.
    fn run_callbacks(&mut self, fired: &Vec<Callback>)
        requires
            old(self).wf(),
        ensures
            final(self).wf(),
            final(self)@ == old(self)@.react_all(fired@),
    {
        let mut n: usize = 0;
        assert(fired@.take(0) =~= Seq::<Callback>::empty());
        while n < fired.len()
            invariant
                n <= fired@.len(),
                self.wf(),
                self@ == old(self)@.react_all(fired@.take(n as int)),
            decreases fired@.len() - n,
        {
            let ghost before = self@;
            match fired[n] {
                Callback::AluSum => {
                    if self.control_links.get_state(ControlLine::EO) {
                        self.alu.add(&self.reg_a, &self.reg_b, &mut self.bus);
                    }
                },
                Callback::AluDifference => {
                    if self.control_links.get_state(ControlLine::SU) {
                        self.alu.sub(&self.reg_a, &self.reg_b, &mut self.bus);
                    }
                },
                Callback::Halt => {
                    if self.control_links.get_state(ControlLine::HLT) {
                        self.halted = true;
                    }
                },
            }
            proof {
                assert(self@.lines =~= before.lines);
                assert(self@ == before.react(fired@[n as int]));
                assert(fired@.take(n + 1).drop_last() =~= fired@.take(n as int));
            }
            n += 1;
        }
        assert(fired@.take(n as int) =~= fired@);
    }

    /// One pulse of the clock. While the clock is high the controller
    /// asserts the lines of the current step, the callbacks of those lines
    /// run, and each unit has its high phase. While it is low the
    /// controller releases those lines, and the sequencer moves on.
    pub fn on_clock_high(&mut self, clock_state: bool)
        requires
            old(self).wf(),
        ensures
            final(self).wf(),
            final(self)@ == old(self)@.pulse(clock_state),
    {
        let ghost step = self@.sequencer.controls();
        let ghost start = self@;
        proof {
            lemma_fired(self.control_links, step);
        }
        if clock_state {
            let fired = self.controller.on_clock_high(&mut self.control_links);
            proof {
                assert(self@.lines =~= start.drive(step, true).lines);
                assert(self@ == start.drive(step, true));
                assert(self@.lines.dom() =~= Set::<ControlLine>::full());
            }
            self.run_callbacks(&fired);
            let ghost reacted = self@;
            assert(reacted == start.drive(step, true).react_all(bound_fired(step)));
            self.pc.on_clock_high(&self.control_links, &mut self.bus);
            self.mar.on_clock_high(&self.control_links, &mut self.bus);
            self.ram.on_clock_high(&self.control_links, &mut self.bus, &self.mar);
            self.ir.on_clock_high(&self.control_links, &mut self.bus);
            self.reg_a.on_clock_high(&self.control_links, &mut self.bus);
            self.reg_b.on_clock_high(&self.control_links, &mut self.bus);
            self.reg_out.on_clock_high(&self.control_links, &mut self.bus);
            assert(self@.lines =~= reacted.lines);
            assert(self@ == reacted.latch());
        } else {
            let fired = self.controller.on_clock_low(&mut self.control_links, &self.ir);
            proof {
                let released = start.drive(step, false);
                assert(self@.lines =~= released.lines);
                assert(self@.lines.dom() =~= Set::<ControlLine>::full());
                assert(self@ == (Machine {
                    sequencer: released.sequencer.advance(released.ir),
                    ..released
                }));
                crate::control::sequencer::lemma_program_length(start.ir);
            }
            self.run_callbacks(&fired);
        }
    }
}

impl Computer {
    /// Runs the machine on the pulses of `clock`, for `max_pulses` pulses
    /// at most. A machine that has halted stops the clock, and gets no
    /// pulse after that. The number of pulses that the machine got is
    /// returned.
    pub fn run(&mut self, clock: &mut Clock, max_pulses: usize) -> (count: usize)
        requires
            old(self).wf(),
        ensures
            final(self).wf(),
            count <= max_pulses,
            final(self)@ == old(self)@.pulses(old(clock).mid_cycle(), count as nat),
            forall|k: nat|
                k < count ==> !(#[trigger] old(self)@.pulses(old(clock).mid_cycle(), k)).halted,
            count == max_pulses || final(self)@.halted || !old(clock).running(),
            final(clock).running() == (old(clock).running() && !final(self)@.halted),
            final(clock).rate() == old(clock).rate(),
    {
        let ghost mid = clock.mid_cycle();
        let mut count: usize = 0;
        let mut limit = max_pulses;
        while count < limit
            invariant
                self.wf(),
                count <= limit <= max_pulses,
                self@ == old(self)@.pulses(mid, count as nat),
                forall|k: nat| k < count ==> !(#[trigger] old(self)@.pulses(mid, k)).halted,
                limit == max_pulses || self@.halted || !old(clock).running(),
                clock.rate() == old(clock).rate(),
                mid == old(clock).mid_cycle(),
                clock.running() ==> old(clock).running(),
                old(clock).running() && !self@.halted ==> clock.running(),
                clock.running() ==> clock.mid_cycle() == ((count % 2 == 0) == mid),
            decreases limit - count,
        {
            if self.halted {
                clock.stop();
                limit = count;
            } else {
                match clock.tick() {
                    Some(level) => {
                        self.on_clock_high(level);
                        count += 1;
                    },
                    None => {
                        limit = count;
                    },
                }
            }
        }
        if self.halted {
            clock.stop();
        }
        count
    }
}

/// What the callbacks leave as it is: the lines, every register, the
/// memory, the sequencer and the width of the bus. The machine is halted
/// after them when it was before, or when the halt callback is among them
/// while `HLT` is high.
pub proof fn lemma_react_all(machine: Machine, fired: Seq<Callback>)
    ensures
        machine.react_all(fired) == (Machine {
            bus: machine.react_all(fired).bus,
            halted: machine.react_all(fired).halted,
            ..machine
        }),
        machine.react_all(fired).bus.len() == machine.bus.len(),
        machine.react_all(fired).halted == (machine.halted || (fired.contains(Callback::Halt)
            && machine.high(ControlLine::HLT))),
    decreases fired.len(),
{
    if fired.len() > 0 {
        let init = fired.drop_last();
        lemma_react_all(machine, init);
        if init.contains(Callback::Halt) {
            let k = choose|k: int| 0 <= k < init.len() && init[k] == Callback::Halt;
            assert(fired[k] == Callback::Halt);
        }
        if fired.contains(Callback::Halt) && fired.last() != Callback::Halt {
            let k = choose|k: int| 0 <= k < fired.len() && fired[k] == Callback::Halt;
            assert(init[k] == Callback::Halt);
        }
        if fired.last() == Callback::Halt {
            assert(fired[fired.len() - 1] == Callback::Halt);
        }
    }
}

/// The halt callback is reported exactly by the steps that name `HLT`.
pub proof fn lemma_halt_fired(step: Seq<ControlLine>)
    ensures
        bound_fired(step).contains(Callback::Halt) == step.contains(ControlLine::HLT),
    decreases step.len(),
{
    if step.len() > 0 {
        let init = step.drop_last();
        let head = bound_fired(init);
        let tail = bound_callbacks(step.last());
        lemma_halt_fired(init);
        if head.contains(Callback::Halt) {
            let k = choose|k: int| 0 <= k < head.len() && head[k] == Callback::Halt;
            assert((head + tail)[k] == Callback::Halt);
        }
        if tail.contains(Callback::Halt) {
            let k = choose|k: int| 0 <= k < tail.len() && tail[k] == Callback::Halt;
            assert((head + tail)[head.len() + k] == Callback::Halt);
            assert(step[step.len() - 1] == ControlLine::HLT);
        }
        if (head + tail).contains(Callback::Halt) {
            let k = choose|k: int| 0 <= k < (head + tail).len() && (head + tail)[k] == Callback::Halt;
            if k < head.len() {
                assert(head[k] == Callback::Halt);
            } else {
                assert(tail[k - head.len()] == Callback::Halt);
            }
        }
        if init.contains(ControlLine::HLT) {
            let k = choose|k: int| 0 <= k < init.len() && init[k] == ControlLine::HLT;
            assert(step[k] == ControlLine::HLT);
        }
        if step.contains(ControlLine::HLT) && step.last() != ControlLine::HLT {
            let k = choose|k: int| 0 <= k < step.len() && step[k] == ControlLine::HLT;
            assert(init[k] == ControlLine::HLT);
        }
        if step.last() == ControlLine::HLT {
            assert(tail[0] == Callback::Halt);
        }
    }
}

/// The machine halts by the `HLT` line and by nothing else. After a pulse
/// it is halted when it was before, or when the step of that pulse names
/// `HLT` and the line is high once the controller has set its endpoint:
/// asserted in the high phase, or released in the low phase while another
/// owner holds the line. A machine that has halted stays halted.
pub proof fn lemma_halts_by_the_halt_line(machine: Machine, level: bool)
    requires
        machine.wf(),
    ensures
        machine.pulse(level).halted == (machine.halted || (machine.sequencer.controls().contains(
            ControlLine::HLT,
        ) && any_asserted(
            with_state(machine.lines[ControlLine::HLT], controller_owner(), level),
        ))),
{
    let step = machine.sequencer.controls();
    let set = machine.drive(step, level);
    lemma_halt_fired(step);
    if level {
        lemma_react_all(set, bound_fired(step));
    } else {
        let advanced = Machine { sequencer: set.sequencer.advance(set.ir), ..set };
        lemma_react_all(advanced, bound_fired(step));
    }
}

/// A pulse keeps the machine well-formed: every unit keeps its width, and
/// the sequencer stays within its cycle.
pub proof fn lemma_pulse_keeps_widths(machine: Machine, level: bool)
    requires
        machine.wf(),
    ensures
        machine.pulse(level).wf(),
{
    let step = machine.sequencer.controls();
    let released = machine.drive(step, level);
    assert(released.lines.dom() =~= Set::<ControlLine>::full());
    if level {
        lemma_react_all(released, bound_fired(step));
        let reacted = released.react_all(bound_fired(step));
        crate::bitvecutils::lemma_incremented_value(
            latched(
                reacted.pc,
                reacted.high(ControlLine::J),
                driven(reacted.bus, reacted.high(ControlLine::CO), reacted.pc),
                BusSelector::LSB,
            ),
        );
    } else {
        let advanced = Machine { sequencer: released.sequencer.advance(released.ir), ..released };
        lemma_react_all(advanced, bound_fired(step));
        crate::control::sequencer::lemma_program_length(released.ir);
    }
}

/// With the machine's callbacks bound, the links report those.
proof fn lemma_fired(control_links: ControlLinks, step: Seq<ControlLine>)
    requires
        forall|line: ControlLine| #[trigger] control_links.callbacks(line) == bound_callbacks(line),
    ensures
        fired_by(control_links, step) == bound_fired(step),
    decreases step.len(),
{
    if step.len() > 0 {
        lemma_fired(control_links, step.drop_last());
    }
}

} // verus!
