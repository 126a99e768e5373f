use crate::control::control::ControlLine;
use crate::decoder::{decoded_program, program_view, Decoder};
use crate::memory::register::RWRegister;
use vstd::prelude::*;

verus! {

/// Walks through the microcode of one instruction after the other: the
/// fetch steps, which are the same for each, then the execute steps that
/// the decoder gives for the instruction fetched.
pub struct Sequencer {
    fetch_microcode: Vec<Vec<ControlLine>>,
    instruction_microcode: Vec<Vec<ControlLine>>,
    microcode_step: u8,
    decoder: Decoder,
}

/// Where a sequencer stands: the step within the cycle, and the execute
/// steps that were decoded last.
pub struct SequencerState {
    pub step: nat,
    pub program: Seq<Seq<ControlLine>>,
}

/// The fetch steps: the program counter goes to the memory address
/// register, the addressed word to the instruction register, and the
/// program counter counts up.
pub open spec fn fetch_program() -> Seq<Seq<ControlLine>> {
    seq![
        seq![ControlLine::CO, ControlLine::MI],
        seq![ControlLine::RO, ControlLine::II],
        seq![ControlLine::CE],
    ]
}

impl SequencerState {
    /// The step lies within the cycle.
    pub open spec fn in_cycle(self) -> bool {
        self.step < fetch_program().len() + self.program.len()
    }

    /// The lines of step `step` of a cycle with these execute steps: none
    /// past the end of the cycle.
    pub open spec fn controls_at(self, step: int) -> Seq<ControlLine> {
        if 0 <= step < fetch_program().len() {
            fetch_program()[step]
        } else if 0 <= step - fetch_program().len() < self.program.len() {
            self.program[step - fetch_program().len()]
        } else {
            seq![]
        }
    }

    /// The lines of the current step.
    pub open spec fn controls(self) -> Seq<ControlLine> {
        self.controls_at(self.step as int)
    }

    /// The lines of the step before the current one; at step 0, those of
    /// the last step of the cycle that went before.
    pub open spec fn previous_controls(self) -> Seq<ControlLine> {
        if self.step > 0 {
            self.controls_at(self.step - 1)
        } else if self.program.len() > 0 {
            self.program.last()
        } else {
            fetch_program().last()
        }
    }

    /// The state after one advance, with `instruction` in the instruction
    /// register at that moment: the register is decoded when the fetch
    /// steps have just been passed, and nowhere else; past the last step
    /// the cycle starts again.
    pub open spec fn advance(self, instruction: Seq<bool>) -> SequencerState {
        let step = self.step + 1;
        let program = if step == fetch_program().len() {
            decoded_program(instruction)
        } else {
            self.program
        };
        if step >= fetch_program().len() + program.len() {
            SequencerState { step: 0, program }
        } else {
            SequencerState { step, program }
        }
    }

    /// The state after one advance for each of `instructions`, in order.
    pub open spec fn advance_all(self, instructions: Seq<Seq<bool>>) -> SequencerState
        decreases instructions.len(),
    {
        if instructions.len() == 0 {
            self
        } else {
            self.advance_all(instructions.drop_last()).advance(instructions.last())
        }
    }
}

impl View for Sequencer {
    type V = SequencerState;

    closed spec fn view(&self) -> SequencerState {
        SequencerState {
            step: self.microcode_step as nat,
            program: program_view(self.instruction_microcode),
        }
    }
}

impl Sequencer {
    /// The fetch steps and the opcode table are in place, and the step
    /// lies within the cycle.
    pub closed spec fn wf(&self) -> bool {
        &&& program_view(self.fetch_microcode) == fetch_program()
        &&& self.decoder.wf()
        &&& self@.program.len() <= 3
        &&& self@.in_cycle()
    }

    /// A sequencer at the first fetch step, with nothing decoded yet.
    pub fn new() -> (sequencer: Self)
        ensures
            sequencer.wf(),
            sequencer@ == (SequencerState { step: 0, program: seq![] }),
    {
        let sequencer = Self {
            fetch_microcode: vec![
                vec![ControlLine::CO, ControlLine::MI],
                vec![ControlLine::RO, ControlLine::II],
                vec![ControlLine::CE],
            ],
            instruction_microcode: Vec::new(),
            microcode_step: 0,
            decoder: Decoder::new(),
        };
        assert(program_view(sequencer.fetch_microcode) =~~= fetch_program());
        assert(program_view(sequencer.instruction_microcode) =~= Seq::<Seq<ControlLine>>::empty());
        sequencer
    }

    /// The step within the cycle, from 0.
    pub fn step(&self) -> (step: u8)
        ensures
            step == self@.step,
    {
        self.microcode_step
    }

    /// The lines of the current step: fetch steps first, then execute
    /// steps.
    pub fn get_current_step_controls(&self) -> (controls: Vec<ControlLine>)
        requires
            self.wf(),
        ensures
            controls@ == self@.controls(),
    {
        let step = self.microcode_step as usize;
        if step < self.fetch_microcode.len() {
            return copy_controls(&self.fetch_microcode[step]);
        } else {
            let rstep = step - self.fetch_microcode.len();
            if rstep < self.instruction_microcode.len() {
                return copy_controls(&self.instruction_microcode[rstep]);
            }
        }
        vec![]
    }

    /// The lines of the step before the current one; at step 0, those of
    /// the last step of the cycle that went before.
    pub fn get_prev_step_controls(&self) -> (controls: Vec<ControlLine>)
        requires
            self.wf(),
        ensures
            controls@ == self@.previous_controls(),
    {
        if self.microcode_step > 0 {
            let prev_step = (self.microcode_step - 1) as usize;
            if prev_step < self.fetch_microcode.len() {
                return copy_controls(&self.fetch_microcode[prev_step]);
            } else {
                let rstep = prev_step - self.fetch_microcode.len();
                if rstep < self.instruction_microcode.len() {
                    return copy_controls(&self.instruction_microcode[rstep]);
                }
            }
        } else {
            if self.instruction_microcode.len() > 0 {
                return copy_controls(
                    &self.instruction_microcode[self.instruction_microcode.len() - 1],
                );
            } else {
                return copy_controls(&self.fetch_microcode[self.fetch_microcode.len() - 1]);
            }
        }
        vec![]
    }

    /// Goes on to the next step. When the fetch steps have just been
    /// passed, the instruction register is decoded, as it stands then;
    /// past the last step the cycle starts again.
    pub fn increment_step(&mut self, ir: &RWRegister)
        requires
            old(self).wf(),
        ensures
            final(self).wf(),
            final(self)@ == old(self)@.advance(ir@),
    {
        proof {
            assert(self.fetch_microcode@.len() == program_view(self.fetch_microcode).len());
            assert(self.instruction_microcode@.len() == self@.program.len());
            lemma_program_length(ir@);
        }
        self.microcode_step += 1;
        if self.microcode_step as usize == self.fetch_microcode.len() {
            self.instruction_microcode = self.decoder.decode_instruction(ir.read());
        }
        assert(self.instruction_microcode@.len() == self@.program.len());
        if self.microcode_step as usize >= self.fetch_microcode.len()
            + self.instruction_microcode.len() {
            self.microcode_step = 0;
        }
    }
}

/// Whether a unit drives the bus while `line` is high.
pub open spec fn drives_bus(line: ControlLine) -> bool {
    line == ControlLine::CO || line == ControlLine::RO || line == ControlLine::IO || line
        == ControlLine::AO || line == ControlLine::BO || line == ControlLine::EO || line
        == ControlLine::SU
}

/// At most one line of `step` makes a unit drive the bus.
pub open spec fn single_driver(step: Seq<ControlLine>) -> bool {
    forall|i: int, j: int|
        0 <= i < j < step.len() ==> !(drives_bus(#[trigger] step[i]) && drives_bus(
            #[trigger] step[j],
        ))
}

/// The microcode never has two units drive the bus in one step: neither
/// in a fetch step nor in an execute step of any instruction. Nothing
/// watches over this while the machine runs, so it is shown of the table.
pub proof fn lemma_single_driver(instruction: Seq<bool>, step: int)
    ensures
        single_driver(
            (SequencerState { step: 0, program: decoded_program(instruction) }).controls_at(step),
        ),
{
    let program = decoded_program(instruction);
    let controls = (SequencerState { step: 0, program }).controls_at(step);
    assert forall|i: int, j: int| 0 <= i < j < controls.len() implies !(drives_bus(
        #[trigger] controls[i],
    ) && drives_bus(#[trigger] controls[j])) by {
        assert(controls.len() <= 2);
        assert(i == 0 && j == 1);
        assert(!drives_bus(controls[1]));
    }
}

/// No instruction has more than three execute steps.
pub proof fn lemma_program_length(instruction: Seq<bool>)
    ensures
        decoded_program(instruction).len() <= 3,
{
}

/// A copy of the lines of one step.
fn copy_controls(step: &Vec<ControlLine>) -> (copy: Vec<ControlLine>)
    ensures
        copy@ == step@,
{
    let mut copy: Vec<ControlLine> = Vec::new();
    let mut i: usize = 0;
    while i < step.len()
        invariant
            i <= step@.len(),
            copy@ =~= step@.take(i as int),
        decreases step@.len() - i,
    {
        copy.push(step[i]);
        i += 1;
    }
    assert(step@.take(i as int) =~= step@);
    copy
}

/// One instruction cycle. From the first fetch step, the sequencer shows
/// the three fetch steps and then the execute steps of the instruction
/// that was in the instruction register when the fetch steps had just been
/// passed, in order. The register is decoded at that advance and at no
/// other: what it holds at the other advances changes nothing. After as
/// many advances as the cycle has steps the sequencer is back at the first
/// fetch step.
pub proof fn lemma_instruction_cycle(start: SequencerState, instructions: Seq<Seq<bool>>)
    requires
        start.step == 0,
        instructions.len() == 3 + decoded_program(instructions[2]).len(),
    ensures
        forall|k: int|
            0 <= k < 3 ==> (#[trigger] start.advance_all(instructions.take(k))).controls()
                == fetch_program()[k],
        forall|k: int|
            3 <= k < instructions.len() ==> (#[trigger] start.advance_all(
                instructions.take(k),
            )).controls() == decoded_program(instructions[2])[k - 3],
        forall|k: int|
            0 <= k < 3 ==> (#[trigger] start.advance_all(instructions.take(k))).program
                == start.program,
        forall|k: int|
            3 <= k <= instructions.len() ==> (#[trigger] start.advance_all(
                instructions.take(k),
            )).program == decoded_program(instructions[2]),
        start.advance_all(instructions).step == 0,
{
    let program = decoded_program(instructions[2]);
    assert forall|k: int| 0 <= k <= instructions.len() implies {
        let state = #[trigger] start.advance_all(instructions.take(k));
        &&& state.step == (if k == instructions.len() {
            0
        } else {
            k
        })
        &&& state.program == (if k < 3 {
            start.program
        } else {
            program
        })
    } by {
        lemma_cycle_prefix(start, instructions, k);
    }
    assert(instructions.take(instructions.len() as int) =~= instructions);
}

/// Where the sequencer stands after the first `k` advances of a cycle.
proof fn lemma_cycle_prefix(start: SequencerState, instructions: Seq<Seq<bool>>, k: int)
    requires
        start.step == 0,
        instructions.len() == 3 + decoded_program(instructions[2]).len(),
        0 <= k <= instructions.len(),
    ensures
        start.advance_all(instructions.take(k)).step == (if k == instructions.len() {
            0
        } else {
            k
        }),
        start.advance_all(instructions.take(k)).program == (if k < 3 {
            start.program
        } else {
            decoded_program(instructions[2])
        }),
    decreases k,
{
    if k > 0 {
        lemma_cycle_prefix(start, instructions, k - 1);
        assert(instructions.take(k).drop_last() =~= instructions.take(k - 1));
        assert(instructions.take(k).last() == instructions[k - 1]);
    }
}

} // verus!
