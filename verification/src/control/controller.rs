use crate::control::control::ControlLine;
use crate::control::links::ControlLinks;
use crate::control::sequencer::{Sequencer, SequencerState};
use crate::link::{with_endpoint, with_state, Callback};
use crate::memory::register::RWRegister;
use vstd::prelude::*;

verus! {

/// The owner under which the controller asserts the control lines.
pub open spec fn controller_owner() -> Seq<char> {
    "CONTROLLER"@
}

/// The endpoints of `line` after the controller has set its endpoint on
/// each line of `step` to `state`: the lines that `step` does not name
/// stay as they are.
pub open spec fn line_after_drive(
    endpoints: Map<Seq<char>, bool>,
    line: ControlLine,
    step: Seq<ControlLine>,
    state: bool,
) -> Map<Seq<char>, bool> {
    if step.contains(line) {
        with_state(endpoints, controller_owner(), state)
    } else {
        endpoints
    }
}

/// The callbacks that setting an endpoint on each line of `step` reports,
/// in the order of the lines.
pub open spec fn fired_by(control_links: ControlLinks, step: Seq<ControlLine>) -> Seq<Callback>
    decreases step.len(),
{
    if step.len() == 0 {
        seq![]
    } else {
        fired_by(control_links, step.drop_last()) + control_links.callbacks(step.last())
    }
}

/// Asserts the control lines of the current microcode step while the clock
/// is high, and releases them when it goes low.
pub struct Controller {
    sequencer: Sequencer,
}

impl View for Controller {
    type V = SequencerState;

    closed spec fn view(&self) -> SequencerState {
        self.sequencer@
    }
}

impl Controller {
    /// The sequencer is well-formed.
    pub closed spec fn wf(&self) -> bool {
        self.sequencer.wf()
    }

    /// A controller at the first fetch step. It registers its endpoint on
    /// every control line.
    pub fn new(control_links: &mut ControlLinks, sequencer: Sequencer) -> (controller: Self)
        requires
            old(control_links).wf(),
            sequencer.wf(),
        ensures
            final(control_links).wf(),
            controller.wf(),
            controller@ == sequencer@,
            forall|line: ControlLine| #[trigger]
                final(control_links).endpoints(line) == with_endpoint(
                    old(control_links).endpoints(line),
                    controller_owner(),
                ),
            forall|line: ControlLine| #[trigger]
                final(control_links).callbacks(line) == old(control_links).callbacks(line),
    {
        let lines = ControlLine::all();
        let mut n: usize = 0;
        while n < lines.len()
            invariant
                lines@.len() == 18,
                forall|k: int| 0 <= k < 18 ==> lines@[k] == ControlLine::at(k as nat),
                n <= 18,
                control_links.wf(),
                forall|line: ControlLine| #[trigger]
                    control_links.endpoints(line) == (if line.number() < n {
                        with_endpoint(old(control_links).endpoints(line), controller_owner())
                    } else {
                        old(control_links).endpoints(line)
                    }),
                forall|line: ControlLine| #[trigger]
                    control_links.callbacks(line) == old(control_links).callbacks(line),
            decreases 18 - n,
        {
            let line = lines[n];
            control_links.add_endpoint(line, "CONTROLLER".to_owned());
            n += 1;
        }
        Self { sequencer }
    }

    /// The sequencer of the controller.
    pub fn sequencer(&self) -> (sequencer: &Sequencer)
        ensures
            sequencer@ == self@,
            sequencer.wf() == self.wf(),
    {
        &self.sequencer
    }

    /// Sets the controller's endpoint on each line of `microcode_step` to
    /// `state`, and hands back the callbacks that the links report.
    pub fn drive_step_controls(
        &mut self,
        control_links: &mut ControlLinks,
        microcode_step: Vec<ControlLine>,
        state: bool,
    ) -> (fired: Vec<Callback>)
        requires
            old(control_links).wf(),
        ensures
            final(control_links).wf(),
            *final(self) == *old(self),
            forall|line: ControlLine| #[trigger]
                final(control_links).endpoints(line) == line_after_drive(
                    old(control_links).endpoints(line),
                    line,
                    microcode_step@,
                    state,
                ),
            forall|line: ControlLine| #[trigger]
                final(control_links).callbacks(line) == old(control_links).callbacks(line),
            fired@ == fired_by(*old(control_links), microcode_step@),
    {
        let mut fired: Vec<Callback> = Vec::new();
        let mut n: usize = 0;
        assert(microcode_step@.take(0) =~= Seq::<ControlLine>::empty());
        while n < microcode_step.len()
            invariant
                n <= microcode_step@.len(),
                control_links.wf(),
                forall|line: ControlLine| #[trigger]
                    control_links.endpoints(line) == line_after_drive(
                        old(control_links).endpoints(line),
                        line,
                        microcode_step@.take(n as int),
                        state,
                    ),
                forall|line: ControlLine| #[trigger]
                    control_links.callbacks(line) == old(control_links).callbacks(line),
                fired@ == fired_by(*old(control_links), microcode_step@.take(n as int)),
            decreases microcode_step@.len() - n,
        {
            let control = microcode_step[n];
            let ghost before = *control_links;
            let mut reported = control_links.set_endpoint(control, "CONTROLLER".to_owned(), state);
            proof {
                let done = microcode_step@.take(n as int);
                let next = microcode_step@.take(n + 1);
                assert(next.drop_last() =~= done);
                assert(next.last() == control);
                assert forall|line: ControlLine| #[trigger]
                    control_links.endpoints(line) == line_after_drive(
                        old(control_links).endpoints(line),
                        line,
                        next,
                        state,
                    ) by {
                    assert(before.endpoints(line) == line_after_drive(
                        old(control_links).endpoints(line),
                        line,
                        done,
                        state,
                    ));
                    if done.contains(line) {
                        let k = choose|k: int| 0 <= k < done.len() && done[k] == line;
                        assert(next[k] == line);
                    }
                    if next.contains(line) && line != control {
                        let k = choose|k: int| 0 <= k < next.len() && next[k] == line;
                        assert(done[k] == line);
                    }
                    if line == control {
                        assert(next[n as int] == line);
                    }
                }
            }
            fired.append(&mut reported);
            n += 1;
        }
        assert(microcode_step@.take(n as int) =~= microcode_step@);
        fired
    }

    /// The high phase: asserts the lines of the current step.
    pub fn on_clock_high(&mut self, control_links: &mut ControlLinks) -> (fired: Vec<Callback>)
        requires
            old(self).wf(),
            old(control_links).wf(),
        ensures
            final(control_links).wf(),
            *final(self) == *old(self),
            forall|line: ControlLine| #[trigger]
                final(control_links).endpoints(line) == line_after_drive(
                    old(control_links).endpoints(line),
                    line,
                    old(self)@.controls(),
                    true,
                ),
            forall|line: ControlLine| #[trigger]
                final(control_links).callbacks(line) == old(control_links).callbacks(line),
            fired@ == fired_by(*old(control_links), old(self)@.controls()),
    {
        let step_controls = self.sequencer.get_current_step_controls();
        self.drive_step_controls(control_links, step_controls, true)
    }

    /// The low phase: releases the lines of the current step, then moves
    /// the sequencer on by one step, with `ir` as the instruction register.
    pub fn on_clock_low(&mut self, control_links: &mut ControlLinks, ir: &RWRegister) -> (fired: Vec<
        Callback,
    >)
        requires
            old(self).wf(),
            old(control_links).wf(),
        ensures
            final(control_links).wf(),
            final(self).wf(),
            final(self)@ == old(self)@.advance(ir@),
            forall|line: ControlLine| #[trigger]
                final(control_links).endpoints(line) == line_after_drive(
                    old(control_links).endpoints(line),
                    line,
                    old(self)@.controls(),
                    false,
                ),
            forall|line: ControlLine| #[trigger]
                final(control_links).callbacks(line) == old(control_links).callbacks(line),
            fired@ == fired_by(*old(control_links), old(self)@.controls()),
    {
        let step_controls = self.sequencer.get_current_step_controls();
        let fired = self.drive_step_controls(control_links, step_controls, false);
        self.sequencer.increment_step(ir);
        fired
    }
}

} // verus!
