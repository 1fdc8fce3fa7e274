//! Adapters that follow the TAP state machine by themselves, and the full
//! adapter that the library builds on top of one of them.

use crate::bits::BitStream;
use crate::fsm::JTAGState;
use crate::native::{
    action_views, admissible_all, lands_all, lemma_via_single, output_views, outputs_from, ran,
    zeros, ActionView, AdapterModel, JTAGAction, JTAGAdapter, JTAGAdapterState, JTAGOutput,
    OutputView, Step,
};
use vstd::prelude::*;

verus! {

/// Trait for JTAG adapters that can automatically follow the JTAG state
/// machine
pub trait StateTrackingJTAGAdapter {
    /// The state in which the adapter knows the TAP controller to be.
    open spec fn tap_state(&self) -> JTAGState {
        arbitrary()
    }

    /// The actions that the adapter has run so far, oldest first, each with
    /// its output.
    open spec fn action_trace(&self) -> Seq<Step> {
        arbitrary()
    }

    /// Execute the given JTAG action and return its result.
    ///
    /// The following actions are valid for this type of adapter:
    /// * [JTAGAction::DelayNS]
    /// * [JTAGAction::SetClkSpeed]
    /// * [JTAGAction::ResetToTLR]
    /// * [JTAGAction::GoViaStates]
    /// * [JTAGAction::ShiftBits]
    fn execute_stjtag_action(&mut self, action: &JTAGAction) -> (out: JTAGOutput)
        requires
            action@.is_primitive(),
            action@.admissible(old(self).tap_state()),
        ensures
            final(self).tap_state() == action@.lands(old(self).tap_state()),
            action@.yields(out@),
            final(self).action_trace() == old(self).action_trace().push(
                Step { action: action@, output: out@ },
            ),
    ;
}

/// Whether the record `trace` holds, from position `start` on, the primitive
/// actions that `action` stands for, in order, each with an output that it
/// can give, and `out` is the output of the one that answers for `action`.
pub open spec fn lowered_at(
    action: ActionView,
    out: OutputView,
    trace: Seq<Step>,
    start: nat,
) -> bool {
    let primitives = action.lowered();
    &&& forall|k: int|
        0 <= k < primitives.len() ==> trace[start + k].action == #[trigger] primitives[k]
            && primitives[k].yields(trace[start + k].output)
    &&& out == match action.answering() {
        Some(k) => trace[start + k].output,
        None => OutputView::NoData,
    }
}

/// The number of primitive actions that `actions` stand for.
pub open spec fn lowered_len(actions: Seq<ActionView>) -> nat
    decreases actions.len(),
{
    if actions.len() == 0 {
        0
    } else {
        lowered_len(actions.drop_last()) + actions.last().lowered().len()
    }
}

/// Whether the record `after` is the record `before` with the primitive
/// actions added that each of `actions` stands for, one action after the
/// other, and `outs` holds the output of each.
pub open spec fn lowered_run(
    actions: Seq<ActionView>,
    outs: Seq<OutputView>,
    before: Seq<Step>,
    after: Seq<Step>,
) -> bool {
    &&& outs.len() == actions.len()
    &&& after.len() == before.len() + lowered_len(actions)
    &&& after.take(before.len() as int) == before
    &&& forall|i: int|
        0 <= i < actions.len() ==> lowered_at(
            #[trigger] actions[i],
            outs[i],
            after,
            before.len() + lowered_len(actions.take(i)),
        )
}

/// The first actions of a list stand for no more primitive actions than
/// the whole list.
pub proof fn lemma_lowered_len_grows(actions: Seq<ActionView>, j: int, k: int)
    requires
        0 <= j <= k <= actions.len(),
    ensures
        lowered_len(actions.take(j)) <= lowered_len(actions.take(k)),
    decreases k - j,
{
    if j < k {
        assert(actions.take(k).drop_last() =~= actions.take(k - 1));
        lemma_lowered_len_grows(actions, j, k - 1);
    }
}

/// Where a list of actions can be run, so can each of them where the ones
/// before it leave the controller.
pub proof fn lemma_admissible_each(at: JTAGState, actions: Seq<ActionView>, i: int)
    requires
        admissible_all(at, actions),
        0 <= i < actions.len(),
    ensures
        actions[i].admissible(lands_all(at, actions.take(i))),
    decreases actions.len(),
{
    if i == actions.len() - 1 {
        assert(actions.take(i) =~= actions.drop_last());
    } else {
        assert(actions.drop_last().take(i) =~= actions.take(i));
        lemma_admissible_each(at, actions.drop_last(), i);
    }
}

/// One more action, run after others, adds one step to the record and
/// one output to the outputs.
pub proof fn lemma_ran_extends(
    before: Seq<Step>,
    so_far: Seq<Step>,
    actions: Seq<ActionView>,
    outs: Seq<OutputView>,
    action: ActionView,
    out: OutputView,
)
    requires
        ran(before, so_far, actions),
        outs == outputs_from(so_far, before.len()),
        action.yields(out),
    ensures
        ran(before, so_far.push(Step { action, output: out }), actions.push(action)),
        outs.push(out) == outputs_from(so_far.push(Step { action, output: out }), before.len()),
{
    let now = so_far.push(Step { action, output: out });
    let done = actions.push(action);
    let outs_now = outs.push(out);
    assert(now.take(before.len() as int) =~= so_far.take(before.len() as int));
    assert forall|j: int| 0 <= j < done.len() implies now[before.len() + j].action
        == #[trigger] done[j] && done[j].yields(now[before.len() + j].output) by {
        if j < actions.len() {
            assert(actions[j] == done[j]);
            assert(now[before.len() + j] == so_far[before.len() + j]);
        }
    }
    assert(outs_now =~= outputs_from(now, before.len())) by {
        assert forall|j: int| 0 <= j < outs_now.len() implies outs_now[j] == outputs_from(
            now,
            before.len(),
        )[j] by {
            if j < outs.len() {
                assert(outs[j] == outputs_from(so_far, before.len())[j]);
                assert(now[before.len() + j] == so_far[before.len() + j]);
            }
        }
    }
}

/// What a record holds of an action stays so when the record grows.
pub proof fn lemma_lowered_at_stays(
    action: ActionView,
    out: OutputView,
    so_far: Seq<Step>,
    now: Seq<Step>,
    start: nat,
)
    requires
        lowered_at(action, out, so_far, start),
        start + action.lowered().len() <= so_far.len() <= now.len(),
        now.take(so_far.len() as int) == so_far,
    ensures
        lowered_at(action, out, now, start),
{
    let primitives = action.lowered();
    assert forall|k: int| 0 <= k < primitives.len() implies now[start + k].action
        == #[trigger] primitives[k] && primitives[k].yields(now[start + k].output) by {
        assert(now.take(so_far.len() as int)[start + k] == now[start + k]);
    }
    if action.answering() is Some {
        let k = action.answering()->Some_0;
        assert(0 <= k < primitives.len());
        assert(now.take(so_far.len() as int)[start + k] == now[start + k]);
    }
}

/// The primitive actions that the first `j + 1` of a list of actions stand
/// for are those of the first `j` and those of the action at `j`.
pub proof fn lemma_lowered_len_step(actions: Seq<ActionView>, j: int)
    requires
        0 <= j < actions.len(),
    ensures
        lowered_len(actions.take(j + 1)) == lowered_len(actions.take(j))
            + actions[j].lowered().len(),
        lowered_len(actions.take(j + 1)) <= lowered_len(actions),
{
    assert(actions.take(j + 1).drop_last() =~= actions.take(j));
    lemma_lowered_len_grows(actions, j + 1, actions.len() as int);
    assert(actions.take(actions.len() as int) =~= actions);
}

/// One more action, run after others, adds the primitive actions that it
/// stands for to those that the others stood for.
pub proof fn lemma_lowered_run_extends(
    actions: Seq<ActionView>,
    outs: Seq<OutputView>,
    before: Seq<Step>,
    so_far: Seq<Step>,
    action: ActionView,
    out: OutputView,
    now: Seq<Step>,
)
    requires
        lowered_run(actions, outs, before, so_far),
        now.len() == so_far.len() + action.lowered().len(),
        now.take(so_far.len() as int) == so_far,
        lowered_at(action, out, now, so_far.len()),
    ensures
        lowered_run(actions.push(action), outs.push(out), before, now),
{
    let done = actions.push(action);
    let outs_now = outs.push(out);
    assert(done.drop_last() =~= actions);
    assert(now.take(before.len() as int) =~= so_far.take(before.len() as int));
    assert forall|j: int| 0 <= j < done.len() implies lowered_at(
        #[trigger] done[j],
        outs_now[j],
        now,
        before.len() + lowered_len(done.take(j)),
    ) by {
        assert(done.take(j) =~= actions.take(j));
        if j < actions.len() {
            assert(actions[j] == done[j]);
            lemma_lowered_len_step(actions, j);
            lemma_lowered_at_stays(
                actions[j],
                outs[j],
                so_far,
                now,
                before.len() + lowered_len(actions.take(j)),
            );
        } else {
            assert(actions.take(j) =~= actions);
        }
    }
}

/// A state-tracking adapter made into a full adapter: it queues actions,
/// and runs each as the primitive actions that it stands for.
pub struct BufferedStateTracker<S: StateTrackingJTAGAdapter> {
    /// The adapter that runs the primitive actions.
    pub tracker: S,
    /// What is kept between calls.
    pub state: JTAGAdapterState,
    /// The actions run so far.
    pub trace: Ghost<Seq<Step>>,
}

/// The action that walks to one state.
fn go_to(state: JTAGState) -> (action: JTAGAction)
    ensures
        action@ == ActionView::GoViaStates(seq![state]),
{
    let mut states: Vec<JTAGState> = Vec::new();
    states.push(state);
    proof {
        assert(states@ =~= seq![state]);
    }
    JTAGAction::GoViaStates(states)
}

impl<S: StateTrackingJTAGAdapter> BufferedStateTracker<S> {
    /// Wraps a state-tracking adapter; nothing is queued.
    pub fn new(tracker: S) -> (adapter: Self)
        ensures
            adapter.tracker == tracker,
            adapter.state.queued_actions@.len() == 0,
            adapter.trace@ == Seq::<Step>::empty(),
    {
        Self { tracker, state: JTAGAdapterState::new(), trace: Ghost(Seq::empty()) }
    }

    /// Walks to a shift state, shifts `bits` through the register with
    /// TMS=1 on the last bit, and walks on to `rest`. Returns what the shift
    /// gave.
    fn shift_through(
        &mut self,
        shift_state: JTAGState,
        bits: BitStream,
        capture: bool,
        rest: JTAGState,
    ) -> (out: JTAGOutput)
        requires
            shift_state.is_shift(),
        ensures
            final(self).state == old(self).state,
            final(self).trace == old(self).trace,
            final(self).tracker.tap_state() == rest,
            final(self).tracker.action_trace() == old(self).tracker.action_trace().push(
                Step {
                    action: ActionView::GoViaStates(seq![shift_state]),
                    output: OutputView::NoData,
                },
            ).push(
                Step {
                    action: ActionView::ShiftBits { bits_tdi: bits@, capture, tms_exit: true },
                    output: out@,
                },
            ).push(
                Step { action: ActionView::GoViaStates(seq![rest]), output: OutputView::NoData },
            ),
            (ActionView::ShiftBits { bits_tdi: bits@, capture, tms_exit: true }).yields(out@),
    {
        proof {
            lemma_via_single(self.tracker.tap_state(), shift_state);
        }
        self.tracker.execute_stjtag_action(&go_to(shift_state));
        let ret = self.tracker.execute_stjtag_action(
            &JTAGAction::ShiftBits { bits_tdi: bits, capture, tms_exit: true },
        );
        proof {
            lemma_via_single(self.tracker.tap_state(), rest);
        }
        self.tracker.execute_stjtag_action(&go_to(rest));
        ret
    }

    /// Runs one action as the primitive actions that it stands for.
    fn execute_action(&mut self, action: &JTAGAction) -> (out: JTAGOutput)
        requires
            action@.admissible(old(self).tracker.tap_state()),
        ensures
            final(self).state == old(self).state,
            final(self).trace == old(self).trace,
            final(self).tracker.tap_state() == action@.lands(old(self).tracker.tap_state()),
            action@.yields(out@),
            final(self).tracker.action_trace().len() == old(self).tracker.action_trace().len()
                + action@.lowered().len(),
            final(self).tracker.action_trace().take(old(self).tracker.action_trace().len() as int)
                == old(self).tracker.action_trace(),
            lowered_at(
                action@,
                out@,
                final(self).tracker.action_trace(),
                old(self).tracker.action_trace().len(),
            ),
    {
        let ghost before = self.tracker.action_trace();
        let out = match action {
            JTAGAction::DelayNS(..)
            | JTAGAction::SetClkSpeed(..)
            | JTAGAction::ResetToTLR
            | JTAGAction::GoViaStates(..)
            | JTAGAction::ShiftBits { .. } => self.tracker.execute_stjtag_action(action),
            JTAGAction::ShiftIR { ir, capture, pause } => {
                let rest = if *pause {
                    JTAGState::PauseIR
                } else {
                    JTAGState::RunTestIdle
                };
                self.shift_through(JTAGState::ShiftIR, ir.clone(), *capture, rest)
            },
            JTAGAction::ShiftDR { dr, capture, pause } => {
                let rest = if *pause {
                    JTAGState::PauseDR
                } else {
                    JTAGState::RunTestIdle
                };
                self.shift_through(JTAGState::ShiftDR, dr.clone(), *capture, rest)
            },
            JTAGAction::SetIR(ir) => {
                self.shift_through(JTAGState::ShiftIR, ir.clone(), false, JTAGState::RunTestIdle);
                JTAGOutput::NoData
            },
            JTAGAction::ReadReg { ir, drlen } => {
                self.shift_through(JTAGState::ShiftIR, ir.clone(), false, JTAGState::RunTestIdle);
                let dr = BitStream::repeat(false, *drlen);
                proof {
                    assert(dr@ =~= zeros(*drlen as nat));
                }
                self.shift_through(JTAGState::ShiftDR, dr, true, JTAGState::RunTestIdle)
            },
            JTAGAction::WriteReg { ir, dr } => {
                self.shift_through(JTAGState::ShiftIR, ir.clone(), false, JTAGState::RunTestIdle);
                self.shift_through(JTAGState::ShiftDR, dr.clone(), false, JTAGState::RunTestIdle);
                JTAGOutput::NoData
            },
        };
        proof {
            let after = self.tracker.action_trace();
            assert(after.take(before.len() as int) =~= before);
        }
        out
    }
}

impl<S: StateTrackingJTAGAdapter> JTAGAdapter for BufferedStateTracker<S> {
    open spec fn model(&self) -> AdapterModel {
        AdapterModel {
            queued: action_views(self.state.queued_actions@),
            tap_state: self.tracker.tap_state(),
            trace: self.trace@,
        }
    }

    fn jtag_state_mut(&mut self) -> (state: &mut JTAGAdapterState)
        ensures
            final(self).tracker == old(self).tracker,
    {
        &mut self.state
    }

    /// Each action is run as the primitive actions that it stands for, and
    /// its output is that of the one that answers for it: a primitive action
    /// is handed on as it is; a shift through a register is a walk to the
    /// shift state, the shift, and a walk to where it shall rest; a register
    /// is read or written after the instruction was set.
    fn execute_actions(&mut self, actions: &[JTAGAction]) -> (outs: Vec<JTAGOutput>)
        ensures
            lowered_run(
                action_views(actions@),
                output_views(outs@),
                old(self).tracker.action_trace(),
                final(self).tracker.action_trace(),
            ),
    {
        let ghost views = action_views(actions@);
        let ghost at = self.tracker.tap_state();
        let ghost before = self.tracker.action_trace();
        let ghost ran_before = self.trace@;
        let mut outs: Vec<JTAGOutput> = Vec::new();
        let mut i: usize = 0;
        proof {
            assert(views.take(0) =~= Seq::<ActionView>::empty());
            assert(before.take(before.len() as int) =~= before);
            assert(ran_before.take(ran_before.len() as int) =~= ran_before);
            assert(output_views(outs@) =~= outputs_from(ran_before, ran_before.len()));
        }
        while i < actions.len()
            invariant
                i <= actions@.len(),
                views == action_views(actions@),
                at == old(self).tracker.tap_state(),
                before == old(self).tracker.action_trace(),
                ran_before == old(self).trace@,
                admissible_all(at, views),
                self.state == old(self).state,
                self.tracker.tap_state() == lands_all(at, views.take(i as int)),
                ran(ran_before, self.trace@, views.take(i as int)),
                output_views(outs@) == outputs_from(self.trace@, ran_before.len()),
                lowered_run(
                    views.take(i as int),
                    output_views(outs@),
                    before,
                    self.tracker.action_trace(),
                ),
            decreases actions@.len() - i,
        {
            let ghost so_far = self.tracker.action_trace();
            let ghost ran_so_far = self.trace@;
            let ghost outs_so_far = output_views(outs@);
            proof {
                lemma_admissible_each(at, views, i as int);
            }
            let out = self.execute_action(&actions[i]);
            proof {
                self.trace@ = self.trace@.push(Step { action: views[i as int], output: out@ });
            }
            outs.push(out);
            i += 1;
            proof {
                assert(output_views(outs@) =~= outs_so_far.push(out@));
                assert(views.take(i as int) =~= views.take(i - 1).push(views[i - 1]));
                assert(views.take(i as int).drop_last() =~= views.take(i - 1));
                lemma_ran_extends(
                    ran_before,
                    ran_so_far,
                    views.take(i - 1),
                    outs_so_far,
                    views[i - 1],
                    out@,
                );
                lemma_lowered_run_extends(
                    views.take(i - 1),
                    outs_so_far,
                    before,
                    so_far,
                    views[i - 1],
                    out@,
                    self.tracker.action_trace(),
                );
            }
        }
        proof {
            assert(views.take(i as int) =~= views);
        }
        outs
    }
}

} // verus!
