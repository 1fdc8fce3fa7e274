//! The actions that a JTAG adapter accepts, what they return, and the
//! interface of a full adapter: one that buffers actions, runs them in
//! order and hands back one output for each.

use crate::bits::{BitStream, MAX_BITS};
use crate::fsm::{
    lemma_distance_bounds, lemma_reset_reaches_tlr, lemma_route_length, lemma_route_reaches,
    lemma_shift_stays, lemma_walk_concat, route, walk, JTAGState,
};
use vstd::pervasive::unreached;
use vstd::slice::slice_to_vec;
use vstd::prelude::*;

verus! {

/// Represents all possible actions that can be performed on a JTAG adapter
#[derive(Clone, Eq, PartialEq, Debug, Hash)]
#[non_exhaustive]
pub enum JTAGAction {
    /// Wait for a given number of nanoseconds
    DelayNS(u64),
    /// Set the JTAG clock speed in Hz
    SetClkSpeed(u64),
    /// Send 5 TMS=1 transitions, bringing the TAP to Test-Logic-Reset starting
    /// from any state
    ResetToTLR,
    /// Transition the TAP through the specified states via the shortest
    /// possible path
    GoViaStates(Vec<JTAGState>),
    /// Shift `bits_tdi` into the TDI pin. If `capture` is `true`, TDO data
    /// will be captured. If `tms_exit` is `true`, the final bit will be
    /// shifted with TMS=1 (which would cause a transition from Shift-IR/DR
    /// to Exit1-IR/DR). Otherwise, the final bit will be shifted with TMS=0.
    /// All other bits will be shifted with TMS=0.
    ShiftBits { bits_tdi: BitStream, capture: bool, tms_exit: bool },
    /// Take the TAP from its current state to Shift-IR, then shift in the
    /// data from `ir` while capturing data if `capture` is `true`. If
    /// `pause` is `false`, then take the TAP to Run-Test/Idle. Otherwise,
    /// take the TAP to Pause-IR.
    ShiftIR { ir: BitStream, capture: bool, pause: bool },
    /// Take the TAP from its current state to Shift-DR, then shift in the
    /// data from `dr` while capturing data if `capture` is `true`. If
    /// `pause` is `false`, then take the TAP to Run-Test/Idle. Otherwise,
    /// take the TAP to Pause-DR.
    ShiftDR { dr: BitStream, capture: bool, pause: bool },
    /// Take the TAP to Shift-IR, shift in this value, and then take the TAP
    /// to Run-Test/Idle.
    SetIR(BitStream),
    /// Set the current IR to `ir`, and then take the TAP to Shift-DR.
    /// Capture `drlen` bits of data while shifting in zeros, and then take
    /// the TAP to Run-Test/Idle.
    ReadReg { ir: BitStream, drlen: usize },
    /// Set the current IR to `ir`, and then take the TAP to Shift-DR. Shift
    /// in the data from `dr`, and then take the TAP to Run-Test/Idle.
    WriteReg { ir: BitStream, dr: BitStream },
}

/// Represents possible results from performing JTAG actions
#[derive(Clone, Eq, PartialEq, Debug, Hash)]
#[non_exhaustive]
pub enum JTAGOutput {
    /// No data was stored for the corresponding JTAG action
    NoData,
    /// Captured TDO data for the corresponding JTAG action
    CapturedBits(BitStream),
    /// Actual number of nanoseconds delayed by a `DelayNS` command
    ActualDelay(u64),
    /// Actual clock speed in Hz set by a `SetClkSpeed` command
    ActualClkSpeed(u64),
}

/// What an action says, with its bit streams as sequences of bits.
pub enum ActionView {
    DelayNS(u64),
    SetClkSpeed(u64),
    ResetToTLR,
    GoViaStates(Seq<JTAGState>),
    ShiftBits { bits_tdi: Seq<bool>, capture: bool, tms_exit: bool },
    ShiftIR { ir: Seq<bool>, capture: bool, pause: bool },
    ShiftDR { dr: Seq<bool>, capture: bool, pause: bool },
    SetIR(Seq<bool>),
    ReadReg { ir: Seq<bool>, drlen: nat },
    WriteReg { ir: Seq<bool>, dr: Seq<bool> },
}

/// What an output says, with its bit stream as a sequence of bits.
pub enum OutputView {
    NoData,
    CapturedBits(Seq<bool>),
    ActualDelay(u64),
    ActualClkSpeed(u64),
}

/// One action that an adapter has run, with the output that it gave.
pub struct Step {
    pub action: ActionView,
    pub output: OutputView,
}

impl View for JTAGAction {
    type V = ActionView;

    open spec fn view(&self) -> ActionView {
        match *self {
            JTAGAction::DelayNS(ns) => ActionView::DelayNS(ns),
            JTAGAction::SetClkSpeed(clk_hz) => ActionView::SetClkSpeed(clk_hz),
            JTAGAction::ResetToTLR => ActionView::ResetToTLR,
            JTAGAction::GoViaStates(states) => ActionView::GoViaStates(states@),
            JTAGAction::ShiftBits { bits_tdi, capture, tms_exit } => ActionView::ShiftBits {
                bits_tdi: bits_tdi@,
                capture,
                tms_exit,
            },
            JTAGAction::ShiftIR { ir, capture, pause } => ActionView::ShiftIR {
                ir: ir@,
                capture,
                pause,
            },
            JTAGAction::ShiftDR { dr, capture, pause } => ActionView::ShiftDR {
                dr: dr@,
                capture,
                pause,
            },
            JTAGAction::SetIR(ir) => ActionView::SetIR(ir@),
            JTAGAction::ReadReg { ir, drlen } => ActionView::ReadReg {
                ir: ir@,
                drlen: drlen as nat,
            },
            JTAGAction::WriteReg { ir, dr } => ActionView::WriteReg { ir: ir@, dr: dr@ },
        }
    }
}

impl View for JTAGOutput {
    type V = OutputView;

    open spec fn view(&self) -> OutputView {
        match *self {
            JTAGOutput::NoData => OutputView::NoData,
            JTAGOutput::CapturedBits(bits) => OutputView::CapturedBits(bits@),
            JTAGOutput::ActualDelay(ns) => OutputView::ActualDelay(ns),
            JTAGOutput::ActualClkSpeed(clk_hz) => OutputView::ActualClkSpeed(clk_hz),
        }
    }
}

/// The views of a list of actions.
pub open spec fn action_views(actions: Seq<JTAGAction>) -> Seq<ActionView> {
    Seq::new(actions.len(), |i: int| actions[i]@)
}

/// The views of a list of outputs.
pub open spec fn output_views(outputs: Seq<JTAGOutput>) -> Seq<OutputView> {
    Seq::new(outputs.len(), |i: int| outputs[i]@)
}

/// `n` bits of 0.
pub open spec fn zeros(n: nat) -> Seq<bool> {
    Seq::new(n, |i: int| false)
}

/// `n` bits of 1.
pub open spec fn ones(n: nat) -> Seq<bool> {
    Seq::new(n, |i: int| true)
}

/// The state in which a walk through `states` ends, begun in `from`.
pub open spec fn via_end(from: JTAGState, states: Seq<JTAGState>) -> JTAGState {
    if states.len() == 0 {
        from
    } else {
        states.last()
    }
}

/// The TMS values that take the controller from `from` through each of
/// `states` in turn, by the shortest way from each to the next.
pub open spec fn via_route(from: JTAGState, states: Seq<JTAGState>) -> Seq<bool>
    decreases states.len(),
{
    if states.len() == 0 {
        Seq::<bool>::empty()
    } else {
        via_route(from, states.drop_last()) + route(
            via_end(from, states.drop_last()),
            states.last(),
        )
    }
}

/// The TMS values that go with the TDI bits of one shift: 0 throughout,
/// but for the last, which is 1 where the shift leaves the shift state.
pub open spec fn shift_tms(len: nat, tms_exit: bool) -> Seq<bool> {
    Seq::new(len, |i: int| tms_exit && i == len - 1)
}

impl ActionView {
    /// Whether a state-tracking adapter accepts the action as it is.
    pub open spec fn is_primitive(self) -> bool {
        self is DelayNS || self is SetClkSpeed || self is ResetToTLR || self is GoViaStates
            || self is ShiftBits
    }

    /// The primitive actions that the action stands for, in the order in
    /// which they run.
    pub open spec fn lowered(self) -> Seq<ActionView> {
        match self {
            ActionView::ShiftIR { ir, capture, pause } => seq![
                ActionView::GoViaStates(seq![JTAGState::ShiftIR]),
                ActionView::ShiftBits { bits_tdi: ir, capture, tms_exit: true },
                ActionView::GoViaStates(
                    seq![if pause {
                        JTAGState::PauseIR
                    } else {
                        JTAGState::RunTestIdle
                    }],
                ),
            ],
            ActionView::ShiftDR { dr, capture, pause } => seq![
                ActionView::GoViaStates(seq![JTAGState::ShiftDR]),
                ActionView::ShiftBits { bits_tdi: dr, capture, tms_exit: true },
                ActionView::GoViaStates(
                    seq![if pause {
                        JTAGState::PauseDR
                    } else {
                        JTAGState::RunTestIdle
                    }],
                ),
            ],
            ActionView::SetIR(ir) => seq![
                ActionView::GoViaStates(seq![JTAGState::ShiftIR]),
                ActionView::ShiftBits { bits_tdi: ir, capture: false, tms_exit: true },
                ActionView::GoViaStates(seq![JTAGState::RunTestIdle]),
            ],
            ActionView::ReadReg { ir, drlen } => seq![
                ActionView::GoViaStates(seq![JTAGState::ShiftIR]),
                ActionView::ShiftBits { bits_tdi: ir, capture: false, tms_exit: true },
                ActionView::GoViaStates(seq![JTAGState::RunTestIdle]),
                ActionView::GoViaStates(seq![JTAGState::ShiftDR]),
                ActionView::ShiftBits { bits_tdi: zeros(drlen), capture: true, tms_exit: true },
                ActionView::GoViaStates(seq![JTAGState::RunTestIdle]),
            ],
            ActionView::WriteReg { ir, dr } => seq![
                ActionView::GoViaStates(seq![JTAGState::ShiftIR]),
                ActionView::ShiftBits { bits_tdi: ir, capture: false, tms_exit: true },
                ActionView::GoViaStates(seq![JTAGState::RunTestIdle]),
                ActionView::GoViaStates(seq![JTAGState::ShiftDR]),
                ActionView::ShiftBits { bits_tdi: dr, capture: false, tms_exit: true },
                ActionView::GoViaStates(seq![JTAGState::RunTestIdle]),
            ],
            _ => seq![self],
        }
    }

    /// Which of the primitive actions, counted from 0, gives the action its
    /// output; `None` where the action returns no data whatever they give.
    pub open spec fn answering(self) -> Option<int> {
        match self {
            ActionView::ShiftIR { .. } | ActionView::ShiftDR { .. } => Some(1),
            ActionView::SetIR(_) | ActionView::WriteReg { .. } => None,
            ActionView::ReadReg { .. } => Some(4),
            _ => Some(0),
        }
    }

    /// Whether the action can be run with the controller in state `at`: a
    /// shift needs a shift state, and no stream may grow past what a stream
    /// can hold.
    pub open spec fn admissible(self, at: JTAGState) -> bool {
        match self {
            ActionView::GoViaStates(states) => via_route(at, states).len() <= MAX_BITS,
            ActionView::ShiftBits { .. } => at.is_shift(),
            ActionView::ReadReg { drlen, .. } => drlen <= MAX_BITS,
            _ => true,
        }
    }

    /// The state in which the action leaves the controller, begun in `at`.
    pub open spec fn lands(self, at: JTAGState) -> JTAGState {
        match self {
            ActionView::DelayNS(_) | ActionView::SetClkSpeed(_) => at,
            ActionView::ResetToTLR => JTAGState::TestLogicReset,
            ActionView::GoViaStates(states) => via_end(at, states),
            ActionView::ShiftBits { tms_exit, .. } => at.step(tms_exit),
            ActionView::ShiftIR { pause, .. } => if pause {
                JTAGState::PauseIR
            } else {
                JTAGState::RunTestIdle
            },
            ActionView::ShiftDR { pause, .. } => if pause {
                JTAGState::PauseDR
            } else {
                JTAGState::RunTestIdle
            },
            ActionView::SetIR(_) | ActionView::ReadReg { .. } | ActionView::WriteReg { .. } =>
                JTAGState::RunTestIdle,
        }
    }

    /// Whether `out` is an output that the action can give: of the kind that
    /// belongs to the action, and, where bits were captured, as many as were
    /// shifted.
    pub open spec fn yields(self, out: OutputView) -> bool {
        match self {
            ActionView::DelayNS(_) => out is ActualDelay,
            ActionView::SetClkSpeed(_) => out is ActualClkSpeed,
            ActionView::ShiftBits { bits_tdi, capture: true, .. } => out is CapturedBits
                && out->CapturedBits_0.len() == bits_tdi.len(),
            ActionView::ShiftIR { ir, capture: true, .. } => out is CapturedBits
                && out->CapturedBits_0.len() == ir.len(),
            ActionView::ShiftDR { dr, capture: true, .. } => out is CapturedBits
                && out->CapturedBits_0.len() == dr.len(),
            ActionView::ReadReg { drlen, .. } => out is CapturedBits && out->CapturedBits_0.len()
                == drlen,
            _ => out == OutputView::NoData,
        }
    }

    /// The TMS values that a primitive action clocks out, begun in `at`.
    pub open spec fn tms(self, at: JTAGState) -> Seq<bool> {
        match self {
            ActionView::ResetToTLR => ones(5),
            ActionView::GoViaStates(states) => via_route(at, states),
            ActionView::ShiftBits { bits_tdi, tms_exit, .. } => shift_tms(bits_tdi.len(), tms_exit),
            _ => Seq::<bool>::empty(),
        }
    }
}

/// Whether each of `actions` can be run in turn, the first with the
/// controller in state `at`.
pub open spec fn admissible_all(at: JTAGState, actions: Seq<ActionView>) -> bool
    decreases actions.len(),
{
    actions.len() > 0 ==> admissible_all(at, actions.drop_last()) && actions.last().admissible(
        lands_all(at, actions.drop_last()),
    )
}

/// The state in which `actions`, run in turn, leave the controller, begun in
/// `at`.
pub open spec fn lands_all(at: JTAGState, actions: Seq<ActionView>) -> JTAGState
    decreases actions.len(),
{
    if actions.len() == 0 {
        at
    } else {
        actions.last().lands(lands_all(at, actions.drop_last()))
    }
}

/// Whether the record `after` is the record `before` with one step added
/// for each of `actions`, in order, each with an output that the action can
/// give.
pub open spec fn ran(before: Seq<Step>, after: Seq<Step>, actions: Seq<ActionView>) -> bool {
    &&& after.len() == before.len() + actions.len()
    &&& after.take(before.len() as int) == before
    &&& forall|i: int|
        0 <= i < actions.len() ==> after[before.len() + i].action == #[trigger] actions[i]
            && actions[i].yields(after[before.len() + i].output)
}

/// Running a list of actions is running the first, and then the rest from
/// where the first leaves the controller.
pub proof fn lemma_run_front(at: JTAGState, first: ActionView, rest: Seq<ActionView>)
    ensures
        lands_all(at, seq![first] + rest) == lands_all(first.lands(at), rest),
        admissible_all(at, seq![first] + rest) == (first.admissible(at) && admissible_all(
            first.lands(at),
            rest,
        )),
    decreases rest.len(),
{
    let all = seq![first] + rest;
    let none = Seq::<ActionView>::empty();
    if rest.len() == 0 {
        assert(all.drop_last() =~= none);
        assert(all.last() == first);
        assert(lands_all(at, none) == at);
        assert(admissible_all(at, none));
        assert(admissible_all(first.lands(at), rest));
        assert(admissible_all(at, all) == first.admissible(at));
    } else {
        assert(all.drop_last() =~= seq![first] + rest.drop_last());
        assert(all.last() == rest.last());
        lemma_run_front(at, first, rest.drop_last());
        assert(admissible_all(at, all) == (admissible_all(at, all.drop_last())
            && all.last().admissible(lands_all(at, all.drop_last()))));
        assert(admissible_all(first.lands(at), rest) == (admissible_all(
            first.lands(at),
            rest.drop_last(),
        ) && rest.last().admissible(lands_all(first.lands(at), rest.drop_last()))));
    }
}

/// A walk through a list of states is the shortest way to the first, and
/// then the walk through the rest from there.
pub proof fn lemma_via_route_front(from: JTAGState, first: JTAGState, rest: Seq<JTAGState>)
    ensures
        via_route(from, seq![first] + rest) == route(from, first) + via_route(first, rest),
        via_end(from, seq![first] + rest) == via_end(first, rest),
    decreases rest.len(),
{
    let all = seq![first] + rest;
    if rest.len() == 0 {
        assert(all.drop_last() =~= Seq::<JTAGState>::empty());
        assert(via_route(from, all.drop_last()) =~= Seq::<bool>::empty());
        assert(via_route(from, all) =~= route(from, first) + via_route(first, rest));
    } else {
        assert(all.drop_last() =~= seq![first] + rest.drop_last());
        lemma_via_route_front(from, first, rest.drop_last());
        assert(via_route(from, all) =~= route(from, first) + via_route(first, rest));
    }
}

/// The TMS values that primitive actions clock out when they are run in
/// turn, the first with the controller in state `at`.
pub open spec fn tms_all(at: JTAGState, actions: Seq<ActionView>) -> Seq<bool>
    decreases actions.len(),
{
    if actions.len() == 0 {
        Seq::<bool>::empty()
    } else {
        tms_all(at, actions.drop_last()) + actions.last().tms(lands_all(at, actions.drop_last()))
    }
}

/// Whether `actions` are primitive actions whose shifts each find the
/// controller in a shift state, and shift at least one bit where they leave
/// it; the first action finds the controller in state `at`.
pub open spec fn coherent(at: JTAGState, actions: Seq<ActionView>) -> bool
    decreases actions.len(),
{
    actions.len() > 0 ==> {
        let last = actions.last();
        let before = lands_all(at, actions.drop_last());
        &&& coherent(at, actions.drop_last())
        &&& last.is_primitive()
        &&& last matches ActionView::ShiftBits { bits_tdi, tms_exit, .. } ==> before.is_shift() && (
        tms_exit ==> bits_tdi.len() > 0)
    }
}

/// A walk through a list of states ends in the last of them.
pub proof fn lemma_via_route_reaches(from: JTAGState, states: Seq<JTAGState>)
    ensures
        walk(from, via_route(from, states)) == via_end(from, states),
    decreases states.len(),
{
    if states.len() > 0 {
        let before = states.drop_last();
        lemma_via_route_reaches(from, before);
        lemma_route_reaches(via_end(from, before), states.last());
        lemma_walk_concat(
            from,
            via_route(from, before),
            route(via_end(from, before), states.last()),
        );
    }
}

/// The TMS values of one shift, clocked in a shift state, leave the
/// controller there, or take it out where the last of them is 1.
pub proof fn lemma_shift_tms_walk(at: JTAGState, len: nat, tms_exit: bool)
    requires
        at.is_shift(),
        tms_exit ==> len > 0,
    ensures
        walk(at, shift_tms(len, tms_exit)) == at.step(tms_exit),
{
    let tms = shift_tms(len, tms_exit);
    if len == 0 {
    } else {
        let still = tms.take(len - 1);
        lemma_shift_stays(at, still);
        assert(tms =~= still + seq![tms_exit]);
        lemma_walk_concat(at, still, seq![tms_exit]);
        assert(seq![tms_exit].skip(1) =~= Seq::<bool>::empty());
        assert(walk(at, seq![tms_exit]) == walk(at.step(tms_exit), seq![tms_exit].skip(1)));
    }
}

/// The state that an adapter keeps after a sequence of primitive actions
/// is the state to which the TMS values that they clock out, taken
/// together, bring the TAP controller.
pub proof fn lemma_state_coherence(at: JTAGState, actions: Seq<ActionView>)
    requires
        coherent(at, actions),
    ensures
        walk(at, tms_all(at, actions)) == lands_all(at, actions),
    decreases actions.len(),
{
    if actions.len() > 0 {
        let before = actions.drop_last();
        let last = actions.last();
        let mid = lands_all(at, before);
        lemma_state_coherence(at, before);
        lemma_walk_concat(at, tms_all(at, before), last.tms(mid));
        match last {
            ActionView::ResetToTLR => {
                lemma_reset_reaches_tlr(mid);
            },
            ActionView::GoViaStates(states) => {
                lemma_via_route_reaches(mid, states);
            },
            ActionView::ShiftBits { bits_tdi, tms_exit, .. } => {
                lemma_shift_tms_walk(mid, bits_tdi.len(), tms_exit);
            },
            _ => {},
        }
    }
}

/// One shift of bits through a register: the state in which it is made,
/// the bits, whether TDO is captured, and whether the last bit leaves the
/// shift state.
pub struct ShiftRecord {
    pub at: JTAGState,
    pub bits: Seq<bool>,
    pub capture: bool,
    pub tms_exit: bool,
}

/// The shifts that `actions` make when they are run in turn, the first with
/// the controller in state `at`.
pub open spec fn shifts_of(at: JTAGState, actions: Seq<ActionView>) -> Seq<ShiftRecord>
    decreases actions.len(),
{
    if actions.len() == 0 {
        Seq::<ShiftRecord>::empty()
    } else {
        let before = shifts_of(at, actions.drop_last());
        match actions.last() {
            ActionView::ShiftBits { bits_tdi, capture, tms_exit } => before.push(
                ShiftRecord {
                    at: lands_all(at, actions.drop_last()),
                    bits: bits_tdi,
                    capture,
                    tms_exit,
                },
            ),
            _ => before,
        }
    }
}

/// The plain way to read a register: to Shift-IR, the instruction, to
/// Shift-DR, as many zeros as the register is long, and to Run-Test/Idle.
pub open spec fn read_reg_plainly(ir: Seq<bool>, drlen: nat) -> Seq<ActionView> {
    seq![
        ActionView::GoViaStates(seq![JTAGState::ShiftIR]),
        ActionView::ShiftBits { bits_tdi: ir, capture: false, tms_exit: true },
        ActionView::GoViaStates(seq![JTAGState::ShiftDR]),
        ActionView::ShiftBits { bits_tdi: zeros(drlen), capture: true, tms_exit: true },
        ActionView::GoViaStates(seq![JTAGState::RunTestIdle]),
    ]
}

/// What one more action adds to a run.
pub proof fn lemma_run_push(at: JTAGState, actions: Seq<ActionView>, last: ActionView)
    ensures
        lands_all(at, actions.push(last)) == last.lands(lands_all(at, actions)),
        admissible_all(at, actions.push(last)) == (admissible_all(at, actions) && last.admissible(
            lands_all(at, actions),
        )),
        shifts_of(at, actions.push(last)) == (match last {
            ActionView::ShiftBits { bits_tdi, capture, tms_exit } => shifts_of(at, actions).push(
                ShiftRecord { at: lands_all(at, actions), bits: bits_tdi, capture, tms_exit },
            ),
            _ => shifts_of(at, actions),
        }),
{
    assert(actions.push(last).drop_last() =~= actions);
}

/// A walk through a list of states takes eight cycles for each state at
/// most: with no more states than an eighth of what a stream can hold, it
/// can be run from anywhere.
pub proof fn lemma_via_route_bound(from: JTAGState, states: Seq<JTAGState>)
    ensures
        via_route(from, states).len() <= 8 * states.len(),
    decreases states.len(),
{
    if states.len() > 0 {
        let before = states.drop_last();
        lemma_via_route_bound(from, before);
        lemma_route_length(via_end(from, before), states.last());
        lemma_distance_bounds(via_end(from, before), states.last());
    }
}

/// A walk to one state takes the shortest way there, which is eight cycles
/// at most.
pub proof fn lemma_via_single(from: JTAGState, to: JTAGState)
    ensures
        via_route(from, seq![to]) == route(from, to),
        via_route(from, seq![to]).len() <= 8,
{
    let one = seq![to];
    assert(one.drop_last() =~= Seq::<JTAGState>::empty());
    assert(via_route(from, one.drop_last()) =~= Seq::<bool>::empty());
    assert(via_route(from, one) =~= route(from, to));
    lemma_route_length(from, to);
    lemma_distance_bounds(from, to);
}

/// A walk to a shift state, a shift that leaves it, and a walk on can be run
/// after whatever can be run, and leave the controller where the walk on
/// ends.
proof fn lemma_shift_block(
    at: JTAGState,
    before: Seq<ActionView>,
    shift_state: JTAGState,
    bits: Seq<bool>,
    capture: bool,
    rest: JTAGState,
)
    requires
        shift_state.is_shift(),
        admissible_all(at, before),
    ensures
        admissible_all(
            at,
            before.push(ActionView::GoViaStates(seq![shift_state])).push(
                ActionView::ShiftBits { bits_tdi: bits, capture, tms_exit: true },
            ).push(ActionView::GoViaStates(seq![rest])),
        ),
        lands_all(
            at,
            before.push(ActionView::GoViaStates(seq![shift_state])).push(
                ActionView::ShiftBits { bits_tdi: bits, capture, tms_exit: true },
            ).push(ActionView::GoViaStates(seq![rest])),
        ) == rest,
{
    let to_shift = ActionView::GoViaStates(seq![shift_state]);
    let shift = ActionView::ShiftBits { bits_tdi: bits, capture, tms_exit: true };
    let to_rest = ActionView::GoViaStates(seq![rest]);
    lemma_run_push(at, before, to_shift);
    lemma_via_single(lands_all(at, before), shift_state);
    lemma_run_push(at, before.push(to_shift), shift);
    lemma_run_push(at, before.push(to_shift).push(shift), to_rest);
    lemma_via_single(shift_state.step(true), rest);
}

/// The primitive actions that an action stands for can be run wherever the
/// action can, and leave the controller where the action is said to leave
/// it.
pub proof fn lemma_lowering_lands(action: ActionView, at: JTAGState)
    requires
        action.admissible(at),
    ensures
        admissible_all(at, action.lowered()),
        lands_all(at, action.lowered()) == action.lands(at),
{
    let none = Seq::<ActionView>::empty();
    let ir_state = JTAGState::ShiftIR;
    let dr_state = JTAGState::ShiftDR;
    let idle = JTAGState::RunTestIdle;
    assert(admissible_all(at, none));
    match action {
        ActionView::ShiftIR { ir, capture, pause } => {
            let rest = if pause {
                JTAGState::PauseIR
            } else {
                idle
            };
            lemma_shift_block(at, none, ir_state, ir, capture, rest);
            assert(action.lowered() =~= none.push(ActionView::GoViaStates(seq![ir_state])).push(
                ActionView::ShiftBits { bits_tdi: ir, capture, tms_exit: true },
            ).push(ActionView::GoViaStates(seq![rest])));
        },
        ActionView::ShiftDR { dr, capture, pause } => {
            let rest = if pause {
                JTAGState::PauseDR
            } else {
                idle
            };
            lemma_shift_block(at, none, dr_state, dr, capture, rest);
            assert(action.lowered() =~= none.push(ActionView::GoViaStates(seq![dr_state])).push(
                ActionView::ShiftBits { bits_tdi: dr, capture, tms_exit: true },
            ).push(ActionView::GoViaStates(seq![rest])));
        },
        ActionView::SetIR(ir) => {
            lemma_shift_block(at, none, ir_state, ir, false, idle);
            assert(action.lowered() =~= none.push(ActionView::GoViaStates(seq![ir_state])).push(
                ActionView::ShiftBits { bits_tdi: ir, capture: false, tms_exit: true },
            ).push(ActionView::GoViaStates(seq![idle])));
        },
        ActionView::ReadReg { ir, drlen } => {
            lemma_shift_block(at, none, ir_state, ir, false, idle);
            let set = none.push(ActionView::GoViaStates(seq![ir_state])).push(
                ActionView::ShiftBits { bits_tdi: ir, capture: false, tms_exit: true },
            ).push(ActionView::GoViaStates(seq![idle]));
            lemma_shift_block(at, set, dr_state, zeros(drlen), true, idle);
            assert(action.lowered() =~= set.push(ActionView::GoViaStates(seq![dr_state])).push(
                ActionView::ShiftBits { bits_tdi: zeros(drlen), capture: true, tms_exit: true },
            ).push(ActionView::GoViaStates(seq![idle])));
        },
        ActionView::WriteReg { ir, dr } => {
            lemma_shift_block(at, none, ir_state, ir, false, idle);
            let set = none.push(ActionView::GoViaStates(seq![ir_state])).push(
                ActionView::ShiftBits { bits_tdi: ir, capture: false, tms_exit: true },
            ).push(ActionView::GoViaStates(seq![idle]));
            lemma_shift_block(at, set, dr_state, dr, false, idle);
            assert(action.lowered() =~= set.push(ActionView::GoViaStates(seq![dr_state])).push(
                ActionView::ShiftBits { bits_tdi: dr, capture: false, tms_exit: true },
            ).push(ActionView::GoViaStates(seq![idle])));
        },
        _ => {
            lemma_run_push(at, none, action);
            assert(action.lowered() =~= none.push(action));
        },
    }
}

/// What `ReadReg` is lowered to makes the same shifts as the plain way to
/// read a register (the same bits, through the same register, captured
/// alike) and leaves the controller in the same state. A TAP that answers
/// by what is shifted through its registers cannot tell the two apart.
pub proof fn lemma_read_reg_equivalent(at: JTAGState, ir: Seq<bool>, drlen: nat)
    ensures
        shifts_of(at, (ActionView::ReadReg { ir, drlen }).lowered()) == shifts_of(
            at,
            read_reg_plainly(ir, drlen),
        ),
        lands_all(at, (ActionView::ReadReg { ir, drlen }).lowered()) == lands_all(
            at,
            read_reg_plainly(ir, drlen),
        ),
{
    let none = Seq::<ActionView>::empty();
    let to_ir = ActionView::GoViaStates(seq![JTAGState::ShiftIR]);
    let shift_ir = ActionView::ShiftBits { bits_tdi: ir, capture: false, tms_exit: true };
    let to_rti = ActionView::GoViaStates(seq![JTAGState::RunTestIdle]);
    let to_dr = ActionView::GoViaStates(seq![JTAGState::ShiftDR]);
    let shift_dr = ActionView::ShiftBits { bits_tdi: zeros(drlen), capture: true, tms_exit: true };
    let lowered = (ActionView::ReadReg { ir, drlen }).lowered();
    let plain = read_reg_plainly(ir, drlen);
    assert(lowered =~= none.push(to_ir).push(shift_ir).push(to_rti).push(to_dr).push(shift_dr).push(
        to_rti,
    ));
    assert(plain =~= none.push(to_ir).push(shift_ir).push(to_dr).push(shift_dr).push(to_rti));
    assert(shifts_of(at, none) =~= Seq::<ShiftRecord>::empty());
    lemma_run_push(at, none, to_ir);
    lemma_run_push(at, none.push(to_ir), shift_ir);
    let both = none.push(to_ir).push(shift_ir);
    lemma_run_push(at, both, to_rti);
    lemma_run_push(at, both.push(to_rti), to_dr);
    lemma_run_push(at, both.push(to_rti).push(to_dr), shift_dr);
    lemma_run_push(at, both.push(to_rti).push(to_dr).push(shift_dr), to_rti);
    lemma_run_push(at, both, to_dr);
    lemma_run_push(at, both.push(to_dr), shift_dr);
    lemma_run_push(at, both.push(to_dr).push(shift_dr), to_rti);
}

/// What an adapter holds, as far as its contracts speak of it.
pub struct AdapterModel {
    /// The actions that wait to be run, oldest first.
    pub queued: Seq<ActionView>,
    /// The state in which the adapter knows the TAP controller to be.
    pub tap_state: JTAGState,
    /// The actions run so far, oldest first, each with its output.
    pub trace: Seq<Step>,
}

impl AdapterModel {
    /// The adapter with one more action waiting, and nothing run.
    pub open spec fn enqueue(self, action: ActionView) -> AdapterModel {
        AdapterModel { queued: self.queued.push(action), ..self }
    }

    /// Whether `after` is what a flush makes of the adapter: nothing waits
    /// any more, each action that waited has been run, in order, and the
    /// controller is where they leave it.
    pub open spec fn flushed(self, after: AdapterModel) -> bool {
        &&& after.queued.len() == 0
        &&& after.tap_state == lands_all(self.tap_state, self.queued)
        &&& ran(self.trace, after.trace, self.queued)
    }

    /// Whether all that waits can be run from where the controller is.
    pub open spec fn can_flush(self) -> bool {
        admissible_all(self.tap_state, self.queued)
    }

    /// Whether `after` is what the adapter becomes when `action` is queued
    /// and all is flushed, with `captured` for the bits that `action`, run
    /// last, gave back.
    pub open spec fn answered(
        self,
        action: ActionView,
        after: AdapterModel,
        captured: Seq<bool>,
    ) -> bool {
        &&& self.enqueue(action).flushed(after)
        &&& after.trace.last().output == OutputView::CapturedBits(captured)
    }
}

/// The outputs of the steps of a record past its first `from`.
pub open spec fn outputs_from(trace: Seq<Step>, from: nat) -> Seq<OutputView> {
    Seq::new((trace.len() - from) as nat, |i: int| trace[from + i].output)
}

/// State required to be stored by a [JTAGAdapter]
#[derive(Clone, Debug)]
pub struct JTAGAdapterState {
    /// The actions that wait to be run, oldest first.
    pub queued_actions: Vec<JTAGAction>,
}

impl JTAGAdapterState {
    pub fn new() -> (state: Self)
        ensures
            state.queued_actions@.len() == 0,
    {
        Self { queued_actions: Vec::new() }
    }
}

/// Trait representing a generic JTAG adapter
///
/// Actions are buffered: the methods that return nothing add one action to
/// the queue and return at once. `flush`, and the methods that return data,
/// run what has been queued, in order.
pub trait JTAGAdapter {
    /// What the adapter holds, as far as the contracts of this trait speak
    /// of it.
    open spec fn model(&self) -> AdapterModel {
        arbitrary()
    }

    /// The state that the adapter stores for this trait. Its queue is the
    /// adapter's; nothing else of the adapter changes with it.
    fn jtag_state_mut(&mut self) -> (state: &mut JTAGAdapterState)
        ensures
            action_views(state.queued_actions@) == old(self).model().queued,
            final(self).model() == (AdapterModel {
                queued: action_views(final(state).queued_actions@),
                ..old(self).model()
            }),
    ;

    /// Execute all of the passed-in JTAG actions immediately without buffering
    /// and return their results
    fn execute_actions(&mut self, actions: &[JTAGAction]) -> (outs: Vec<JTAGOutput>)
        requires
            admissible_all(old(self).model().tap_state, action_views(actions@)),
        ensures
            final(self).model().queued == old(self).model().queued,
            final(self).model().tap_state == lands_all(
                old(self).model().tap_state,
                action_views(actions@),
            ),
            ran(old(self).model().trace, final(self).model().trace, action_views(actions@)),
            output_views(outs@) == outputs_from(
                final(self).model().trace,
                old(self).model().trace.len(),
            ),
    ;

    /// Execute all of the currently buffered JTAG actions and return their
    /// results
    fn flush(&mut self) -> (outs: Vec<JTAGOutput>)
        requires
            old(self).model().can_flush(),
        ensures
            old(self).model().flushed(final(self).model()),
            output_views(outs@) == outputs_from(
                final(self).model().trace,
                old(self).model().trace.len(),
            ),
    {
        let state = self.jtag_state_mut();
        let actions = state.queued_actions.split_off(0);
        proof {
            assert(action_views(actions@) =~= old(self).model().queued);
            assert(self.model().queued =~= Seq::<ActionView>::empty());
        }
        self.execute_actions(actions.as_slice())
    }

    /// Add the given action to the buffered action queue and return
    /// immediately
    fn queue_action(&mut self, action: JTAGAction)
        ensures
            final(self).model() == old(self).model().enqueue(action@),
    {
        let state = self.jtag_state_mut();
        state.queued_actions.push(action);
        proof {
            assert(self.model().queued =~= old(self).model().queued.push(action@));
        }
    }

    /// Send 5 TMS=1 transitions, bringing the TAP to Test-Logic-Reset starting
    /// from any state (buffered action, returns immediately)
    fn reset_to_tlr(&mut self)
        ensures
            final(self).model() == old(self).model().enqueue(ActionView::ResetToTLR),
    {
        self.queue_action(JTAGAction::ResetToTLR);
    }

    /// Transition the TAP through the specified states via the shortest
    /// possible path (buffered action, returns immediately)
    fn go_via_states(&mut self, states: &[JTAGState])
        ensures
            final(self).model() == old(self).model().enqueue(ActionView::GoViaStates(states@)),
    {
        self.queue_action(JTAGAction::GoViaStates(slice_to_vec(states)));
    }

    /// Transition the TAP to the specified state via the shortest
    /// possible path (buffered action, returns immediately)
    fn go_to_state(&mut self, state: JTAGState)
        ensures
            final(self).model() == old(self).model().enqueue(
                ActionView::GoViaStates(seq![state]),
            ),
    {
        let mut states: Vec<JTAGState> = Vec::new();
        states.push(state);
        proof {
            assert(states@ =~= seq![state]);
        }
        self.queue_action(JTAGAction::GoViaStates(states));
    }

    /// Transition the TAP to Test-Logic-Reset via the shortest
    /// possible path (buffered action, returns immediately)
    fn go_tlr(&mut self)
        ensures
            final(self).model() == old(self).model().enqueue(
                ActionView::GoViaStates(seq![JTAGState::TestLogicReset]),
            ),
    {
        self.go_to_state(JTAGState::TestLogicReset);
    }

    /// Transition the TAP to Run-Test/Idle via the shortest
    /// possible path (buffered action, returns immediately)
    fn go_rti(&mut self)
        ensures
            final(self).model() == old(self).model().enqueue(
                ActionView::GoViaStates(seq![JTAGState::RunTestIdle]),
            ),
    {
        self.go_to_state(JTAGState::RunTestIdle);
    }

    /// Transition the TAP to Select-DR-Scan via the shortest
    /// possible path (buffered action, returns immediately)
    fn go_selectdr(&mut self)
        ensures
            final(self).model() == old(self).model().enqueue(
                ActionView::GoViaStates(seq![JTAGState::SelectDR]),
            ),
    {
        self.go_to_state(JTAGState::SelectDR);
    }

    /// Transition the TAP to Capture-DR via the shortest
    /// possible path (buffered action, returns immediately)
    fn go_capturedr(&mut self)
        ensures
            final(self).model() == old(self).model().enqueue(
                ActionView::GoViaStates(seq![JTAGState::CaptureDR]),
            ),
    {
        self.go_to_state(JTAGState::CaptureDR);
    }

    /// Transition the TAP to Shift-DR via the shortest
    /// possible path (buffered action, returns immediately)
    fn go_shiftdr(&mut self)
        ensures
            final(self).model() == old(self).model().enqueue(
                ActionView::GoViaStates(seq![JTAGState::ShiftDR]),
            ),
    {
        self.go_to_state(JTAGState::ShiftDR);
    }

    /// Transition the TAP to Exit1-DR via the shortest
    /// possible path (buffered action, returns immediately)
    fn go_exit1dr(&mut self)
        ensures
            final(self).model() == old(self).model().enqueue(
                ActionView::GoViaStates(seq![JTAGState::Exit1DR]),
            ),
    {
        self.go_to_state(JTAGState::Exit1DR);
    }

    /// Transition the TAP to Pause-DR via the shortest
    /// possible path (buffered action, returns immediately)
    fn go_pausedr(&mut self)
        ensures
            final(self).model() == old(self).model().enqueue(
                ActionView::GoViaStates(seq![JTAGState::PauseDR]),
            ),
    {
        self.go_to_state(JTAGState::PauseDR);
    }

    /// Transition the TAP to Exit2-DR via the shortest
    /// possible path (buffered action, returns immediately)
    fn go_exit2dr(&mut self)
        ensures
            final(self).model() == old(self).model().enqueue(
                ActionView::GoViaStates(seq![JTAGState::Exit2DR]),
            ),
    {
        self.go_to_state(JTAGState::Exit2DR);
    }

    /// Transition the TAP to Update-DR via the shortest
    /// possible path (buffered action, returns immediately)
    fn go_updatedr(&mut self)
        ensures
            final(self).model() == old(self).model().enqueue(
                ActionView::GoViaStates(seq![JTAGState::UpdateDR]),
            ),
    {
        self.go_to_state(JTAGState::UpdateDR);
    }

    /// Transition the TAP to Select-IR-Scan via the shortest
    /// possible path (buffered action, returns immediately)
    fn go_selectir(&mut self)
        ensures
            final(self).model() == old(self).model().enqueue(
                ActionView::GoViaStates(seq![JTAGState::SelectIR]),
            ),
    {
        self.go_to_state(JTAGState::SelectIR);
    }

    /// Transition the TAP to Capture-IR via the shortest
    /// possible path (buffered action, returns immediately)
    fn go_captureir(&mut self)
        ensures
            final(self).model() == old(self).model().enqueue(
                ActionView::GoViaStates(seq![JTAGState::CaptureIR]),
            ),
    {
        self.go_to_state(JTAGState::CaptureIR);
    }

    /// Transition the TAP to Shift-IR via the shortest
    /// possible path (buffered action, returns immediately)
    fn go_shiftir(&mut self)
        ensures
            final(self).model() == old(self).model().enqueue(
                ActionView::GoViaStates(seq![JTAGState::ShiftIR]),
            ),
    {
        self.go_to_state(JTAGState::ShiftIR);
    }

    /// Transition the TAP to Exit1-IR via the shortest
    /// possible path (buffered action, returns immediately)
    fn go_exit1ir(&mut self)
        ensures
            final(self).model() == old(self).model().enqueue(
                ActionView::GoViaStates(seq![JTAGState::Exit1IR]),
            ),
    {
        self.go_to_state(JTAGState::Exit1IR);
    }

    /// Transition the TAP to Pause-IR via the shortest
    /// possible path (buffered action, returns immediately)
    fn go_pauseir(&mut self)
        ensures
            final(self).model() == old(self).model().enqueue(
                ActionView::GoViaStates(seq![JTAGState::PauseIR]),
            ),
    {
        self.go_to_state(JTAGState::PauseIR);
    }

    /// Transition the TAP to Exit2-IR via the shortest
    /// possible path (buffered action, returns immediately)
    fn go_exit2ir(&mut self)
        ensures
            final(self).model() == old(self).model().enqueue(
                ActionView::GoViaStates(seq![JTAGState::Exit2IR]),
            ),
    {
        self.go_to_state(JTAGState::Exit2IR);
    }

    /// Transition the TAP to Update-IR via the shortest
    /// possible path (buffered action, returns immediately)
    fn go_updateir(&mut self)
        ensures
            final(self).model() == old(self).model().enqueue(
                ActionView::GoViaStates(seq![JTAGState::UpdateIR]),
            ),
    {
        self.go_to_state(JTAGState::UpdateIR);
    }

    /// Shift bits into the TDI pin. TDO data will not be captured.
    /// If `tms_exit` is `true`, the final bit will be shifted with TMS=1
    /// (which would cause a transition from Shift-IR/DR to Exit1-IR/DR).
    /// Otherwise, the final bit will be shifted with TMS=0. All other bits
    /// will be shifted with TMS=0.
    ///
    /// This is a buffered action that returns immediately
    fn shift_bits_out(&mut self, bits: &BitStream, tms_exit: bool)
        ensures
            final(self).model() == old(self).model().enqueue(
                ActionView::ShiftBits { bits_tdi: bits@, capture: false, tms_exit },
            ),
    {
        self.queue_action(
            JTAGAction::ShiftBits { bits_tdi: bits.clone(), capture: false, tms_exit },
        );
    }

    /// Shift bits into the TDI pin. TDO data will be captured and returned.
    /// If `tms_exit` is `true`, the final bit will be shifted with TMS=1
    /// (which would cause a transition from Shift-IR/DR to Exit1-IR/DR).
    /// Otherwise, the final bit will be shifted with TMS=0. All other bits
    /// will be shifted with TMS=0.
    ///
    /// This is a blocking action that will additionally flush all pending
    /// buffered actions.
    fn shift_bits_inout(&mut self, bits: &BitStream, tms_exit: bool) -> (captured: BitStream)
        requires
            old(self).model().enqueue(
                ActionView::ShiftBits { bits_tdi: bits@, capture: true, tms_exit },
            ).can_flush(),
        ensures
            old(self).model().answered(
                ActionView::ShiftBits { bits_tdi: bits@, capture: true, tms_exit },
                final(self).model(),
                captured@,
            ),
            captured@.len() == bits@.len(),
    {
        let action = JTAGAction::ShiftBits { bits_tdi: bits.clone(), capture: true, tms_exit };
        let ghost asked = old(self).model().enqueue(action@).queued;
        self.queue_action(action);
        let mut ret = self.flush();
        proof {
            let last = asked.len() - 1;
            let before = old(self).model().trace;
            let after = self.model().trace;
            assert(asked[last].yields(after[before.len() + last].output));
            assert(output_views(ret@).len() == asked.len());
            assert(output_views(ret@)[last] == outputs_from(after, before.len())[last]);
            assert(ret@[last]@ == after[before.len() + last].output);
        }
        match ret.pop() {
            Some(JTAGOutput::CapturedBits(out)) => out,
            _ => unreached(),
        }
    }

    /// Take the TAP from its current state to Shift-IR, then shift in the
    /// data from `ir`. If `pause` is `false`, then take the TAP to
    /// Run-Test/Idle. Otherwise, take the TAP to Pause-IR.
    ///
    /// This is a buffered action that returns immediately
    fn shift_ir_out(&mut self, ir: &BitStream, pause: bool)
        ensures
            final(self).model() == old(self).model().enqueue(
                ActionView::ShiftIR { ir: ir@, capture: false, pause },
            ),
    {
        self.queue_action(JTAGAction::ShiftIR { ir: ir.clone(), capture: false, pause });
    }

    /// Take the TAP from its current state to Shift-IR, then shift in the
    /// data from `ir`. The shifted-out data will be captured and returned.
    /// If `pause` is `false`, then take the TAP to
    /// Run-Test/Idle. Otherwise, take the TAP to Pause-IR.
    ///
    /// This is a blocking action that will additionally flush all pending
    /// buffered actions.
    fn shift_ir_inout(&mut self, ir: &BitStream, pause: bool) -> (captured: BitStream)
        requires
            old(self).model().enqueue(
                ActionView::ShiftIR { ir: ir@, capture: true, pause },
            ).can_flush(),
        ensures
            old(self).model().answered(
                ActionView::ShiftIR { ir: ir@, capture: true, pause },
                final(self).model(),
                captured@,
            ),
            captured@.len() == ir@.len(),
    {
        let action = JTAGAction::ShiftIR { ir: ir.clone(), capture: true, pause };
        let ghost asked = old(self).model().enqueue(action@).queued;
        self.queue_action(action);
        let mut ret = self.flush();
        proof {
            let last = asked.len() - 1;
            let before = old(self).model().trace;
            let after = self.model().trace;
            assert(asked[last].yields(after[before.len() + last].output));
            assert(output_views(ret@).len() == asked.len());
            assert(output_views(ret@)[last] == outputs_from(after, before.len())[last]);
            assert(ret@[last]@ == after[before.len() + last].output);
        }
        match ret.pop() {
            Some(JTAGOutput::CapturedBits(out)) => out,
            _ => unreached(),
        }
    }

    /// Take the TAP from its current state to Shift-DR, then shift in the
    /// data from `dr`. If `pause` is `false`, then take the TAP to
    /// Run-Test/Idle. Otherwise, take the TAP to Pause-DR.
    ///
    /// This is a buffered action that returns immediately. The data that is
    /// shifted out is captured all the same: it is the output of this action
    /// in what the next flush returns.
    fn shift_dr_out(&mut self, dr: &BitStream, pause: bool)
        ensures
            final(self).model() == old(self).model().enqueue(
                ActionView::ShiftDR { dr: dr@, capture: true, pause },
            ),
    {
        self.queue_action(JTAGAction::ShiftDR { dr: dr.clone(), capture: true, pause });
    }

    /// Take the TAP from its current state to Shift-DR, then shift in the
    /// data from `dr`. The shifted-out data will be captured and returned.
    /// If `pause` is `false`, then take the TAP to
    /// Run-Test/Idle. Otherwise, take the TAP to Pause-DR.
    ///
    /// This is a blocking action that will additionally flush all pending
    /// buffered actions.
    fn shift_dr_inout(&mut self, dr: &BitStream, pause: bool) -> (captured: BitStream)
        requires
            old(self).model().enqueue(
                ActionView::ShiftDR { dr: dr@, capture: true, pause },
            ).can_flush(),
        ensures
            old(self).model().answered(
                ActionView::ShiftDR { dr: dr@, capture: true, pause },
                final(self).model(),
                captured@,
            ),
            captured@.len() == dr@.len(),
    {
        let action = JTAGAction::ShiftDR { dr: dr.clone(), capture: true, pause };
        let ghost asked = old(self).model().enqueue(action@).queued;
        self.queue_action(action);
        let mut ret = self.flush();
        proof {
            let last = asked.len() - 1;
            let before = old(self).model().trace;
            let after = self.model().trace;
            assert(asked[last].yields(after[before.len() + last].output));
            assert(output_views(ret@).len() == asked.len());
            assert(output_views(ret@)[last] == outputs_from(after, before.len())[last]);
            assert(ret@[last]@ == after[before.len() + last].output);
        }
        match ret.pop() {
            Some(JTAGOutput::CapturedBits(out)) => out,
            _ => unreached(),
        }
    }

    /// Take the TAP to Shift-IR, shift in this value, and then take the TAP
    /// to Run-Test/Idle.
    ///
    /// This is a buffered action that returns immediately
    fn set_ir(&mut self, ir: &BitStream)
        ensures
            final(self).model() == old(self).model().enqueue(ActionView::SetIR(ir@)),
    {
        self.queue_action(JTAGAction::SetIR(ir.clone()));
    }

    /// Set the current IR to this value, and then
    /// take the TAP to Shift-DR. Capture the data, and then take the TAP to
    /// Run-Test/Idle.
    ///
    /// This is a blocking action that will additionally flush all pending
    /// buffered actions.
    fn read_reg(&mut self, ir: &BitStream, drlen: usize) -> (captured: BitStream)
        requires
            old(self).model().enqueue(
                ActionView::ReadReg { ir: ir@, drlen: drlen as nat },
            ).can_flush(),
        ensures
            old(self).model().answered(
                ActionView::ReadReg { ir: ir@, drlen: drlen as nat },
                final(self).model(),
                captured@,
            ),
            captured@.len() == drlen,
    {
        let action = JTAGAction::ReadReg { ir: ir.clone(), drlen };
        let ghost asked = old(self).model().enqueue(action@).queued;
        self.queue_action(action);
        let mut ret = self.flush();
        proof {
            let last = asked.len() - 1;
            let before = old(self).model().trace;
            let after = self.model().trace;
            assert(asked[last].yields(after[before.len() + last].output));
            assert(output_views(ret@).len() == asked.len());
            assert(output_views(ret@)[last] == outputs_from(after, before.len())[last]);
            assert(ret@[last]@ == after[before.len() + last].output);
        }
        match ret.pop() {
            Some(JTAGOutput::CapturedBits(out)) => out,
            _ => unreached(),
        }
    }

    /// Set the current IR to `ir`,
    /// and then take the TAP to Shift-DR. Shift in the data from
    /// `dr`, and then take the TAP to Run-Test/Idle.
    ///
    /// This is a buffered action that returns immediately
    fn write_reg(&mut self, ir: &BitStream, dr: &BitStream)
        ensures
            final(self).model() == old(self).model().enqueue(
                ActionView::WriteReg { ir: ir@, dr: dr@ },
            ),
    {
        self.queue_action(JTAGAction::WriteReg { ir: ir.clone(), dr: dr.clone() });
    }
}

} // verus!
