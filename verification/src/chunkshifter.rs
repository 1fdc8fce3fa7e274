//! Adapters that shift whole chunks of bits at a time, and the adapter that
//! follows the TAP state machine on top of one of them.

use crate::bits::{BitStream, MAX_BITS};
use crate::fsm::JTAGState;
use crate::native::{
    ones, shift_tms, via_end, via_route, ActionView, JTAGAction, JTAGOutput, OutputView, Step,
};
use crate::statetracking::StateTrackingJTAGAdapter;
use vstd::pervasive::unreached;
use vstd::prelude::*;

verus! {

/// One call that a chunk shifter has served, with what it handed back.
pub enum ChunkEvent {
    /// A wait of `ns` nanoseconds was asked for; `actual` were waited.
    Delay { ns: u64, actual: u64 },
    /// A clock of `clk_hz` Hz was asked for; `actual` Hz were set.
    ClkSpeed { clk_hz: u64, actual: u64 },
    /// `bits` were clocked out on TMS, with TDI at 0.
    Tms { bits: Seq<bool> },
    /// `bits` were clocked out on TDI, with TMS at 0 but for the last bit,
    /// where it was `tms_exit`.
    Tdi { bits: Seq<bool>, tms_exit: bool },
    /// As `Tdi`, and `captured` was read from TDO.
    TdiTdo { bits: Seq<bool>, tms_exit: bool, captured: Seq<bool> },
}

/// Trait for JTAG adapters that are built around shifting blocks of bits
/// at a time (e.g. FTDI MPSSE, Xilinx Platform Cable USB)
pub trait ChunkShifterJTAGAdapter {
    /// The calls that the adapter has served so far, oldest first.
    open spec fn chunk_trace(&self) -> Seq<ChunkEvent> {
        arbitrary()
    }

    /// Wait for a given number of nanoseconds
    fn delay_ns(&mut self, ns: u64) -> (actual: u64)
        ensures
            final(self).chunk_trace() == old(self).chunk_trace().push(
                ChunkEvent::Delay { ns, actual },
            ),
    ;

    /// Set the JTAG clock speed in Hz
    fn set_clk_speed(&mut self, clk_hz: u64) -> (actual: u64)
        ensures
            final(self).chunk_trace() == old(self).chunk_trace().push(
                ChunkEvent::ClkSpeed { clk_hz, actual },
            ),
    ;

    /// Shift the given bits out on TMS
    fn shift_tms_chunk(&mut self, tms_chunk: &BitStream)
        ensures
            final(self).chunk_trace() == old(self).chunk_trace().push(
                ChunkEvent::Tms { bits: tms_chunk@ },
            ),
    ;

    /// Shift the given bits out on TDI. If `tms_exit` is `true`,
    /// the final bit will be shifted with TMS=1 (which would cause a
    /// transition from Shift-IR/DR to Exit1-IR/DR). Otherwise, the final bit
    /// will be shifted with TMS=0.
    fn shift_tdi_chunk(&mut self, tdi_chunk: &BitStream, tms_exit: bool)
        ensures
            final(self).chunk_trace() == old(self).chunk_trace().push(
                ChunkEvent::Tdi { bits: tdi_chunk@, tms_exit },
            ),
    ;

    /// Shift the given bits out on TDI. Capture data on TDO.
    /// If `tms_exit` is `true`,
    /// the final bit will be shifted with TMS=1 (which would cause a
    /// transition from Shift-IR/DR to Exit1-IR/DR). Otherwise, the final bit
    /// will be shifted with TMS=0.
    ///
    /// Bit `i` of what is captured is the level of TDO before the clock
    /// edge that shifts bit `i` in: one cycle behind what a bit-bang
    /// adapter samples.
    fn shift_tditdo_chunk(&mut self, tdi_chunk: &BitStream, tms_exit: bool) -> (captured: BitStream)
        ensures
            captured@.len() == tdi_chunk@.len(),
            final(self).chunk_trace() == old(self).chunk_trace().push(
                ChunkEvent::TdiTdo { bits: tdi_chunk@, tms_exit, captured: captured@ },
            ),
    ;
}

/// State required to be stored by a [ChunkShifterJTAGAdapter] in order for
/// this crate to turn it into a [StateTrackingJTAGAdapter].
#[derive(Clone, Debug)]
pub struct ChunkShifterJTAGAdapterState {
    /// The state in which the TAP controller was left.
    pub current_state: JTAGState,
}

impl ChunkShifterJTAGAdapterState {
    pub fn new() -> (state: Self)
        ensures
            state.current_state == JTAGState::TestLogicReset,
    {
        Self { current_state: JTAGState::TestLogicReset }
    }
}

/// The one call of a chunk shifter that a primitive action amounts to, with
/// the controller in state `at` and `out` for the action's output.
pub open spec fn chunk_event(action: ActionView, at: JTAGState, out: OutputView) -> ChunkEvent {
    match action {
        ActionView::DelayNS(ns) => ChunkEvent::Delay { ns, actual: out->ActualDelay_0 },
        ActionView::SetClkSpeed(clk_hz) => ChunkEvent::ClkSpeed {
            clk_hz,
            actual: out->ActualClkSpeed_0,
        },
        ActionView::ResetToTLR => ChunkEvent::Tms { bits: ones(5) },
        ActionView::GoViaStates(states) => ChunkEvent::Tms { bits: via_route(at, states) },
        ActionView::ShiftBits { bits_tdi, capture, tms_exit } => if capture {
            ChunkEvent::TdiTdo { bits: bits_tdi, tms_exit, captured: out->CapturedBits_0 }
        } else {
            ChunkEvent::Tdi { bits: bits_tdi, tms_exit }
        },
        _ => arbitrary(),
    }
}

/// The TMS values that a call of a chunk shifter clocks out.
pub open spec fn event_tms(event: ChunkEvent) -> Seq<bool> {
    match event {
        ChunkEvent::Tms { bits } => bits,
        ChunkEvent::Tdi { bits, tms_exit } => shift_tms(bits.len(), tms_exit),
        ChunkEvent::TdiTdo { bits, tms_exit, .. } => shift_tms(bits.len(), tms_exit),
        _ => Seq::<bool>::empty(),
    }
}

/// The call that a primitive action amounts to clocks out the TMS values
/// of the action.
pub proof fn lemma_chunk_event_tms(action: ActionView, at: JTAGState, out: OutputView)
    requires
        action.is_primitive(),
    ensures
        event_tms(chunk_event(action, at, out)) == action.tms(at),
{
}

/// A walk through the first states of a list takes no more cycles than the
/// walk through all of them.
pub proof fn lemma_via_route_grows(from: JTAGState, states: Seq<JTAGState>, k: int)
    requires
        0 <= k <= states.len(),
    ensures
        via_route(from, states.take(k)).len() <= via_route(from, states).len(),
    decreases states.len(),
{
    if k == states.len() {
        assert(states.take(k) =~= states);
    } else {
        assert(states.drop_last().take(k) =~= states.take(k));
        lemma_via_route_grows(from, states.drop_last(), k);
    }
}

/// A chunk shifter made into a state-tracking adapter: it remembers where
/// the TAP controller is, and finds the way to where it shall go.
pub struct TrackedChunkShifter<C: ChunkShifterJTAGAdapter> {
    /// The adapter that shifts the chunks.
    pub chunks: C,
    /// What is kept between calls.
    pub state: ChunkShifterJTAGAdapterState,
    /// The actions run so far.
    pub trace: Ghost<Seq<Step>>,
}

impl<C: ChunkShifterJTAGAdapter> TrackedChunkShifter<C> {
    /// Wraps a chunk shifter whose TAP controller is taken to be in
    /// Test-Logic-Reset.
    pub fn new(chunks: C) -> (adapter: Self)
        ensures
            adapter.chunks == chunks,
            adapter.state.current_state == JTAGState::TestLogicReset,
            adapter.trace@ == Seq::<Step>::empty(),
    {
        Self { chunks, state: ChunkShifterJTAGAdapterState::new(), trace: Ghost(Seq::empty()) }
    }

    /// The TMS values that lead from `from` through each of `states` in
    /// turn.
    fn path_via(from: JTAGState, states: &Vec<JTAGState>) -> (path: BitStream)
        requires
            via_route(from, states@).len() <= MAX_BITS,
        ensures
            path@ == via_route(from, states@),
    {
        let mut prev_state = from;
        let mut path = BitStream::new();
        let mut i: usize = 0;
        while i < states.len()
            invariant
                i <= states@.len(),
                via_route(from, states@).len() <= MAX_BITS,
                path@ == via_route(from, states@.take(i as int)),
                prev_state == via_end(from, states@.take(i as int)),
            decreases states@.len() - i,
        {
            let pathelem = prev_state.path_to(states[i]);
            proof {
                let next = states@.take(i + 1);
                assert(next.drop_last() =~= states@.take(i as int));
                lemma_via_route_grows(from, states@, i + 1);
            }
            path.extend_from_bitslice(&pathelem);
            prev_state = states[i];
            i += 1;
        }
        proof {
            assert(states@.take(i as int) =~= states@);
        }
        path
    }
}

impl<C: ChunkShifterJTAGAdapter> StateTrackingJTAGAdapter for TrackedChunkShifter<C> {
    open spec fn tap_state(&self) -> JTAGState {
        self.state.current_state
    }

    open spec fn action_trace(&self) -> Seq<Step> {
        self.trace@
    }

    /// Each action costs one call of the chunk shifter: a reset shifts five
    /// ones on TMS, a walk shifts the whole way at once, a shift hands its
    /// bits on, a delay or a clock speed is passed down and what comes back
    /// is the output.
    fn execute_stjtag_action(&mut self, action: &JTAGAction) -> (out: JTAGOutput)
        ensures
            final(self).chunks.chunk_trace() == old(self).chunks.chunk_trace().push(
                chunk_event(action@, old(self).tap_state(), out@),
            ),
    {
        let out = match action {
            JTAGAction::ShiftIR { .. }
            | JTAGAction::ShiftDR { .. }
            | JTAGAction::SetIR(_)
            | JTAGAction::ReadReg { .. }
            | JTAGAction::WriteReg { .. } => { unreached() },
            JTAGAction::DelayNS(ns) => {
                let actual_ns = self.chunks.delay_ns(*ns);
                JTAGOutput::ActualDelay(actual_ns)
            },
            JTAGAction::SetClkSpeed(clk_hz) => {
                let actual_clk = self.chunks.set_clk_speed(*clk_hz);
                JTAGOutput::ActualClkSpeed(actual_clk)
            },
            JTAGAction::ResetToTLR => {
                let five_ones = BitStream::repeat(true, 5);
                self.chunks.shift_tms_chunk(&five_ones);
                self.state.current_state = JTAGState::TestLogicReset;
                JTAGOutput::NoData
            },
            JTAGAction::GoViaStates(jtag_states) => {
                let path = Self::path_via(self.state.current_state, jtag_states);
                self.chunks.shift_tms_chunk(&path);
                if jtag_states.len() > 0 {
                    self.state.current_state = jtag_states[jtag_states.len() - 1];
                }
                JTAGOutput::NoData
            },
            JTAGAction::ShiftBits { bits_tdi, capture, tms_exit } => {
                self.state.current_state = self.state.current_state.transition(*tms_exit);
                if *capture {
                    let ret = self.chunks.shift_tditdo_chunk(bits_tdi, *tms_exit);
                    JTAGOutput::CapturedBits(ret)
                } else {
                    self.chunks.shift_tdi_chunk(bits_tdi, *tms_exit);
                    JTAGOutput::NoData
                }
            },
        };
        proof {
            self.trace@ = self.trace@.push(Step { action: action@, output: out@ });
        }
        out
    }
}

} // verus!
