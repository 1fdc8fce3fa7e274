use jtag::{
    BitStream, BitbangJTAGAdapter, BufferedStateTracker, ChunkShifterJTAGAdapter, ChunkedBitbang,
    JTAGAction, JTAGAdapter, JTAGAdapterState, JTAGOutput, JTAGState, StateTrackingJTAGAdapter,
    TrackedChunkShifter,
};

struct TestNativeJTAGAdapter<'a> {
    jtag_state: JTAGAdapterState,
    test_actions: &'a [JTAGAction],
}
impl<'a> TestNativeJTAGAdapter<'a> {
    fn new(test_actions: &'a [JTAGAction]) -> Self {
        Self {
            jtag_state: JTAGAdapterState::new(),
            test_actions,
        }
    }
}

impl<'a> JTAGAdapter for TestNativeJTAGAdapter<'a> {
    fn jtag_state_mut(&mut self) -> &mut JTAGAdapterState {
        &mut self.jtag_state
    }

    fn execute_actions(&mut self, actions: &[JTAGAction]) -> Vec<JTAGOutput> {
        assert_eq!(actions, self.test_actions);
        vec![JTAGOutput::NoData; actions.len()]
    }
}

struct TestBitbangJTAGAdapter {}

impl BitbangJTAGAdapter for TestBitbangJTAGAdapter {
    fn delay_ns(&mut self, _ns: u64) -> u64 {
        unreachable!()
    }

    fn set_clk_speed(&mut self, _clk_hz: u64) -> u64 {
        unreachable!()
    }

    fn shift_one_bit(&mut self, _tms: bool, _tdi: bool) -> bool {
        unreachable!()
    }
}

struct TestChunkJTAGAdapter {}

impl ChunkShifterJTAGAdapter for TestChunkJTAGAdapter {
    fn delay_ns(&mut self, _ns: u64) -> u64 {
        unreachable!()
    }
    fn set_clk_speed(&mut self, _clk_hz: u64) -> u64 {
        unreachable!()
    }

    fn shift_tms_chunk(&mut self, _tms_chunk: &BitStream) {
        unreachable!()
    }
    fn shift_tdi_chunk(&mut self, _tdi_chunk: &BitStream, _tms_exit: bool) {
        unreachable!()
    }
    fn shift_tditdo_chunk(&mut self, _tdi_chunk: &BitStream, _tms_exit: bool) -> BitStream {
        unreachable!()
    }
}

struct TestStateJTAGAdapter {}

impl StateTrackingJTAGAdapter for TestStateJTAGAdapter {
    fn execute_stjtag_action(&mut self, _action: &JTAGAction) -> JTAGOutput {
        unreachable!()
    }
}

#[test]
fn tests_compile_test_trait_obj_safe() {
    let _: &dyn JTAGAdapter;
}

#[test]
fn tests_test_native_adapter_fns() {
    let mut testadapter = TestNativeJTAGAdapter::new(&[]);

    testadapter.test_actions = &[JTAGAction::ResetToTLR];
    testadapter.reset_to_tlr();
    testadapter.flush();
}

#[test]
fn test_bitbang_adapter() {
    let mut testadapter = BufferedStateTracker::new(TrackedChunkShifter::new(
        ChunkedBitbang::new(TestBitbangJTAGAdapter {}),
    ));

    testadapter.reset_to_tlr();
}

#[test]
fn test_chunked_adapter() {
    let mut testadapter =
        BufferedStateTracker::new(TrackedChunkShifter::new(TestChunkJTAGAdapter {}));

    testadapter.reset_to_tlr();
}

#[test]
fn test_state_tracking_adapter() {
    let mut testadapter = BufferedStateTracker::new(TestStateJTAGAdapter {});

    testadapter.reset_to_tlr();
}

/// A TAP that hands back on TDO what was on TDI in the same cycle, and
/// keeps what it was asked to do.
struct EchoBitbang {
    cycles: Vec<(bool, bool)>,
    clock_asked: Vec<u64>,
    delay_asked: Vec<u64>,
}

impl EchoBitbang {
    fn new() -> Self {
        Self {
            cycles: Vec::new(),
            clock_asked: Vec::new(),
            delay_asked: Vec::new(),
        }
    }
}

impl BitbangJTAGAdapter for EchoBitbang {
    fn delay_ns(&mut self, ns: u64) -> u64 {
        self.delay_asked.push(ns);
        ns + 1
    }

    fn set_clk_speed(&mut self, clk_hz: u64) -> u64 {
        self.clock_asked.push(clk_hz);
        clk_hz / 2
    }

    fn shift_one_bit(&mut self, tms: bool, tdi: bool) -> bool {
        self.cycles.push((tms, tdi));
        tdi
    }
}

#[derive(Debug, PartialEq, Eq, Clone)]
enum Chunk {
    Delay(u64),
    Clock(u64),
    Tms(Vec<bool>),
    Tdi(Vec<bool>, bool),
    TdiTdo(Vec<bool>, bool),
}

/// A chunk shifter that hands back what it was given, and keeps what it
/// was asked to do.
struct EchoChunks {
    chunks: Vec<Chunk>,
}

impl ChunkShifterJTAGAdapter for EchoChunks {
    fn delay_ns(&mut self, ns: u64) -> u64 {
        self.chunks.push(Chunk::Delay(ns));
        ns + 3
    }
    fn set_clk_speed(&mut self, clk_hz: u64) -> u64 {
        self.chunks.push(Chunk::Clock(clk_hz));
        clk_hz - 1
    }

    fn shift_tms_chunk(&mut self, tms_chunk: &BitStream) {
        self.chunks.push(Chunk::Tms(tms_chunk.to_bools()));
    }
    fn shift_tdi_chunk(&mut self, tdi_chunk: &BitStream, tms_exit: bool) {
        self.chunks.push(Chunk::Tdi(tdi_chunk.to_bools(), tms_exit));
    }
    fn shift_tditdo_chunk(&mut self, tdi_chunk: &BitStream, tms_exit: bool) -> BitStream {
        self.chunks
            .push(Chunk::TdiTdo(tdi_chunk.to_bools(), tms_exit));
        tdi_chunk.clone()
    }
}

fn bools(values: &[u8]) -> Vec<bool> {
    values.iter().map(|v| *v != 0).collect()
}

fn bits(values: &[u8]) -> BitStream {
    BitStream::from_bools(&bools(values))
}

fn walk(from: JTAGState, tms: &[bool]) -> JTAGState {
    let mut state = from;
    for bit in tms {
        state = state.transition(*bit);
    }
    state
}

#[test]
fn bitbang_capture_is_one_cycle_behind() {
    let mut adapter = ChunkedBitbang::new(EchoBitbang::new());
    assert!(!adapter.state.last_tdo);

    let captured = adapter.shift_tditdo_chunk(&bits(&[1, 0, 1, 1]), false);
    assert_eq!(captured.to_bools(), bools(&[0, 1, 0, 1]));
    assert!(adapter.state.last_tdo);

    let captured = adapter.shift_tditdo_chunk(&bits(&[0, 1]), false);
    assert_eq!(captured.to_bools(), bools(&[1, 0]));
    assert!(adapter.state.last_tdo);

    let captured = adapter.shift_tditdo_chunk(&bits(&[0, 0, 0]), true);
    assert_eq!(captured.to_bools(), bools(&[1, 0, 0]));
    assert!(!adapter.state.last_tdo);

    assert_eq!(
        adapter.driver.cycles,
        vec![
            (false, true),
            (false, false),
            (false, true),
            (false, true),
            (false, false),
            (false, true),
            (false, false),
            (false, false),
            (true, false),
        ]
    );
}

#[test]
fn bitbang_capture_of_nothing_is_empty() {
    let mut adapter = ChunkedBitbang::new(EchoBitbang::new());
    adapter.shift_tdi_chunk(&bits(&[1]), false);
    assert!(adapter.state.last_tdo);
    let captured = adapter.shift_tditdo_chunk(&BitStream::new(), true);
    assert_eq!(captured.len(), 0);
    assert!(adapter.state.last_tdo);
    assert_eq!(adapter.driver.cycles, vec![(false, true)]);
}

#[test]
fn bitbang_tms_chunk_holds_tdi_low() {
    let mut adapter = ChunkedBitbang::new(EchoBitbang::new());
    adapter.state.last_tdo = true;
    adapter.shift_tms_chunk(&bits(&[1, 1, 0]));
    assert_eq!(
        adapter.driver.cycles,
        vec![(true, false), (true, false), (false, false)]
    );
    assert!(!adapter.state.last_tdo);
}

#[test]
fn bitbang_tdi_chunk_raises_tms_on_the_last_bit_only() {
    let mut adapter = ChunkedBitbang::new(EchoBitbang::new());
    adapter.shift_tdi_chunk(&bits(&[1, 0, 1]), true);
    adapter.shift_tdi_chunk(&bits(&[0, 1]), false);
    assert_eq!(
        adapter.driver.cycles,
        vec![
            (false, true),
            (false, false),
            (true, true),
            (false, false),
            (false, true),
        ]
    );
    assert!(adapter.state.last_tdo);
}

#[test]
fn bitbang_passes_delay_and_clock_to_the_driver() {
    let mut adapter = ChunkedBitbang::new(EchoBitbang::new());
    assert_eq!(adapter.delay_ns(100), 101);
    assert_eq!(adapter.set_clk_speed(5000), 2500);
    assert_eq!(adapter.driver.delay_asked, vec![100]);
    assert_eq!(adapter.driver.clock_asked, vec![5000]);
    assert!(adapter.driver.cycles.is_empty());
}

#[test]
fn tracker_starts_in_test_logic_reset() {
    let adapter = TrackedChunkShifter::new(EchoChunks { chunks: Vec::new() });
    assert_eq!(adapter.state.current_state, JTAGState::TestLogicReset);
}

#[test]
fn tracker_resets_with_five_ones() {
    let mut adapter = TrackedChunkShifter::new(EchoChunks { chunks: Vec::new() });
    adapter.state.current_state = JTAGState::PauseDR;
    let out = adapter.execute_stjtag_action(&JTAGAction::ResetToTLR);
    assert_eq!(out, JTAGOutput::NoData);
    assert_eq!(adapter.state.current_state, JTAGState::TestLogicReset);
    assert_eq!(adapter.chunks.chunks, vec![Chunk::Tms(bools(&[1, 1, 1, 1, 1]))]);
}

#[test]
fn tracker_walks_in_one_chunk() {
    let mut adapter = TrackedChunkShifter::new(EchoChunks { chunks: Vec::new() });
    let out = adapter.execute_stjtag_action(&JTAGAction::GoViaStates(vec![
        JTAGState::RunTestIdle,
        JTAGState::ShiftDR,
        JTAGState::PauseDR,
    ]));
    assert_eq!(out, JTAGOutput::NoData);
    assert_eq!(adapter.state.current_state, JTAGState::PauseDR);
    assert_eq!(
        adapter.chunks.chunks,
        vec![Chunk::Tms(bools(&[0, 1, 0, 0, 1, 0]))]
    );
}

#[test]
fn tracker_walk_through_nothing_stays() {
    let mut adapter = TrackedChunkShifter::new(EchoChunks { chunks: Vec::new() });
    adapter.state.current_state = JTAGState::Exit2IR;
    adapter.execute_stjtag_action(&JTAGAction::GoViaStates(vec![]));
    assert_eq!(adapter.state.current_state, JTAGState::Exit2IR);
    assert_eq!(adapter.chunks.chunks, vec![Chunk::Tms(vec![])]);
}

#[test]
fn tracker_shifts_and_follows_the_exit() {
    let mut adapter = TrackedChunkShifter::new(EchoChunks { chunks: Vec::new() });
    adapter.state.current_state = JTAGState::ShiftIR;
    let out = adapter.execute_stjtag_action(&JTAGAction::ShiftBits {
        bits_tdi: bits(&[1, 0, 0]),
        capture: true,
        tms_exit: false,
    });
    assert_eq!(out, JTAGOutput::CapturedBits(bits(&[1, 0, 0])));
    assert_eq!(adapter.state.current_state, JTAGState::ShiftIR);
    let out = adapter.execute_stjtag_action(&JTAGAction::ShiftBits {
        bits_tdi: bits(&[1, 1]),
        capture: false,
        tms_exit: true,
    });
    assert_eq!(out, JTAGOutput::NoData);
    assert_eq!(adapter.state.current_state, JTAGState::Exit1IR);
    assert_eq!(
        adapter.chunks.chunks,
        vec![
            Chunk::TdiTdo(bools(&[1, 0, 0]), false),
            Chunk::Tdi(bools(&[1, 1]), true),
        ]
    );
}

#[test]
fn tracker_reports_what_the_chunk_shifter_achieved() {
    let mut adapter = TrackedChunkShifter::new(EchoChunks { chunks: Vec::new() });
    assert_eq!(
        adapter.execute_stjtag_action(&JTAGAction::DelayNS(40)),
        JTAGOutput::ActualDelay(43)
    );
    assert_eq!(
        adapter.execute_stjtag_action(&JTAGAction::SetClkSpeed(1000)),
        JTAGOutput::ActualClkSpeed(999)
    );
    assert_eq!(adapter.state.current_state, JTAGState::TestLogicReset);
    assert_eq!(
        adapter.chunks.chunks,
        vec![Chunk::Delay(40), Chunk::Clock(1000)]
    );
}

#[test]
fn tracker_state_is_where_the_tms_bits_lead() {
    let mut adapter = TrackedChunkShifter::new(EchoChunks { chunks: Vec::new() });
    let actions = vec![
        JTAGAction::GoViaStates(vec![JTAGState::PauseIR, JTAGState::ShiftIR]),
        JTAGAction::ShiftBits {
            bits_tdi: bits(&[1, 0, 1, 1]),
            capture: true,
            tms_exit: false,
        },
        JTAGAction::ShiftBits {
            bits_tdi: bits(&[0, 0]),
            capture: false,
            tms_exit: true,
        },
        JTAGAction::GoViaStates(vec![JTAGState::ShiftDR]),
        JTAGAction::ShiftBits {
            bits_tdi: bits(&[1]),
            capture: true,
            tms_exit: true,
        },
        JTAGAction::GoViaStates(vec![JTAGState::UpdateDR, JTAGState::SelectIR]),
    ];
    let mut tms: Vec<bool> = Vec::new();
    for action in &actions {
        adapter.execute_stjtag_action(action);
        match adapter.chunks.chunks.last().unwrap() {
            Chunk::Tms(sent) => tms.extend(sent),
            Chunk::Tdi(sent, exit) | Chunk::TdiTdo(sent, exit) => {
                for k in 0..sent.len() {
                    tms.push(*exit && k == sent.len() - 1);
                }
            }
            _ => unreachable!(),
        }
        assert_eq!(
            adapter.state.current_state,
            walk(JTAGState::TestLogicReset, &tms)
        );
    }
    assert_eq!(adapter.state.current_state, JTAGState::SelectIR);
}

fn echo_stack() -> BufferedStateTracker<TrackedChunkShifter<EchoChunks>> {
    BufferedStateTracker::new(TrackedChunkShifter::new(EchoChunks { chunks: Vec::new() }))
}

#[test]
fn idcode_read_through_all_layers() {
    let mut adapter = echo_stack();
    adapter.reset_to_tlr();
    adapter.go_rti();
    let idcode = adapter.shift_dr_inout(&BitStream::repeat(false, 32), false);
    assert_eq!(idcode.len(), 32);
    assert_eq!(idcode, BitStream::repeat(false, 32));
    assert_eq!(adapter.tracker.state.current_state, JTAGState::RunTestIdle);
    assert_eq!(
        adapter.tracker.chunks.chunks,
        vec![
            Chunk::Tms(bools(&[1, 1, 1, 1, 1])),
            Chunk::Tms(bools(&[0])),
            Chunk::Tms(bools(&[1, 0, 0])),
            Chunk::TdiTdo(vec![false; 32], true),
            Chunk::Tms(bools(&[1, 0])),
        ]
    );
    assert!(adapter.state.queued_actions.is_empty());
}

#[test]
fn flush_of_the_stack_returns_one_output_for_each_action() {
    let mut adapter = echo_stack();
    adapter.queue_action(JTAGAction::ResetToTLR);
    adapter.queue_action(JTAGAction::GoViaStates(vec![JTAGState::RunTestIdle]));
    assert_eq!(adapter.flush(), vec![JTAGOutput::NoData, JTAGOutput::NoData]);
    assert_eq!(adapter.flush(), Vec::<JTAGOutput>::new());
}

#[test]
fn shift_ir_rests_in_pause_or_idle() {
    let mut adapter = echo_stack();
    let outs = adapter.execute_actions(&[
        JTAGAction::ShiftIR {
            ir: bits(&[1, 0, 1]),
            capture: true,
            pause: true,
        },
        JTAGAction::ShiftIR {
            ir: bits(&[0, 1]),
            capture: false,
            pause: false,
        },
    ]);
    assert_eq!(
        outs,
        vec![JTAGOutput::CapturedBits(bits(&[1, 0, 1])), JTAGOutput::NoData]
    );
    assert_eq!(adapter.tracker.state.current_state, JTAGState::RunTestIdle);
    assert_eq!(
        adapter.tracker.chunks.chunks,
        vec![
            Chunk::Tms(bools(&[0, 1, 1, 0, 0])),
            Chunk::TdiTdo(bools(&[1, 0, 1]), true),
            Chunk::Tms(bools(&[0])),
            Chunk::Tms(bools(&[1, 0])),
            Chunk::Tdi(bools(&[0, 1]), true),
            Chunk::Tms(bools(&[1, 0])),
        ]
    );
}

#[test]
fn shift_dr_rests_in_pause_or_idle() {
    let mut adapter = echo_stack();
    let outs = adapter.execute_actions(&[JTAGAction::ShiftDR {
        dr: bits(&[1, 1, 0]),
        capture: true,
        pause: true,
    }]);
    assert_eq!(outs, vec![JTAGOutput::CapturedBits(bits(&[1, 1, 0]))]);
    assert_eq!(adapter.tracker.state.current_state, JTAGState::PauseDR);
    assert_eq!(
        adapter.tracker.chunks.chunks,
        vec![
            Chunk::Tms(bools(&[0, 1, 0, 0])),
            Chunk::TdiTdo(bools(&[1, 1, 0]), true),
            Chunk::Tms(bools(&[0])),
        ]
    );
}

#[test]
fn set_ir_always_shifts() {
    let mut adapter = echo_stack();
    let outs = adapter.execute_actions(&[
        JTAGAction::SetIR(bits(&[1, 0])),
        JTAGAction::SetIR(bits(&[1, 0])),
    ]);
    assert_eq!(outs, vec![JTAGOutput::NoData, JTAGOutput::NoData]);
    assert_eq!(adapter.tracker.state.current_state, JTAGState::RunTestIdle);
    assert_eq!(
        adapter.tracker.chunks.chunks,
        vec![
            Chunk::Tms(bools(&[0, 1, 1, 0, 0])),
            Chunk::Tdi(bools(&[1, 0]), true),
            Chunk::Tms(bools(&[1, 0])),
            Chunk::Tms(bools(&[1, 1, 0, 0])),
            Chunk::Tdi(bools(&[1, 0]), true),
            Chunk::Tms(bools(&[1, 0])),
        ]
    );
}

#[test]
fn read_reg_sets_the_instruction_and_captures_zeros() {
    let mut adapter = echo_stack();
    adapter.go_rti();
    let captured = adapter.read_reg(&bits(&[0, 1, 1]), 5);
    assert_eq!(captured, BitStream::repeat(false, 5));
    assert_eq!(adapter.tracker.state.current_state, JTAGState::RunTestIdle);
    assert_eq!(
        adapter.tracker.chunks.chunks,
        vec![
            Chunk::Tms(bools(&[0])),
            Chunk::Tms(bools(&[1, 1, 0, 0])),
            Chunk::Tdi(bools(&[0, 1, 1]), true),
            Chunk::Tms(bools(&[1, 0])),
            Chunk::Tms(bools(&[1, 0, 0])),
            Chunk::TdiTdo(vec![false; 5], true),
            Chunk::Tms(bools(&[1, 0])),
        ]
    );
}

#[test]
fn read_reg_shifts_what_the_plain_sequence_shifts() {
    let mut lowered = echo_stack();
    let out = lowered.execute_actions(&[JTAGAction::ReadReg {
        ir: bits(&[1, 0, 0, 1]),
        drlen: 9,
    }]);

    let mut plain = echo_stack();
    let outs = plain.execute_actions(&[
        JTAGAction::GoViaStates(vec![JTAGState::ShiftIR]),
        JTAGAction::ShiftBits {
            bits_tdi: bits(&[1, 0, 0, 1]),
            capture: false,
            tms_exit: true,
        },
        JTAGAction::GoViaStates(vec![JTAGState::ShiftDR]),
        JTAGAction::ShiftBits {
            bits_tdi: BitStream::repeat(false, 9),
            capture: true,
            tms_exit: true,
        },
        JTAGAction::GoViaStates(vec![JTAGState::RunTestIdle]),
    ]);

    assert_eq!(out, vec![outs[3].clone()]);
    assert_eq!(
        lowered.tracker.state.current_state,
        plain.tracker.state.current_state
    );
    let shifts = |chunks: &Vec<Chunk>| -> Vec<Chunk> {
        chunks
            .iter()
            .filter(|chunk| matches!(chunk, Chunk::Tdi(..) | Chunk::TdiTdo(..)))
            .cloned()
            .collect()
    };
    assert_eq!(
        shifts(&lowered.tracker.chunks.chunks),
        shifts(&plain.tracker.chunks.chunks)
    );
}

#[test]
fn write_reg_sets_the_instruction_and_shifts_the_data() {
    let mut adapter = echo_stack();
    adapter.write_reg(&bits(&[1, 1]), &bits(&[0, 1, 0, 1]));
    assert_eq!(adapter.flush(), vec![JTAGOutput::NoData]);
    assert_eq!(adapter.tracker.state.current_state, JTAGState::RunTestIdle);
    assert_eq!(
        adapter.tracker.chunks.chunks,
        vec![
            Chunk::Tms(bools(&[0, 1, 1, 0, 0])),
            Chunk::Tdi(bools(&[1, 1]), true),
            Chunk::Tms(bools(&[1, 0])),
            Chunk::Tms(bools(&[1, 0, 0])),
            Chunk::Tdi(bools(&[0, 1, 0, 1]), true),
            Chunk::Tms(bools(&[1, 0])),
        ]
    );
}

#[test]
fn capture_is_as_long_as_what_was_shifted() {
    for len in [0usize, 1, 7, 8, 9, 33] {
        for tms_exit in [false, true] {
            let mut adapter = echo_stack();
            adapter.go_shiftdr();
            let captured = adapter.shift_bits_inout(&BitStream::repeat(true, len), tms_exit);
            assert_eq!(captured.len(), len);
        }
    }
}

#[test]
fn split_shift_over_the_bitbang_stack() {
    let mut adapter = BufferedStateTracker::new(TrackedChunkShifter::new(ChunkedBitbang::new(
        EchoBitbang::new(),
    )));
    adapter.reset_to_tlr();
    adapter.go_shiftdr();
    let low = adapter.shift_bits_inout(&bits(&[1, 0, 1]), false);
    let high = adapter.shift_bits_inout(&bits(&[1, 1]), true);
    adapter.go_rti();
    adapter.flush();
    assert_eq!(low.to_bools(), bools(&[0, 1, 0]));
    assert_eq!(high.to_bools(), bools(&[1, 1]));
    assert_eq!(adapter.tracker.state.current_state, JTAGState::RunTestIdle);
    let tms: Vec<bool> = adapter
        .tracker
        .chunks
        .driver
        .cycles
        .iter()
        .map(|cycle| cycle.0)
        .collect();
    assert_eq!(
        tms,
        bools(&[1, 1, 1, 1, 1, 0, 1, 0, 0, 0, 0, 0, 0, 1, 1, 0])
    );
    assert_eq!(walk(JTAGState::PauseIR, &tms), JTAGState::RunTestIdle);
}
