use jtag::{BitStream, JTAGAction, JTAGAdapter, JTAGAdapterState, JTAGOutput, JTAGState};

fn bits(values: &[u8]) -> BitStream {
    let bools: Vec<bool> = values.iter().map(|v| *v != 0).collect();
    BitStream::from_bools(&bools)
}

struct TestNativeJTAGAdapter {
    jtag_state: JTAGAdapterState,
    test_actions: Vec<JTAGAction>,
}
impl TestNativeJTAGAdapter {
    fn new(test_actions: &[JTAGAction]) -> Self {
        Self {
            jtag_state: JTAGAdapterState::new(),
            test_actions: test_actions.to_vec(),
        }
    }
}

impl JTAGAdapter for TestNativeJTAGAdapter {
    fn jtag_state_mut(&mut self) -> &mut JTAGAdapterState {
        &mut self.jtag_state
    }

    fn execute_actions(&mut self, actions: &[JTAGAction]) -> Vec<JTAGOutput> {
        assert_eq!(actions, self.test_actions);
        let mut ret = Vec::new();

        for action in actions {
            ret.push(match action {
                JTAGAction::ShiftBits {
                    bits_tdi, capture, ..
                } => {
                    if *capture {
                        JTAGOutput::CapturedBits(bits_tdi.clone())
                    } else {
                        JTAGOutput::NoData
                    }
                }
                JTAGAction::ShiftIR { ir, capture, .. } if *capture => {
                    JTAGOutput::CapturedBits(ir.clone())
                }
                JTAGAction::ShiftDR { dr, capture, .. } if *capture => {
                    JTAGOutput::CapturedBits(dr.clone())
                }
                JTAGAction::ReadReg { drlen, .. } => {
                    JTAGOutput::CapturedBits(BitStream::repeat(true, *drlen))
                }
                _ => JTAGOutput::NoData,
            });
        }

        ret
    }
}

#[test]
fn native_compile_test_trait_obj_safe() {
    let _: &dyn JTAGAdapter;
}

#[test]
fn native_test_native_adapter_fns() {
    let mut testadapter = TestNativeJTAGAdapter::new(&[]);

    testadapter.test_actions = vec![JTAGAction::ResetToTLR];
    testadapter.reset_to_tlr();
    testadapter.flush();

    // test buffering
    testadapter.test_actions = vec![];
    testadapter.reset_to_tlr();
    testadapter.go_rti();
    testadapter.go_tlr();
    testadapter.shift_bits_out(&bits(&[1, 0, 1, 0]), false);
    testadapter.test_actions = vec![
        JTAGAction::ResetToTLR,
        JTAGAction::GoViaStates(vec![JTAGState::RunTestIdle]),
        JTAGAction::GoViaStates(vec![JTAGState::TestLogicReset]),
        JTAGAction::ShiftBits {
            bits_tdi: bits(&[1, 0, 1, 0]),
            capture: false,
            tms_exit: false,
        },
        JTAGAction::ShiftBits {
            bits_tdi: bits(&[0, 1, 0, 1]),
            capture: true,
            tms_exit: true,
        },
    ];
    testadapter.shift_bits_inout(&bits(&[0, 1, 0, 1]), true);
}

#[test]
fn buffered_flush_returns_one_output_for_each_action() {
    let mut testadapter = TestNativeJTAGAdapter::new(&[
        JTAGAction::ResetToTLR,
        JTAGAction::GoViaStates(vec![JTAGState::RunTestIdle]),
    ]);
    testadapter.queue_action(JTAGAction::ResetToTLR);
    testadapter.queue_action(JTAGAction::GoViaStates(vec![JTAGState::RunTestIdle]));
    assert_eq!(testadapter.flush(), vec![JTAGOutput::NoData, JTAGOutput::NoData]);

    testadapter.test_actions = vec![];
    assert_eq!(testadapter.flush(), Vec::<JTAGOutput>::new());
}

#[test]
fn idcode_read_submits_three_actions() {
    let zeros = BitStream::repeat(false, 32);
    let mut testadapter = TestNativeJTAGAdapter::new(&[
        JTAGAction::ResetToTLR,
        JTAGAction::GoViaStates(vec![JTAGState::RunTestIdle]),
        JTAGAction::ShiftDR {
            dr: zeros.clone(),
            capture: true,
            pause: false,
        },
    ]);
    testadapter.reset_to_tlr();
    testadapter.go_rti();
    let idcode = testadapter.shift_dr_inout(&zeros, false);
    assert_eq!(idcode.len(), 32);
    assert_eq!(idcode, zeros);
}

#[test]
fn each_state_has_its_own_shorthand() {
    let mut testadapter = TestNativeJTAGAdapter::new(&[]);
    testadapter.go_tlr();
    testadapter.go_rti();
    testadapter.go_selectdr();
    testadapter.go_capturedr();
    testadapter.go_shiftdr();
    testadapter.go_exit1dr();
    testadapter.go_pausedr();
    testadapter.go_exit2dr();
    testadapter.go_updatedr();
    testadapter.go_selectir();
    testadapter.go_captureir();
    testadapter.go_shiftir();
    testadapter.go_exit1ir();
    testadapter.go_pauseir();
    testadapter.go_exit2ir();
    testadapter.go_updateir();
    testadapter.go_to_state(JTAGState::PauseDR);
    testadapter.go_via_states(&[JTAGState::ShiftIR, JTAGState::RunTestIdle]);
    let states = [
        JTAGState::TestLogicReset,
        JTAGState::RunTestIdle,
        JTAGState::SelectDR,
        JTAGState::CaptureDR,
        JTAGState::ShiftDR,
        JTAGState::Exit1DR,
        JTAGState::PauseDR,
        JTAGState::Exit2DR,
        JTAGState::UpdateDR,
        JTAGState::SelectIR,
        JTAGState::CaptureIR,
        JTAGState::ShiftIR,
        JTAGState::Exit1IR,
        JTAGState::PauseIR,
        JTAGState::Exit2IR,
        JTAGState::UpdateIR,
        JTAGState::PauseDR,
    ];
    let mut expected: Vec<JTAGAction> = states
        .iter()
        .map(|state| JTAGAction::GoViaStates(vec![*state]))
        .collect();
    expected.push(JTAGAction::GoViaStates(vec![
        JTAGState::ShiftIR,
        JTAGState::RunTestIdle,
    ]));
    testadapter.test_actions = expected;
    assert_eq!(testadapter.flush().len(), 18);
}

#[test]
fn buffered_shifts_and_registers_queue_one_action_each() {
    let mut testadapter = TestNativeJTAGAdapter::new(&[]);
    testadapter.shift_ir_out(&bits(&[1, 0]), true);
    testadapter.shift_dr_out(&bits(&[0, 1, 1]), false);
    testadapter.set_ir(&bits(&[1, 1]));
    testadapter.write_reg(&bits(&[0, 1]), &bits(&[1, 0, 0]));
    testadapter.test_actions = vec![
        JTAGAction::ShiftIR {
            ir: bits(&[1, 0]),
            capture: false,
            pause: true,
        },
        JTAGAction::ShiftDR {
            dr: bits(&[0, 1, 1]),
            capture: true,
            pause: false,
        },
        JTAGAction::SetIR(bits(&[1, 1])),
        JTAGAction::WriteReg {
            ir: bits(&[0, 1]),
            dr: bits(&[1, 0, 0]),
        },
    ];
    assert_eq!(
        testadapter.flush(),
        vec![
            JTAGOutput::NoData,
            JTAGOutput::CapturedBits(bits(&[0, 1, 1])),
            JTAGOutput::NoData,
            JTAGOutput::NoData,
        ]
    );
}

#[test]
fn blocking_calls_return_the_last_output() {
    let mut testadapter = TestNativeJTAGAdapter::new(&[]);
    testadapter.test_actions = vec![JTAGAction::ShiftIR {
        ir: bits(&[1, 0, 1]),
        capture: true,
        pause: false,
    }];
    assert_eq!(testadapter.shift_ir_inout(&bits(&[1, 0, 1]), false), bits(&[1, 0, 1]));

    testadapter.test_actions = vec![
        JTAGAction::ResetToTLR,
        JTAGAction::ReadReg {
            ir: bits(&[0, 1]),
            drlen: 7,
        },
    ];
    testadapter.reset_to_tlr();
    assert_eq!(testadapter.read_reg(&bits(&[0, 1]), 7), BitStream::repeat(true, 7));
}
