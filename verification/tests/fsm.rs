use jtag::JTAGState;
use jtag::JTAGState::{
    CaptureDR, CaptureIR, Exit1DR, Exit1IR, Exit2DR, Exit2IR, PauseDR, PauseIR, RunTestIdle,
    SelectDR, SelectIR, ShiftDR, ShiftIR, TestLogicReset, UpdateDR, UpdateIR,
};

const ALL_STATES: [JTAGState; 16] = [
    JTAGState::TestLogicReset,
    JTAGState::RunTestIdle,
    JTAGState::SelectDR,
    JTAGState::CaptureDR,
    JTAGState::ShiftDR,
    JTAGState::Exit1DR,
    JTAGState::PauseDR,
    JTAGState::Exit2DR,
    JTAGState::UpdateDR,
    JTAGState::SelectIR,
    JTAGState::CaptureIR,
    JTAGState::ShiftIR,
    JTAGState::Exit1IR,
    JTAGState::PauseIR,
    JTAGState::Exit2IR,
    JTAGState::UpdateIR,
];

fn walk(from: JTAGState, tms: &[bool]) -> JTAGState {
    let mut state = from;
    for bit in tms {
        state = state.transition(*bit);
    }
    state
}

fn bits(values: &[u8]) -> Vec<bool> {
    values.iter().map(|v| *v != 0).collect()
}

#[test]
fn test_fsm_transitions() {
    for state_a in ALL_STATES {
        for state_b in ALL_STATES {
            let path = state_a.path_to(state_b);

            let mut state = state_a;
            for tms in path.to_bools() {
                state = state.transition(tms);
            }
            assert_eq!(state, state_b);
        }
    }
}

#[test]
fn transition_table_is_the_standard_one() {
    let table = [
        (TestLogicReset, RunTestIdle, TestLogicReset),
        (RunTestIdle, RunTestIdle, SelectDR),
        (SelectDR, CaptureDR, SelectIR),
        (CaptureDR, ShiftDR, Exit1DR),
        (ShiftDR, ShiftDR, Exit1DR),
        (Exit1DR, PauseDR, UpdateDR),
        (PauseDR, PauseDR, Exit2DR),
        (Exit2DR, ShiftDR, UpdateDR),
        (UpdateDR, RunTestIdle, SelectDR),
        (SelectIR, CaptureIR, TestLogicReset),
        (CaptureIR, ShiftIR, Exit1IR),
        (ShiftIR, ShiftIR, Exit1IR),
        (Exit1IR, PauseIR, UpdateIR),
        (PauseIR, PauseIR, Exit2IR),
        (Exit2IR, ShiftIR, UpdateIR),
        (UpdateIR, RunTestIdle, SelectDR),
    ];
    for (from, on_zero, on_one) in table {
        assert_eq!(from.transition(false), on_zero);
        assert_eq!(from.transition(true), on_one);
    }
}

#[test]
fn path_to_itself_is_empty() {
    for state in ALL_STATES {
        assert_eq!(state.path_to(state).len(), 0);
        assert_eq!(state.path_to(state).to_bools(), Vec::<bool>::new());
    }
}

#[test]
fn path_from_tlr_to_update_ir() {
    let path = JTAGState::TestLogicReset.path_to(JTAGState::UpdateIR);
    assert_eq!(path.to_bools(), bits(&[0, 1, 1, 0, 1, 1]));
    assert_eq!(path.len(), 6);
}

#[test]
fn no_five_cycles_lead_from_tlr_to_update_ir() {
    for code in 0u32..32 {
        let tms: Vec<bool> = (0..5).map(|k| (code >> k) & 1 == 1).collect();
        assert_ne!(walk(JTAGState::TestLogicReset, &tms), JTAGState::UpdateIR);
    }
}

#[test]
fn some_paths_of_the_table() {
    assert_eq!(RunTestIdle.path_to(TestLogicReset).to_bools(), bits(&[1, 1, 1]));
    assert_eq!(RunTestIdle.path_to(ShiftDR).to_bools(), bits(&[1, 0, 0]));
    assert_eq!(Exit1DR.path_to(RunTestIdle).to_bools(), bits(&[1, 0]));
    assert_eq!(Exit1DR.path_to(ShiftDR).to_bools(), bits(&[0, 1, 0]));
    assert_eq!(Exit1IR.path_to(ShiftDR).to_bools(), bits(&[1, 1, 0, 0]));
    assert_eq!(TestLogicReset.path_to(Exit2IR).to_bools(), bits(&[0, 1, 1, 0, 1, 0, 1]));
    assert_eq!(UpdateIR.path_to(PauseIR).to_bools(), bits(&[1, 1, 0, 1, 0]));
}

#[test]
fn paths_are_tight() {
    for from in ALL_STATES {
        for to in ALL_STATES {
            let path = from.path_to(to).to_bools();
            for k in 0..path.len() {
                assert_ne!(walk(from, &path[..k]), to);
            }
        }
    }
}

#[test]
fn paths_are_shortest_and_the_only_ones_of_their_length() {
    for from in ALL_STATES {
        for to in ALL_STATES {
            let path = from.path_to(to).to_bools();
            for len in 0..=path.len() {
                for code in 0u32..(1 << len) {
                    let tms: Vec<bool> = (0..len).map(|k| (code >> k) & 1 == 1).collect();
                    if walk(from, &tms) == to {
                        assert_eq!(tms, path);
                    }
                }
            }
        }
    }
}

#[test]
fn longest_path_takes_eight_cycles() {
    let mut longest = 0;
    for from in ALL_STATES {
        for to in ALL_STATES {
            longest = longest.max(from.path_to(to).len());
        }
    }
    assert_eq!(longest, 8);
    assert_eq!(
        JTAGState::CaptureDR.path_to(JTAGState::Exit2IR).to_bools(),
        bits(&[1, 1, 1, 1, 0, 1, 0, 1])
    );
}

#[test]
fn five_ones_reset_from_anywhere() {
    for from in ALL_STATES {
        assert_eq!(walk(from, &[true; 5]), JTAGState::TestLogicReset);
    }
}

#[test]
fn shift_states_are_told_apart() {
    for state in ALL_STATES {
        let shifting = state == JTAGState::ShiftDR || state == JTAGState::ShiftIR;
        assert_eq!(state.is_shifting(), shifting);
    }
}
