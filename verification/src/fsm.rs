//! The TAP controller of IEEE 1149.1: its sixteen states, the move that each
//! value of TMS causes, and the shortest way from any state to any other.

use crate::bits::BitStream;
use vstd::prelude::*;

verus! {

/// A state of the TAP controller.
#[derive(Copy, Clone, PartialEq, Eq, Debug, Hash, Structural)]
pub enum JTAGState {
    TestLogicReset,
    RunTestIdle,
    SelectDR,
    CaptureDR,
    ShiftDR,
    Exit1DR,
    PauseDR,
    Exit2DR,
    UpdateDR,
    SelectIR,
    CaptureIR,
    ShiftIR,
    Exit1IR,
    PauseIR,
    Exit2IR,
    UpdateIR,
}

/// The state reached from `from` by clocking the bits of `tms` in order.
pub open spec fn walk(from: JTAGState, tms: Seq<bool>) -> JTAGState
    decreases tms.len(),
{
    if tms.len() == 0 {
        from
    } else {
        walk(from.step(tms[0]), tms.skip(1))
    }
}

/// The entry of a row of sixteen numbers that belongs to `to`.
pub open spec fn pick(
    to: JTAGState,
    d0: nat,
    d1: nat,
    d2: nat,
    d3: nat,
    d4: nat,
    d5: nat,
    d6: nat,
    d7: nat,
    d8: nat,
    d9: nat,
    d10: nat,
    d11: nat,
    d12: nat,
    d13: nat,
    d14: nat,
    d15: nat,
) -> nat {
    match to {
        JTAGState::TestLogicReset => d0,
        JTAGState::RunTestIdle => d1,
        JTAGState::SelectDR => d2,
        JTAGState::CaptureDR => d3,
        JTAGState::ShiftDR => d4,
        JTAGState::Exit1DR => d5,
        JTAGState::PauseDR => d6,
        JTAGState::Exit2DR => d7,
        JTAGState::UpdateDR => d8,
        JTAGState::SelectIR => d9,
        JTAGState::CaptureIR => d10,
        JTAGState::ShiftIR => d11,
        JTAGState::Exit1IR => d12,
        JTAGState::PauseIR => d13,
        JTAGState::Exit2IR => d14,
        JTAGState::UpdateIR => d15,
    }
}

/// The number of clock cycles that the shortest way from `from` to `to`
/// takes. `lemma_distance_is_least` and `lemma_route_length` show that the
/// table holds exactly that.
pub open spec fn distance(from: JTAGState, to: JTAGState) -> nat {
    match from {
        JTAGState::TestLogicReset => pick(to, 0, 1, 2, 3, 4, 4, 5, 6, 5, 3, 4, 5, 5, 6, 7, 6),
        JTAGState::RunTestIdle => pick(to, 3, 0, 1, 2, 3, 3, 4, 5, 4, 2, 3, 4, 4, 5, 6, 5),
        JTAGState::SelectDR => pick(to, 2, 3, 0, 1, 2, 2, 3, 4, 3, 1, 2, 3, 3, 4, 5, 4),
        JTAGState::CaptureDR => pick(to, 5, 3, 3, 0, 1, 1, 2, 3, 2, 4, 5, 6, 6, 7, 8, 7),
        JTAGState::ShiftDR => pick(to, 5, 3, 3, 4, 0, 1, 2, 3, 2, 4, 5, 6, 6, 7, 8, 7),
        JTAGState::Exit1DR => pick(to, 4, 2, 2, 3, 3, 0, 1, 2, 1, 3, 4, 5, 5, 6, 7, 6),
        JTAGState::PauseDR => pick(to, 5, 3, 3, 4, 2, 3, 0, 1, 2, 4, 5, 6, 6, 7, 8, 7),
        JTAGState::Exit2DR => pick(to, 4, 2, 2, 3, 1, 2, 3, 0, 1, 3, 4, 5, 5, 6, 7, 6),
        JTAGState::UpdateDR => pick(to, 3, 1, 1, 2, 3, 3, 4, 5, 0, 2, 3, 4, 4, 5, 6, 5),
        JTAGState::SelectIR => pick(to, 1, 2, 3, 4, 5, 5, 6, 7, 6, 0, 1, 2, 2, 3, 4, 3),
        JTAGState::CaptureIR => pick(to, 5, 3, 3, 4, 5, 5, 6, 7, 6, 4, 0, 1, 1, 2, 3, 2),
        JTAGState::ShiftIR => pick(to, 5, 3, 3, 4, 5, 5, 6, 7, 6, 4, 5, 0, 1, 2, 3, 2),
        JTAGState::Exit1IR => pick(to, 4, 2, 2, 3, 4, 4, 5, 6, 5, 3, 4, 3, 0, 1, 2, 1),
        JTAGState::PauseIR => pick(to, 5, 3, 3, 4, 5, 5, 6, 7, 6, 4, 5, 2, 3, 0, 1, 2),
        JTAGState::Exit2IR => pick(to, 4, 2, 2, 3, 4, 4, 5, 6, 5, 3, 4, 1, 2, 3, 0, 1),
        JTAGState::UpdateIR => pick(to, 3, 1, 1, 2, 3, 3, 4, 5, 4, 2, 3, 4, 4, 5, 6, 0),
    }
}

/// The value of TMS with which the shortest way from `from` to `to` begins:
/// 0 where that brings the controller closer, 1 otherwise.
pub open spec fn toward(from: JTAGState, to: JTAGState) -> bool {
    !(distance(from.step(false), to) < distance(from, to))
}

/// The shortest sequence of TMS values that takes the controller from `from`
/// to `to`; empty where the two are the same state.
pub open spec fn route(from: JTAGState, to: JTAGState) -> Seq<bool>
    decreases distance(from, to),
{
    if from == to {
        Seq::<bool>::empty()
    } else {
        let tms = toward(from, to);
        seq![tms] + route(from.step(tms), to)
    }
}

impl JTAGState {
    /// The state that follows `self` when TCK rises with the given TMS.
    pub open spec fn step(self, tms: bool) -> JTAGState {
        match self {
            JTAGState::TestLogicReset => if tms {
                JTAGState::TestLogicReset
            } else {
                JTAGState::RunTestIdle
            },
            JTAGState::RunTestIdle | JTAGState::UpdateDR | JTAGState::UpdateIR => if tms {
                JTAGState::SelectDR
            } else {
                JTAGState::RunTestIdle
            },
            JTAGState::SelectDR => if tms {
                JTAGState::SelectIR
            } else {
                JTAGState::CaptureDR
            },
            JTAGState::CaptureDR | JTAGState::ShiftDR => if tms {
                JTAGState::Exit1DR
            } else {
                JTAGState::ShiftDR
            },
            JTAGState::Exit1DR => if tms {
                JTAGState::UpdateDR
            } else {
                JTAGState::PauseDR
            },
            JTAGState::PauseDR => if tms {
                JTAGState::Exit2DR
            } else {
                JTAGState::PauseDR
            },
            JTAGState::Exit2DR => if tms {
                JTAGState::UpdateDR
            } else {
                JTAGState::ShiftDR
            },
            JTAGState::SelectIR => if tms {
                JTAGState::TestLogicReset
            } else {
                JTAGState::CaptureIR
            },
            JTAGState::CaptureIR | JTAGState::ShiftIR => if tms {
                JTAGState::Exit1IR
            } else {
                JTAGState::ShiftIR
            },
            JTAGState::Exit1IR => if tms {
                JTAGState::UpdateIR
            } else {
                JTAGState::PauseIR
            },
            JTAGState::PauseIR => if tms {
                JTAGState::Exit2IR
            } else {
                JTAGState::PauseIR
            },
            JTAGState::Exit2IR => if tms {
                JTAGState::UpdateIR
            } else {
                JTAGState::ShiftIR
            },
        }
    }

    /// Whether bits are shifted through a register in this state.
    pub open spec fn is_shift(self) -> bool {
        self == JTAGState::ShiftDR || self == JTAGState::ShiftIR
    }

    /// Calculate the next state from this state with the given value on TMS
    pub fn transition(&self, tms: bool) -> (next: JTAGState)
        ensures
            next == self.step(tms),
    {
        match self {
            JTAGState::TestLogicReset => {
                if !tms {
                    JTAGState::RunTestIdle
                } else {
                    JTAGState::TestLogicReset
                }
            },
            JTAGState::RunTestIdle => {
                if !tms {
                    JTAGState::RunTestIdle
                } else {
                    JTAGState::SelectDR
                }
            },
            JTAGState::SelectDR => {
                if !tms {
                    JTAGState::CaptureDR
                } else {
                    JTAGState::SelectIR
                }
            },
            JTAGState::CaptureDR => {
                if !tms {
                    JTAGState::ShiftDR
                } else {
                    JTAGState::Exit1DR
                }
            },
            JTAGState::ShiftDR => {
                if !tms {
                    JTAGState::ShiftDR
                } else {
                    JTAGState::Exit1DR
                }
            },
            JTAGState::Exit1DR => {
                if !tms {
                    JTAGState::PauseDR
                } else {
                    JTAGState::UpdateDR
                }
            },
            JTAGState::PauseDR => {
                if !tms {
                    JTAGState::PauseDR
                } else {
                    JTAGState::Exit2DR
                }
            },
            JTAGState::Exit2DR => {
                if !tms {
                    JTAGState::ShiftDR
                } else {
                    JTAGState::UpdateDR
                }
            },
            JTAGState::UpdateDR => {
                if !tms {
                    JTAGState::RunTestIdle
                } else {
                    JTAGState::SelectDR
                }
            },
            JTAGState::SelectIR => {
                if !tms {
                    JTAGState::CaptureIR
                } else {
                    JTAGState::TestLogicReset
                }
            },
            JTAGState::CaptureIR => {
                if !tms {
                    JTAGState::ShiftIR
                } else {
                    JTAGState::Exit1IR
                }
            },
            JTAGState::ShiftIR => {
                if !tms {
                    JTAGState::ShiftIR
                } else {
                    JTAGState::Exit1IR
                }
            },
            JTAGState::Exit1IR => {
                if !tms {
                    JTAGState::PauseIR
                } else {
                    JTAGState::UpdateIR
                }
            },
            JTAGState::PauseIR => {
                if !tms {
                    JTAGState::PauseIR
                } else {
                    JTAGState::Exit2IR
                }
            },
            JTAGState::Exit2IR => {
                if !tms {
                    JTAGState::ShiftIR
                } else {
                    JTAGState::UpdateIR
                }
            },
            JTAGState::UpdateIR => {
                if !tms {
                    JTAGState::RunTestIdle
                } else {
                    JTAGState::SelectDR
                }
            },
        }
    }

    /// Whether bits are shifted through a register in this state.
    pub fn is_shifting(&self) -> (b: bool)
        ensures
            b == self.is_shift(),
    {
        matches!(self, JTAGState::ShiftDR | JTAGState::ShiftIR)
    }

    /// The first TMS value on the shortest way to another state.
    ///
    /// A branch is left by its only exit; it is entered, or walked further
    /// down, only where the target lies that way.
    fn first_tms(&self, end: JTAGState) -> (tms: bool)
        requires
            *self != end,
        ensures
            tms == toward(*self, end),
    {
        match self {
            JTAGState::TestLogicReset => false,
            JTAGState::RunTestIdle => true,
            JTAGState::SelectDR => !matches!(
                end,
                JTAGState::CaptureDR | JTAGState::ShiftDR | JTAGState::Exit1DR | JTAGState::PauseDR
                    | JTAGState::Exit2DR | JTAGState::UpdateDR
            ),
            JTAGState::SelectIR => !matches!(
                end,
                JTAGState::CaptureIR | JTAGState::ShiftIR | JTAGState::Exit1IR | JTAGState::PauseIR
                    | JTAGState::Exit2IR | JTAGState::UpdateIR
            ),
            JTAGState::CaptureDR => !matches!(end, JTAGState::ShiftDR),
            JTAGState::CaptureIR => !matches!(end, JTAGState::ShiftIR),
            JTAGState::ShiftDR | JTAGState::ShiftIR => true,
            JTAGState::PauseDR | JTAGState::PauseIR => true,
            JTAGState::Exit1DR => !matches!(
                end,
                JTAGState::PauseDR | JTAGState::Exit2DR | JTAGState::ShiftDR
            ),
            JTAGState::Exit1IR => !matches!(
                end,
                JTAGState::PauseIR | JTAGState::Exit2IR | JTAGState::ShiftIR
            ),
            JTAGState::Exit2DR => !matches!(
                end,
                JTAGState::ShiftDR | JTAGState::Exit1DR | JTAGState::PauseDR
            ),
            JTAGState::Exit2IR => !matches!(
                end,
                JTAGState::ShiftIR | JTAGState::Exit1IR | JTAGState::PauseIR
            ),
            JTAGState::UpdateDR | JTAGState::UpdateIR => !matches!(end, JTAGState::RunTestIdle),
        }
    }

    /// Calculate the shortest path (via TMS transitions) to get to `end` from this state
    ///
    /// The path leads to `end` and not to it before its last cycle; no
    /// sequence of TMS values that leads there is shorter, and none of the
    /// same length is another one. It is empty where `end` is this state,
    /// and eight cycles long at most.
    pub fn path_to(&self, end: JTAGState) -> (path: BitStream)
        ensures
            path@ == route(*self, end),
            walk(*self, path@) == end,
            forall|k: int| 0 <= k < path@.len() ==> walk(*self, #[trigger] path@.take(k)) != end,
            forall|tms: Seq<bool>| #[trigger] walk(*self, tms) == end ==> path@.len() <= tms.len(),
            forall|tms: Seq<bool>|
                #[trigger] walk(*self, tms) == end && tms.len() == path@.len() ==> tms == path@,
            path@.len() == distance(*self, end),
            path@.len() <= 8,
    {
        let mut path = BitStream::new();
        let mut at = *self;
        while at != end
            invariant
                path@ + route(at, end) == route(*self, end),
                path@.len() + distance(at, end) == distance(*self, end),
            decreases distance(at, end),
        {
            let tms = at.first_tms(end);
            proof {
                lemma_step_closer(at, end);
                lemma_distance_bounds(*self, end);
                assert(path@.push(tms) + route(at.step(tms), end) =~= path@ + route(at, end));
            }
            path.push(tms);
            at = at.transition(tms);
        }
        proof {
            assert(path@ + route(at, end) =~= path@);
            lemma_route_reaches(*self, end);
            lemma_distance_bounds(*self, end);
            assert forall|k: int| 0 <= k < path@.len() implies walk(
                *self,
                #[trigger] path@.take(k),
            ) != end by {
                lemma_route_tight(*self, end, k);
            }
            assert forall|tms: Seq<bool>| #[trigger] walk(*self, tms) == end implies path@.len()
                <= tms.len() by {
                lemma_route_shortest(*self, end, tms);
            }
            assert forall|tms: Seq<bool>| #[trigger]
                walk(*self, tms) == end && tms.len() == path@.len() implies tms == path@ by {
                lemma_route_unique(*self, end, tms);
            }
        }
        path
    }
}

/// The first step of the shortest way brings the controller one cycle
/// closer.
pub proof fn lemma_step_closer(from: JTAGState, to: JTAGState)
    requires
        from != to,
    ensures
        distance(from.step(toward(from, to)), to) + 1 == distance(from, to),
{
}

/// The other first step does not bring the controller closer.
pub proof fn lemma_step_astray(from: JTAGState, to: JTAGState)
    requires
        from != to,
    ensures
        distance(from.step(!toward(from, to)), to) >= distance(from, to),
{
}

/// One clock cycle shortens the way by at most one.
pub proof fn lemma_step_bound(from: JTAGState, tms: bool, to: JTAGState)
    ensures
        distance(from, to) <= distance(from.step(tms), to) + 1,
{
}

/// A state is at distance 0 from itself only, and no state is further than
/// eight cycles from another.
pub proof fn lemma_distance_bounds(from: JTAGState, to: JTAGState)
    ensures
        distance(from, to) == 0 <==> from == to,
        distance(from, to) <= 8,
{
}

/// Clocking `a` and then `b` is clocking `a + b`.
pub proof fn lemma_walk_concat(from: JTAGState, a: Seq<bool>, b: Seq<bool>)
    ensures
        walk(from, a + b) == walk(walk(from, a), b),
    decreases a.len(),
{
    if a.len() == 0 {
        assert(a + b =~= b);
    } else {
        assert((a + b).skip(1) =~= a.skip(1) + b);
        lemma_walk_concat(from.step(a[0]), a.skip(1), b);
    }
}

/// Clocking one more bit after `tms` is one more step.
pub proof fn lemma_walk_push(from: JTAGState, tms: Seq<bool>, last: bool)
    ensures
        walk(from, tms.push(last)) == walk(from, tms).step(last),
{
    lemma_walk_concat(from, tms, seq![last]);
    assert(tms.push(last) =~= tms + seq![last]);
    assert(seq![last].skip(1) =~= Seq::<bool>::empty());
    assert(walk(walk(from, tms), seq![last]) == walk(
        walk(from, tms).step(last),
        seq![last].skip(1),
    ));
}

/// The route takes as many cycles as the distance says.
pub proof fn lemma_route_length(from: JTAGState, to: JTAGState)
    ensures
        route(from, to).len() == distance(from, to),
    decreases distance(from, to),
{
    lemma_distance_bounds(from, to);
    if from != to {
        lemma_step_closer(from, to);
        lemma_route_length(from.step(toward(from, to)), to);
    }
}

/// Clocking the route from one state to another ends in the other.
pub proof fn lemma_route_reaches(from: JTAGState, to: JTAGState)
    ensures
        walk(from, route(from, to)) == to,
    decreases distance(from, to),
{
    if from != to {
        lemma_step_closer(from, to);
        let tms = toward(from, to);
        lemma_route_reaches(from.step(tms), to);
        assert(route(from, to).skip(1) =~= route(from.step(tms), to));
    }
}

/// No sequence of TMS values reaches a state in fewer cycles than its
/// distance.
pub proof fn lemma_distance_is_least(from: JTAGState, tms: Seq<bool>)
    ensures
        distance(from, walk(from, tms)) <= tms.len(),
    decreases tms.len(),
{
    if tms.len() == 0 {
        lemma_distance_bounds(from, from);
    } else {
        lemma_distance_is_least(from.step(tms[0]), tms.skip(1));
        lemma_step_bound(from, tms[0], walk(from, tms));
    }
}

/// No sequence of TMS values that leads from one state to another is
/// shorter than the route.
pub proof fn lemma_route_shortest(from: JTAGState, to: JTAGState, tms: Seq<bool>)
    requires
        walk(from, tms) == to,
    ensures
        route(from, to).len() <= tms.len(),
{
    lemma_route_length(from, to);
    lemma_distance_is_least(from, tms);
}

/// The route is tight: the target is reached at the route's end and not
/// before.
pub proof fn lemma_route_tight(from: JTAGState, to: JTAGState, k: int)
    requires
        0 <= k < route(from, to).len(),
    ensures
        walk(from, route(from, to).take(k)) != to,
{
    lemma_route_length(from, to);
    lemma_distance_is_least(from, route(from, to).take(k));
}

/// The route is the only sequence of its length that leads from one state
/// to the other, so no choice between equally short ways ever arises.
pub proof fn lemma_route_unique(from: JTAGState, to: JTAGState, tms: Seq<bool>)
    requires
        walk(from, tms) == to,
        tms.len() == route(from, to).len(),
    ensures
        tms == route(from, to),
    decreases tms.len(),
{
    lemma_route_length(from, to);
    lemma_distance_bounds(from, to);
    if from == to {
        assert(tms =~= route(from, to));
    } else {
        let first = toward(from, to);
        lemma_step_closer(from, to);
        lemma_distance_is_least(from.step(tms[0]), tms.skip(1));
        if tms[0] != first {
            lemma_step_astray(from, to);
        }
        lemma_route_length(from.step(first), to);
        lemma_route_unique(from.step(first), to, tms.skip(1));
        assert(tms =~= seq![first] + tms.skip(1));
    }
}

/// Five cycles with TMS at 1 bring the controller to Test-Logic-Reset from
/// any state.
pub proof fn lemma_reset_reaches_tlr(from: JTAGState)
    ensures
        walk(from, Seq::new(5, |i: int| true)) == JTAGState::TestLogicReset,
{
    let ones = Seq::new(5, |i: int| true);
    let s1 = from.step(true);
    let s2 = s1.step(true);
    let s3 = s2.step(true);
    let s4 = s3.step(true);
    let e = Seq::<bool>::empty();
    assert(ones =~= e.push(true).push(true).push(true).push(true).push(true));
    lemma_walk_push(from, e, true);
    lemma_walk_push(from, e.push(true), true);
    lemma_walk_push(from, e.push(true).push(true), true);
    lemma_walk_push(from, e.push(true).push(true).push(true), true);
    lemma_walk_push(from, e.push(true).push(true).push(true).push(true), true);
}

/// Clocking zeros in a shift state stays there.
pub proof fn lemma_shift_stays(at: JTAGState, tms: Seq<bool>)
    requires
        at.is_shift(),
        forall|j: int| 0 <= j < tms.len() ==> !tms[j],
    ensures
        walk(at, tms) == at,
    decreases tms.len(),
{
    if tms.len() > 0 {
        lemma_shift_stays(at, tms.skip(1));
    }
}

} // verus!
