//! The Xilinx Virtual Cable protocol: its commands, and how a raw stream of
//! TMS and TDI bits is turned back into the actions of an adapter.
//!
//! A client sends TMS and TDI for every clock cycle. The server follows the
//! TAP state machine over the TMS bits and cuts the stream into segments:
//! five cycles with TMS at 1 are a reset, the cycles spent in a shift state
//! are a shift of the TDI bits, and the rest is a walk through the states
//! that the TMS bits lead to.

use crate::bits::{byte_bit, lemma_packed_len, pack, unpack, BitStream, MAX_BITS};
use crate::fsm::{
    lemma_distance_bounds, lemma_reset_reaches_tlr, lemma_route_length, lemma_shift_stays,
    lemma_step_bound, lemma_walk_concat, walk, JTAGState,
};
use crate::native::{
    action_views, admissible_all, lands_all, lemma_run_front, lemma_via_route_front, output_views,
    outputs_from, ran, via_end, via_route, zeros, ActionView, JTAGAction, JTAGAdapter, JTAGOutput,
    OutputView,
};
use vstd::prelude::*;

verus! {

/// The bytes that the server keeps for the TMS bits, and for the TDI bits,
/// of one shift.
pub const BUFFER_BYTES: usize = 512;

/// The most bits that one shift may hold: what the buffers take. This is
/// also the number that the server names in its answer to `getinfo:`.
pub const MAX_SHIFT_BITS: usize = 4096;

/// A command of a client, as far as its header says.
#[derive(Clone, Copy, PartialEq, Eq, Debug, Structural)]
pub enum XvcCommand {
    /// `getinfo:`: the client asks what the server can do.
    GetInfo,
    /// `settck:` and a period: the client asks for a clock with that period,
    /// in nanoseconds.
    SetTck { period_ns: u32 },
    /// `shift:` and a number of bits: that many TMS bits and as many TDI
    /// bits follow, each in as many bytes as they need.
    Shift { nbits: u32 },
}

/// What the bytes received so far hold.
#[derive(Clone, Copy, PartialEq, Eq, Debug, Structural)]
pub enum XvcParse {
    /// The bytes begin a command; more are needed to know all of its
    /// header.
    Incomplete,
    /// The bytes begin no command.
    Unknown,
    /// A shift of more bits than the server takes.
    TooLong { nbits: u32 },
    /// A command, whose header is the first `header_len` of the bytes.
    Command { command: XvcCommand, header_len: usize },
}

/// The bytes of `getinfo:`.
pub open spec fn getinfo_tag() -> Seq<u8> {
    seq![0x67u8, 0x65u8, 0x74u8, 0x69u8, 0x6eu8, 0x66u8, 0x6fu8, 0x3au8]
}

/// The bytes of `settck:`.
pub open spec fn settck_tag() -> Seq<u8> {
    seq![0x73u8, 0x65u8, 0x74u8, 0x74u8, 0x63u8, 0x6bu8, 0x3au8]
}

/// The bytes of `shift:`.
pub open spec fn shift_tag() -> Seq<u8> {
    seq![0x73u8, 0x68u8, 0x69u8, 0x66u8, 0x74u8, 0x3au8]
}

/// The number that four bytes hold from position `at` on, least
/// significant byte first.
pub open spec fn le32(bytes: Seq<u8>, at: int) -> u32 {
    (bytes[at] + 256 * bytes[at + 1] + 65536 * bytes[at + 2] + 16777216 * bytes[at + 3]) as u32
}

/// Whether `buf` begins with all of `tag`.
pub open spec fn begins_with(buf: Seq<u8>, tag: Seq<u8>) -> bool {
    tag.len() <= buf.len() && buf.take(tag.len() as int) == tag
}

/// Whether `buf` is the beginning of `tag`, and not all of it.
pub open spec fn begins(buf: Seq<u8>, tag: Seq<u8>) -> bool {
    buf.len() < tag.len() && tag.take(buf.len() as int) == buf
}

/// What the bytes `buf`, received at a command boundary, hold.
pub open spec fn parsed(buf: Seq<u8>) -> XvcParse {
    if begins_with(buf, getinfo_tag()) {
        XvcParse::Command { command: XvcCommand::GetInfo, header_len: 8 }
    } else if begins_with(buf, settck_tag()) {
        if buf.len() >= 11 {
            XvcParse::Command {
                command: XvcCommand::SetTck { period_ns: le32(buf, 7) },
                header_len: 11,
            }
        } else {
            XvcParse::Incomplete
        }
    } else if begins_with(buf, shift_tag()) {
        if buf.len() < 10 {
            XvcParse::Incomplete
        } else if le32(buf, 6) > MAX_SHIFT_BITS {
            XvcParse::TooLong { nbits: le32(buf, 6) }
        } else {
            XvcParse::Command { command: XvcCommand::Shift { nbits: le32(buf, 6) }, header_len: 10 }
        }
    } else if begins(buf, getinfo_tag()) || begins(buf, settck_tag()) || begins(buf, shift_tag()) {
        XvcParse::Incomplete
    } else {
        XvcParse::Unknown
    }
}

/// How far `buf` and `tag` agree: whether `buf` begins with all of `tag`,
/// and whether it is the beginning of `tag` and not all of it.
fn compare_tag(buf: &[u8], tag: &[u8]) -> (r: (bool, bool))
    ensures
        r.0 == begins_with(buf@, tag@),
        r.1 == begins(buf@, tag@),
{
    let shorter = if buf.len() < tag.len() {
        buf.len()
    } else {
        tag.len()
    };
    let mut k: usize = 0;
    while k < shorter
        invariant
            k <= shorter,
            shorter <= buf@.len(),
            shorter <= tag@.len(),
            forall|j: int| 0 <= j < k ==> buf@[j] == tag@[j],
        decreases shorter - k,
    {
        if buf[k] != tag[k] {
            proof {
                if tag@.len() <= buf@.len() {
                    assert(buf@.take(tag@.len() as int)[k as int] == buf@[k as int]);
                } else {
                    assert(tag@.take(buf@.len() as int)[k as int] == tag@[k as int]);
                }
            }
            return (false, false);
        }
        k += 1;
    }
    proof {
        if tag@.len() <= buf@.len() {
            assert(buf@.take(tag@.len() as int) =~= tag@);
        } else {
            assert(tag@.take(buf@.len() as int) =~= buf@);
        }
    }
    (tag.len() <= buf.len(), buf.len() < tag.len())
}

/// The number that four bytes hold from position `at` on, least
/// significant byte first.
fn read_le32(bytes: &[u8], at: usize) -> (n: u32)
    requires
        at + 4 <= bytes@.len(),
    ensures
        n == le32(bytes@, at as int),
{
    (bytes[at] as u32) + 256 * (bytes[at + 1] as u32) + 65536 * (bytes[at + 2] as u32) + 16777216
        * (bytes[at + 3] as u32)
}

/// Says what the bytes received at a command boundary hold.
pub fn parse_command(buf: &[u8]) -> (r: XvcParse)
    ensures
        r == parsed(buf@),
{
    let getinfo: [u8; 8] = [0x67, 0x65, 0x74, 0x69, 0x6e, 0x66, 0x6f, 0x3a];
    let settck: [u8; 7] = [0x73, 0x65, 0x74, 0x74, 0x63, 0x6b, 0x3a];
    let shift: [u8; 6] = [0x73, 0x68, 0x69, 0x66, 0x74, 0x3a];
    proof {
        assert(getinfo@ =~= getinfo_tag());
        assert(settck@ =~= settck_tag());
        assert(shift@ =~= shift_tag());
    }
    let (is_getinfo, may_be_getinfo) = compare_tag(buf, getinfo.as_slice());
    let (is_settck, may_be_settck) = compare_tag(buf, settck.as_slice());
    let (is_shift, may_be_shift) = compare_tag(buf, shift.as_slice());
    if is_getinfo {
        XvcParse::Command { command: XvcCommand::GetInfo, header_len: 8 }
    } else if is_settck {
        if buf.len() >= 11 {
            XvcParse::Command {
                command: XvcCommand::SetTck { period_ns: read_le32(buf, 7) },
                header_len: 11,
            }
        } else {
            XvcParse::Incomplete
        }
    } else if is_shift {
        if buf.len() < 10 {
            XvcParse::Incomplete
        } else {
            let num_bits = read_le32(buf, 6);
            if num_bits as usize > MAX_SHIFT_BITS {
                XvcParse::TooLong { nbits: num_bits }
            } else {
                XvcParse::Command { command: XvcCommand::Shift { nbits: num_bits }, header_len: 10 }
            }
        }
    } else if may_be_getinfo || may_be_settck || may_be_shift {
        XvcParse::Incomplete
    } else {
        XvcParse::Unknown
    }
}

/// The number of bytes that the TMS bits, and as many that the TDI bits,
/// of a shift of `nbits` bits take.
pub fn shift_bytes(nbits: u32) -> (n: usize)
    requires
        nbits <= MAX_SHIFT_BITS,
    ensures
        n == (nbits + 7) / 8,
        n <= BUFFER_BYTES,
{
    (nbits as usize + 7) / 8
}

/// The server's answer to `getinfo:`: its name and version, and the most
/// bits that it takes in one shift.
pub fn getinfo_response() -> (line: &'static str)
    ensures
        line@ == "xvcServer_v1.0:4096\n"@,
{
    "xvcServer_v1.0:4096\n"
}

proof fn lemma_le32_parts(n: u32)
    by (bit_vector)
    ensures
        (n % 256) + 256 * ((n / 256) % 256) + 65536 * ((n / 65536) % 256) + 16777216 * (n
            / 16777216) == n,
        n / 16777216 < 256,
{
}

/// The server's answer to `settck:`: the period that it has set, least
/// significant byte first.
pub fn settck_response(period_ns: u32) -> (bytes: [u8; 4])
    ensures
        le32(bytes@, 0) == period_ns,
{
    proof {
        lemma_le32_parts(period_ns);
    }
    [
        (period_ns % 256) as u8,
        ((period_ns / 256) % 256) as u8,
        ((period_ns / 65536) % 256) as u8,
        (period_ns / 16777216) as u8,
    ]
}

/// One piece of a stream of clock cycles, and the action that stands for
/// it: the cycles `start..end`.
pub struct Segment {
    pub action: ActionView,
    pub start: int,
    pub end: int,
}

/// Whether TMS is 1 in the five cycles from `i` on.
pub open spec fn five_ones(tms: Seq<bool>, i: int) -> bool {
    0 <= i && i + 5 <= tms.len() && tms[i] && tms[i + 1] && tms[i + 2] && tms[i + 3] && tms[i + 4]
}

/// The first cycle from `i` on in which TMS is 1, or the end of the
/// stream.
pub open spec fn run_end(tms: Seq<bool>, i: int) -> int
    decreases tms.len() - i,
{
    if i < 0 || i >= tms.len() || tms[i] {
        i
    } else {
        run_end(tms, i + 1)
    }
}

/// Whether a walk that has come to cycle `i` in state `at` stops there:
/// at the end of the stream, before a reset, or in a shift state.
pub open spec fn walk_stops(tms: Seq<bool>, i: int, at: JTAGState) -> bool {
    i < 0 || i >= tms.len() || five_ones(tms, i) || at.is_shift()
}

/// The cycle at which a walk stops that is at cycle `i` in state `at`.
pub open spec fn walk_end(tms: Seq<bool>, i: int, at: JTAGState) -> int
    decreases tms.len() - i,
{
    if walk_stops(tms, i, at) {
        i
    } else {
        walk_end(tms, i + 1, at.step(tms[i]))
    }
}

/// The states that a walk comes to, one for each cycle, that is at cycle
/// `i` in state `at`.
pub open spec fn walk_states(tms: Seq<bool>, i: int, at: JTAGState) -> Seq<JTAGState>
    decreases tms.len() - i,
{
    if walk_stops(tms, i, at) {
        Seq::<JTAGState>::empty()
    } else {
        seq![at.step(tms[i])] + walk_states(tms, i + 1, at.step(tms[i]))
    }
}

/// The segment that begins at cycle `i`, with the controller in state `at`.
///
/// Five cycles with TMS at 1 are a reset, in whatever state. In a shift
/// state the segment is a shift with capture: it runs up to and with the
/// first cycle with TMS at 1, which leaves the shift state; where that cycle
/// begins a reset, or none comes, it runs up to there and does not leave.
/// In any other state the segment is a walk through the states that the TMS
/// bits lead to, up to and with the cycle that enters a shift state.
pub open spec fn segment_at(tms: Seq<bool>, tdi: Seq<bool>, i: int, at: JTAGState) -> Segment {
    if five_ones(tms, i) {
        Segment { action: ActionView::ResetToTLR, start: i, end: i + 5 }
    } else if at.is_shift() {
        let k = run_end(tms, i);
        if k < tms.len() && !five_ones(tms, k) {
            Segment {
                action: ActionView::ShiftBits {
                    bits_tdi: tdi.subrange(i, k + 1),
                    capture: true,
                    tms_exit: true,
                },
                start: i,
                end: k + 1,
            }
        } else {
            Segment {
                action: ActionView::ShiftBits {
                    bits_tdi: tdi.subrange(i, k),
                    capture: true,
                    tms_exit: false,
                },
                start: i,
                end: k,
            }
        }
    } else {
        Segment {
            action: ActionView::GoViaStates(walk_states(tms, i, at)),
            start: i,
            end: walk_end(tms, i, at),
        }
    }
}

/// The segments into which the cycles from `i` on are cut, with the
/// controller in state `at` at cycle `i`.
pub open spec fn segments(tms: Seq<bool>, tdi: Seq<bool>, i: int, at: JTAGState) -> Seq<Segment>
    decreases tms.len() - i,
{
    if i < 0 || i >= tms.len() {
        Seq::<Segment>::empty()
    } else {
        let first = segment_at(tms, tdi, i, at);
        proof {
            lemma_segment_not_empty(tms, tdi, i, at);
        }
        seq![first] + segments(tms, tdi, first.end, first.action.lands(at))
    }
}

/// The segments that a list of actions and a list of ranges of cycles
/// make, pair by pair.
pub open spec fn paired(actions: Seq<ActionView>, ranges: Seq<(usize, usize)>) -> Seq<Segment> {
    Seq::new(
        actions.len(),
        |j: int| Segment { action: actions[j], start: ranges[j].0 as int, end: ranges[j].1 as int },
    )
}

/// Every segment holds at least one cycle.
pub proof fn lemma_segment_not_empty(tms: Seq<bool>, tdi: Seq<bool>, i: int, at: JTAGState)
    requires
        0 <= i < tms.len(),
    ensures
        i < segment_at(tms, tdi, i, at).end <= tms.len(),
        segment_at(tms, tdi, i, at).start == i,
{
    lemma_run_end_bounds(tms, i);
    lemma_walk_end_bounds(tms, i, at);
}

/// A shift runs to a cycle with TMS at 1, or to the end, over cycles with
/// TMS at 0.
pub proof fn lemma_run_end_bounds(tms: Seq<bool>, i: int)
    requires
        0 <= i <= tms.len(),
    ensures
        i <= run_end(tms, i) <= tms.len(),
        run_end(tms, i) < tms.len() ==> tms[run_end(tms, i)],
        forall|j: int| i <= j < run_end(tms, i) ==> !tms[j],
    decreases tms.len() - i,
{
    if i < tms.len() && !tms[i] {
        lemma_run_end_bounds(tms, i + 1);
    }
}

/// A walk comes to one state for each of its cycles, and ends within the
/// stream.
pub proof fn lemma_walk_end_bounds(tms: Seq<bool>, i: int, at: JTAGState)
    requires
        0 <= i <= tms.len(),
    ensures
        i <= walk_end(tms, i, at) <= tms.len(),
        walk_states(tms, i, at).len() == walk_end(tms, i, at) - i,
        !walk_stops(tms, i, at) ==> i < walk_end(tms, i, at),
    decreases tms.len() - i,
{
    if !walk_stops(tms, i, at) {
        lemma_walk_end_bounds(tms, i + 1, at.step(tms[i]));
    }
}

/// The cycles of each of a list of segments: where it begins, and where it
/// ends.
pub open spec fn ranges_of(segs: Seq<Segment>) -> Seq<(usize, usize)> {
    Seq::new(segs.len(), |j: int| (segs[j].start as usize, segs[j].end as usize))
}

/// The actions of a list of segments.
pub open spec fn actions_of(segs: Seq<Segment>) -> Seq<ActionView> {
    Seq::new(segs.len(), |j: int| segs[j].action)
}

/// The number of clock cycles that an action of a plan stands for.
pub open spec fn cycles_of(action: ActionView) -> int {
    match action {
        ActionView::ResetToTLR => 5,
        ActionView::GoViaStates(states) => states.len() as int,
        ActionView::ShiftBits { bits_tdi, .. } => bits_tdi.len() as int,
        _ => 0,
    }
}

/// Whether the segments cover the cycles `from..to`, each cycle once: the
/// first begins at `from`, each other where the one before it ends, the last
/// ends at `to`, and each holds as many cycles, at least one, as its action
/// stands for.
pub open spec fn tiles(segs: Seq<Segment>, from: int, to: int) -> bool {
    &&& segs.len() == 0 ==> from == to
    &&& segs.len() > 0 ==> segs[0].start == from && segs.last().end == to
    &&& forall|j: int|
        0 <= j < segs.len() ==> (#[trigger] segs[j]).start < segs[j].end && cycles_of(
            segs[j].action,
        ) == segs[j].end - segs[j].start
    &&& forall|j: int| 0 <= j < segs.len() - 1 ==> (#[trigger] segs[j]).end == segs[j + 1].start
}

/// The segments of a stream cover it, each cycle once.
pub proof fn lemma_segments_tile(tms: Seq<bool>, tdi: Seq<bool>, i: int, at: JTAGState)
    requires
        0 <= i <= tms.len(),
        tdi.len() == tms.len(),
    ensures
        tiles(segments(tms, tdi, i, at), i, tms.len() as int),
    decreases tms.len() - i,
{
    if i < tms.len() {
        let first = segment_at(tms, tdi, i, at);
        lemma_segment_not_empty(tms, tdi, i, at);
        lemma_run_end_bounds(tms, i);
        lemma_walk_end_bounds(tms, i, at);
        let rest = segments(tms, tdi, first.end, first.action.lands(at));
        lemma_segments_tile(tms, tdi, first.end, first.action.lands(at));
        let all = segments(tms, tdi, i, at);
        assert(all =~= seq![first] + rest);
        assert forall|j: int| 0 <= j < all.len() implies (#[trigger] all[j]).start < all[j].end
            && cycles_of(all[j].action) == all[j].end - all[j].start by {
            if j > 0 {
                assert(all[j] == rest[j - 1]);
            }
        }
        assert forall|j: int| 0 <= j < all.len() - 1 implies (#[trigger] all[j]).end == all[j
            + 1].start by {
            assert(all[j + 1] == rest[j]);
            if j > 0 {
                assert(all[j] == rest[j - 1]);
            }
        }
        if rest.len() > 0 {
            assert(all.last() == rest.last());
        }
    }
}

/// A walk that follows the TMS bits takes no more cycles than it has
/// states: each state is one cycle from the one before it.
pub proof fn lemma_walk_route_len(tms: Seq<bool>, i: int, at: JTAGState)
    requires
        0 <= i <= tms.len(),
    ensures
        via_route(at, walk_states(tms, i, at)).len() <= walk_states(tms, i, at).len(),
    decreases tms.len() - i,
{
    if !walk_stops(tms, i, at) {
        let next = at.step(tms[i]);
        let rest = walk_states(tms, i + 1, next);
        lemma_walk_route_len(tms, i + 1, next);
        lemma_via_route_front(at, next, rest);
        lemma_route_length(at, next);
        lemma_step_bound(at, tms[i], next);
        lemma_distance_bounds(next, next);
    }
}

/// The plan of a stream can be run from the state in which the stream
/// begins: each shift finds the controller in a shift state.
pub proof fn lemma_segments_admissible(tms: Seq<bool>, tdi: Seq<bool>, i: int, at: JTAGState)
    requires
        0 <= i <= tms.len() <= MAX_BITS,
    ensures
        admissible_all(at, actions_of(segments(tms, tdi, i, at))),
    decreases tms.len() - i,
{
    if i < tms.len() {
        let first = segment_at(tms, tdi, i, at);
        lemma_segment_not_empty(tms, tdi, i, at);
        lemma_walk_end_bounds(tms, i, at);
        lemma_walk_route_len(tms, i, at);
        let rest = segments(tms, tdi, first.end, first.action.lands(at));
        lemma_segments_admissible(tms, tdi, first.end, first.action.lands(at));
        assert(actions_of(segments(tms, tdi, i, at)) =~= seq![first.action] + actions_of(rest));
        lemma_run_front(at, first.action, actions_of(rest));
    } else {
        assert(actions_of(segments(tms, tdi, i, at)) =~= Seq::<ActionView>::empty());
    }
}

/// A walk that follows the TMS bits ends where they lead.
pub proof fn lemma_walk_follows(tms: Seq<bool>, i: int, at: JTAGState)
    requires
        0 <= i <= tms.len(),
    ensures
        via_end(at, walk_states(tms, i, at)) == walk(at, tms.subrange(i, walk_end(tms, i, at))),
    decreases tms.len() - i,
{
    lemma_walk_end_bounds(tms, i, at);
    if !walk_stops(tms, i, at) {
        let next = at.step(tms[i]);
        let rest = walk_states(tms, i + 1, next);
        lemma_walk_follows(tms, i + 1, next);
        lemma_walk_end_bounds(tms, i + 1, next);
        lemma_via_route_front(at, next, rest);
        let end = walk_end(tms, i, at);
        assert(tms.subrange(i, end).skip(1) =~= tms.subrange(i + 1, end));
    }
}

/// The plan of a stream leaves the controller where the TMS bits of the
/// stream lead it.
pub proof fn lemma_segments_follow(tms: Seq<bool>, tdi: Seq<bool>, i: int, at: JTAGState)
    requires
        0 <= i <= tms.len(),
    ensures
        lands_all(at, actions_of(segments(tms, tdi, i, at))) == walk(at, tms.skip(i)),
    decreases tms.len() - i,
{
    if i < tms.len() {
        let first = segment_at(tms, tdi, i, at);
        lemma_segment_not_empty(tms, tdi, i, at);
        let next = first.action.lands(at);
        let rest = segments(tms, tdi, first.end, next);
        lemma_segments_follow(tms, tdi, first.end, next);
        assert(actions_of(segments(tms, tdi, i, at)) =~= seq![first.action] + actions_of(rest));
        lemma_run_front(at, first.action, actions_of(rest));
        let head = tms.subrange(i, first.end);
        assert(next == walk(at, head)) by {
            if five_ones(tms, i) {
                assert(head =~= Seq::new(5, |j: int| true));
                lemma_reset_reaches_tlr(at);
            } else if at.is_shift() {
                let k = run_end(tms, i);
                lemma_run_end_bounds(tms, i);
                let still = tms.subrange(i, k);
                lemma_shift_stays(at, still);
                if k < tms.len() && !five_ones(tms, k) {
                    assert(head =~= still + seq![true]);
                    lemma_walk_concat(at, still, seq![true]);
                    assert(seq![true].skip(1) =~= Seq::<bool>::empty());
                    assert(walk(at, seq![true]) == walk(at.step(true), seq![true].skip(1)));
                }
            } else {
                lemma_walk_follows(tms, i, at);
            }
        }
        assert(tms.skip(i) =~= head + tms.skip(first.end));
        lemma_walk_concat(at, head, tms.skip(first.end));
    } else {
        assert(actions_of(segments(tms, tdi, i, at)) =~= Seq::<ActionView>::empty());
        assert(tms.skip(i) =~= Seq::<bool>::empty());
    }
}

/// What a shift request is cut into.
pub struct ShiftPlan {
    /// The actions that stand for the stream, in order.
    pub actions: Vec<JTAGAction>,
    /// For each action, the cycles of the stream that it stands for: from
    /// the first of the pair up to, and without, the second.
    pub ranges: Vec<(usize, usize)>,
    /// The state in which the actions leave the controller.
    pub end_state: JTAGState,
}

/// Whether TMS is 1 in the five cycles from `i` on.
fn is_five_ones(tms: &[u8], nbits: usize, i: usize) -> (b: bool)
    requires
        i <= nbits <= 8 * tms@.len(),
    ensures
        b == five_ones(unpack(tms@, nbits as nat), i as int),
{
    if nbits - i < 5 {
        return false;
    }
    let mut k: usize = 0;
    while k < 5
        invariant
            k <= 5,
            i + 5 <= nbits <= 8 * tms@.len(),
            forall|j: int| i <= j < i + k ==> unpack(tms@, nbits as nat)[j],
        decreases 5 - k,
    {
        if !byte_bit(tms[(i + k) / 8], ((i + k) % 8) as u8) {
            return false;
        }
        k += 1;
    }
    proof {
        let bits = unpack(tms@, nbits as nat);
        assert(bits[i + 0] && bits[i + 1] && bits[i + 2] && bits[i + 3] && bits[i + 4]);
    }
    true
}

/// Cuts a stream of `nbits` clock cycles into the actions that stand for
/// it. `tms` and `tdi` hold the bits, packed with the least significant bit
/// of each byte first; `state` is where the controller is at the first
/// cycle.
pub fn plan_shift(nbits: usize, tms: &[u8], tdi: &[u8], state: JTAGState) -> (plan: ShiftPlan)
    requires
        nbits <= 8 * tms@.len(),
        nbits <= 8 * tdi@.len(),
        nbits <= MAX_BITS,
    ensures
        plan.ranges@.len() == plan.actions@.len(),
        paired(action_views(plan.actions@), plan.ranges@) == segments(
            unpack(tms@, nbits as nat),
            unpack(tdi@, nbits as nat),
            0,
            state,
        ),
        plan.end_state == lands_all(state, action_views(plan.actions@)),
{
    let ghost all_tms = unpack(tms@, nbits as nat);
    let ghost all_tdi = unpack(tdi@, nbits as nat);
    let mut actions: Vec<JTAGAction> = Vec::new();
    let mut ranges: Vec<(usize, usize)> = Vec::new();
    let mut current_state = state;
    let mut i: usize = 0;
    proof {
        assert(paired(action_views(actions@), ranges@) =~= Seq::<Segment>::empty());
    }
    while i < nbits
        invariant
            i <= nbits <= MAX_BITS,
            nbits <= 8 * tms@.len(),
            nbits <= 8 * tdi@.len(),
            all_tms == unpack(tms@, nbits as nat),
            all_tdi == unpack(tdi@, nbits as nat),
            ranges@.len() == actions@.len(),
            paired(action_views(actions@), ranges@) + segments(
                all_tms,
                all_tdi,
                i as int,
                current_state,
            ) == segments(all_tms, all_tdi, 0, state),
            current_state == lands_all(state, action_views(actions@)),
        decreases nbits - i,
    {
        let ghost done = paired(action_views(actions@), ranges@);
        let ghost views = action_views(actions@);
        let ghost here = segment_at(all_tms, all_tdi, i as int, current_state);
        let ghost at = current_state;
        let start = i;
        proof {
            lemma_segment_not_empty(all_tms, all_tdi, i as int, current_state);
        }
        if is_five_ones(tms, nbits, i) {
            actions.push(JTAGAction::ResetToTLR);
            current_state = JTAGState::TestLogicReset;
            i += 5;
        } else if current_state.is_shifting() {
            let mut k: usize = i;
            while k < nbits && !byte_bit(tms[k / 8], (k % 8) as u8)
                invariant
                    i <= k <= nbits <= 8 * tms@.len(),
                    all_tms == unpack(tms@, nbits as nat),
                    run_end(all_tms, k as int) == run_end(all_tms, i as int),
                decreases nbits - k,
            {
                k += 1;
            }
            if k < nbits && !is_five_ones(tms, nbits, k) {
                actions.push(
                    JTAGAction::ShiftBits {
                        bits_tdi: BitStream::from_bytes_range(tdi, start, k + 1),
                        capture: true,
                        tms_exit: true,
                    },
                );
                current_state = current_state.transition(true);
                i = k + 1;
            } else {
                actions.push(
                    JTAGAction::ShiftBits {
                        bits_tdi: BitStream::from_bytes_range(tdi, start, k),
                        capture: true,
                        tms_exit: false,
                    },
                );
                i = k;
            }
            proof {
                assert(unpack(tdi@, i as nat).subrange(start as int, i as int) =~= all_tdi.subrange(
                    start as int,
                    i as int,
                ));
            }
        } else {
            let mut accum_states: Vec<JTAGState> = Vec::new();
            while i < nbits && !is_five_ones(tms, nbits, i) && !current_state.is_shifting()
                invariant
                    start <= i <= nbits <= 8 * tms@.len(),
                    all_tms == unpack(tms@, nbits as nat),
                    accum_states@ + walk_states(all_tms, i as int, current_state) == walk_states(
                        all_tms,
                        start as int,
                        at,
                    ),
                    walk_end(all_tms, i as int, current_state) == walk_end(
                        all_tms,
                        start as int,
                        at,
                    ),
                    current_state == via_end(at, accum_states@),
                decreases nbits - i,
            {
                let ghost so_far = accum_states@;
                let ghost from = current_state;
                let tms_bit = byte_bit(tms[i / 8], (i % 8) as u8);
                current_state = current_state.transition(tms_bit);
                accum_states.push(current_state);
                proof {
                    assert(accum_states@ + walk_states(all_tms, i + 1, current_state) =~= so_far
                        + walk_states(all_tms, i as int, from));
                }
                i += 1;
            }
            proof {
                assert(accum_states@ + walk_states(all_tms, i as int, current_state)
                    =~= accum_states@);
            }
            actions.push(JTAGAction::GoViaStates(accum_states));
        }
        ranges.push((start, i));
        proof {
            let views_now = action_views(actions@);
            assert(views_now =~= views.push(here.action));
            assert(views_now.drop_last() =~= views);
            assert(paired(views_now, ranges@) =~= done.push(here));
            assert(done.push(here) + segments(all_tms, all_tdi, i as int, current_state) =~= done
                + segments(all_tms, all_tdi, start as int, at));
        }
    }
    proof {
        assert(segments(all_tms, all_tdi, i as int, current_state) =~= Seq::<Segment>::empty());
        assert(paired(action_views(actions@), ranges@) + Seq::<Segment>::empty() =~= paired(
            action_views(actions@),
            ranges@,
        ));
    }
    ShiftPlan { actions, ranges, end_state: current_state }
}

/// The stream `onto` with `bits` written over it from position `at` on.
pub open spec fn overwritten(onto: Seq<bool>, at: int, bits: Seq<bool>) -> Seq<bool> {
    Seq::new(
        onto.len(),
        |p: int|
            if at <= p < at + bits.len() {
                bits[p - at]
            } else {
                onto[p]
            },
    )
}

/// The TDO bits of a stream of `nbits` cycles: 0 throughout, but for the
/// cycles of each range whose output holds captured bits, where they are
/// those bits.
pub open spec fn placed(ranges: Seq<(usize, usize)>, outs: Seq<OutputView>, nbits: nat) -> Seq<bool>
    decreases ranges.len(),
{
    if ranges.len() == 0 {
        zeros(nbits)
    } else {
        let before = placed(ranges.drop_last(), outs.drop_last(), nbits);
        match outs.last() {
            OutputView::CapturedBits(bits) => overwritten(before, ranges.last().0 as int, bits),
            _ => before,
        }
    }
}

/// Whether each output that holds captured bits holds as many as its
/// range has cycles, within a stream of `nbits` cycles.
pub open spec fn fitting(ranges: Seq<(usize, usize)>, outs: Seq<OutputView>, nbits: nat) -> bool {
    &&& ranges.len() == outs.len()
    &&& forall|j: int|
        0 <= j < ranges.len() && (#[trigger] outs[j]) is CapturedBits ==> ranges[j].0 <= ranges[j].1
            <= nbits && outs[j]->CapturedBits_0.len() == ranges[j].1 - ranges[j].0
}

/// The TDO bytes with which a shift request of `nbits` cycles is answered:
/// the captured bits of each output at the cycles of its range, 0
/// elsewhere, packed with the least significant bit of each byte first.
pub fn tdo_bytes(ranges: &[(usize, usize)], outs: &[JTAGOutput], nbits: usize) -> (bytes: Vec<u8>)
    requires
        nbits <= MAX_BITS,
        fitting(ranges@, output_views(outs@), nbits as nat),
    ensures
        bytes@ == pack(placed(ranges@, output_views(outs@), nbits as nat)),
{
    let mut tdo: Vec<bool> = Vec::new();
    while tdo.len() < nbits
        invariant
            tdo@.len() <= nbits,
            tdo@ == zeros(tdo@.len()),
        decreases nbits - tdo@.len(),
    {
        tdo.push(false);
        assert(tdo@ =~= zeros(tdo@.len()));
    }
    let ghost views = output_views(outs@);
    let mut j: usize = 0;
    proof {
        assert(ranges@.take(0) =~= Seq::<(usize, usize)>::empty());
    }
    while j < ranges.len()
        invariant
            j <= ranges@.len(),
            nbits <= MAX_BITS,
            views == output_views(outs@),
            fitting(ranges@, views, nbits as nat),
            tdo@.len() == nbits,
            tdo@ == placed(ranges@.take(j as int), views.take(j as int), nbits as nat),
        decreases ranges@.len() - j,
    {
        let ghost before = tdo@;
        proof {
            assert(ranges@.take(j + 1).drop_last() =~= ranges@.take(j as int));
            assert(views.take(j + 1).drop_last() =~= views.take(j as int));
            assert(views[j as int] == outs@[j as int]@);
        }
        match &outs[j] {
            JTAGOutput::CapturedBits(bv) => {
                let (idxstart, idxend) = ranges[j];
                let mut p: usize = idxstart;
                while p < idxend
                    invariant
                        idxstart <= p <= idxend <= nbits,
                        bv@.len() == idxend - idxstart,
                        tdo@.len() == nbits,
                        tdo@ == overwritten(
                            before,
                            idxstart as int,
                            bv@.take(p - idxstart),
                        ),
                    decreases idxend - p,
                {
                    tdo[p] = bv.get(p - idxstart);
                    p += 1;
                    proof {
                        assert(tdo@ =~= overwritten(
                            before,
                            idxstart as int,
                            bv@.take(p - idxstart),
                        ));
                    }
                }
                proof {
                    assert(bv@.take(idxend - idxstart) =~= bv@);
                }
            },
            _ => {},
        }
        j += 1;
    }
    proof {
        assert(ranges@.take(j as int) =~= ranges@);
        assert(views.take(j as int) =~= views);
    }
    BitStream::from_bools(tdo.as_slice()).to_bytes()
}

/// Answers one shift request: cuts the stream into actions, has the
/// adapter run them, and packs what it captured into the TDO bytes.
/// Returns those bytes and the state in which the controller is left.
pub fn serve_shift<A: JTAGAdapter>(
    adapter: &mut A,
    state: JTAGState,
    nbits: usize,
    tms: &[u8],
    tdi: &[u8],
) -> (served: (Vec<u8>, JTAGState))
    requires
        old(adapter).model().tap_state == state,
        nbits <= 8 * tms@.len(),
        nbits <= 8 * tdi@.len(),
        nbits <= MAX_BITS,
    ensures
        final(adapter).model().queued == old(adapter).model().queued,
        final(adapter).model().tap_state == served.1,
        served.1 == walk(state, unpack(tms@, nbits as nat)),
        ran(
            old(adapter).model().trace,
            final(adapter).model().trace,
            actions_of(segments(unpack(tms@, nbits as nat), unpack(tdi@, nbits as nat), 0, state)),
        ),
        served.0@.len() == (nbits + 7) / 8,
        served.0@ == pack(
            placed(
                ranges_of(
                    segments(unpack(tms@, nbits as nat), unpack(tdi@, nbits as nat), 0, state),
                ),
                outputs_from(final(adapter).model().trace, old(adapter).model().trace.len()),
                nbits as nat,
            ),
        ),
{
    let ghost all_tms = unpack(tms@, nbits as nat);
    let ghost all_tdi = unpack(tdi@, nbits as nat);
    let ghost segs = segments(all_tms, all_tdi, 0, state);
    let plan = plan_shift(nbits, tms, tdi, state);
    proof {
        lemma_segments_admissible(all_tms, all_tdi, 0, state);
        lemma_segments_follow(all_tms, all_tdi, 0, state);
        lemma_segments_tile(all_tms, all_tdi, 0, state);
        assert(all_tms.skip(0) =~= all_tms);
        assert(action_views(plan.actions@) =~= actions_of(segs)) by {
            assert forall|j: int| 0 <= j < segs.len() implies action_views(plan.actions@)[j]
                == actions_of(segs)[j] by {
                assert(paired(action_views(plan.actions@), plan.ranges@)[j] == segs[j]);
            }
        }
    }
    let result = adapter.execute_actions(plan.actions.as_slice());
    proof {
        let views = action_views(plan.actions@);
        let outs = output_views(result@);
        let before = old(adapter).model().trace;
        let after = adapter.model().trace;
        assert forall|j: int| 0 <= j < plan.ranges@.len() && (#[trigger] outs[j]) is CapturedBits
            implies plan.ranges@[j].0 <= plan.ranges@[j].1 <= nbits && outs[j]->CapturedBits_0.len()
            == plan.ranges@[j].1 - plan.ranges@[j].0 by {
            assert(views[j].yields(after[before.len() + j].output));
            assert(paired(views, plan.ranges@)[j] == segs[j]);
            assert(segs[j].start < segs[j].end);
            lemma_tiles_within(segs, 0, nbits as int, j);
        }
        lemma_packed_len(placed(plan.ranges@, outs, nbits as nat));
        lemma_placed_len(plan.ranges@, outs, nbits as nat);
        assert(plan.ranges@ =~= ranges_of(segs)) by {
            assert forall|j: int| 0 <= j < segs.len() implies plan.ranges@[j] == ranges_of(
                segs,
            )[j] by {
                assert(paired(views, plan.ranges@)[j] == segs[j]);
            }
        }
    }
    let bytes = tdo_bytes(plan.ranges.as_slice(), result.as_slice(), nbits);
    (bytes, plan.end_state)
}

/// Each segment of a cover of `from..to` lies within `from..to`.
pub proof fn lemma_tiles_within(segs: Seq<Segment>, from: int, to: int, j: int)
    requires
        tiles(segs, from, to),
        0 <= j < segs.len(),
    ensures
        from <= segs[j].start < segs[j].end <= to,
    decreases segs.len() - j, j,
{
    lemma_tiles_start(segs, from, to, j);
    lemma_tiles_finish(segs, from, to, j);
}

/// No segment of a cover begins before the cover does.
pub proof fn lemma_tiles_start(segs: Seq<Segment>, from: int, to: int, j: int)
    requires
        tiles(segs, from, to),
        0 <= j < segs.len(),
    ensures
        from <= segs[j].start,
    decreases j,
{
    if j > 0 {
        lemma_tiles_start(segs, from, to, j - 1);
        assert(segs[j - 1].end == segs[j].start);
        assert(segs[j - 1].start < segs[j - 1].end);
    }
}

/// No segment of a cover ends after the cover does.
pub proof fn lemma_tiles_finish(segs: Seq<Segment>, from: int, to: int, j: int)
    requires
        tiles(segs, from, to),
        0 <= j < segs.len(),
    ensures
        segs[j].end <= to,
    decreases segs.len() - j,
{
    if j < segs.len() - 1 {
        lemma_tiles_finish(segs, from, to, j + 1);
        assert(segs[j].end == segs[j + 1].start);
        assert(segs[j + 1].start < segs[j + 1].end);
    }
}

/// Whether each range ends where the ranges after it have not begun.
pub open spec fn in_order(ranges: Seq<(usize, usize)>) -> bool {
    forall|a: int, b: int|
        0 <= a < b < ranges.len() ==> (#[trigger] ranges[a]).1 <= (#[trigger] ranges[b]).0
}

/// The TDO bit of a cycle is 0 where the cycle lies in no range whose
/// output holds captured bits.
pub proof fn lemma_placed_outside(
    ranges: Seq<(usize, usize)>,
    outs: Seq<OutputView>,
    nbits: nat,
    p: int,
)
    requires
        fitting(ranges, outs, nbits),
        0 <= p < nbits,
        forall|j: int|
            0 <= j < ranges.len() && (#[trigger] outs[j]) is CapturedBits ==> !(ranges[j].0 <= p
                < ranges[j].1),
    ensures
        !placed(ranges, outs, nbits)[p],
    decreases ranges.len(),
{
    if ranges.len() > 0 {
        let last = ranges.len() - 1;
        assert(outs[last] is CapturedBits ==> !(ranges[last].0 <= p < ranges[last].1));
        let earlier = ranges.drop_last();
        assert forall|j: int|
            0 <= j < earlier.len() && (#[trigger] outs.drop_last()[j])
                is CapturedBits implies !(earlier[j].0 <= p < earlier[j].1) by {
            assert(outs[j] is CapturedBits);
        }
        assert(fitting(ranges.drop_last(), outs.drop_last(), nbits)) by {
            assert forall|j: int|
                0 <= j < ranges.drop_last().len() && (#[trigger] outs.drop_last()[j])
                    is CapturedBits implies ranges.drop_last()[j].0 <= ranges.drop_last()[j].1
                <= nbits && outs.drop_last()[j]->CapturedBits_0.len() == ranges.drop_last()[j].1
                - ranges.drop_last()[j].0 by {
                assert(outs[j] is CapturedBits);
            }
        }
        lemma_placed_outside(ranges.drop_last(), outs.drop_last(), nbits, p);
        lemma_placed_len(ranges.drop_last(), outs.drop_last(), nbits);
    }
}

/// Where the ranges are in order, the TDO bit of a cycle in a range whose
/// output holds captured bits is the bit captured in that cycle.
pub proof fn lemma_placed_at(
    ranges: Seq<(usize, usize)>,
    outs: Seq<OutputView>,
    nbits: nat,
    j: int,
    p: int,
)
    requires
        fitting(ranges, outs, nbits),
        in_order(ranges),
        0 <= j < ranges.len(),
        outs[j] is CapturedBits,
        ranges[j].0 <= p < ranges[j].1,
    ensures
        placed(ranges, outs, nbits)[p] == outs[j]->CapturedBits_0[p - ranges[j].0],
    decreases ranges.len(),
{
    let last = ranges.len() - 1;
    lemma_placed_len(ranges.drop_last(), outs.drop_last(), nbits);
    if j < last {
        assert(ranges[j].1 <= ranges[last].0);
        assert(fitting(ranges.drop_last(), outs.drop_last(), nbits)) by {
            assert forall|k: int|
                0 <= k < ranges.drop_last().len() && (#[trigger] outs.drop_last()[k])
                    is CapturedBits implies ranges.drop_last()[k].0 <= ranges.drop_last()[k].1
                <= nbits && outs.drop_last()[k]->CapturedBits_0.len() == ranges.drop_last()[k].1
                - ranges.drop_last()[k].0 by {
                assert(outs[k] is CapturedBits);
            }
        }
        assert(in_order(ranges.drop_last())) by {
            assert forall|a: int, b: int| 0 <= a < b < ranges.drop_last().len() implies (
            #[trigger] ranges.drop_last()[a]).1 <= (#[trigger] ranges.drop_last()[b]).0 by {
                assert(ranges[a].1 <= ranges[b].0);
            }
        }
        assert(outs.drop_last()[j] == outs[j]);
        lemma_placed_at(ranges.drop_last(), outs.drop_last(), nbits, j, p);
    }
}

/// The ranges of a cover are in order.
pub proof fn lemma_tiles_in_order(segs: Seq<Segment>, from: int, to: int, a: int, b: int)
    requires
        tiles(segs, from, to),
        0 <= a < b < segs.len(),
    ensures
        segs[a].end <= segs[b].start,
    decreases b - a,
{
    assert(segs[a].end == segs[a + 1].start);
    if a + 1 < b {
        assert(segs[a + 1].start < segs[a + 1].end);
        lemma_tiles_in_order(segs, from, to, a + 1, b);
    }
}

/// In the answer to a shift request, the TDO bit of each cycle of a segment
/// is the bit that the segment's action captured in that cycle, and 0 where
/// the action captured nothing.
pub proof fn lemma_tdo_of_segments(
    tms: Seq<bool>,
    tdi: Seq<bool>,
    at: JTAGState,
    outs: Seq<OutputView>,
    j: int,
    p: int,
)
    requires
        tdi.len() == tms.len() <= usize::MAX,
        fitting(ranges_of(segments(tms, tdi, 0, at)), outs, tms.len()),
        0 <= j < segments(tms, tdi, 0, at).len(),
        segments(tms, tdi, 0, at)[j].start <= p < segments(tms, tdi, 0, at)[j].end,
    ensures
        placed(ranges_of(segments(tms, tdi, 0, at)), outs, tms.len())[p] == (if outs[j]
            is CapturedBits {
            outs[j]->CapturedBits_0[p - segments(tms, tdi, 0, at)[j].start]
        } else {
            false
        }),
{
    let segs = segments(tms, tdi, 0, at);
    let ranges = ranges_of(segs);
    lemma_segments_tile(tms, tdi, 0, at);
    assert forall|k: int| 0 <= k < segs.len() implies (#[trigger] ranges[k]).0 == segs[k].start
        && ranges[k].1 == segs[k].end by {
        lemma_tiles_within(segs, 0, tms.len() as int, k);
    }
    assert forall|a: int, b: int| 0 <= a < b < ranges.len() implies (#[trigger] ranges[a]).1 <= (
    #[trigger] ranges[b]).0 by {
        lemma_tiles_in_order(segs, 0, tms.len() as int, a, b);
    }
    lemma_tiles_within(segs, 0, tms.len() as int, j);
    if outs[j] is CapturedBits {
        lemma_placed_at(ranges, outs, tms.len(), j, p);
    } else {
        assert forall|k: int|
            0 <= k < ranges.len() && (#[trigger] outs[k]) is CapturedBits implies !(ranges[k].0 <= p
            < ranges[k].1) by {
            if k < j {
                assert(ranges[k].1 <= ranges[j].0);
            } else {
                assert(ranges[j].1 <= ranges[k].0);
            }
        }
        lemma_placed_outside(ranges, outs, tms.len(), p);
    }
}

/// The TDO bits of a stream are as many as its cycles.
pub proof fn lemma_placed_len(ranges: Seq<(usize, usize)>, outs: Seq<OutputView>, nbits: nat)
    ensures
        placed(ranges, outs, nbits).len() == nbits,
    decreases ranges.len(),
{
    if ranges.len() > 0 {
        lemma_placed_len(ranges.drop_last(), outs.drop_last(), nbits);
    }
}

} // verus!
