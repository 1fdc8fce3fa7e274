//! Adapters that drive one clock cycle at a time, and the chunk shifter
//! that the library builds on top of one of them.

use crate::bits::BitStream;
use crate::chunkshifter::{ChunkEvent, ChunkShifterJTAGAdapter};
use crate::native::{shift_tms, zeros};
use vstd::prelude::*;

verus! {

/// One call that a bit-bang adapter has served, with what it handed back.
pub enum BitbangEvent {
    /// A wait of `ns` nanoseconds was asked for; `actual` were waited.
    Delay { ns: u64, actual: u64 },
    /// A clock of `clk_hz` Hz was asked for; `actual` Hz were set.
    ClkSpeed { clk_hz: u64, actual: u64 },
    /// One clock cycle was driven with `tms` and `tdi`, and `tdo` was
    /// sampled at its end.
    Shift { tms: bool, tdi: bool, tdo: bool },
}

/// Trait for JTAG adapters that are built around bit-banging one clock cycle
/// at a time
pub trait BitbangJTAGAdapter {
    /// The calls that the adapter has served so far, oldest first.
    open spec fn bit_trace(&self) -> Seq<BitbangEvent> {
        arbitrary()
    }

    /// Wait for a given number of nanoseconds
    fn delay_ns(&mut self, ns: u64) -> (actual: u64)
        ensures
            final(self).bit_trace() == old(self).bit_trace().push(
                BitbangEvent::Delay { ns, actual },
            ),
    ;

    /// Set the clock speed (i.e. the pulse width of one clock cycle)
    fn set_clk_speed(&mut self, clk_hz: u64) -> (actual: u64)
        ensures
            final(self).bit_trace() == old(self).bit_trace().push(
                BitbangEvent::ClkSpeed { clk_hz, actual },
            ),
    ;

    /// Shift one bit out on TMS/TDI. Capture the value of TDO.
    ///
    /// The capture occurs at the end of the cycle: what is returned is what
    /// the device shifts out in answer to this cycle's rising edge.
    fn shift_one_bit(&mut self, tms: bool, tdi: bool) -> (tdo: bool)
        ensures
            final(self).bit_trace() == old(self).bit_trace().push(
                BitbangEvent::Shift { tms, tdi, tdo },
            ),
    ;
}

/// State required to be stored by a [BitbangJTAGAdapter] in order for
/// this crate to turn it into a [ChunkShifterJTAGAdapter].
#[derive(Clone, Debug)]
pub struct BitbangJTAGAdapterState {
    /// The level of TDO sampled at the end of the latest clock cycle.
    pub last_tdo: bool,
}

impl BitbangJTAGAdapterState {
    pub fn new() -> (state: Self)
        ensures
            !state.last_tdo,
    {
        Self { last_tdo: false }
    }
}

/// The level of TDO that was sampled in `event`; 0 where no cycle was
/// driven.
pub open spec fn sampled(event: BitbangEvent) -> bool {
    event is Shift && event->tdo
}

/// Whether the record `after` is the record `before` with one clock cycle
/// added for each position of `tms`, driven with the TMS and TDI values at
/// that position.
pub open spec fn clocked(
    before: Seq<BitbangEvent>,
    after: Seq<BitbangEvent>,
    tms: Seq<bool>,
    tdi: Seq<bool>,
) -> bool {
    &&& tms.len() == tdi.len()
    &&& after.len() == before.len() + tms.len()
    &&& after.take(before.len() as int) == before
    &&& forall|i: int|
        0 <= i < tms.len() ==> {
            let event = #[trigger] after[before.len() + i];
            event is Shift && event->tms == tms[i] && event->tdi == tdi[i]
        }
}

/// The TMS values of the cycles that clock out `chunk`: the chunk itself
/// where it goes out on TMS, and else those of a shift.
pub open spec fn cycle_tms(chunk: Seq<bool>, on_tms: bool, tms_exit: bool) -> Seq<bool> {
    if on_tms {
        chunk
    } else {
        shift_tms(chunk.len(), tms_exit)
    }
}

/// The TDI values of the cycles that clock out `chunk`: 0 throughout where
/// it goes out on TMS, and else the chunk itself.
pub open spec fn cycle_tdi(chunk: Seq<bool>, on_tms: bool) -> Seq<bool> {
    if on_tms {
        zeros(chunk.len())
    } else {
        chunk
    }
}

/// The level of TDO after the cycles that `after` holds beyond its first
/// `from` events; `earlier` where it holds none.
pub open spec fn latest_tdo(earlier: bool, after: Seq<BitbangEvent>, from: nat) -> bool {
    if after.len() > from {
        sampled(after.last())
    } else {
        earlier
    }
}

/// What a capture of `len` bits returns: the level of TDO before each of
/// the `len` clock edges that `after` holds beyond its first `from` events.
/// That is `earlier` for the first, and for each other the sample taken at
/// the end of the cycle before it.
pub open spec fn levels_before(
    earlier: bool,
    after: Seq<BitbangEvent>,
    from: nat,
    len: nat,
) -> Seq<bool> {
    Seq::new(
        len,
        |i: int|
            if i == 0 {
                earlier
            } else {
                sampled(after[from + i - 1])
            },
    )
}

/// A bit-bang adapter made into a chunk shifter: each bit of a chunk costs
/// one call of the driver.
pub struct ChunkedBitbang<B: BitbangJTAGAdapter> {
    /// The adapter that drives the pins.
    pub driver: B,
    /// What is kept between calls.
    pub state: BitbangJTAGAdapterState,
    /// The calls served so far.
    pub trace: Ghost<Seq<ChunkEvent>>,
}

impl<B: BitbangJTAGAdapter> ChunkedBitbang<B> {
    /// Wraps a driver whose TDO has not been sampled yet.
    pub fn new(driver: B) -> (adapter: Self)
        ensures
            adapter.driver == driver,
            !adapter.state.last_tdo,
            adapter.trace@ == Seq::<ChunkEvent>::empty(),
    {
        Self { driver, state: BitbangJTAGAdapterState::new(), trace: Ghost(Seq::empty()) }
    }

    /// Clocks out one cycle for each bit of `chunk`: on TDI, with TMS at 0
    /// but for the last bit, where it is `tms_exit`; or, where `on_tms` is
    /// set, on TMS, with TDI at 0. The latest sample of TDO is kept, and the
    /// levels of TDO before each clock edge are returned where `capture` is
    /// set.
    fn clock_chunk(
        &mut self,
        chunk: &BitStream,
        on_tms: bool,
        tms_exit: bool,
        capture: bool,
    ) -> (captured: BitStream)
        ensures
            clocked(
                old(self).driver.bit_trace(),
                final(self).driver.bit_trace(),
                cycle_tms(chunk@, on_tms, tms_exit),
                cycle_tdi(chunk@, on_tms),
            ),
            final(self).state.last_tdo == latest_tdo(
                old(self).state.last_tdo,
                final(self).driver.bit_trace(),
                old(self).driver.bit_trace().len(),
            ),
            final(self).trace == old(self).trace,
            capture ==> captured@ == levels_before(
                old(self).state.last_tdo,
                final(self).driver.bit_trace(),
                old(self).driver.bit_trace().len(),
                chunk@.len(),
            ),
    {
        let len = chunk.len();
        let mut captured = BitStream::new();
        if capture && len > 0 {
            captured.push(self.state.last_tdo);
        }
        let ghost before = self.driver.bit_trace();
        let ghost earlier = self.state.last_tdo;
        let mut i: usize = 0;
        proof {
            assert(before.take(before.len() as int) =~= before);
            if capture && len > 0 {
                assert(captured@ =~= levels_before(earlier, before, before.len(), 1));
            }
        }
        while i < len
            invariant
                len == chunk@.len(),
                len <= crate::bits::MAX_BITS,
                i <= len,
                before == old(self).driver.bit_trace(),
                earlier == old(self).state.last_tdo,
                self.trace == old(self).trace,
                clocked(
                    before,
                    self.driver.bit_trace(),
                    cycle_tms(chunk@, on_tms, tms_exit).take(i as int),
                    cycle_tdi(chunk@, on_tms).take(i as int),
                ),
                self.state.last_tdo == latest_tdo(earlier, self.driver.bit_trace(), before.len()),
                capture ==> captured@ == levels_before(
                    earlier,
                    self.driver.bit_trace(),
                    before.len(),
                    if i < len {
                        (i + 1) as nat
                    } else {
                        len as nat
                    },
                ),
                !capture ==> captured@.len() == 0,
            decreases len - i,
        {
            let ghost so_far = self.driver.bit_trace();
            let bit = chunk.get(i);
            let tdo = if on_tms {
                self.driver.shift_one_bit(bit, false)
            } else {
                self.driver.shift_one_bit(tms_exit && i == len - 1, bit)
            };
            self.state.last_tdo = tdo;
            if capture && i != len - 1 {
                captured.push(tdo);
            }
            i += 1;
            proof {
                let now = self.driver.bit_trace();
                assert(now.take(before.len() as int) =~= so_far.take(before.len() as int));
                assert forall|j: int| 0 <= j < i implies ({
                    let event = #[trigger] now[before.len() + j];
                    event is Shift && event->tms == cycle_tms(chunk@, on_tms, tms_exit)[j]
                        && event->tdi == cycle_tdi(chunk@, on_tms)[j]
                }) by {
                    if j < i - 1 {
                        assert(now[before.len() + j] == so_far[before.len() + j]);
                    }
                }
                if capture {
                    let want = levels_before(
                        earlier,
                        now,
                        before.len(),
                        if i < len {
                            (i + 1) as nat
                        } else {
                            len as nat
                        },
                    );
                    assert forall|j: int| 0 <= j < want.len() implies captured@[j] == want[j] by {
                        if 0 < j < i {
                            assert(now[before.len() + j - 1] == so_far[before.len() + j - 1]);
                        }
                    }
                    assert(captured@ =~= want);
                }
            }
        }
        proof {
            if capture && len == 0 {
                assert(captured@ =~= levels_before(
                    earlier,
                    self.driver.bit_trace(),
                    before.len(),
                    0,
                ));
            }
            assert(cycle_tms(chunk@, on_tms, tms_exit).take(len as int) =~= cycle_tms(
                chunk@,
                on_tms,
                tms_exit,
            ));
            assert(cycle_tdi(chunk@, on_tms).take(len as int) =~= cycle_tdi(chunk@, on_tms));
        }
        captured
    }
}

impl<B: BitbangJTAGAdapter> ChunkShifterJTAGAdapter for ChunkedBitbang<B> {
    open spec fn chunk_trace(&self) -> Seq<ChunkEvent> {
        self.trace@
    }

    /// The driver waits, and says how long it did.
    fn delay_ns(&mut self, ns: u64) -> (actual: u64)
        ensures
            final(self).driver.bit_trace() == old(self).driver.bit_trace().push(
                BitbangEvent::Delay { ns, actual },
            ),
            final(self).state == old(self).state,
    {
        let actual = self.driver.delay_ns(ns);
        proof {
            self.trace@ = self.trace@.push(ChunkEvent::Delay { ns, actual });
        }
        actual
    }

    /// The driver sets its clock, and says to what.
    fn set_clk_speed(&mut self, clk_hz: u64) -> (actual: u64)
        ensures
            final(self).driver.bit_trace() == old(self).driver.bit_trace().push(
                BitbangEvent::ClkSpeed { clk_hz, actual },
            ),
            final(self).state == old(self).state,
    {
        let actual = self.driver.set_clk_speed(clk_hz);
        proof {
            self.trace@ = self.trace@.push(ChunkEvent::ClkSpeed { clk_hz, actual });
        }
        actual
    }

    /// One cycle for each bit of the chunk, with TDI at 0; the latest
    /// sample of TDO is kept.
    fn shift_tms_chunk(&mut self, tms_chunk: &BitStream)
        ensures
            clocked(
                old(self).driver.bit_trace(),
                final(self).driver.bit_trace(),
                tms_chunk@,
                zeros(tms_chunk@.len()),
            ),
            final(self).state.last_tdo == latest_tdo(
                old(self).state.last_tdo,
                final(self).driver.bit_trace(),
                old(self).driver.bit_trace().len(),
            ),
    {
        let _ = self.clock_chunk(tms_chunk, true, false, false);
        proof {
            self.trace@ = self.trace@.push(ChunkEvent::Tms { bits: tms_chunk@ });
        }
    }

    /// One cycle for each bit of the chunk, with TMS at 0 but for the last
    /// bit, where it is `tms_exit`; the latest sample of TDO is kept.
    fn shift_tdi_chunk(&mut self, tdi_chunk: &BitStream, tms_exit: bool)
        ensures
            clocked(
                old(self).driver.bit_trace(),
                final(self).driver.bit_trace(),
                shift_tms(tdi_chunk@.len(), tms_exit),
                tdi_chunk@,
            ),
            final(self).state.last_tdo == latest_tdo(
                old(self).state.last_tdo,
                final(self).driver.bit_trace(),
                old(self).driver.bit_trace().len(),
            ),
    {
        let _ = self.clock_chunk(tdi_chunk, false, tms_exit, false);
        proof {
            self.trace@ = self.trace@.push(ChunkEvent::Tdi { bits: tdi_chunk@, tms_exit });
        }
    }

    /// As `shift_tdi_chunk`. What is returned begins with the sample kept
    /// from before the call, followed by the sample of each cycle but the
    /// last, which is kept for the next call.
    fn shift_tditdo_chunk(&mut self, tdi_chunk: &BitStream, tms_exit: bool) -> (captured: BitStream)
        ensures
            clocked(
                old(self).driver.bit_trace(),
                final(self).driver.bit_trace(),
                shift_tms(tdi_chunk@.len(), tms_exit),
                tdi_chunk@,
            ),
            final(self).state.last_tdo == latest_tdo(
                old(self).state.last_tdo,
                final(self).driver.bit_trace(),
                old(self).driver.bit_trace().len(),
            ),
            captured@ == levels_before(
                old(self).state.last_tdo,
                final(self).driver.bit_trace(),
                old(self).driver.bit_trace().len(),
                tdi_chunk@.len(),
            ),
    {
        let captured = self.clock_chunk(tdi_chunk, false, tms_exit, true);
        proof {
            self.trace@ = self.trace@.push(
                ChunkEvent::TdiTdo { bits: tdi_chunk@, tms_exit, captured: captured@ },
            );
        }
        captured
    }
}

} // verus!
