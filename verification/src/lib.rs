//! A host-side JTAG adapter library.
//!
//! An adapter is asked for actions: walks through the states of the TAP
//! controller, shifts through its registers, reads and writes of registers.
//! The library lowers them, layer by layer, to what a piece of hardware can
//! do:
//!
//! * [JTAGAdapter] takes every action, buffers them and runs them in order;
//! * [StateTrackingJTAGAdapter] takes the primitive actions, and follows the
//!   TAP state machine;
//! * [ChunkShifterJTAGAdapter] shifts chunks of bits on TMS or on TDI;
//! * [BitbangJTAGAdapter] drives one clock cycle at a time.
//!
//! A driver implements the one interface that its hardware can serve, and
//! the library stacks the layers above on it: [ChunkedBitbang],
//! [TrackedChunkShifter] and [BufferedStateTracker].
//!
//! [fsm] holds the state machine, [xvc] the Xilinx Virtual Cable protocol,
//! [drivers] what the drivers send to their hardware, and [bits] the bit
//! streams that all of them speak in.

pub mod bitbang;
pub mod bits;
pub mod chunkshifter;
pub mod drivers;
pub mod fsm;
pub mod native;
pub mod statetracking;
pub mod xvc;

pub use bitbang::{BitbangJTAGAdapter, BitbangJTAGAdapterState, ChunkedBitbang};
pub use bits::BitStream;
pub use chunkshifter::{
    ChunkShifterJTAGAdapter, ChunkShifterJTAGAdapterState, TrackedChunkShifter,
};
pub use fsm::JTAGState;
pub use native::{JTAGAction, JTAGAdapter, JTAGAdapterState, JTAGOutput};
pub use statetracking::{BufferedStateTracker, StateTrackingJTAGAdapter};
