//! What the drivers of this library send to their hardware and make of its
//! answers. The transport itself, USB, is not part of the library.

use crate::bits::{bit_of, byte_bit};
use vstd::prelude::*;

pub mod ftdi_mpsse_jtag;

verus! {

/// The request type of the control transfer that initializes the adapter.
pub const INIT_REQUEST_TYPE: u8 = 0x40;

/// The request number of the control transfer that initializes the adapter.
pub const INIT_REQUEST: u8 = 1;

/// The request type of the control transfer that drives one clock cycle.
pub const SHIFT_REQUEST_TYPE: u8 = 0xC0;

/// The request number of the control transfer that drives one clock cycle.
pub const SHIFT_REQUEST: u8 = 3;

/// The value field of the control transfer that drives one clock cycle:
/// TDI in bit 0, TMS in bit 1.
pub open spec fn shift_value(tms: bool, tdi: bool) -> u16 {
    ((if tms {
        2int
    } else {
        0int
    }) + (if tdi {
        1int
    } else {
        0int
    })) as u16
}

/// The value field of the control transfer that drives one clock cycle
/// with the given TMS and TDI.
pub fn shift_request_value(tms: bool, tdi: bool) -> (value: u16)
    ensures
        value == shift_value(tms, tdi),
{
    let mut reqbyte: u16 = 0;
    if tdi {
        reqbyte = reqbyte + 1;
    }
    if tms {
        reqbyte = reqbyte + 2;
    }
    reqbyte
}

/// The level of TDO in the byte that the adapter answers with: its bit 0.
pub fn shift_response_tdo(resbyte: u8) -> (tdo: bool)
    ensures
        tdo == bit_of(resbyte, 0),
{
    byte_bit(resbyte, 0)
}

} // verus!
