//! The MPSSE command frames that shift chunks of bits through an FTDI
//! device, and the bits that its answer holds.
//!
//! A frame is a sequence of commands. Each begins with an opcode and a
//! length, stored as the length minus one; the data follow, least
//! significant bit first.

use crate::bits::{bit_of, byte_at, byte_bit, byte_upto, BitStream, MAX_BITS};
use vstd::prelude::*;

verus! {

/// The opcode that clocks bits out on TMS on the falling edge.
pub const TMS_OUT: u8 = 0x4B;

/// The opcode that clocks bytes out on TDI on the falling edge.
pub const BYTES_OUT: u8 = 0x19;

/// The opcode that clocks bits out on TDI on the falling edge.
pub const BITS_OUT: u8 = 0x1B;

/// The opcode that clocks bytes out on TDI on the falling edge and reads
/// TDO on the rising edge.
pub const BYTES_INOUT: u8 = 0x39;

/// The opcode that clocks bits out on TDI on the falling edge and reads TDO
/// on the rising edge.
pub const BITS_INOUT: u8 = 0x3B;

/// The opcode that clocks bits out on TMS on the falling edge and reads TDO
/// on the rising edge.
pub const TMS_INOUT: u8 = 0x6B;

/// The opcode that makes the device send what it has read at once.
pub const SEND_IMMEDIATE: u8 = 0x87;

/// The most bits that one TMS command carries.
pub const TMS_RUN: usize = 7;

/// The most bytes that one byte command carries.
pub const BYTE_RUN: usize = 65536;

/// `ftdi_mpsse::ClockTMSOut::NegEdge` as a byte: its discriminant, 0x4B.
#[verifier::external_body]
fn op_tms_out() -> (op: u8)
    ensures
        op == TMS_OUT,
{
    ftdi_mpsse::ClockTMSOut::NegEdge as u8
}

/// `ftdi_mpsse::ClockDataOut::LsbNeg` as a byte: its discriminant, 0x19.
#[verifier::external_body]
fn op_bytes_out() -> (op: u8)
    ensures
        op == BYTES_OUT,
{
    ftdi_mpsse::ClockDataOut::LsbNeg as u8
}

/// `ftdi_mpsse::ClockBitsOut::LsbNeg` as a byte: its discriminant, 0x1B.
#[verifier::external_body]
fn op_bits_out() -> (op: u8)
    ensures
        op == BITS_OUT,
{
    ftdi_mpsse::ClockBitsOut::LsbNeg as u8
}

/// `ftdi_mpsse::ClockData::LsbPosIn` as a byte: its discriminant, 0x39.
#[verifier::external_body]
fn op_bytes_inout() -> (op: u8)
    ensures
        op == BYTES_INOUT,
{
    ftdi_mpsse::ClockData::LsbPosIn as u8
}

/// `ftdi_mpsse::ClockBits::LsbPosIn` as a byte: its discriminant, 0x3B.
#[verifier::external_body]
fn op_bits_inout() -> (op: u8)
    ensures
        op == BITS_INOUT,
{
    ftdi_mpsse::ClockBits::LsbPosIn as u8
}

/// `ftdi_mpsse::ClockTMS::NegTMSPosTDO` as a byte: its discriminant, 0x6B.
#[verifier::external_body]
fn op_tms_inout() -> (op: u8)
    ensures
        op == TMS_INOUT,
{
    ftdi_mpsse::ClockTMS::NegTMSPosTDO as u8
}

/// `ftdi_mpsse::MpsseCmd::SendImmediate` as a byte: its discriminant, 0x87.
#[verifier::external_body]
fn op_send_immediate() -> (op: u8)
    ensures
        op == SEND_IMMEDIATE,
{
    ftdi_mpsse::MpsseCmd::SendImmediate as u8
}

/// The commands that clock the bits of `bits` from `from` on out on TMS, up
/// to seven bits each, with TDI at 0.
pub open spec fn tms_commands(bits: Seq<bool>, from: int) -> Seq<u8>
    decreases bits.len() - from,
{
    let left = bits.len() - from;
    if from < 0 || left <= 0 {
        Seq::<u8>::empty()
    } else {
        let run = if left > 7 {
            7
        } else {
            left
        };
        seq![TMS_OUT, (run - 1) as u8, byte_upto(bits, from, run)] + tms_commands(bits, from + run)
    }
}

/// `nbytes` bytes that hold the bits of `bits` from `from` on.
pub open spec fn payload(bits: Seq<bool>, from: int, nbytes: int) -> Seq<u8> {
    Seq::new(nbytes as nat, |t: int| byte_at(bits, from + 8 * t))
}

/// The commands that clock the bits of `bits` from `from` up to `to` out on
/// TDI: whole bytes in runs of up to 65536 bytes under `byte_op`, and what
/// is left, less than a byte, under `bit_op`.
pub open spec fn data_commands(bits: Seq<bool>, from: int, to: int, byte_op: u8, bit_op: u8) -> Seq<
    u8,
>
    decreases to - from,
{
    let left = to - from;
    if left <= 0 {
        Seq::<u8>::empty()
    } else if left < 8 {
        seq![bit_op, (left - 1) as u8, byte_upto(bits, from, left)]
    } else {
        let nbytes = if left / 8 > 65536 {
            65536
        } else {
            left / 8
        };
        seq![byte_op, ((nbytes - 1) % 256) as u8, ((nbytes - 1) / 256) as u8] + payload(
            bits,
            from,
            nbytes,
        ) + data_commands(bits, from + 8 * nbytes, to, byte_op, bit_op)
    }
}

/// The command that clocks one bit out with TMS at 1: TDI is bit 7 of its
/// data byte, TMS its bit 0.
pub open spec fn exit_command(op: u8, tdi: bool) -> Seq<u8> {
    seq![op, 0u8, if tdi {
        0x81u8
    } else {
        0x01u8
    }]
}

/// The number of bits that go out under data commands: all of them, or all
/// but the last where that one leaves the shift state.
pub open spec fn body_len(nbits: int, tms_exit: bool) -> int {
    if tms_exit {
        nbits - 1
    } else {
        nbits
    }
}

/// The frame that shifts `bits` out on TDI without reading TDO.
pub open spec fn tdi_commands(bits: Seq<bool>, tms_exit: bool) -> Seq<u8> {
    data_commands(bits, 0, body_len(bits.len() as int, tms_exit), BYTES_OUT, BITS_OUT) + (
    if tms_exit {
        exit_command(TMS_OUT, bits.last())
    } else {
        Seq::<u8>::empty()
    })
}

/// The frame that shifts `bits` out on TDI and reads TDO.
pub open spec fn tditdo_commands(bits: Seq<bool>, tms_exit: bool) -> Seq<u8> {
    data_commands(bits, 0, body_len(bits.len() as int, tms_exit), BYTES_INOUT, BITS_INOUT) + (
    if tms_exit {
        exit_command(TMS_INOUT, bits.last())
    } else {
        Seq::<u8>::empty()
    }) + seq![SEND_IMMEDIATE]
}

/// The number of bytes with which the device answers a frame that shifts
/// `nbits` bits and reads TDO: one for each whole byte, one for what is left
/// of less than a byte, and one for the bit that leaves the shift state.
pub open spec fn reply_len(nbits: int, tms_exit: bool) -> int {
    let body = body_len(nbits, tms_exit);
    body / 8 + (if body % 8 > 0 {
        1int
    } else {
        0int
    }) + (if tms_exit {
        1int
    } else {
        0int
    })
}

/// The bits that the device's answer holds. Whole bytes come first, least
/// significant bit first; the bits of the byte after them stand at its top;
/// the bit that left the shift state is bit 7 of the last byte.
pub open spec fn reply_bits(reply: Seq<u8>, nbits: int, tms_exit: bool) -> Seq<bool> {
    let body = body_len(nbits, tms_exit);
    Seq::new(
        nbits as nat,
        |i: int|
            if i < 8 * (body / 8) {
                bit_of(reply[i / 8], i % 8)
            } else if i < body {
                bit_of(reply[body / 8], 8 - body % 8 + (i - 8 * (body / 8)))
            } else {
                bit_of(reply[reply.len() - 1], 7)
            },
    )
}

/// The frame that shifts the given bits out on TMS.
pub fn tms_frame(tms_chunk: &BitStream) -> (bytes: Vec<u8>)
    ensures
        bytes@ == tms_commands(tms_chunk@, 0),
{
    let len = tms_chunk.len();
    let mut bytes: Vec<u8> = Vec::new();
    let mut from: usize = 0;
    while from < len
        invariant
            len == tms_chunk@.len(),
            from <= len,
            bytes@ + tms_commands(tms_chunk@, from as int) == tms_commands(tms_chunk@, 0),
        decreases len - from,
    {
        let run: usize = if len - from > TMS_RUN {
            TMS_RUN
        } else {
            len - from
        };
        let thisbyte = tms_chunk.byte_of(from, run as u8);
        proof {
            let rest = tms_commands(tms_chunk@, from + run);
            assert(bytes@.push(TMS_OUT).push((run - 1) as u8).push(thisbyte) + rest =~= bytes@
                + tms_commands(tms_chunk@, from as int));
        }
        bytes.push(op_tms_out());
        bytes.push((run - 1) as u8);
        bytes.push(thisbyte);
        from += run;
    }
    proof {
        assert(bytes@ + tms_commands(tms_chunk@, from as int) =~= bytes@);
    }
    bytes
}

/// Adds to `bytes` the commands that clock bits `from..to` of `bits` out on
/// TDI.
fn push_data_commands(
    bytes: &mut Vec<u8>,
    bits: &BitStream,
    to: usize,
    byte_op: u8,
    bit_op: u8,
)
    requires
        to <= bits@.len(),
    ensures
        final(bytes)@ == old(bytes)@ + data_commands(bits@, 0, to as int, byte_op, bit_op),
{
    let mut from: usize = 0;
    let len = bits.len();
    while from < to
        invariant
            len == bits@.len(),
            from <= to <= len <= MAX_BITS,
            bytes@ + data_commands(bits@, from as int, to as int, byte_op, bit_op) == old(bytes)@
                + data_commands(bits@, 0, to as int, byte_op, bit_op),
        decreases to - from,
    {
        let left = to - from;
        let ghost before = bytes@;
        if left < 8 {
            let thisbyte = bits.byte_of(from, left as u8);
            bytes.push(bit_op);
            bytes.push((left - 1) as u8);
            bytes.push(thisbyte);
            proof {
                assert(data_commands(bits@, to as int, to as int, byte_op, bit_op) =~= Seq::<
                    u8,
                >::empty());
                assert(bytes@ + data_commands(bits@, to as int, to as int, byte_op, bit_op)
                    =~= before + data_commands(bits@, from as int, to as int, byte_op, bit_op));
            }
            from = to;
        } else {
            let chunk_bytes: usize = if left / 8 > BYTE_RUN {
                BYTE_RUN
            } else {
                left / 8
            };
            bytes.push(byte_op);
            bytes.push(((chunk_bytes - 1) % 256) as u8);
            bytes.push(((chunk_bytes - 1) / 256) as u8);
            let ghost header = bytes@;
            let mut t: usize = 0;
            while t < chunk_bytes
                invariant
                    t <= chunk_bytes,
                    len == bits@.len(),
                    from + 8 * chunk_bytes <= to <= len <= MAX_BITS,
                    bytes@ == header + payload(bits@, from as int, t as int),
                decreases chunk_bytes - t,
            {
                let thisbyte = bits.byte_of(from + 8 * t, 8);
                bytes.push(thisbyte);
                t += 1;
                proof {
                    assert(bytes@ =~= header + payload(bits@, from as int, t as int));
                }
            }
            proof {
                assert(header =~= before + seq![
                    byte_op,
                    ((chunk_bytes - 1) % 256) as u8,
                    ((chunk_bytes - 1) / 256) as u8,
                ]);
                assert(bytes@ + data_commands(
                    bits@,
                    from + 8 * chunk_bytes,
                    to as int,
                    byte_op,
                    bit_op,
                ) =~= before + data_commands(bits@, from as int, to as int, byte_op, bit_op));
            }
            from += 8 * chunk_bytes;
        }
    }
    proof {
        assert(bytes@ + data_commands(bits@, from as int, to as int, byte_op, bit_op) =~= bytes@);
    }
}

/// Adds to `bytes` the command that clocks `tdi` out with TMS at 1.
fn push_exit_command(bytes: &mut Vec<u8>, op: u8, tdi: bool)
    ensures
        final(bytes)@ == old(bytes)@ + exit_command(op, tdi),
{
    bytes.push(op);
    bytes.push(0);
    if tdi {
        bytes.push(0b10000001);
    } else {
        bytes.push(0b00000001);
    }
    proof {
        assert(bytes@ =~= old(bytes)@ + exit_command(op, tdi));
    }
}

/// The frame that shifts the given bits out on TDI, the last of them with
/// TMS at 1 where `tms_exit` is set. TDO is not read.
pub fn tdi_frame(tdi_chunk: &BitStream, tms_exit: bool) -> (bytes: Vec<u8>)
    requires
        tms_exit ==> tdi_chunk@.len() > 1,
    ensures
        bytes@ == tdi_commands(tdi_chunk@, tms_exit),
{
    let len = tdi_chunk.len();
    let body = if tms_exit {
        len - 1
    } else {
        len
    };
    let mut mpsse_bytes: Vec<u8> = Vec::new();
    push_data_commands(&mut mpsse_bytes, tdi_chunk, body, op_bytes_out(), op_bits_out());
    if tms_exit {
        push_exit_command(&mut mpsse_bytes, op_tms_out(), tdi_chunk.get(len - 1));
    }
    proof {
        assert(mpsse_bytes@ =~= tdi_commands(tdi_chunk@, tms_exit));
    }
    mpsse_bytes
}

/// The frame that shifts the given bits out on TDI, the last of them with
/// TMS at 1 where `tms_exit` is set, and has the device send what it read
/// on TDO.
pub fn tditdo_frame(tdi_chunk: &BitStream, tms_exit: bool) -> (bytes: Vec<u8>)
    requires
        tms_exit ==> tdi_chunk@.len() > 1,
    ensures
        bytes@ == tditdo_commands(tdi_chunk@, tms_exit),
{
    let len = tdi_chunk.len();
    let body = if tms_exit {
        len - 1
    } else {
        len
    };
    let mut mpsse_bytes: Vec<u8> = Vec::new();
    push_data_commands(&mut mpsse_bytes, tdi_chunk, body, op_bytes_inout(), op_bits_inout());
    if tms_exit {
        push_exit_command(&mut mpsse_bytes, op_tms_inout(), tdi_chunk.get(len - 1));
    }
    mpsse_bytes.push(op_send_immediate());
    proof {
        assert(mpsse_bytes@ =~= tditdo_commands(tdi_chunk@, tms_exit));
    }
    mpsse_bytes
}

/// The number of bytes with which the device answers the frame of
/// `tditdo_frame` for a chunk of `nbits` bits.
pub fn tditdo_reply_len(nbits: usize, tms_exit: bool) -> (len: usize)
    requires
        tms_exit ==> nbits > 1,
    ensures
        len == reply_len(nbits as int, tms_exit),
{
    let body = if tms_exit {
        nbits - 1
    } else {
        nbits
    };
    let mut rxbytes_bufsz = body / 8;
    if body % 8 != 0 {
        rxbytes_bufsz += 1;
    }
    if tms_exit {
        rxbytes_bufsz += 1;
    }
    rxbytes_bufsz
}

/// The bits that the device read on TDO, from its answer to the frame of
/// `tditdo_frame` for a chunk of `nbits` bits.
pub fn tditdo_captured(rxbytebuf: &[u8], nbits: usize, tms_exit: bool) -> (captured: BitStream)
    requires
        tms_exit ==> nbits > 1,
        nbits <= MAX_BITS,
        rxbytebuf@.len() == reply_len(nbits as int, tms_exit),
    ensures
        captured@ == reply_bits(rxbytebuf@, nbits as int, tms_exit),
{
    let body = if tms_exit {
        nbits - 1
    } else {
        nbits
    };
    let rxbytes_bytes = body / 8;
    let rxbytes_bits = body % 8;
    let mut ret = BitStream::new();
    let mut i: usize = 0;
    while i < nbits
        invariant
            i <= nbits <= MAX_BITS,
            tms_exit ==> nbits > 1,
            body == body_len(nbits as int, tms_exit),
            rxbytes_bytes == body / 8,
            rxbytes_bits == body % 8,
            rxbytebuf@.len() == reply_len(nbits as int, tms_exit),
            ret@ == reply_bits(rxbytebuf@, nbits as int, tms_exit).take(i as int),
        decreases nbits - i,
    {
        let bit = if i < 8 * rxbytes_bytes {
            byte_bit(rxbytebuf[i / 8], (i % 8) as u8)
        } else if i < body {
            byte_bit(rxbytebuf[rxbytes_bytes], (8 - rxbytes_bits + (i - 8 * rxbytes_bytes)) as u8)
        } else {
            byte_bit(rxbytebuf[rxbytebuf.len() - 1], 7)
        };
        ret.push(bit);
        i += 1;
        proof {
            assert(ret@ =~= reply_bits(rxbytebuf@, nbits as int, tms_exit).take(i as int));
        }
    }
    proof {
        let all = reply_bits(rxbytebuf@, nbits as int, tms_exit);
        assert(all.take(nbits as int) =~= all);
    }
    ret
}

} // verus!
