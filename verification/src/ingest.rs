//! Ingest over an encrypted connection.
//!
//! A client sends one packet per write: an eight byte time stamp, least
//! significant byte first, and a frame behind it. What the encoder makes of the
//! frame goes out on the channel of its encoding.
use bytes::{Bytes, BytesMut};
use vstd::prelude::*;

#[allow(unused_imports)]
use crate::buffers;
use crate::codec::EncodeResponse;
use crate::framing::EncodeRequest;
use crate::header::EncodingFlag;

verus! {

/// The number of bytes of the time stamp in front of a frame.
pub const STAMP_BYTES: usize = 8;

/// The number of bytes that are read from a client at a time.
pub const READ_BYTES: usize = 80960;

/// What a read from the client amounts to.
pub enum Reading {
    /// The client has closed the connection.
    Closed,
    /// There is no frame in it.
    Ignored,
    /// A frame to be encoded.
    Request(EncodeRequest),
}

/// An encoded frame and the time it is due at.
pub struct Packet {
    pub data: BytesMut,
    pub dts: u64,
}

/// Where an encoded frame goes.
pub enum Outlet {
    Opus(Packet),
    Flac(Packet),
    /// Nobody takes frames of this encoding.
    Nowhere,
}

/// The number that eight bytes spell, least significant byte first.
pub open spec fn little_endian(bytes: Seq<u8>) -> int {
    bytes[0] + bytes[1] * 0x100 + bytes[2] * 0x1_0000 + bytes[3] * 0x100_0000 + bytes[4]
        * 0x1_0000_0000 + bytes[5] * 0x100_0000_0000 + bytes[6] * 0x1_0000_0000_0000 + bytes[7]
        * 0x100_0000_0000_0000
}

/// The eight bytes of a number, least significant byte first.
pub open spec fn le_bytes(n: u64) -> Seq<u8> {
    seq![
        (n % 0x100) as u8,
        (n / 0x100 % 0x100) as u8,
        (n / 0x1_0000 % 0x100) as u8,
        (n / 0x100_0000 % 0x100) as u8,
        (n / 0x1_0000_0000 % 0x100) as u8,
        (n / 0x100_0000_0000 % 0x100) as u8,
        (n / 0x1_0000_0000_0000 % 0x100) as u8,
        (n / 0x100_0000_0000_0000 % 0x100) as u8,
    ]
}

/// The time stamp in front of a frame.
fn read_stamp(received: &[u8]) -> (dts: u64)
    requires
        received@.len() >= STAMP_BYTES,
    ensures
        dts == little_endian(received@),
{
    received[0] as u64 + received[1] as u64 * 0x100 + received[2] as u64 * 0x1_0000
        + received[3] as u64 * 0x100_0000 + received[4] as u64 * 0x1_0000_0000
        + received[5] as u64 * 0x100_0000_0000 + received[6] as u64 * 0x1_0000_0000_0000
        + received[7] as u64 * 0x100_0000_0000_0000
}

/// Reads what has arrived from the client.
pub fn read_request(received: &[u8]) -> (reading: Reading)
    ensures
        match reading {
            Reading::Closed => received@.len() == 0,
            Reading::Ignored => 1 <= received@.len() <= 8,
            Reading::Request(request) => {
                &&& received@.len() > 8
                &&& request.dts == little_endian(received@)
                &&& buffers::bytes_of(request.buffer) == received@.skip(8)
            },
        },
{
    if received.len() == 0 {
        return Reading::Closed;
    }
    if received.len() <= STAMP_BYTES {
        return Reading::Ignored;
    }
    let frame = vstd::slice::slice_subrange(received, STAMP_BYTES, received.len());
    assert(frame@ =~= received@.skip(STAMP_BYTES as int));
    let buffer = Bytes::copy_from_slice(frame);
    Reading::Request(EncodeRequest { buffer, dts: read_stamp(received) })
}

/// Sends an encoded frame to the channel of its encoding.
pub fn outlet(response: EncodeResponse) -> (to: Outlet)
    ensures
        to == match response.encoding {
            EncodingFlag::Opus => Outlet::Opus(
                (Packet { data: response.result, dts: response.dts }),
            ),
            EncodingFlag::FLAC => Outlet::Flac(
                (Packet { data: response.result, dts: response.dts }),
            ),
            _ => Outlet::Nowhere,
        },
{
    let packet = Packet { data: response.result, dts: response.dts };
    match response.encoding {
        EncodingFlag::Opus => Outlet::Opus(packet),
        EncodingFlag::FLAC => Outlet::Flac(packet),
        _ => Outlet::Nowhere,
    }
}

/// A number is the sum of its bytes, each at its place.
proof fn lemma_bytes_add_up(n: u64)
    ensures
        little_endian(le_bytes(n)) == n,
{
    let q: int = n as int;
    let q1: int = n as int / 0x100;
    assert(q1 == q / 0x100 && q == q1 * 0x100 + q % 0x100);
    let q2: int = n as int / 0x1_0000;
    assert(q2 == q1 / 0x100 && q1 == q2 * 0x100 + q1 % 0x100);
    let q3: int = n as int / 0x100_0000;
    assert(q3 == q2 / 0x100 && q2 == q3 * 0x100 + q2 % 0x100);
    let q4: int = n as int / 0x1_0000_0000;
    assert(q4 == q3 / 0x100 && q3 == q4 * 0x100 + q3 % 0x100);
    let q5: int = n as int / 0x100_0000_0000;
    assert(q5 == q4 / 0x100 && q4 == q5 * 0x100 + q4 % 0x100);
    let q6: int = n as int / 0x1_0000_0000_0000;
    assert(q6 == q5 / 0x100 && q5 == q6 * 0x100 + q5 % 0x100);
    let q7: int = n as int / 0x100_0000_0000_0000;
    assert(q7 == q6 / 0x100 && q6 == q7 * 0x100 + q6 % 0x100);
    assert(q7 < 0x100);
}

/// A time stamp and a frame are read back as they were sent, as long as the
/// frame is not empty.
pub proof fn law_packet_comes_back(dts: u64, frame: Seq<u8>)
    requires
        frame.len() > 0,
    ensures
        ({
            let sent = le_bytes(dts) + frame;
            &&& sent.len() > STAMP_BYTES
            &&& little_endian(sent) == dts
            &&& sent.skip(STAMP_BYTES as int) == frame
        }),
{
    let sent = le_bytes(dts) + frame;
    assert(sent.skip(STAMP_BYTES as int) =~= frame);
    lemma_bytes_add_up(dts);
    assert(forall|i: int| 0 <= i < 8 ==> sent[i] == le_bytes(dts)[i]);
}

/// Each byte of a time stamp is worth 256 times as much as the one in front of
/// it, and nothing behind the eighth has a bearing on it.
pub proof fn law_stamp_bytes_are_worth_their_place(bytes: Seq<u8>)
    requires
        bytes.len() >= 8,
    ensures
        little_endian(bytes) == bytes[0] + 256 * (bytes[1] + 256 * (bytes[2] + 256 * (bytes[3]
            + 256 * (bytes[4] + 256 * (bytes[5] + 256 * (bytes[6] + 256 * bytes[7])))))),
        little_endian(bytes.take(8)) == little_endian(bytes),
{
}

} // verus!
