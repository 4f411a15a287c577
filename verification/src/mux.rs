//! Packing encoded frames into an MPEG transport stream.
use bytes::{Bytes, BytesMut};
use vstd::prelude::*;
use xmpegts::ts::TsMuxer;

#[allow(unused_imports)]
use crate::buffers;

verus! {

/// The largest time stamp that the transport stream can express.
pub const MAX_DTS: u64 = 0x006d_3a06_d3a0_6d3a;

/// The most bytes of a frame that the transport stream can carry.
pub const MAX_PAYLOAD: usize = 0x7fff_ff00;

/// The transport stream multiplexer.
#[verifier::external_type_specification]
#[verifier::external_body]
pub struct ExTsMuxer(TsMuxer);

/// The packet id of the audio stream of a multiplexer that carries one AAC
/// stream and nothing else.
pub uninterp spec fn audio_pid(muxer: TsMuxer) -> Option<u16>;

/// The writes made to a multiplexer so far, oldest first: packet id,
/// presentation time, decoding time, flags, payload.
pub uninterp spec fn mux_writes(muxer: TsMuxer) -> Seq<(u16, i64, i64, u16, Seq<u8>)>;

/// The bytes that a multiplexer has put out and nobody has taken yet.
pub uninterp spec fn mux_output(muxer: TsMuxer) -> Seq<u8>;

/// The transport packets that the last of these writes puts out, on a
/// multiplexer that carries one AAC stream and nothing else.
pub uninterp spec fn ts_packets(writes: Seq<(u16, i64, i64, u16, Seq<u8>)>) -> Seq<u8>;

/// `xmpegts::ts::TsMuxer::new` makes an empty multiplexer; `add_stream` then
/// adds a first program, with the packet id 0x100, and to it an AAC stream,
/// with the next one, which it returns.
#[verifier::external_body]
fn new_ts_muxer() -> (made: Option<(TsMuxer, u16)>)
    ensures
        made is Some,
        (made->0).1 == 0x101,
        audio_pid((made->0).0) == Some((made->0).1),
        mux_writes((made->0).0) == Seq::<(u16, i64, i64, u16, Seq<u8>)>::empty(),
        mux_output((made->0).0) == Seq::<u8>::empty(),
{
    let mut muxer = TsMuxer::new();
    let codec = xmpegts::define::epsi_stream_type::PSI_STREAM_AAC;
    let pid = muxer.add_stream(codec, BytesMut::new()).ok()?;
    Some((muxer, pid))
}

/// `xmpegts::ts::TsMuxer::write` packs a payload into transport packets, tables
/// first where they are due, and puts them out behind what it has put out
/// already. It fails only where the packet id is not that of a stream. The
/// clock reference is the time stamp times 300 and the payload is counted in 31
/// bits, which must not overflow.
#[verifier::external_body]
fn write_payload(
    muxer: &mut TsMuxer,
    pid: u16,
    pts: i64,
    dts: i64,
    flags: u16,
    payload: BytesMut,
) -> (written: bool)
    requires
        audio_pid(*old(muxer)) == Some(pid),
        0 <= pts <= MAX_DTS,
        0 <= dts <= MAX_DTS,
        buffers::bytes_mut_of(payload).len() <= MAX_PAYLOAD,
    ensures
        written,
        audio_pid(*final(muxer)) == audio_pid(*old(muxer)),
        mux_writes(*final(muxer)) == mux_writes(*old(muxer)).push(
            (pid, pts, dts, flags, buffers::bytes_mut_of(payload)),
        ),
        mux_output(*final(muxer)) == mux_output(*old(muxer)) + ts_packets(
            mux_writes(*final(muxer)),
        ),
{
    muxer.write(pid, pts, dts, flags, payload).is_ok()
}

/// `xmpegts::ts::TsMuxer::get_data` takes what has been put out.
#[verifier::external_body]
fn take_output(muxer: &mut TsMuxer) -> (output: BytesMut)
    ensures
        buffers::bytes_mut_of(output) == mux_output(*old(muxer)),
        mux_output(*final(muxer)) == Seq::<u8>::empty(),
        audio_pid(*final(muxer)) == audio_pid(*old(muxer)),
        mux_writes(*final(muxer)) == mux_writes(*old(muxer)),
{
    muxer.get_data()
}

/// A transport stream with one audio stream.
pub struct AudioMuxer {
    muxer: TsMuxer,
    audio_pid: u16,
}

impl AudioMuxer {
    /// The writes that the transport stream has been made of so far.
    pub closed spec fn writes(self) -> Seq<(u16, i64, i64, u16, Seq<u8>)> {
        mux_writes(self.muxer)
    }

    /// The packet id of the audio stream.
    pub closed spec fn pid(self) -> u16 {
        self.audio_pid
    }

    /// The packet id is that of the stream, and everything put out has been
    /// taken.
    pub closed spec fn wf(self) -> bool {
        &&& audio_pid(self.muxer) == Some(self.audio_pid)
        &&& mux_output(self.muxer) == Seq::<u8>::empty()
    }

    /// A transport stream at its start.
    pub fn new() -> (muxer: Self)
        ensures
            muxer.wf(),
            muxer.pid() == 0x101,
            muxer.writes() == Seq::<(u16, i64, i64, u16, Seq<u8>)>::empty(),
    {
        let (muxer, audio_pid) = new_ts_muxer().unwrap();
        AudioMuxer { muxer, audio_pid }
    }

    /// Packs one encoded frame, which is presented when it is decoded, and
    /// returns the transport packets.
    pub fn pack(&mut self, dts: u64, data: BytesMut) -> (packets: Bytes)
        requires
            old(self).wf(),
            dts <= MAX_DTS,
            buffers::bytes_mut_of(data).len() <= MAX_PAYLOAD,
        ensures
            final(self).wf(),
            final(self).pid() == old(self).pid(),
            final(self).writes() == old(self).writes().push(
                (old(self).pid(), dts as i64, dts as i64, 0u16, buffers::bytes_mut_of(data)),
            ),
            buffers::bytes_of(packets) == ts_packets(final(self).writes()),
    {
        write_payload(&mut self.muxer, self.audio_pid, dts as i64, dts as i64, 0, data);
        let output = take_output(&mut self.muxer);
        output.freeze()
    }
}

/// The largest time stamp is the last whose clock reference, 300 times as large,
/// fits in 63 bits.
pub proof fn law_clock_reference_fits(dts: u64)
    ensures
        dts <= MAX_DTS <==> dts * 300 <= i64::MAX,
{
}

} // verus!
