//! Cutting the byte stream of a sender into audio frames.
//!
//! A frame is a packet header followed by the samples it announces, four bytes
//! each. Frames follow one another without a gap, but arrive in chunks that
//! end anywhere.
use bytes::{Bytes, BytesMut};
use vstd::prelude::*;

use crate::buffers;
use crate::header;
use crate::header::FrameHeader;

verus! {

/// The fewest bytes from which a header is read.
pub const MIN_HEADER_BYTES: usize = 12;

/// The most bytes of samples that a frame may announce.
pub const MAX_SAMPLE_BYTES: usize = 65535;

/// Why a sender's stream cannot be cut any further.
#[derive(Clone, Copy, Debug, PartialEq, Eq, Structural)]
pub enum FrameFault {
    /// There is no valid header where the next frame should begin.
    BadHeader,
    /// A header announces more than [`MAX_SAMPLE_BYTES`] of samples.
    Oversized,
    /// The time stamp of the next frame is out of range.
    ClockOverflow,
}

/// A frame and the time at which it is to be decoded, in milliseconds from the
/// start of the stream.
pub ghost struct Frame {
    pub bytes: Seq<u8>,
    pub dts: u64,
}

/// A frame on its way to the encoder.
pub struct EncodeRequest {
    pub buffer: Bytes,
    pub dts: u64,
}

impl View for EncodeRequest {
    type V = Frame;

    open spec fn view(&self) -> Frame {
        Frame { bytes: buffers::bytes_of(self.buffer), dts: self.dts }
    }
}

/// The frames that a list of requests stands for.
pub open spec fn frames_of(requests: Seq<EncodeRequest>) -> Seq<Frame> {
    requests.map_values(|request: EncodeRequest| request@)
}

/// The requests hold the frames, one each, in their order.
pub open spec fn are_frames(requests: Seq<EncodeRequest>, frames: Seq<Frame>) -> bool {
    &&& requests.len() == frames.len()
    &&& forall|i: int|
        0 <= i < frames.len() ==> buffers::bytes_of((#[trigger] requests[i]).buffer)
            == frames[i].bytes && requests[i].dts == frames[i].dts
}

/// The number of bytes of samples that a header announces.
pub open spec fn sample_bytes(header: FrameHeader) -> nat {
    (header.sample_size * header.channels * 4) as nat
}

/// The number of bytes of the frame that a header begins.
pub open spec fn frame_bytes(header: FrameHeader) -> nat {
    header.spec_size() + sample_bytes(header)
}

/// The time that a frame plays for, in whole milliseconds.
pub open spec fn frame_ms(header: FrameHeader) -> nat {
    (header.sample_size as nat * 1000) / (header.sample_rate as nat)
}

/// What cutting a stream yields: the whole frames, the bytes that are left, the
/// time stamp of the next frame, and what stopped it, if anything did.
#[verifier::ext_equal]
pub ghost struct Cut {
    pub frames: Seq<Frame>,
    pub rest: Seq<u8>,
    pub dts: u64,
    pub fault: Option<FrameFault>,
}

impl Cut {
    /// This cut, made after `frames` had been cut off in front of it.
    pub open spec fn after(self, frames: Seq<Frame>) -> Cut {
        Cut { frames: frames + self.frames, ..self }
    }
}

/// Cuts the frames off the front of `stream`, the first of which is to be
/// decoded at `dts`.
pub open spec fn cut(stream: Seq<u8>, dts: u64) -> Cut
    decreases stream.len(),
{
    let nothing = Cut { frames: Seq::empty(), rest: stream, dts, fault: None };
    if stream.len() < MIN_HEADER_BYTES {
        nothing
    } else {
        match header::header_at(stream) {
            None => Cut { fault: Some(FrameFault::BadHeader), ..nothing },
            Some(h) => if sample_bytes(h) > MAX_SAMPLE_BYTES {
                Cut { fault: Some(FrameFault::Oversized), ..nothing }
            } else if stream.len() < frame_bytes(h) {
                nothing
            } else {
                let frame = Frame { bytes: stream.take(frame_bytes(h) as int), dts };
                let rest = stream.skip(frame_bytes(h) as int);
                if dts + frame_ms(h) > u64::MAX {
                    Cut {
                        frames: seq![frame],
                        rest,
                        dts,
                        fault: Some(FrameFault::ClockOverflow),
                    }
                } else {
                    cut(rest, (dts + frame_ms(h)) as u64).after(seq![frame])
                }
            },
        }
    }
}

/// What a chunk yielded: the frames that it completed, and what is wrong with
/// the stream behind them, if anything is.
pub struct Batch {
    pub requests: Vec<EncodeRequest>,
    pub fault: Option<FrameFault>,
}

/// The bytes of a sender that do not make a whole frame yet.
pub struct FrameSplitter {
    buffer: BytesMut,
    current_frame_length: Option<usize>,
    dts: u64,
    ms: u64,
}

impl FrameSplitter {
    /// The bytes that have arrived behind the last whole frame.
    pub closed spec fn pending(self) -> Seq<u8> {
        buffers::bytes_mut_of(self.buffer)
    }

    /// The time stamp of the next frame.
    pub closed spec fn clock(self) -> u64 {
        self.dts
    }

    /// Once the header of the next frame has been read, its length and duration
    /// are kept until the frame is whole.
    pub closed spec fn wf(self) -> bool {
        self.current_frame_length matches Some(length) ==> {
            &&& self.pending().len() >= MIN_HEADER_BYTES
            &&& header::header_at(self.pending()) matches Some(h)
            &&& sample_bytes(h) <= MAX_SAMPLE_BYTES
            &&& length == frame_bytes(h)
            &&& self.ms == frame_ms(h)
        }
    }

    /// A sender of whom nothing has arrived yet.
    pub fn new() -> (splitter: Self)
        ensures
            splitter.wf(),
            splitter.pending() == Seq::<u8>::empty(),
            splitter.clock() == 0,
    {
        FrameSplitter {
            buffer: BytesMut::with_capacity(8192),
            current_frame_length: None,
            dts: 0,
            ms: 0,
        }
    }

    fn pending_len(&self) -> (len: usize)
        ensures
            len == self.pending().len(),
    {
        let bytes: &[u8] = &self.buffer;
        bytes.len()
    }

    /// Adds a chunk of the stream and cuts off the frames that it completes.
    pub fn feed(&mut self, chunk: &[u8]) -> (batch: Batch)
        requires
            old(self).wf(),
            old(self).pending().len() + chunk@.len() <= isize::MAX,
        ensures
            final(self).wf(),
            ({
                let done = cut(old(self).pending() + chunk@, old(self).clock());
                &&& frames_of(batch.requests@) == done.frames
                &&& are_frames(batch.requests@, done.frames)
                &&& batch.fault == done.fault
                &&& final(self).pending() == done.rest
                &&& final(self).clock() == done.dts
            }),
    {
        let ghost before = *self;
        proof {
            if self.current_frame_length is Some {
                header::law_header_stands_alone(self.pending(), chunk@);
            }
        }
        self.buffer.extend_from_slice(chunk);
        let mut requests: Vec<EncodeRequest> = Vec::new();
        let mut fault: Option<FrameFault> = None;
        let ghost whole = cut(before.pending() + chunk@, before.clock());
        assert(cut(self.pending(), self.clock()).after(frames_of(requests@)) =~= whole);
        loop
            invariant_except_break
                fault is None,
                self.wf(),
                whole == cut(self.pending(), self.clock()).after(frames_of(requests@)),
            ensures
                self.wf(),
                whole == (Cut {
                    frames: frames_of(requests@),
                    rest: self.pending(),
                    dts: self.clock(),
                    fault,
                }),
            decreases self.pending().len(),
        {
            if self.current_frame_length.is_none() {
                if self.pending_len() < MIN_HEADER_BYTES {
                    break;
                }
                match FrameHeader::decode(&self.buffer) {
                    None => {
                        fault = Some(FrameFault::BadHeader);
                        break;
                    },
                    Some(h) => {
                        proof {
                            header::law_header_is_playable(self.pending());
                            assert(h.sample_size * h.channels <= 4095 * 16) by (nonlinear_arith)
                                requires
                                    h.sample_size <= 4095,
                                    h.channels <= 16,
                            ;
                        }
                        let samples: usize = h.sample_size as usize * h.channels as usize * 4;
                        if samples > MAX_SAMPLE_BYTES {
                            fault = Some(FrameFault::Oversized);
                            break;
                        }
                        self.current_frame_length = Some(h.size() + samples);
                        self.ms = (h.sample_size as u64 * 1000) / h.sample_rate as u64;
                    },
                }
            }
            if let Some(length) = self.current_frame_length {
                if self.pending_len() < length {
                    break;
                }
                let ghost stream = self.pending();
                let ghost sent = frames_of(requests@);
                let buffer = self.buffer.split_to(length).freeze();
                let request = EncodeRequest { buffer, dts: self.dts };
                let ghost frame = request@;
                requests.push(request);
                self.current_frame_length = None;
                assert(frames_of(requests@) =~= sent + seq![frame]);
                match self.dts.checked_add(self.ms) {
                    None => {
                        fault = Some(FrameFault::ClockOverflow);
                        break;
                    },
                    Some(dts) => {
                        self.dts = dts;
                    },
                }
                assert(cut(self.pending(), self.clock()).after(sent + seq![frame]) =~= cut(
                    self.pending(),
                    self.clock(),
                ).after(seq![frame]).after(sent));
            }
        }
        Batch { requests, fault }
    }
}

/// A frame that stands by itself: a header that announces no more samples than
/// a frame may have, and exactly the samples it announces.
pub open spec fn is_frame(bytes: Seq<u8>) -> bool {
    &&& header::header_at(bytes) matches Some(h)
    &&& sample_bytes(h) <= MAX_SAMPLE_BYTES
    &&& bytes.len() == frame_bytes(h)
}

/// The bytes of the frames, one after another.
pub open spec fn joined(frames: Seq<Frame>) -> Seq<u8>
    decreases frames.len(),
{
    if frames.len() == 0 {
        Seq::empty()
    } else {
        frames[0].bytes + joined(frames.skip(1))
    }
}

/// It does not matter where the chunks of a stream end: what two chunks yield
/// one after the other is what they yield as one, as long as the first does not
/// run the clock over. Where the first ends inside a header, it may be found at
/// fault by itself and not with the second behind it.
pub proof fn law_chunks_do_not_matter(first: Seq<u8>, second: Seq<u8>, dts: u64)
    requires
        cut(first, dts).fault != Some(FrameFault::ClockOverflow),
    ensures
        cut(first + second, dts) == cut(
            cut(first, dts).rest + second,
            cut(first, dts).dts,
        ).after(cut(first, dts).frames),
    decreases first.len(),
{
    let whole = first + second;
    let nothing = Seq::<Frame>::empty();
    if first.len() >= MIN_HEADER_BYTES && header::header_at(first) is Some {
        header::law_header_stands_alone(first, second);
        let h = header::header_at(first)->0;
        let length = frame_bytes(h) as int;
        if sample_bytes(h) <= MAX_SAMPLE_BYTES && first.len() >= length {
            let next = (dts + frame_ms(h)) as u64;
            let frame = Frame { bytes: first.take(length), dts };
            law_chunks_do_not_matter(first.skip(length), second, next);
            assert(whole.take(length) =~= first.take(length));
            assert(whole.skip(length) =~= first.skip(length) + second);
            let tail = cut(first.skip(length), next);
            assert(cut(tail.rest + second, tail.dts).after(tail.frames).after(seq![frame]) =~= cut(
                tail.rest + second,
                tail.dts,
            ).after(seq![frame] + tail.frames));
        } else {
            assert(cut(whole, dts).after(nothing) =~= cut(whole, dts));
        }
    } else {
        assert(cut(whole, dts).after(nothing) =~= cut(whole, dts));
    }
}

/// A fault that is found stays: what follows changes neither the frames in front
/// of it nor the fault, unless the fault is a header of which bytes are missing.
pub proof fn law_fault_stays(first: Seq<u8>, second: Seq<u8>, dts: u64)
    requires
        cut(first, dts).fault is Some,
        cut(first, dts).fault == Some(FrameFault::ClockOverflow) || cut(first, dts).rest.len()
            >= header::announced_size(cut(first, dts).rest),
    ensures
        cut(first + second, dts) == (Cut {
            rest: cut(first, dts).rest + second,
            ..cut(first, dts)
        }),
    decreases first.len(),
{
    let whole = first + second;
    let h = header::header_at(first);
    if h is None {
        assert(whole[0] == first[0] && whole[1] == first[1]);
    } else {
        header::law_header_stands_alone(first, second);
        let length = frame_bytes(h->0) as int;
        if sample_bytes(h->0) <= MAX_SAMPLE_BYTES {
            assert(whole.take(length) =~= first.take(length));
            assert(whole.skip(length) =~= first.skip(length) + second);
            if dts + frame_ms(h->0) <= u64::MAX {
                law_fault_stays(first.skip(length), second, (dts + frame_ms(h->0)) as u64);
            }
        }
    }
}

/// No byte is lost or made up: the frames and what is left of the stream make
/// up the stream.
pub proof fn law_nothing_is_lost(stream: Seq<u8>, dts: u64)
    ensures
        joined(cut(stream, dts).frames) + cut(stream, dts).rest == stream,
    decreases stream.len(),
{
    reveal_with_fuel(joined, 2);
    let done = cut(stream, dts);
    if done.frames.len() == 0 {
        assert(joined(done.frames) + done.rest =~= stream);
    } else {
        let h = header::header_at(stream)->0;
        let length = frame_bytes(h) as int;
        let frame = Frame { bytes: stream.take(length), dts };
        if dts + frame_ms(h) > u64::MAX {
            assert(done.frames.skip(1) =~= Seq::empty());
        } else {
            let next = (dts + frame_ms(h)) as u64;
            law_nothing_is_lost(stream.skip(length), next);
            assert(done.frames.skip(1) =~= cut(stream.skip(length), next).frames);
        }
        assert(joined(done.frames) + done.rest =~= stream.take(length) + stream.skip(length));
    }
}

/// Everything that is cut off is a frame that stands by itself.
pub proof fn law_only_frames_are_cut(stream: Seq<u8>, dts: u64)
    ensures
        forall|i: int|
            0 <= i < cut(stream, dts).frames.len() ==> is_frame(
                #[trigger] cut(stream, dts).frames[i].bytes,
            ),
    decreases stream.len(),
{
    let done = cut(stream, dts);
    if done.frames.len() > 0 {
        let h = header::header_at(stream)->0;
        let length = frame_bytes(h) as int;
        header::law_header_stands_alone(stream, Seq::empty());
        let start = header::announced_size(stream);
        header::law_header_stands_alone(
            stream.take(start),
            stream.take(length).skip(start),
        );
        assert(stream.take(start) + stream.take(length).skip(start) =~= stream.take(length));
        if dts + frame_ms(h) <= u64::MAX {
            let next = (dts + frame_ms(h)) as u64;
            law_only_frames_are_cut(stream.skip(length), next);
            assert forall|i: int| 0 <= i < done.frames.len() implies is_frame(
                #[trigger] done.frames[i].bytes,
            ) by {
                if i > 0 {
                    assert(done.frames[i] == cut(stream.skip(length), next).frames[i - 1]);
                }
            }
        }
    }
}

/// A frame that is sent comes back as it was sent, with the time stamp at which
/// it stands, and the next one is due when it has played; a header is looked at
/// only once [`MIN_HEADER_BYTES`] are there.
pub proof fn law_frame_comes_back(frame: Seq<u8>, rest: Seq<u8>, dts: u64)
    requires
        is_frame(frame),
        frame.len() + rest.len() >= MIN_HEADER_BYTES,
        dts + frame_ms(header::header_at(frame)->0) <= u64::MAX,
    ensures
        cut(frame + rest, dts) == cut(
            rest,
            (dts + frame_ms(header::header_at(frame)->0)) as u64,
        ).after(seq![Frame { bytes: frame, dts }]),
{
    header::law_header_stands_alone(frame, rest);
    assert((frame + rest).take(frame.len() as int) =~= frame);
    assert((frame + rest).skip(frame.len() as int) =~= rest);
}

/// The time stamps run on without gap or overlap: the first frame has the time
/// at which the stream stood, and each further one the time at which the one in
/// front of it has played.
pub proof fn law_clock_runs_on(stream: Seq<u8>, dts: u64)
    ensures
        ({
            let done = cut(stream, dts);
            let count = done.frames.len() as int;
            &&& count > 0 ==> done.frames[0].dts == dts
            &&& count == 0 ==> done.dts == dts
            &&& forall|i: int|
                0 <= i < count - 1 ==> (#[trigger] done.frames[i + 1]).dts == done.frames[i].dts
                    + frame_ms(header::header_at(done.frames[i].bytes)->0)
            &&& count > 0 && done.fault != Some(FrameFault::ClockOverflow) ==> done.dts
                == done.frames[count - 1].dts + frame_ms(
                header::header_at(done.frames[count - 1].bytes)->0,
            )
        }),
    decreases stream.len(),
{
    let done = cut(stream, dts);
    let count = done.frames.len() as int;
    law_only_frames_are_cut(stream, dts);
    if count > 0 {
        let h = header::header_at(stream)->0;
        let length = frame_bytes(h) as int;
        let front = stream.take(length);
        assert(done.frames[0].bytes == front);
        assert(is_frame(done.frames[0].bytes));
        header::law_header_stands_alone(front, stream.skip(length));
        assert(front + stream.skip(length) =~= stream);
        if dts + frame_ms(h) <= u64::MAX {
            let next = (dts + frame_ms(h)) as u64;
            let tail = cut(stream.skip(length), next);
            law_clock_runs_on(stream.skip(length), next);
            assert forall|i: int| 0 <= i < count - 1 implies (#[trigger] done.frames[i + 1]).dts
                == done.frames[i].dts + frame_ms(
                header::header_at(done.frames[i].bytes)->0,
            ) by {
                assert(done.frames[i + 1] == tail.frames[i]);
                if i > 0 {
                    assert(done.frames[i] == tail.frames[i - 1]);
                    assert(tail.frames[(i - 1) + 1].dts == tail.frames[i - 1].dts + frame_ms(
                        header::header_at(tail.frames[i - 1].bytes)->0,
                    ));
                }
            }
            if count > 1 {
                assert(done.frames[count - 1] == tail.frames[count - 2]);
            }
        }
    }
}

/// What is left over is shorter than the longest frame.
pub proof fn law_rest_is_short(stream: Seq<u8>, dts: u64)
    requires
        cut(stream, dts).fault is None,
    ensures
        cut(stream, dts).rest.len() < 20 + MAX_SAMPLE_BYTES,
    decreases stream.len(),
{
    if stream.len() >= MIN_HEADER_BYTES {
        header::law_header_is_playable(stream);
        let h = header::header_at(stream)->0;
        let length = frame_bytes(h) as int;
        if stream.len() >= length {
            law_rest_is_short(stream.skip(length), (dts + frame_ms(h)) as u64);
        }
    }
}

/// What is left over holds no whole frame: cutting it again yields no frame, and
/// the same fault where there was one, as long as the clock is not run over.
pub proof fn law_rest_is_incomplete(stream: Seq<u8>, dts: u64)
    requires
        cut(stream, dts).fault != Some(FrameFault::ClockOverflow),
    ensures
        cut(cut(stream, dts).rest, cut(stream, dts).dts) == (Cut {
            frames: Seq::empty(),
            ..cut(stream, dts)
        }),
    decreases stream.len(),
{
    if stream.len() >= MIN_HEADER_BYTES && header::header_at(stream) is Some {
        let h = header::header_at(stream)->0;
        let length = frame_bytes(h) as int;
        if sample_bytes(h) <= MAX_SAMPLE_BYTES && stream.len() >= length {
            law_rest_is_incomplete(stream.skip(length), (dts + frame_ms(h)) as u64);
        }
    }
}

/// A list of requests stands for the bytes that it holds and the times that they
/// are due at: one frame for each request, in their order.
pub proof fn law_requests_are_frames(requests: Seq<EncodeRequest>, frames: Seq<Frame>)
    requires
        frames_of(requests) == frames || are_frames(requests, frames),
    ensures
        requests.len() == frames.len(),
        forall|i: int|
            0 <= i < requests.len() ==> buffers::bytes_of((#[trigger] requests[i]).buffer)
                == frames[i].bytes && requests[i].dts == frames[i].dts,
{
    if frames_of(requests) == frames {
        assert forall|i: int| 0 <= i < requests.len() implies buffers::bytes_of(
            (#[trigger] requests[i]).buffer,
        ) == frames[i].bytes && requests[i].dts == frames[i].dts by {
            assert(frames_of(requests)[i] == requests[i]@);
        }
    }
}

/// The time that a frame plays for is that of its samples at its sample rate,
/// rounded down to milliseconds.
pub proof fn law_duration_follows_the_sample_rate(h: FrameHeader)
    requires
        h.sample_rate > 0,
    ensures
        frame_ms(h) * h.sample_rate <= h.sample_size * 1000 < (frame_ms(h) + 1) * h.sample_rate,
{
    let total: int = h.sample_size * 1000;
    let rate: int = h.sample_rate as int;
    assert((total / rate) * rate <= total < (total / rate + 1) * rate) by (nonlinear_arith)
        requires
            rate > 0,
            total >= 0,
    ;
}

/// The samples of a frame take four bytes for each sample of each channel.
pub proof fn law_samples_take_four_bytes(h: FrameHeader)
    ensures
        sample_bytes(h) == 4 * (h.channels * h.sample_size),
        frame_bytes(h) == h.spec_size() + 4 * (h.channels * h.sample_size),
{
    let (channels, size) = (h.channels as int, h.sample_size as int);
    assert(size * channels * 4 == 4 * (channels * size)) by (nonlinear_arith);
}

/// The time stamps of a stream are told by the headers of its frames: the first
/// frame has the time at which the stream stood, and each further one comes as
/// much later as the samples in front of it take at their rate, in whole
/// milliseconds.
pub proof fn law_clock_follows_the_headers(stream: Seq<u8>, dts: u64)
    ensures
        cut(stream, dts).frames.len() > 0 ==> cut(stream, dts).frames[0].dts == dts,
        forall|i: int|
            0 <= i < cut(stream, dts).frames.len() - 1 ==> {
                let frame = #[trigger] cut(stream, dts).frames[i];
                let h = header::header_at(frame.bytes)->0;
                let passed = cut(stream, dts).frames[i + 1].dts - frame.dts;
                &&& header::header_at(frame.bytes) is Some
                &&& passed >= 0
                &&& passed * h.sample_rate <= h.sample_size * 1000 < (passed + 1) * h.sample_rate
            },
{
    law_clock_runs_on(stream, dts);
    law_only_frames_are_cut(stream, dts);
    let done = cut(stream, dts);
    assert forall|i: int| 0 <= i < done.frames.len() - 1 implies {
        let frame = #[trigger] done.frames[i];
        let h = header::header_at(frame.bytes)->0;
        let passed = done.frames[i + 1].dts - frame.dts;
        &&& header::header_at(frame.bytes) is Some
        &&& passed >= 0
        &&& passed * h.sample_rate <= h.sample_size * 1000 < (passed + 1) * h.sample_rate
    } by {
        let frame = done.frames[i];
        assert(is_frame(done.frames[i].bytes));
        let h = header::header_at(frame.bytes)->0;
        header::law_header_is_playable(frame.bytes);
        law_duration_follows_the_sample_rate(h);
        assert(done.frames[i + 1].dts - frame.dts == frame_ms(h));
    }
}

/// Where a stream begins with a header, it is cut behind as many samples as the
/// header announces, once they are all there; the first frame is all that is in
/// front of the cut, and what is behind it is a stream that goes on when the
/// frame has played.
pub proof fn law_stream_is_cut_behind_the_samples(stream: Seq<u8>, dts: u64, ms: nat)
    requires
        stream.len() >= 12,
        header::header_at(stream) is Some,
        ({
            let h = header::header_at(stream)->0;
            ms * h.sample_rate <= h.sample_size * 1000 < (ms + 1) * h.sample_rate
        }),
    ensures
        ({
            let h = header::header_at(stream)->0;
            let samples = 4 * (h.channels * h.sample_size);
            let length = h.spec_size() + samples;
            let done = cut(stream, dts);
            if samples > 65535 {
                &&& done.frames.len() == 0
                &&& done.rest == stream
                &&& done.dts == dts
                &&& done.fault == Some(FrameFault::Oversized)
            } else if stream.len() < length {
                &&& done.frames.len() == 0
                &&& done.rest == stream
                &&& done.dts == dts
                &&& done.fault is None
            } else {
                &&& done.frames.len() > 0
                &&& done.frames[0].bytes == stream.take(length)
                &&& done.frames[0].dts == dts
                &&& if dts + ms > u64::MAX {
                    &&& done.frames.len() == 1
                    &&& done.rest == stream.skip(length)
                    &&& done.dts == dts
                    &&& done.fault == Some(FrameFault::ClockOverflow)
                } else {
                    let more = cut(stream.skip(length), (dts + ms) as u64);
                    &&& done.frames.skip(1) == more.frames
                    &&& done.rest == more.rest
                    &&& done.dts == more.dts
                    &&& done.fault == more.fault
                }
            }
        }),
{
    let h = header::header_at(stream)->0;
    header::law_header_is_playable(stream);
    law_samples_take_four_bytes(h);
    law_duration_follows_the_sample_rate(h);
    let (rate, total, other) = (h.sample_rate as int, h.sample_size * 1000, frame_ms(h) as int);
    assert(ms == other) by (nonlinear_arith)
        requires
            ms * rate <= total < (ms + 1) * rate,
            other * rate <= total < (other + 1) * rate,
            rate > 0,
    ;
    let done = cut(stream, dts);
    if sample_bytes(h) <= 65535 && stream.len() >= frame_bytes(h) && dts + ms <= u64::MAX {
        let more = cut(stream.skip(frame_bytes(h) as int), (dts + ms) as u64);
        assert(done.frames.skip(1) =~= more.frames);
    }
}

/// Where a stream does not begin with a header nothing is cut off. Fewer than
/// twelve bytes are waited on, and more are a fault.
pub proof fn law_stream_without_header_is_not_cut(stream: Seq<u8>, dts: u64)
    requires
        stream.len() < 12 || header::header_at(stream) is None,
    ensures
        cut(stream, dts).frames.len() == 0,
        cut(stream, dts).rest == stream,
        cut(stream, dts).dts == dts,
        stream.len() < 12 ==> cut(stream, dts).fault is None,
        stream.len() >= 12 ==> cut(stream, dts).fault == Some(FrameFault::BadHeader),
{
}

} // verus!
