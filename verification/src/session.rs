//! What becomes of one connection.
//!
//! A client greets with four bytes and is given a channel. A sender is told the
//! number of its channel and then sends audio frames; a listener is played the
//! blocks of its channel, where there is a stream for it. Everyone else is
//! treated as a sender that is not told its number. When the connection ends,
//! the channel is freed.
//!
//! A [`Session`] decides what is to be done next; whoever owns the socket does
//! it, and reports back.
use bytes::Bytes;
use rtrb::Consumer;
#[allow(unused_imports)]
use rtrb::Producer;
use vstd::prelude::*;

#[allow(unused_imports)]
use crate::allocator;
use crate::allocator::{Channels, Streams};
#[allow(unused_imports)]
use crate::buffers;
use crate::codec::EncodeResponse;
#[allow(unused_imports)]
use crate::framing;
use crate::framing::{Batch, FrameSplitter};
#[allow(unused_imports)]
use crate::mux;
use crate::mux::AudioMuxer;
use crate::ring;

verus! {

/// The time from the greeting of a listener to its first playing time, in
/// milliseconds.
pub const FIRST_WAIT_MS: u64 = 5;

/// The time from one playing time to the next, in milliseconds.
pub const WAIT_MS: u64 = 2;

/// The number of bytes that are read from a sender at a time.
pub const READ_BYTES: usize = 1024;

/// How far a connection has got.
#[derive(Clone, Copy, Debug, PartialEq, Eq, Structural)]
pub enum Phase {
    /// The greeting has not arrived.
    Greeting,
    /// The number of the channel is being sent to the client.
    Acknowledging,
    /// The blocks of the channel are being sent to the client.
    Playing,
    /// The client is sending frames.
    Receiving,
    /// The connection is over.
    Closed,
}

/// What is to be done next.
pub enum Next {
    /// Write the bytes to the client, and report with [`Session::written`].
    Write(Bytes),
    /// Wait for the next playing time, and report with [`Session::due`].
    Wait,
    /// Read from the client, and report with [`Session::received`] or
    /// [`Session::ended`].
    Receive,
    /// Close the connection.
    Close,
}

/// The greeting of a sender, `SEND` in ASCII.
pub open spec fn send_greeting() -> Seq<u8> {
    seq![0x53u8, 0x45, 0x4e, 0x44]
}

/// The greeting of a listener, `PLAY` in ASCII.
pub open spec fn play_greeting() -> Seq<u8> {
    seq![0x50u8, 0x4c, 0x41, 0x59]
}

/// The number of a channel as it is sent to the client: its lowest 16 bits,
/// least significant byte first.
pub open spec fn channel_bytes(id: usize) -> Seq<u8> {
    seq![(id % 256) as u8, (id / 256 % 256) as u8]
}

/// One connection.
pub struct Session {
    pub phase: Phase,
    pub id: Option<usize>,
    pub consumer: Option<Consumer<Bytes>>,
    pub frames: FrameSplitter,
    pub muxer: AudioMuxer,
}

/// The bytes for the client that tell the number of a channel.
fn acknowledgement(id: usize) -> (bytes: Bytes)
    ensures
        buffers::bytes_of(bytes) == channel_bytes(id),
{
    let low: u8 = (id % 256) as u8;
    let high: u8 = (id / 256 % 256) as u8;
    let bytes = Bytes::copy_from_slice(&[low, high]);
    assert(buffers::bytes_of(bytes) =~= channel_bytes(id));
    bytes
}

/// What is to be done at a playing time, given the block that has come out of
/// the ring, if one has.
pub fn played(block: Option<Bytes>) -> (next: Next)
    ensures
        next == match block {
            Some(data) => Next::Write(data),
            None => Next::Wait,
        },
{
    match block {
        Some(data) => Next::Write(data),
        None => Next::Wait,
    }
}

impl Session {
    /// A connection has the number of a channel from the greeting until it is
    /// over, and a consumer while it plays. Once an acknowledgement has failed
    /// the channel of that number is free: it may go to another client, and is
    /// freed once more when the connection ends.
    pub open spec fn wf(self) -> bool {
        &&& self.frames.wf()
        &&& self.muxer.wf()
        &&& match self.phase {
            Phase::Greeting => self.id is None && self.consumer is None,
            Phase::Acknowledging => self.id is Some && self.consumer is None,
            Phase::Playing => self.id is Some && self.consumer is Some,
            Phase::Receiving => self.id is Some && self.consumer is None,
            Phase::Closed => self.id is None && self.consumer is None,
        }
    }

    /// Nothing but phase, channel and consumer differs from `before`.
    pub open spec fn same_stream(self, before: Session) -> bool {
        &&& self.frames == before.frames
        &&& self.muxer == before.muxer
    }

    /// A connection that has just been accepted.
    pub fn new() -> (session: Self)
        ensures
            session.wf(),
            session.phase == Phase::Greeting,
            session.id is None,
            session.consumer is None,
            session.frames.pending() == Seq::<u8>::empty(),
            session.frames.clock() == 0,
            session.muxer.pid() == 0x101,
            session.muxer.writes().len() == 0,
    {
        Session {
            phase: Phase::Greeting,
            id: None,
            consumer: None,
            frames: FrameSplitter::new(),
            muxer: AudioMuxer::new(),
        }
    }

    /// The greeting has arrived: the client is given the first free channel, or
    /// turned away where there is none.
    pub fn greeted(
        &mut self,
        greeting: &[u8; 4],
        chans: &mut Channels,
        streams: &mut Streams,
    ) -> (next: Next)
        requires
            old(self).wf(),
            old(self).phase == Phase::Greeting,
        ensures
            final(self).wf(),
            final(self).same_stream(*old(self)),
            final(self).frames == old(self).frames,
            final(self).muxer == old(self).muxer,
            match final(self).id {
                None => {
                    &&& forall|i: int|
                        0 <= i < old(chans).chans@.len() ==> #[trigger] old(chans).chans@[i]
                    &&& next == Next::Close
                    &&& final(self).phase == Phase::Closed
                    &&& final(self).consumer is None
                    &&& final(chans).chans@ == old(chans).chans@
                    &&& final(streams).consumers@ == old(streams).consumers@
                },
                Some(id) => {
                    &&& allocator::is_first_free(old(chans).chans@, id as int)
                    &&& final(chans).chans@ == old(chans).chans@.update(id as int, true)
                    &&& if greeting@ == send_greeting() {
                        &&& next matches Next::Write(bytes)
                        &&& buffers::bytes_of(bytes) == channel_bytes(id)
                        &&& final(self).phase == Phase::Acknowledging
                        &&& final(self).consumer is None
                        &&& final(streams).consumers@ == old(streams).consumers@
                    } else if greeting@ == play_greeting() && id < old(streams).consumers@.len()
                        && old(streams).consumers@[id as int] is Some {
                        &&& next == Next::Wait
                        &&& final(self).phase == Phase::Playing
                        &&& final(self).consumer == old(streams).consumers@[id as int]
                        &&& final(streams).consumers@ == old(streams).consumers@.update(
                            id as int,
                            None,
                        )
                    } else {
                        &&& next == Next::Receive
                        &&& final(self).phase == Phase::Receiving
                        &&& final(self).consumer is None
                        &&& final(streams).consumers@ == old(streams).consumers@
                    }
                },
            },
    {
        match chans.next() {
            None => {
                self.phase = Phase::Closed;
                Next::Close
            },
            Some(id) => {
                self.id = Some(id);
                if greeting[0] == 0x53 && greeting[1] == 0x45 && greeting[2] == 0x4e && greeting[3]
                    == 0x44 {
                    assert(greeting@ =~= send_greeting());
                    self.phase = Phase::Acknowledging;
                    return Next::Write(acknowledgement(id));
                }
                if greeting[0] == 0x50 && greeting[1] == 0x4c && greeting[2] == 0x41 && greeting[3]
                    == 0x59 {
                    assert(greeting@ =~= play_greeting());
                    let consumer = streams.take_consumer(id);
                    if consumer.is_some() {
                        self.consumer = consumer;
                        self.phase = Phase::Playing;
                        return Next::Wait;
                    }
                    assert(streams.consumers@ =~= old(streams).consumers@);
                }
                self.phase = Phase::Receiving;
                Next::Receive
            },
        }
    }

    /// The greeting will not arrive.
    pub fn not_greeted(&mut self) -> (next: Next)
        requires
            old(self).wf(),
            old(self).phase == Phase::Greeting,
        ensures
            final(self).wf(),
            final(self).same_stream(*old(self)),
            final(self).frames == old(self).frames,
            final(self).muxer == old(self).muxer,
            final(self).phase == Phase::Closed,
            final(self).id is None,
            final(self).consumer is None,
            next == Next::Close,
    {
        self.phase = Phase::Closed;
        Next::Close
    }

    /// A write is done, or has failed. Where it has failed the channel is
    /// freed; a listener is then done with, while a sender is read from all the
    /// same.
    pub fn written(&mut self, ok: bool, chans: &mut Channels) -> (next: Next)
        requires
            old(self).wf(),
            old(self).phase == Phase::Acknowledging || old(self).phase == Phase::Playing,
            old(self).id->0 < old(chans).chans@.len(),
        ensures
            final(self).wf(),
            final(self).same_stream(*old(self)),
            final(self).frames == old(self).frames,
            final(self).muxer == old(self).muxer,
            final(chans).chans@ == if ok {
                old(chans).chans@
            } else {
                old(chans).chans@.update(old(self).id->0 as int, false)
            },
            if old(self).phase == Phase::Acknowledging {
                &&& next == Next::Receive
                &&& final(self).phase == Phase::Receiving
                &&& final(self).id == old(self).id
                &&& final(self).consumer is None
            } else if ok {
                &&& next == Next::Wait
                &&& final(self).phase == Phase::Playing
                &&& final(self).id == old(self).id
                &&& final(self).consumer == old(self).consumer
            } else {
                &&& next == Next::Close
                &&& final(self).phase == Phase::Closed
                &&& final(self).id is None
                &&& final(self).consumer is None
            },
    {
        if let Some(id) = self.id {
            if !ok {
                let _ = chans.rm(id);
            }
        }
        if self.phase == Phase::Acknowledging {
            self.phase = Phase::Receiving;
            Next::Receive
        } else if ok {
            Next::Wait
        } else {
            self.phase = Phase::Closed;
            self.id = None;
            self.consumer = None;
            Next::Close
        }
    }

    /// A playing time has come: the next block of the channel is written to the
    /// client, where there is one by now.
    pub fn due(&mut self) -> (next: Next)
        requires
            old(self).wf(),
            old(self).phase == Phase::Playing,
        ensures
            final(self).wf(),
            final(self).same_stream(*old(self)),
            final(self).frames == old(self).frames,
            final(self).muxer == old(self).muxer,
            final(self).phase == Phase::Playing,
            final(self).id == old(self).id,
            final(self).consumer is Some,
            ({
                let before = old(self).consumer->0;
                let after = final(self).consumer->0;
                &&& ring::consumer_slots(after) == ring::consumer_slots(before)
                &&& ring::carried(after) == ring::carried(before)
                &&& forall|producer: Producer<Bytes>| #[trigger]
                    ring::same_ring(producer, after) == ring::same_ring(producer, before)
                &&& ring::consumer_in_step(after)
                &&& ring::found(after) == ring::found(before).push(
                    match next {
                        Next::Write(data) => Some(buffers::bytes_of(data)),
                        _ => None,
                    },
                )
                &&& match next {
                    Next::Write(data) => ring::taken(after) == ring::taken(before).push(
                        buffers::bytes_of(data),
                    ),
                    Next::Wait => ring::taken(after) == ring::taken(before),
                    _ => false,
                }
            }),
    {
        match &mut self.consumer {
            Some(consumer) => {
                let block = ring::take_block(consumer);
                played(block)
            },
            None => Next::Wait,
        }
    }

    /// Bytes have arrived from the client.
    pub fn received(&mut self, chunk: &[u8]) -> (batch: Batch)
        requires
            old(self).wf(),
            old(self).phase == Phase::Receiving,
            old(self).frames.pending().len() + chunk@.len() <= isize::MAX,
        ensures
            final(self).wf(),
            final(self).phase == Phase::Receiving,
            final(self).id == old(self).id,
            final(self).consumer == old(self).consumer,
            final(self).muxer == old(self).muxer,
            ({
                let done = framing::cut(
                    old(self).frames.pending() + chunk@,
                    old(self).frames.clock(),
                );
                &&& framing::frames_of(batch.requests@) == done.frames
                &&& framing::are_frames(batch.requests@, done.frames)
                &&& batch.fault == done.fault
                &&& final(self).frames.pending() == done.rest
                &&& final(self).frames.clock() == done.dts
            }),
    {
        self.frames.feed(chunk)
    }

    /// The encoder is done with a frame: packs it for the network.
    pub fn encoded(&mut self, response: EncodeResponse) -> (packets: Bytes)
        requires
            old(self).wf(),
            old(self).phase == Phase::Receiving,
            response.dts <= mux::MAX_DTS,
            buffers::bytes_mut_of(response.result).len() <= mux::MAX_PAYLOAD,
        ensures
            final(self).wf(),
            final(self).phase == Phase::Receiving,
            final(self).id == old(self).id,
            final(self).consumer == old(self).consumer,
            final(self).frames == old(self).frames,
            final(self).muxer.pid() == old(self).muxer.pid(),
            final(self).muxer.writes() == old(self).muxer.writes().push(
                (
                    old(self).muxer.pid(),
                    response.dts as i64,
                    response.dts as i64,
                    0u16,
                    buffers::bytes_mut_of(response.result),
                ),
            ),
            buffers::bytes_of(packets) == mux::ts_packets(final(self).muxer.writes()),
    {
        self.muxer.pack(response.dts, response.result)
    }

    /// The client has closed the connection, or can no longer be read from: the
    /// channel is freed.
    pub fn ended(&mut self, chans: &mut Channels)
        requires
            old(self).wf(),
            old(self).phase == Phase::Receiving,
            old(self).id->0 < old(chans).chans@.len(),
        ensures
            final(self).wf(),
            final(self).same_stream(*old(self)),
            final(self).frames == old(self).frames,
            final(self).muxer == old(self).muxer,
            final(self).phase == Phase::Closed,
            final(self).id is None,
            final(self).consumer is None,
            final(chans).chans@ == old(chans).chans@.update(old(self).id->0 as int, false),
    {
        if let Some(id) = self.id {
            let _ = chans.rm(id);
        }
        self.phase = Phase::Closed;
        self.id = None;
    }
}

/// Each of the connections has a channel of its own, and it is marked as taken.
pub open spec fn each_has_its_own(chans: Seq<bool>, ids: Seq<int>) -> bool {
    &&& forall|i: int| 0 <= i < ids.len() ==> 0 <= #[trigger] ids[i] < chans.len() && chans[ids[i]]
    &&& forall|i: int, j: int| 0 <= i < j < ids.len() ==> #[trigger] ids[i] != #[trigger] ids[j]
}

/// A client that is let in does not share its channel with anyone.
pub proof fn law_newcomer_shares_with_nobody(chans: Seq<bool>, ids: Seq<int>, id: int)
    requires
        each_has_its_own(chans, ids),
        allocator::is_first_free(chans, id),
    ensures
        each_has_its_own(chans.update(id, true), ids.push(id)),
{
    let after = ids.push(id);
    assert forall|i: int| 0 <= i < after.len() implies 0 <= #[trigger] after[i] < chans.len()
        && chans.update(id, true)[after[i]] by {
        if i < ids.len() {
            assert(after[i] == ids[i]);
        }
    }
    assert forall|i: int, j: int| 0 <= i < j < after.len() implies #[trigger] after[i]
        != #[trigger] after[j] by {
        assert(after[i] == ids[i]);
        if j < ids.len() {
            assert(after[j] == ids[j]);
        }
    }
}

/// When a connection is over, the others keep their channels.
pub proof fn law_leaver_disturbs_nobody(chans: Seq<bool>, ids: Seq<int>, who: int)
    requires
        each_has_its_own(chans, ids),
        0 <= who < ids.len(),
    ensures
        each_has_its_own(chans.update(ids[who], false), ids.remove(who)),
{
    let after = ids.remove(who);
    assert forall|i: int| 0 <= i < after.len() implies 0 <= #[trigger] after[i] < chans.len()
        && chans.update(ids[who], false)[after[i]] by {
        assert(after[i] == ids[if i < who {
            i
        } else {
            i + 1
        }]);
    }
    assert forall|i: int, j: int| 0 <= i < j < after.len() implies #[trigger] after[i]
        != #[trigger] after[j] by {
        assert(after[i] == ids[if i < who {
            i
        } else {
            i + 1
        }]);
        assert(after[j] == ids[if j < who {
            j
        } else {
            j + 1
        }]);
    }
}

/// A client is sent two bytes, which spell the number of its channel, as long as
/// there are no more than 65536 channels.
pub proof fn law_client_learns_its_channel(id: usize)
    ensures
        channel_bytes(id).len() == 2,
        channel_bytes(id)[0] + channel_bytes(id)[1] * 256 == id % 65536,
        id < 65536 ==> channel_bytes(id)[0] + channel_bytes(id)[1] * 256 == id,
{
}

/// Clients on different channels are told different numbers.
pub proof fn law_clients_are_told_apart(one: usize, other: usize)
    requires
        one < 65536,
        other < 65536,
        channel_bytes(one) == channel_bytes(other),
    ensures
        one == other,
{
    law_client_learns_its_channel(one);
    law_client_learns_its_channel(other);
}

/// A playing time is five milliseconds after the greeting, and then every two.
pub proof fn law_playing_times(start: int, count: nat)
    ensures
        start + FIRST_WAIT_MS + count * WAIT_MS == start + 5 + count * 2,
{
}

} // verus!
