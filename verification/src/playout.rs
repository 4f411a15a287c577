//! Routing of the packets that come back from the network to the rings of the
//! channels.
//!
//! The id in the header of a packet names the node that the packet is from, and
//! the number of the node is the number of its channel.
use bytes::Bytes;
use gen_id::{ConfigPreset, IdGenerator, DEFAULT_EPOCH};
use rtrb::{Consumer, Producer};
use vstd::prelude::*;

#[allow(unused_imports)]
use crate::allocator;
use crate::allocator::Streams;
#[allow(unused_imports)]
use crate::codec;
#[allow(unused_imports)]
use crate::header;
use crate::header::FrameHeader;
use crate::ring;

verus! {

/// The number of bytes at the front of a packet in which its header is looked
/// for.
pub const HEADER_BYTES: usize = 20;

/// Why a packet cannot be routed.
#[derive(Clone, Copy, Debug, PartialEq, Eq, Structural)]
pub enum RouteFault {
    /// The packet is shorter than the longest header.
    Short,
    /// There is no valid header at its front.
    BadHeader,
    /// The header has no id.
    NoId,
    /// The id names a node that has no channel.
    UnknownNode,
}

/// The node that an id names.
pub open spec fn node_of(id: u64) -> nat {
    (id as nat / 8192) % 16384
}

/// The channel that a packet belongs to, where there are `channels` of them.
pub open spec fn route_of(packet: Seq<u8>, channels: nat) -> Result<nat, RouteFault> {
    let h = header::header_at(packet.take(HEADER_BYTES as int));
    if packet.len() < HEADER_BYTES {
        Err(RouteFault::Short)
    } else if h is None {
        Err(RouteFault::BadHeader)
    } else if h->0.id is None {
        Err(RouteFault::NoId)
    } else if node_of(h->0.id->0) >= channels {
        Err(RouteFault::UnknownNode)
    } else {
        Ok(node_of(h->0.id->0))
    }
}

/// `gen_id::IdGenerator::decode_id`, on a generator of the preset
/// `ShortEpochMaxNodes`, takes an id apart; the node is in the 14 bits above
/// the lowest 13.
#[verifier::external_body]
fn decode_node(id: u64) -> (node: u64)
    ensures
        node == node_of(id),
{
    let generator = IdGenerator::new(ConfigPreset::ShortEpochMaxNodes, DEFAULT_EPOCH);
    generator.decode_id(id).node_id
}

/// The channel that a packet belongs to, where there are `channels` of them.
pub fn route(packet: &[u8], channels: usize) -> (node: Result<usize, RouteFault>)
    ensures
        match node {
            Ok(found) => route_of(packet@, channels as nat) == Ok::<nat, RouteFault>(found as nat),
            Err(fault) => route_of(packet@, channels as nat) == Err::<nat, RouteFault>(fault),
        },
{
    if packet.len() < HEADER_BYTES {
        return Err(RouteFault::Short);
    }
    let front = vstd::slice::slice_subrange(packet, 0, HEADER_BYTES);
    assert(front@ =~= packet@.take(HEADER_BYTES as int));
    match FrameHeader::decode(front) {
        None => Err(RouteFault::BadHeader),
        Some(h) => match h.id {
            None => Err(RouteFault::NoId),
            Some(id) => {
                let node: usize = decode_node(id) as usize;
                if node < channels {
                    Ok(node)
                } else {
                    Err(RouteFault::UnknownNode)
                }
            },
        },
    }
}

/// The writing ends of the rings, by channel.
pub struct Router {
    pub producers: Vec<Option<Producer<Bytes>>>,
}

impl Router {
    /// The rings are as large as they are made, and what has been written to
    /// them is how their traffic begins.
    pub open spec fn wf(self) -> bool {
        forall|i: int|
            0 <= i < self.producers@.len() && #[trigger] self.producers@[i] is Some ==> {
                &&& ring::producer_slots(self.producers@[i]->0) == allocator::RING_SLOTS
                &&& ring::producer_in_step(self.producers@[i]->0)
            }
    }

    /// Where a channel has both ends of a ring, they belong together.
    pub open spec fn feeds(self, consumers: Seq<Option<Consumer<Bytes>>>) -> bool {
        forall|i: int|
            0 <= i < self.producers@.len() && i < consumers.len() && self.producers@[i] is Some
                && #[trigger] consumers[i] is Some ==> ring::same_ring(
                self.producers@[i]->0,
                consumers[i]->0,
            )
    }

    /// No channel has a ring yet.
    pub fn new(capacity: usize) -> (router: Self)
        ensures
            router.wf(),
            router.producers@ == Seq::new(capacity as nat, |i: int| None::<Producer<Bytes>>),
            forall|consumers: Seq<Option<Consumer<Bytes>>>| router.feeds(consumers),
    {
        let mut producers: Vec<Option<Producer<Bytes>>> = Vec::new();
        while producers.len() < capacity
            invariant
                producers.len() <= capacity,
                forall|i: int| 0 <= i < producers.len() ==> producers@[i] == None::<Producer<Bytes>>,
            decreases capacity - producers.len(),
        {
            producers.push(None);
        }
        assert(producers@ =~= Seq::new(capacity as nat, |i: int| None::<Producer<Bytes>>));
        Router { producers }
    }

    /// Finds the channel of a packet, and makes a ring for it where it has
    /// none.
    pub fn accept(&mut self, packet: &[u8], streams: &mut Streams) -> (node: Result<
        usize,
        RouteFault,
    >)
        requires
            old(self).wf(),
        ensures
            final(self).wf(),
            old(self).feeds(old(streams).consumers@) ==> final(self).feeds(
                final(streams).consumers@,
            ),
            match node {
                Err(fault) => {
                    &&& route_of(packet@, old(self).producers@.len()) == Err::<nat, RouteFault>(
                        fault,
                    )
                    &&& final(self).producers@ == old(self).producers@
                    &&& final(streams).consumers@ == old(streams).consumers@
                },
                Ok(found) => {
                    let opened = final(self).producers@[found as int];
                    &&& route_of(packet@, old(self).producers@.len()) == Ok::<nat, RouteFault>(
                        found as nat,
                    )
                    &&& final(self).producers@ == old(self).producers@.update(found as int, opened)
                    &&& opened is Some
                    &&& if old(self).producers@[found as int] is Some {
                        &&& opened == old(self).producers@[found as int]
                        &&& final(streams).consumers@ == old(streams).consumers@
                    } else {
                        &&& ring::written(opened->0) == Seq::<Seq<u8>>::empty()
                        &&& ring::asked(opened->0) == Seq::<nat>::empty()
                        &&& ring::found_free(opened->0) == Seq::<nat>::empty()
                        &&& if found < old(streams).consumers@.len() {
                            let added = final(streams).consumers@[found as int];
                            &&& final(streams).consumers@ == old(streams).consumers@.update(
                                found as int,
                                added,
                            )
                            &&& added is Some
                            &&& ring::same_ring(opened->0, added->0)
                            &&& ring::consumer_slots(added->0) == allocator::RING_SLOTS
                            &&& ring::taken(added->0) == Seq::<Seq<u8>>::empty()
                            &&& ring::found(added->0) == Seq::<Option<Seq<u8>>>::empty()
                        } else {
                            final(streams).consumers@ == old(streams).consumers@
                        }
                    }
                },
            },
    {
        let node = route(packet, self.producers.len())?;
        if self.producers[node].is_none() {
            let producer = streams.add(node);
            self.producers[node] = Some(producer);
        } else {
            assert(self.producers@ =~= old(self).producers@.update(
                node as int,
                old(self).producers@[node as int],
            ));
        }
        Ok(node)
    }

    /// Writes a block of samples to the ring of a channel, where it has one. As
    /// many slots must be free as the block has bytes; where they are fewer,
    /// their number is returned and the block is dropped. An empty block is
    /// not written.
    pub fn deliver(&mut self, node: usize, block: &[u8]) -> (result: Result<(), usize>)
        requires
            old(self).wf(),
            node < old(self).producers@.len(),
        ensures
            final(self).wf(),
            forall|consumers: Seq<Option<Consumer<Bytes>>>|
                old(self).feeds(consumers) ==> final(self).feeds(consumers),
            old(self).producers@[node as int] is None ==> result is Ok && final(self).producers@
                == old(self).producers@,
            old(self).producers@[node as int] is Some ==> {
                let before = old(self).producers@[node as int]->0;
                let after = final(self).producers@[node as int]->0;
                let free = ring::found_free(after).last();
                &&& final(self).producers@ == old(self).producers@.update(node as int, Some(after))
                &&& ring::asked(after) == ring::asked(before).push(block@.len())
                &&& ring::found_free(after) == ring::found_free(before).push(free)
                &&& free <= allocator::RING_SLOTS <= free + ring::written(before).len()
                &&& result is Ok <==> block@.len() <= free
                &&& block@.len() > allocator::RING_SLOTS ==> result is Err
                &&& ring::written(before).len() + block@.len() <= allocator::RING_SLOTS ==> result is Ok
                &&& block@.len() == 0 ==> result is Ok
                &&& match result {
                    Ok(()) => ring::written(after) == if block@.len() == 0 {
                        ring::written(before)
                    } else {
                        ring::written(before).push(block@)
                    },
                    Err(count) => {
                        &&& count == free
                        &&& ring::written(after) == ring::written(before)
                    },
                }
            },
    {
        match &mut self.producers[node] {
            None => Ok(()),
            Some(producer) => ring::write_block(
                producer,
                block.len(),
                Bytes::copy_from_slice(block),
            ),
        }
    }
}

/// A packet is routed by the id in its header.
pub proof fn law_packet_goes_to_its_node(packet: Seq<u8>, id: u64, channels: nat)
    requires
        packet.len() >= HEADER_BYTES,
        header::header_at(packet) is Some,
        header::header_at(packet)->0.id == Some(id),
    ensures
        route_of(packet, channels) == if node_of(id) < channels {
            Ok::<nat, RouteFault>(node_of(id))
        } else {
            Err(RouteFault::UnknownNode)
        },
{
    let end = header::announced_size(packet);
    header::law_header_stands_alone(packet, Seq::empty());
    header::law_header_is_playable(packet);
    let head = packet.take(end);
    let more = packet.subrange(end, HEADER_BYTES as int);
    header::law_header_stands_alone(head, more);
    assert(packet.take(HEADER_BYTES as int) =~= head + more);
}

/// What is made of a frame goes to the node that the frame's id names.
pub proof fn law_encoded_frame_goes_to_its_node(
    frame: Seq<u8>,
    packet: Seq<u8>,
    id: u64,
    channels: nat,
)
    requires
        header::header_at(frame) is Some,
        header::header_at(frame)->0.id == Some(id),
        header::header_at(packet) == Some(codec::flac_header(header::header_at(frame)->0)),
        packet.len() >= HEADER_BYTES,
        node_of(id) < channels,
    ensures
        route_of(packet, channels) == Ok::<nat, RouteFault>(node_of(id)),
{
    law_packet_goes_to_its_node(packet, id, channels);
}

/// The node can be read off an id that was put together from a time, a node, a
/// count and a kind.
pub proof fn law_id_names_its_node(time: nat, node: nat, count: nat, kind: nat)
    requires
        time < 0x20_0000_0000,
        node < 16384,
        count < 1024,
        kind < 8,
    ensures
        ({
            let id = time * 0x800_0000 + node * 8192 + count * 8 + kind;
            id <= u64::MAX && node_of(id as u64) == node
        }),
{
    let id = time * 0x800_0000 + node * 8192 + count * 8 + kind;
    assert(id / 8192 == time * 16384 + node);
}

/// What a listener has been played on a channel is what was delivered to it, in
/// the order in which it was delivered.
pub proof fn law_listener_hears_what_is_delivered(
    router: Router,
    consumers: Seq<Option<Consumer<Bytes>>>,
    node: int,
)
    requires
        router.wf(),
        router.feeds(consumers),
        0 <= node < router.producers@.len(),
        node < consumers.len(),
        router.producers@[node] is Some,
        consumers[node] is Some,
        ring::consumer_in_step(consumers[node]->0),
    ensures
        ({
            let delivered = ring::written(router.producers@[node]->0);
            let heard = ring::taken(consumers[node]->0);
            forall|i: int| 0 <= i < heard.len() && i < delivered.len() ==> heard[i] == delivered[i]
        }),
{
    ring::law_blocks_arrive_in_order(router.producers@[node]->0, consumers[node]->0);
}

/// A packet that cannot be routed by an id is refused for what it lacks: twenty
/// bytes, a header, or an id in it.
pub proof fn law_packet_without_id_is_refused(packet: Seq<u8>, channels: nat)
    ensures
        route_of(packet, channels) == Err::<nat, RouteFault>(RouteFault::Short) <==> packet.len()
            < 20,
        route_of(packet, channels) == Err::<nat, RouteFault>(RouteFault::BadHeader) <==> {
            &&& packet.len() >= 20
            &&& header::header_at(packet) is None
        },
        route_of(packet, channels) == Err::<nat, RouteFault>(RouteFault::NoId) <==> {
            &&& packet.len() >= 20
            &&& header::header_at(packet) is Some
            &&& header::header_at(packet)->0.id is None
        },
{
    if packet.len() >= 20 {
        let front = packet.take(20);
        if header::header_at(packet) is Some {
            header::law_header_is_playable(packet);
            header::law_header_is_needed_whole(packet, 20);
        } else if header::header_at(front) is Some {
            header::law_header_stands_alone(front, packet.skip(20));
            assert(front + packet.skip(20) =~= packet);
        }
    }
}

/// A packet that is routed goes to one of the channels, and it is the one whose
/// number is in the fourteen bits of its id above the lowest thirteen.
pub proof fn law_routed_packet_has_a_channel(packet: Seq<u8>, channels: nat, node: nat)
    ensures
        route_of(packet, channels) == Ok::<nat, RouteFault>(node) <==> {
            &&& packet.len() >= 20
            &&& header::header_at(packet) matches Some(h)
            &&& h.id matches Some(id)
            &&& node < channels
            &&& node < 16384
            &&& (id as nat / 8192 - node) % 16384 == 0
        },
{
    law_packet_without_id_is_refused(packet, channels);
    if packet.len() >= 20 && header::header_at(packet) is Some {
        if let Some(id) = header::header_at(packet)->0.id {
            law_packet_goes_to_its_node(packet, id, channels);
        }
    }
}

} // verus!
