//! The two ends of an `rtrb` ring buffer of audio blocks.
//!
//! The ends live on different threads, so what one end finds in the ring
//! depends on how far the other has got. The names below therefore speak of
//! what each end has done itself: what has gone in at the producer, what has
//! come out at the consumer, and which producer and consumer belong together.
//! That the ring is a queue is said through [`carried`], the whole traffic of
//! the ring, of which either end has seen a beginning.
use bytes::Bytes;
use rtrb::{Consumer, Producer};
use vstd::prelude::*;

#[allow(unused_imports)]
use crate::buffers;

verus! {

/// The writing end of a ring.
#[verifier::external_type_specification]
#[verifier::external_body]
#[verifier::reject_recursive_types(T)]
pub struct ExProducer<T>(Producer<T>);

/// The reading end of a ring.
#[verifier::external_type_specification]
#[verifier::external_body]
#[verifier::reject_recursive_types(T)]
pub struct ExConsumer<T>(Consumer<T>);

/// The blocks written through this producer so far, oldest first.
pub uninterp spec fn written(producer: Producer<Bytes>) -> Seq<Seq<u8>>;

/// The blocks read through this consumer so far, oldest first.
pub uninterp spec fn taken(consumer: Consumer<Bytes>) -> Seq<Seq<u8>>;

/// The number of slots of the ring that this producer writes to.
pub uninterp spec fn producer_slots(producer: Producer<Bytes>) -> nat;

/// The number of slots of the ring that this consumer reads from.
pub uninterp spec fn consumer_slots(consumer: Consumer<Bytes>) -> nat;

/// The numbers of slots asked for through this producer so far, oldest first.
pub uninterp spec fn asked(producer: Producer<Bytes>) -> Seq<nat>;

/// The numbers of slots that were free when slots were asked for through this
/// producer, oldest first.
pub uninterp spec fn found_free(producer: Producer<Bytes>) -> Seq<nat>;

/// What was found when a block was looked for through this consumer, oldest
/// first: the block that was read, or nothing where the ring was empty.
pub uninterp spec fn found(consumer: Consumer<Bytes>) -> Seq<Option<Seq<u8>>>;

/// Whether the two ends belong to one ring.
pub uninterp spec fn same_ring(producer: Producer<Bytes>, consumer: Consumer<Bytes>) -> bool;

/// The blocks that pass into the consumer's ring over its whole life, oldest
/// first: those written so far, and those still to come.
pub uninterp spec fn carried(consumer: Consumer<Bytes>) -> Seq<Seq<u8>>;

/// What the producer has written is how the traffic of its ring begins.
pub open spec fn producer_in_step(producer: Producer<Bytes>) -> bool {
    forall|consumer: Consumer<Bytes>| #[trigger]
        same_ring(producer, consumer) ==> written(producer).is_prefix_of(carried(consumer))
}

/// What the consumer has read is how the traffic of its ring begins.
pub open spec fn consumer_in_step(consumer: Consumer<Bytes>) -> bool {
    taken(consumer).is_prefix_of(carried(consumer))
}

/// Blocks come out of a ring in the order and with the contents in which they
/// went in.
pub proof fn law_blocks_arrive_in_order(producer: Producer<Bytes>, consumer: Consumer<Bytes>)
    requires
        same_ring(producer, consumer),
        producer_in_step(producer),
        consumer_in_step(consumer),
    ensures
        forall|i: int|
            0 <= i < taken(consumer).len() && i < written(producer).len() ==> taken(consumer)[i]
                == written(producer)[i],
{
    let log = carried(consumer);
    assert forall|i: int|
        0 <= i < taken(consumer).len() && i < written(producer).len() implies taken(consumer)[i]
        == written(producer)[i] by {
        assert(log.take(taken(consumer).len() as int)[i] == log[i]);
        assert(log.take(written(producer).len() as int)[i] == log[i]);
    }
}

/// `rtrb::RingBuffer::new` makes a ring of `slots` slots that holds nothing,
/// and returns its two ends. The slots are allocated at once; the handle of a
/// block takes at most 32 bytes.
#[verifier::external_body]
pub(crate) fn new_ring(slots: usize) -> (ends: (Producer<Bytes>, Consumer<Bytes>))
    requires
        slots <= isize::MAX / 32,
    ensures
        same_ring(ends.0, ends.1),
        producer_slots(ends.0) == slots,
        consumer_slots(ends.1) == slots,
        written(ends.0) == Seq::<Seq<u8>>::empty(),
        asked(ends.0) == Seq::<nat>::empty(),
        found_free(ends.0) == Seq::<nat>::empty(),
        taken(ends.1) == Seq::<Seq<u8>>::empty(),
        found(ends.1) == Seq::<Option<Seq<u8>>>::empty(),
{
    rtrb::RingBuffer::new(slots)
}

/// `rtrb::Producer::write_chunk_uninit` reserves `slots` free slots, or says
/// how many are free where they are fewer; `fill_from_iter` then moves the
/// block into the first of the reserved slots, if there is one, and gives the
/// others back. It succeeds just where that many slots are free at that moment.
/// How many are free rests on how far the other end has read: no fewer than if
/// it had read nothing, and no more than there are.
#[verifier::external_body]
pub(crate) fn write_block(producer: &mut Producer<Bytes>, slots: usize, block: Bytes) -> (result:
    Result<(), usize>)
    ensures
        producer_slots(*final(producer)) == producer_slots(*old(producer)),
        forall|consumer: Consumer<Bytes>|
            same_ring(*final(producer), consumer) == same_ring(*old(producer), consumer),
        producer_in_step(*final(producer)),
        asked(*final(producer)) == asked(*old(producer)).push(slots as nat),
        ({
            let free = found_free(*final(producer)).last();
            &&& found_free(*final(producer)) == found_free(*old(producer)).push(free)
            &&& free <= producer_slots(*old(producer)) <= free + written(*old(producer)).len()
            &&& result is Ok <==> slots <= free
        }),
        match result {
            Ok(()) => written(*final(producer)) == if slots == 0 {
                written(*old(producer))
            } else {
                written(*old(producer)).push(buffers::bytes_of(block))
            },
            Err(free) => {
                &&& free == found_free(*final(producer)).last()
                &&& written(*final(producer)) == written(*old(producer))
            },
        },
{
    match producer.write_chunk_uninit(slots) {
        Ok(chunk) => {
            chunk.fill_from_iter(std::iter::once(block));
            Ok(())
        },
        Err(rtrb::chunks::ChunkError::TooFewSlots(free)) => Err(free),
    }
}

/// `rtrb::Consumer::pop` takes the oldest block out of the ring, or nothing
/// where the ring is empty. Which of the two it is rests on how far the other
/// end has written.
#[verifier::external_body]
pub(crate) fn take_block(consumer: &mut Consumer<Bytes>) -> (block: Option<Bytes>)
    ensures
        consumer_slots(*final(consumer)) == consumer_slots(*old(consumer)),
        forall|producer: Producer<Bytes>|
            same_ring(producer, *final(consumer)) == same_ring(producer, *old(consumer)),
        carried(*final(consumer)) == carried(*old(consumer)),
        consumer_in_step(*final(consumer)),
        found(*final(consumer)) == found(*old(consumer)).push(
            match block {
                Some(data) => Some(buffers::bytes_of(data)),
                None => None,
            },
        ),
        match block {
            Some(data) => taken(*final(consumer)) == taken(*old(consumer)).push(buffers::bytes_of(data)),
            None => taken(*final(consumer)) == taken(*old(consumer)),
        },
{
    consumer.pop().ok()
}

} // verus!
