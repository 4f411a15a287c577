//! The slots that connections share: which channels are taken, and which ring
//! each channel plays from.
use bytes::Bytes;
use rtrb::{Consumer, Producer};
use vstd::prelude::*;

use crate::ring;

verus! {

/// The number of slots of each stream's ring.
pub const RING_SLOTS: usize = 10240;

/// For each channel, the consumer that plays it, until a listener takes it.
pub struct Streams {
    pub consumers: Vec<Option<Consumer<Bytes>>>,
}

impl Streams {
    /// No channel has a consumer yet.
    pub fn new(capacity: usize) -> (streams: Self)
        ensures
            streams.consumers@ == Seq::new(capacity as nat, |i: int| None::<Consumer<Bytes>>),
    {
        let mut consumers: Vec<Option<Consumer<Bytes>>> = Vec::new();
        while consumers.len() < capacity
            invariant
                consumers.len() <= capacity,
                forall|i: int| 0 <= i < consumers.len() ==> consumers@[i] == None::<Consumer<Bytes>>,
            decreases capacity - consumers.len(),
        {
            consumers.push(None);
        }
        assert(consumers@ =~= Seq::new(capacity as nat, |i: int| None::<Consumer<Bytes>>));
        Streams { consumers }
    }

    /// Makes a fresh ring for the channel at `index`, in place of the one it
    /// had, and returns its writing end. Where there is no such channel the
    /// consumer is dropped and nothing else changes.
    pub fn add(&mut self, index: usize) -> (producer: Producer<Bytes>)
        ensures
            ring::producer_slots(producer) == RING_SLOTS,
            ring::producer_slots(producer) == 10240,
            ring::written(producer) == Seq::<Seq<u8>>::empty(),
            ring::asked(producer) == Seq::<nat>::empty(),
            ring::found_free(producer) == Seq::<nat>::empty(),
            ring::producer_in_step(producer),
            index >= old(self).consumers@.len() ==> final(self).consumers@ == old(self).consumers@,
            index < old(self).consumers@.len() ==> {
                let added = final(self).consumers@[index as int];
                &&& final(self).consumers@ == old(self).consumers@.update(index as int, added)
                &&& added matches Some(consumer)
                &&& ring::same_ring(producer, consumer)
                &&& ring::consumer_slots(consumer) == RING_SLOTS
                &&& ring::taken(consumer) == Seq::<Seq<u8>>::empty()
                &&& ring::found(consumer) == Seq::<Option<Seq<u8>>>::empty()
                &&& ring::consumer_in_step(consumer)
            },
    {
        let (producer, consumer) = ring::new_ring(RING_SLOTS);
        if index < self.consumers.len() {
            self.consumers[index] = Some(consumer);
        }
        producer
    }

    /// Takes the consumer of the channel at `index`, where it has one.
    pub fn take_consumer(&mut self, index: usize) -> (consumer: Option<Consumer<Bytes>>)
        ensures
            index >= old(self).consumers@.len() ==> consumer is None && final(self).consumers@
                == old(self).consumers@,
            index < old(self).consumers@.len() ==> consumer == old(self).consumers@[index as int]
                && final(self).consumers@ == old(self).consumers@.update(index as int, None),
    {
        if index < self.consumers.len() {
            self.consumers[index].take()
        } else {
            None
        }
    }
}

/// The consumer put in place for a channel goes to the first listener that asks
/// for it, and to no other; the other channels keep theirs.
pub proof fn law_consumer_goes_out_once(
    consumers: Seq<Option<Consumer<Bytes>>>,
    index: int,
    consumer: Consumer<Bytes>,
)
    requires
        0 <= index < consumers.len(),
    ensures
        ({
            let added = consumers.update(index, Some(consumer));
            let left = added.update(index, None);
            &&& added[index] == Some(consumer)
            &&& left[index] is None
            &&& forall|i: int| 0 <= i < consumers.len() && i != index ==> left[i] == consumers[i]
        }),
{
}

/// `index` is the first free one of the channels.
pub open spec fn is_first_free(chans: Seq<bool>, index: int) -> bool {
    &&& 0 <= index < chans.len()
    &&& !chans[index]
    &&& forall|i: int| 0 <= i < index ==> #[trigger] chans[i]
}

/// Which of a fixed number of channels are taken.
pub struct Channels {
    pub chans: Vec<bool>,
}

impl Channels {
    /// All channels are free.
    pub fn new(capacity: usize) -> (channels: Self)
        ensures
            channels.chans@ == Seq::new(capacity as nat, |i: int| false),
    {
        let chans = vec![false;capacity];
        assert(chans@ =~= Seq::new(capacity as nat, |i: int| false));
        Channels { chans }
    }

    /// Takes the first free channel, where there is one.
    pub fn next(&mut self) -> (index: Option<usize>)
        ensures
            match index {
                Some(taken) => is_first_free(old(self).chans@, taken as int)
                    && final(self).chans@ == old(self).chans@.update(taken as int, true),
                None => (forall|i: int|
                    0 <= i < old(self).chans@.len() ==> #[trigger] old(self).chans@[i])
                    && final(self).chans@ == old(self).chans@,
            },
    {
        let mut index: usize = 0;
        while index < self.chans.len()
            invariant
                index <= self.chans@.len(),
                self.chans@ == old(self).chans@,
                forall|i: int| 0 <= i < index ==> #[trigger] self.chans@[i],
            decreases self.chans@.len() - index,
        {
            if !self.chans[index] {
                self.chans[index] = true;
                return Some(index);
            }
            index = index + 1;
        }
        None
    }

    /// Frees the channel at `idx`, whether it was taken or not.
    pub fn rm(&mut self, idx: usize) -> (done: Result<(), &'static str>)
        ensures
            match done {
                Ok(()) => idx < old(self).chans@.len() && final(self).chans@
                    == old(self).chans@.update(idx as int, false),
                Err(message) => idx >= old(self).chans@.len() && final(self).chans@
                    == old(self).chans@ && message@ == "Index out of bounds"@,
            },
    {
        if idx < self.chans.len() {
            self.chans[idx] = false;
            Ok(())
        } else {
            Err("Index out of bounds")
        }
    }
}

/// There is at most one first free channel.
pub proof fn law_first_free_is_settled(chans: Seq<bool>, one: int, other: int)
    requires
        is_first_free(chans, one),
        is_first_free(chans, other),
    ensures
        one == other,
{
}

/// Freeing the channel that was taken last leaves the channels as they were.
pub proof fn law_freeing_undoes_taking(chans: Seq<bool>, index: int)
    requires
        is_first_free(chans, index),
    ensures
        chans.update(index, true).update(index, false) == chans,
{
    assert(chans.update(index, true).update(index, false) =~= chans);
}

/// A channel that has been taken is not given out again before it is freed.
pub proof fn law_taken_channel_stays_taken(chans: Seq<bool>, index: int, later: int)
    requires
        is_first_free(chans, index),
        is_first_free(chans.update(index, true), later),
    ensures
        later > index,
        chans[later] == false,
{
    if later < index {
        assert(chans.update(index, true)[later] == chans[later]);
    }
}

/// Fresh channels are given out in order, one after the other, until none is
/// left.
pub proof fn law_channels_fill_in_order(capacity: nat, count: nat)
    requires
        count <= capacity,
    ensures
        ({
            let chans = Seq::new(capacity, |i: int| i < count);
            &&& count < capacity ==> is_first_free(chans, count as int)
            &&& count < capacity ==> chans.update(count as int, true) == Seq::new(
                capacity,
                |i: int| i < count + 1,
            )
            &&& count == capacity ==> forall|i: int| !is_first_free(chans, i)
        }),
{
    let chans = Seq::new(capacity, |i: int| i < count);
    if count < capacity {
        assert(chans.update(count as int, true) =~= Seq::new(capacity, |i: int| i < count + 1));
    }
}

/// The number of free channels.
pub open spec fn free_count(chans: Seq<bool>) -> nat
    decreases chans.len(),
{
    if chans.len() == 0 {
        0
    } else {
        free_count(chans.drop_last()) + if chans.last() {
            0nat
        } else {
            1nat
        }
    }
}

/// Taking a free channel leaves one free channel less.
proof fn lemma_taking_leaves_one_less(chans: Seq<bool>, index: int)
    requires
        0 <= index < chans.len(),
        !chans[index],
    ensures
        free_count(chans) > 0,
        free_count(chans.update(index, true)) == free_count(chans) - 1,
    decreases chans.len(),
{
    let after = chans.update(index, true);
    if index == chans.len() - 1 {
        assert(after.drop_last() =~= chans.drop_last());
    } else {
        assert(after.drop_last() =~= chans.drop_last().update(index, true));
        lemma_taking_leaves_one_less(chans.drop_last(), index);
    }
}

/// Where no channel is free, all are taken.
proof fn lemma_none_free(chans: Seq<bool>)
    ensures
        free_count(chans) == 0 <==> forall|i: int| 0 <= i < chans.len() ==> #[trigger] chans[i],
    decreases chans.len(),
{
    if chans.len() > 0 {
        let front = chans.drop_last();
        lemma_none_free(front);
        if free_count(chans) == 0 {
            assert forall|i: int| 0 <= i < chans.len() implies #[trigger] chans[i] by {
                if i < front.len() {
                    assert(front[i]);
                }
            }
        } else if forall|i: int| 0 <= i < chans.len() ==> #[trigger] chans[i] {
            assert forall|i: int| 0 <= i < front.len() implies #[trigger] front[i] by {
                assert(chans[i]);
            }
        }
    }
}

/// Whatever has been taken and freed, as many channels are given out as are
/// free: each one that is taken leaves one less, and none is given out just
/// where none is left.
pub proof fn law_channels_drain(chans: Seq<bool>)
    ensures
        forall|index: int| #[trigger]
            is_first_free(chans, index) ==> free_count(chans.update(index, true)) == free_count(
                chans,
            ) - 1,
        free_count(chans) == 0 <==> forall|index: int| !is_first_free(chans, index),
{
    assert forall|index: int| #[trigger] is_first_free(chans, index) implies free_count(
        chans.update(index, true),
    ) == free_count(chans) - 1 && free_count(chans) > 0 by {
        lemma_taking_leaves_one_less(chans, index);
    }
    lemma_none_free(chans);
    if forall|index: int| !is_first_free(chans, index) {
        assert forall|i: int| 0 <= i < chans.len() implies #[trigger] chans[i] by {
            lemma_free_up_to(chans, i);
        }
    }
}

/// Where none of the channels is the first free one, those up to `index` are
/// taken.
proof fn lemma_free_up_to(chans: Seq<bool>, index: int)
    requires
        0 <= index < chans.len(),
        forall|i: int| !is_first_free(chans, i),
    ensures
        forall|i: int| 0 <= i <= index ==> #[trigger] chans[i],
    decreases index,
{
    if index > 0 {
        lemma_free_up_to(chans, index - 1);
    }
    assert(!is_first_free(chans, index));
}

/// A channel that is freed while all channels in front of it are taken is the
/// next one to be given out.
pub proof fn law_freed_channel_is_reused(chans: Seq<bool>, index: int)
    requires
        0 <= index < chans.len(),
        forall|i: int| 0 <= i < index ==> #[trigger] chans[i],
    ensures
        is_first_free(chans.update(index, false), index),
{
}

/// The channel that is given out is free, and each one in front of it is taken.
pub proof fn law_given_channel_is_the_first_free(chans: Seq<bool>, index: int)
    ensures
        is_first_free(chans, index) <==> {
            &&& 0 <= index < chans.len()
            &&& !chans[index]
            &&& !chans.take(index).contains(false)
        },
{
    if 0 <= index < chans.len() {
        let front = chans.take(index);
        if is_first_free(chans, index) {
            assert forall|i: int| 0 <= i < front.len() implies front[i] by {
                assert(chans[i]);
            }
        }
        if !front.contains(false) {
            assert forall|i: int| 0 <= i < index implies #[trigger] chans[i] by {
                assert(front[i] == chans[i]);
                assert(front.contains(front[i]));
            }
        }
    }
}

} // verus!
