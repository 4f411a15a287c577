use bytes::Bytes;
use daw_nexus::allocator::{Channels, Streams, RING_SLOTS};

#[test]
fn test_channels_next() {
    let mut channels = Channels::new(5);

    assert_eq!(channels.next(), Some(0));
    assert_eq!(channels.next(), Some(1));
    assert_eq!(channels.next(), Some(2));

    assert_eq!(channels.next(), Some(3));
    assert_eq!(channels.next(), Some(4));

    assert_eq!(channels.next(), None);
}

#[test]
fn test_channels_rm() {
    let mut channels = Channels::new(5);

    assert_eq!(channels.next(), Some(0));
    assert_eq!(channels.next(), Some(1));

    assert_eq!(channels.rm(1), Ok(()));
    assert_eq!(channels.rm(4), Ok(()));

    assert_eq!(channels.rm(5), Err("Index out of bounds"));

    assert_eq!(channels.chans[1], false);
    assert_eq!(channels.chans[0], true);
}

#[test]
fn no_channels_means_none_to_give() {
    let mut channels = Channels::new(0);
    assert_eq!(channels.next(), None);
    assert_eq!(channels.rm(0), Err("Index out of bounds"));
    assert!(channels.chans.is_empty());
}

#[test]
fn freeing_undoes_taking() {
    let mut channels = Channels::new(3);
    channels.next();
    let before = channels.chans.clone();
    let taken = channels.next().unwrap();
    assert_eq!(taken, 1);
    assert_eq!(channels.chans, vec![true, true, false]);
    assert_eq!(channels.rm(taken), Ok(()));
    assert_eq!(channels.chans, before);
}

#[test]
fn freed_channel_is_given_out_next() {
    let mut channels = Channels::new(4);
    for _ in 0..4 {
        channels.next();
    }
    assert_eq!(channels.rm(2), Ok(()));
    assert_eq!(channels.next(), Some(2));
    assert_eq!(channels.next(), None);
}

#[test]
fn first_of_several_free_channels_is_given_out() {
    let mut channels = Channels::new(4);
    for _ in 0..4 {
        channels.next();
    }
    assert_eq!(channels.rm(3), Ok(()));
    assert_eq!(channels.rm(1), Ok(()));
    assert_eq!(channels.next(), Some(1));
    assert_eq!(channels.next(), Some(3));
}

#[test]
fn streams_start_without_consumers() {
    let mut streams = Streams::new(3);
    assert_eq!(streams.consumers.len(), 3);
    for index in 0..4 {
        assert!(streams.take_consumer(index).is_none());
    }
}

#[test]
fn added_stream_is_taken_once() {
    let mut streams = Streams::new(3);
    let mut producer = streams.add(1);
    assert!(streams.take_consumer(0).is_none());
    assert!(streams.take_consumer(2).is_none());

    let mut consumer = streams.take_consumer(1).unwrap();
    assert!(streams.take_consumer(1).is_none());

    assert_eq!(producer.slots(), RING_SLOTS);
    assert!(producer.push(Bytes::from_static(b"one")).is_ok());
    assert!(producer.push(Bytes::from_static(b"two")).is_ok());
    assert_eq!(consumer.pop().unwrap(), Bytes::from_static(b"one"));
    assert_eq!(consumer.pop().unwrap(), Bytes::from_static(b"two"));
    assert!(consumer.pop().is_err());
}

#[test]
fn ring_holds_ten_times_1024_blocks() {
    let mut streams = Streams::new(1);
    let mut producer = streams.add(0);
    for _ in 0..10240 {
        assert!(producer.push(Bytes::new()).is_ok());
    }
    assert!(producer.push(Bytes::new()).is_err());
}

#[test]
fn stream_out_of_range_is_not_kept() {
    let mut streams = Streams::new(2);
    let producer = streams.add(2);
    assert!(producer.is_abandoned());
    assert_eq!(streams.consumers.len(), 2);
    assert!(streams.take_consumer(0).is_none());
    assert!(streams.take_consumer(1).is_none());
    assert!(streams.take_consumer(2).is_none());
}

#[test]
fn adding_again_replaces_the_ring() {
    let mut streams = Streams::new(1);
    let first = streams.add(0);
    let mut second = streams.add(0);
    assert!(first.is_abandoned());
    assert!(second.push(Bytes::from_static(b"new")).is_ok());
    let mut consumer = streams.take_consumer(0).unwrap();
    assert_eq!(consumer.pop().unwrap(), Bytes::from_static(b"new"));
}

#[test]
fn as_many_channels_are_given_out_as_are_free() {
    let mut channels = Channels::new(6);
    channels.chans = vec![true, false, true, false, false, true];
    assert_eq!(channels.next(), Some(1));
    assert_eq!(channels.next(), Some(3));
    assert_eq!(channels.next(), Some(4));
    assert_eq!(channels.next(), None);
    assert_eq!(channels.chans, vec![true; 6]);
}
