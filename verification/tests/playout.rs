use daw_nexus::allocator::Streams;
use daw_nexus::playout::{route, RouteFault, Router};
use gen_id::{ConfigPreset, IdGenerator, DEFAULT_EPOCH};

/// A packet of FLAC with the given id and `len` bytes behind its header.
fn packet(id: Option<u64>, len: usize) -> Vec<u8> {
    let header = frame_header::FrameHeader::new(
        frame_header::EncodingFlag::FLAC,
        256,
        48000,
        2,
        24,
        frame_header::Endianness::LittleEndian,
        id,
        None,
    )
    .unwrap();
    let mut bytes: Vec<u8> = Vec::new();
    header.encode(&mut bytes).unwrap();
    bytes.extend(vec![0u8; len]);
    bytes
}

fn id_of(node: u64) -> u64 {
    (5 << 27) | (node << 13) | (7 << 3) | 3
}

#[test]
fn packet_goes_to_the_node_in_its_id() {
    for node in 0..16 {
        let bytes = packet(Some(id_of(node)), 30);
        assert_eq!(route(&bytes, 16), Ok(node as usize));
    }
    assert_eq!(route(&packet(Some(123456789), 30), 16384), Ok(15070));
    assert_eq!(route(&packet(Some(u64::MAX), 30), 16384), Ok(16383));
}

#[test]
fn generated_ids_name_their_node() {
    let generator = IdGenerator::new(ConfigPreset::ShortEpochMaxNodes, DEFAULT_EPOCH);
    for node in [0u16, 1, 15, 16383] {
        let bytes = packet(Some(generator.next_id(node)), 30);
        assert_eq!(route(&bytes, 16384), Ok(node as usize));
    }
}

#[test]
fn packets_that_cannot_be_routed_are_refused() {
    let good = packet(Some(id_of(1)), 8);
    assert_eq!(good.len(), 20);
    assert_eq!(route(&good, 16), Ok(1));
    assert_eq!(route(&good[..19], 16), Err(RouteFault::Short));
    assert_eq!(route(&[], 16), Err(RouteFault::Short));
    assert_eq!(route(&[0u8; 20], 16), Err(RouteFault::BadHeader));
    assert_eq!(route(&packet(None, 30), 16), Err(RouteFault::NoId));
    let far = packet(Some(id_of(16)), 30);
    assert_eq!(route(&far, 16), Err(RouteFault::UnknownNode));
    assert_eq!(route(&far, 17), Ok(16));
}

#[test]
fn first_packet_of_a_node_makes_its_ring() {
    let mut streams = Streams::new(16);
    let mut router = Router::new(16);
    assert_eq!(router.producers.len(), 16);
    assert!(router.producers.iter().all(|p| p.is_none()));
    let bytes = packet(Some(id_of(3)), 30);

    assert_eq!(router.accept(&bytes, &mut streams), Ok(3));
    assert!(router.producers[3].is_some());
    let mut consumer = streams.take_consumer(3).unwrap();

    assert_eq!(router.accept(&bytes, &mut streams), Ok(3));
    assert!(streams.consumers[3].is_none());

    assert_eq!(router.deliver(3, b"one"), Ok(()));
    assert_eq!(router.deliver(3, b""), Ok(()));
    assert_eq!(router.deliver(3, b"two"), Ok(()));
    assert_eq!(&consumer.pop().unwrap()[..], b"one");
    assert_eq!(&consumer.pop().unwrap()[..], b"two");
    assert!(consumer.pop().is_err());
}

#[test]
fn refused_packet_changes_nothing() {
    let mut streams = Streams::new(16);
    let mut router = Router::new(16);
    let far = packet(Some(id_of(16)), 30);
    assert_eq!(
        router.accept(&far, &mut streams),
        Err(RouteFault::UnknownNode)
    );
    assert!(router.producers.iter().all(|p| p.is_none()));
    assert!(streams.consumers.iter().all(|c| c.is_none()));
}

#[test]
fn ring_without_listener_slot_is_still_fed() {
    let mut streams = Streams::new(2);
    let mut router = Router::new(16);
    let bytes = packet(Some(id_of(5)), 30);
    assert_eq!(router.accept(&bytes, &mut streams), Ok(5));
    assert!(router.producers[5].is_some());
    assert_eq!(router.deliver(5, b"x"), Ok(()));
}

#[test]
fn delivery_without_ring_is_dropped() {
    let mut router = Router::new(1);
    assert_eq!(router.deliver(0, b"x"), Ok(()));
}

#[test]
fn block_needs_as_many_free_slots_as_it_has_bytes() {
    let mut streams = Streams::new(1);
    let mut router = Router::new(1);
    let bytes = packet(Some(id_of(0)), 30);
    assert_eq!(router.accept(&bytes, &mut streams), Ok(0));
    let mut consumer = streams.take_consumer(0).unwrap();
    assert_eq!(router.deliver(0, &[1u8; 10241]), Err(10240));
    assert_eq!(router.deliver(0, &[1u8; 10240]), Ok(()));
    assert_eq!(router.deliver(0, &[2u8; 10240]), Err(10239));
    assert_eq!(router.deliver(0, &[3u8; 10239]), Ok(()));
    assert_eq!(consumer.slots(), 2);
    assert_eq!(consumer.pop().unwrap().len(), 10240);
    assert_eq!(router.deliver(0, &[4u8; 10239]), Ok(()));
    assert_eq!(consumer.pop().unwrap()[0], 3);
    assert_eq!(consumer.pop().unwrap()[0], 4);
}
