use daw_nexus::framing::{EncodeRequest, FrameFault, FrameSplitter};

/// A frame of float samples, two channels, with an id.
fn frame(sample_size: u16, fill: u8) -> Vec<u8> {
    let header = frame_header::FrameHeader::new(
        frame_header::EncodingFlag::PCMFloat,
        sample_size,
        48000,
        2,
        32,
        frame_header::Endianness::LittleEndian,
        Some(123456789),
        None,
    )
    .unwrap();
    let mut bytes: Vec<u8> = Vec::new();
    header.encode(&mut bytes).unwrap();
    bytes.extend(vec![fill; sample_size as usize * 2 * 4]);
    bytes
}

fn parts(requests: &[EncodeRequest]) -> Vec<(Vec<u8>, u64)> {
    requests.iter().map(|r| (r.buffer.to_vec(), r.dts)).collect()
}

#[test]
fn whole_frame_comes_back() {
    let mut splitter = FrameSplitter::new();
    let sent = frame(1024, 5);
    assert_eq!(sent.len(), 12 + 8192);
    let batch = splitter.feed(&sent);
    assert_eq!(batch.fault, None);
    assert_eq!(parts(&batch.requests), vec![(sent, 0)]);
}

#[test]
fn clock_runs_on_by_whole_milliseconds() {
    let mut splitter = FrameSplitter::new();
    let mut stream = frame(1024, 1);
    stream.extend(frame(480, 2));
    stream.extend(frame(47, 3));
    stream.extend(frame(1, 4));
    let batch = splitter.feed(&stream);
    assert_eq!(batch.fault, None);
    let stamps: Vec<u64> = batch.requests.iter().map(|r| r.dts).collect();
    assert_eq!(stamps, vec![0, 21, 31, 31]);
    let batch = splitter.feed(&frame(4095, 6));
    assert_eq!(batch.requests[0].dts, 31);
    let batch = splitter.feed(&frame(48, 7));
    assert_eq!(batch.requests[0].dts, 31 + 85);
}

#[test]
fn it_does_not_matter_where_chunks_end() {
    let mut stream = frame(16, 1);
    stream.extend(frame(3, 2));
    stream.extend(frame(40, 3));
    let whole = FrameSplitter::new().feed(&stream);
    for middle in 0..=stream.len() {
        let mut splitter = FrameSplitter::new();
        let first = splitter.feed(&stream[..middle]);
        let second = splitter.feed(&stream[middle..]);
        assert_eq!(first.fault, None);
        assert_eq!(second.fault, None);
        let mut both = parts(&first.requests);
        both.extend(parts(&second.requests));
        assert_eq!(both, parts(&whole.requests));
    }
}

#[test]
fn bytes_one_by_one_make_the_same_frames() {
    let mut stream = frame(5, 1);
    stream.extend(frame(7, 2));
    let mut splitter = FrameSplitter::new();
    let mut got: Vec<u8> = Vec::new();
    let mut count = 0;
    for byte in &stream {
        for request in splitter.feed(&[*byte]).requests {
            got.extend_from_slice(&request.buffer);
            count += 1;
        }
    }
    assert_eq!(count, 2);
    assert_eq!(got, stream);
}

#[test]
fn empty_chunk_yields_nothing() {
    let mut splitter = FrameSplitter::new();
    let batch = splitter.feed(&[]);
    assert!(batch.requests.is_empty());
    assert_eq!(batch.fault, None);
}

#[test]
fn fewer_than_twelve_bytes_are_not_looked_at() {
    let mut splitter = FrameSplitter::new();
    let batch = splitter.feed(&[0u8; 11]);
    assert!(batch.requests.is_empty());
    assert_eq!(batch.fault, None);
    let batch = splitter.feed(&[0u8; 1]);
    assert_eq!(batch.fault, Some(FrameFault::BadHeader));
}

#[test]
fn frames_in_front_of_a_fault_are_cut() {
    let mut splitter = FrameSplitter::new();
    let mut stream = frame(2, 9);
    stream.extend([0u8; 12]);
    let batch = splitter.feed(&stream);
    assert_eq!(parts(&batch.requests), vec![(frame(2, 9), 0)]);
    assert_eq!(batch.fault, Some(FrameFault::BadHeader));
}

#[test]
fn too_many_samples_are_refused() {
    let announce = |sample_size: u16, channels: u8| {
        let header = frame_header::FrameHeader::new(
            frame_header::EncodingFlag::PCMFloat,
            sample_size,
            48000,
            channels,
            32,
            frame_header::Endianness::LittleEndian,
            Some(1),
            None,
        )
        .unwrap();
        let mut bytes: Vec<u8> = Vec::new();
        header.encode(&mut bytes).unwrap();
        FrameSplitter::new().feed(&bytes).fault
    };
    assert_eq!(announce(4095, 4), None);
    assert_eq!(announce(1024, 15), None);
    assert_eq!(announce(1024, 16), Some(FrameFault::Oversized));
    assert_eq!(announce(4095, 5), Some(FrameFault::Oversized));
}

#[test]
fn long_header_must_be_whole_when_it_is_looked_at() {
    let header = frame_header::FrameHeader::new(
        frame_header::EncodingFlag::PCMFloat,
        1,
        48000,
        1,
        32,
        frame_header::Endianness::LittleEndian,
        Some(1),
        Some(2),
    )
    .unwrap();
    let mut bytes: Vec<u8> = Vec::new();
    header.encode(&mut bytes).unwrap();
    bytes.extend([0u8; 4]);
    assert_eq!(bytes.len(), 24);
    assert_eq!(
        FrameSplitter::new().feed(&bytes[..12]).fault,
        Some(FrameFault::BadHeader)
    );
    let batch = FrameSplitter::new().feed(&bytes);
    assert_eq!(batch.fault, None);
    assert_eq!(parts(&batch.requests), vec![(bytes, 0)]);
}

#[test]
fn short_frames_wait_for_twelve_bytes() {
    let mut splitter = FrameSplitter::new();
    let empty = [0xa8u8, 0x00, 0x00, 0x00];
    assert!(splitter.feed(&empty).requests.is_empty());
    assert!(splitter.feed(&empty).requests.is_empty());
    let batch = splitter.feed(&empty);
    assert_eq!(parts(&batch.requests), vec![(empty.to_vec(), 0)]);
    assert_eq!(batch.fault, None);
}

#[test]
fn found_fault_stays() {
    let mut stream = frame(2, 9);
    stream.extend([0u8; 12]);
    let alone = FrameSplitter::new().feed(&stream);
    stream.extend(frame(3, 1));
    let followed = FrameSplitter::new().feed(&stream);
    assert_eq!(alone.fault, Some(FrameFault::BadHeader));
    assert_eq!(followed.fault, alone.fault);
    assert_eq!(parts(&followed.requests), parts(&alone.requests));
}

#[test]
fn header_cut_short_is_read_when_the_rest_arrives() {
    let header = frame_header::FrameHeader::new(
        frame_header::EncodingFlag::PCMFloat,
        1,
        48000,
        1,
        32,
        frame_header::Endianness::LittleEndian,
        Some(1),
        Some(2),
    )
    .unwrap();
    let mut bytes: Vec<u8> = Vec::new();
    header.encode(&mut bytes).unwrap();
    bytes.extend([0u8; 4]);
    let mut splitter = FrameSplitter::new();
    let first = splitter.feed(&bytes[..15]);
    assert_eq!(first.fault, Some(FrameFault::BadHeader));
    let second = splitter.feed(&bytes[15..]);
    assert_eq!(second.fault, None);
    assert_eq!(parts(&second.requests), vec![(bytes, 0)]);
}
