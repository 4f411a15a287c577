use daw_nexus::header::{EncodingFlag, Endianness, FrameHeader};

/// A header with an id: float samples of 32 bits, 48 kHz, two channels, 1024
/// samples each.
const WITH_ID: [u8; 12] = [
    0xaa, 0x92, 0x14, 0x00, 0x00, 0x00, 0x00, 0x00, 0x07, 0x5b, 0xcd, 0x15,
];

#[test]
fn header_is_read_field_by_field() {
    let h = FrameHeader::decode(&WITH_ID).unwrap();
    assert_eq!(
        h,
        FrameHeader {
            encoding: EncodingFlag::PCMFloat,
            sample_size: 1024,
            sample_rate: 48000,
            channels: 2,
            bits_per_sample: 32,
            endianness: Endianness::LittleEndian,
            id: Some(123456789),
            pts: None,
        }
    );
    assert_eq!(h.size(), 12);
}

#[test]
fn header_agrees_with_its_writer() {
    let written = frame_header::FrameHeader::new(
        frame_header::EncodingFlag::AAC,
        4095,
        44100,
        16,
        24,
        frame_header::Endianness::BigEndian,
        Some(0x0102_0304_0506_0708),
        Some(0x1112_1314_1516_1718),
    )
    .unwrap();
    let mut bytes: Vec<u8> = Vec::new();
    written.encode(&mut bytes).unwrap();
    assert_eq!(bytes.len(), 20);
    let h = FrameHeader::decode(&bytes).unwrap();
    assert_eq!(h.encoding, EncodingFlag::AAC);
    assert_eq!(h.sample_size, 4095);
    assert_eq!(h.sample_rate, 44100);
    assert_eq!(h.channels, 16);
    assert_eq!(h.bits_per_sample, 24);
    assert_eq!(h.endianness, Endianness::BigEndian);
    assert_eq!(h.id, Some(0x0102_0304_0506_0708));
    assert_eq!(h.pts, Some(0x1112_1314_1516_1718));
    assert_eq!(h.size(), 20);
}

#[test]
fn shortest_header_has_four_bytes() {
    let h = FrameHeader::decode(&[0xa8, 0x00, 0x00, 0x00]).unwrap();
    assert_eq!(
        h,
        FrameHeader {
            encoding: EncodingFlag::PCMSigned,
            sample_size: 0,
            sample_rate: 16000,
            channels: 1,
            bits_per_sample: 16,
            endianness: Endianness::LittleEndian,
            id: None,
            pts: None,
        }
    );
    assert_eq!(h.size(), 4);
}

#[test]
fn every_encoding_has_its_code() {
    let encodings = [
        EncodingFlag::PCMSigned,
        EncodingFlag::PCMFloat,
        EncodingFlag::Opus,
        EncodingFlag::FLAC,
        EncodingFlag::AAC,
        EncodingFlag::H264,
    ];
    for code in 0..6u8 {
        let h = FrameHeader::decode(&[0xab, code * 2, 0x00, 0x00]).unwrap();
        assert_eq!(h.encoding, encodings[code as usize]);
        assert_eq!(h.sample_rate, 96000);
    }
    for code in 6..8u8 {
        assert_eq!(FrameHeader::decode(&[0xab, code * 2, 0x00, 0x00]), None);
    }
}

#[test]
fn pts_stands_behind_the_id() {
    let mut bytes = vec![0xa9, 0x30, 0x00, 0x01];
    bytes.extend_from_slice(&7u64.to_be_bytes());
    bytes.extend_from_slice(&9u64.to_be_bytes());
    let h = FrameHeader::decode(&bytes).unwrap();
    assert_eq!((h.id, h.pts), (Some(7), Some(9)));

    bytes[1] = 0x20;
    let h = FrameHeader::decode(&bytes).unwrap();
    assert_eq!((h.id, h.pts, h.size()), (None, Some(7), 12));
}

#[test]
fn invalid_headers_are_refused() {
    assert_eq!(FrameHeader::decode(&[]), None);
    assert_eq!(FrameHeader::decode(&WITH_ID[..3]), None);
    assert_eq!(FrameHeader::decode(&WITH_ID[..11]), None);
    let mut magic = WITH_ID;
    magic[0] = 0x55;
    assert_eq!(FrameHeader::decode(&magic), None);
    let mut depth = WITH_ID;
    depth[1] |= 0xc0;
    assert_eq!(FrameHeader::decode(&depth), None);
}

#[test]
fn header_says_the_same_whatever_follows() {
    let mut bytes = WITH_ID.to_vec();
    bytes.extend_from_slice(&[0xff; 30]);
    assert_eq!(FrameHeader::decode(&bytes), FrameHeader::decode(&WITH_ID));
}
