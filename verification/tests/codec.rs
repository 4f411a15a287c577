use bytes::{Bytes, BytesMut};
use daw_nexus::codec::{
    decode_packet, encode_request, new_decoder, new_encoder, respond, EncodeResponse,
};
use daw_nexus::framing::EncodeRequest;
use daw_nexus::header::{EncodingFlag, Endianness, FrameHeader};

fn header(
    encoding: frame_header::EncodingFlag,
    sample_size: u16,
    bits: u8,
    pts: Option<u64>,
) -> Vec<u8> {
    let header = frame_header::FrameHeader::new(
        encoding,
        sample_size,
        48000,
        2,
        bits,
        frame_header::Endianness::LittleEndian,
        Some(123456789),
        pts,
    )
    .unwrap();
    let mut bytes: Vec<u8> = Vec::new();
    header.encode(&mut bytes).unwrap();
    bytes
}

fn samples(count: usize) -> Vec<i16> {
    (0..count * 2)
        .map(|i| ((i as i32 * 37) % 2001 - 1000) as i16)
        .collect()
}

/// A frame of 16 bit samples, two channels, with an id and a time stamp.
fn frame(samples: &[i16]) -> Vec<u8> {
    let size = (samples.len() / 2) as u16;
    let mut bytes = header(frame_header::EncodingFlag::PCMSigned, size, 16, Some(77));
    for sample in samples {
        bytes.extend_from_slice(&sample.to_le_bytes());
    }
    bytes
}

fn request(bytes: &[u8], dts: u64) -> EncodeRequest {
    EncodeRequest {
        buffer: Bytes::copy_from_slice(bytes),
        dts,
    }
}

#[test]
fn encoded_frame_keeps_what_its_header_said() {
    let mut encoder = new_encoder(24, 512);
    let bytes = frame(&samples(256));
    let made = encode_request(&mut encoder, &request(&bytes, 40)).unwrap();
    assert_eq!(made.dts, 40);
    assert_eq!(made.encoding, EncodingFlag::FLAC);
    let h = FrameHeader::decode(&made.result).unwrap();
    assert_eq!(
        h,
        FrameHeader {
            encoding: EncodingFlag::FLAC,
            sample_size: 256,
            sample_rate: 48000,
            channels: 2,
            bits_per_sample: 16,
            endianness: Endianness::LittleEndian,
            id: Some(123456789),
            pts: None,
        }
    );
    assert_eq!(h.size(), 12);
    assert!(made.result.len() > 12);
    assert!(made.result.len() < bytes.len());
}

#[test]
fn sound_gets_through() {
    let mut encoder = new_encoder(24, 1024);
    let mut decoder = new_decoder(24);
    for count in [32, 256, 1000, 1024] {
        let input = samples(count);
        let made = encode_request(&mut encoder, &request(&frame(&input), 0)).unwrap();
        let output = decode_packet(&mut decoder, &made.result).unwrap();
        let expected: Vec<i32> = input.iter().map(|s| *s as i32).collect();
        assert_eq!(output, expected);
    }
}

#[test]
fn packets_are_decoded_in_any_order() {
    let mut encoder = new_encoder(16, 64);
    let loud = frame(&[30000; 128]);
    let quiet = frame(&[-3; 128]);
    let first = encode_request(&mut encoder, &request(&loud, 0)).unwrap();
    let second = encode_request(&mut encoder, &request(&quiet, 1)).unwrap();
    let mut decoder = new_decoder(16);
    assert_eq!(
        decode_packet(&mut decoder, &second.result).unwrap(),
        vec![-3; 128]
    );
    assert_eq!(
        decode_packet(&mut decoder, &first.result).unwrap(),
        vec![30000; 128]
    );
}

#[test]
fn wide_samples_are_clipped() {
    let mut bytes = header(frame_header::EncodingFlag::PCMSigned, 32, 32, None);
    let input: Vec<i32> = (0..64)
        .map(|i| match i % 4 {
            0 => i32::MAX,
            1 => i32::MIN,
            2 => 8388607,
            _ => -12345,
        })
        .collect();
    for sample in &input {
        bytes.extend_from_slice(&sample.to_le_bytes());
    }
    let mut encoder = new_encoder(24, 32);
    let made = encode_request(&mut encoder, &request(&bytes, 0)).unwrap();
    let output = decode_packet(&mut new_decoder(24), &made.result).unwrap();
    let expected: Vec<i32> = input
        .iter()
        .map(|s| (*s).clamp(-8388608, 8388607))
        .collect();
    assert_eq!(output, expected);
}

#[test]
fn floats_are_scaled_and_clipped() {
    let mut bytes = header(frame_header::EncodingFlag::PCMFloat, 32, 32, None);
    for i in 0..64 {
        let sample: f32 = match i % 4 {
            0 => 0.5,
            1 => -1.0,
            2 => 0.0009765625,
            _ => -0.00048828125,
        };
        bytes.extend_from_slice(&sample.to_le_bytes());
    }
    let mut encoder = new_encoder(24, 32);
    let made = encode_request(&mut encoder, &request(&bytes, 0)).unwrap();
    let output = decode_packet(&mut new_decoder(24), &made.result).unwrap();
    assert_eq!(output[..4], [8388607, -8388608, 2097152, -1048576]);
    assert_eq!(output.len(), 64);
}

#[test]
fn samples_of_24_bits_are_kept() {
    let mut bytes = header(frame_header::EncodingFlag::PCMSigned, 32, 24, None);
    let input: Vec<i32> = (0..64).map(|i| (i - 32) * 250_000).collect();
    for sample in &input {
        bytes.extend_from_slice(&sample.to_le_bytes()[..3]);
    }
    let mut encoder = new_encoder(24, 32);
    let made = encode_request(&mut encoder, &request(&bytes, 0)).unwrap();
    let output = decode_packet(&mut new_decoder(24), &made.result).unwrap();
    assert_eq!(output, input);
}

#[test]
fn blocks_that_do_not_fit_are_refused() {
    let mut encoder = new_encoder(24, 512);
    assert!(encode_request(&mut encoder, &request(&frame(&samples(31)), 0)).is_err());
    assert!(encode_request(&mut encoder, &request(&frame(&samples(513)), 0)).is_err());
    assert!(encode_request(&mut encoder, &request(&frame(&samples(512)), 0)).is_ok());
    let odd = [frame(&samples(100)), vec![0u8; 2]].concat();
    assert!(encode_request(&mut encoder, &request(&odd, 0)).is_err());
}

#[test]
fn encoding_is_settled_by_what_came_before() {
    let run = || {
        let mut encoder = new_encoder(24, 256);
        let mut made: Vec<BytesMut> = Vec::new();
        for i in 0..3 {
            let bytes = frame(&samples(100 + i));
            made.push(encode_request(&mut encoder, &request(&bytes, 0)).unwrap().result);
        }
        made
    };
    assert_eq!(run(), run());
}

#[test]
fn packet_that_is_no_flac_is_refused() {
    let mut decoder = new_decoder(24);
    let bytes = frame(&samples(64));
    assert!(decode_packet(&mut decoder, &bytes).is_err());
    assert!(decode_packet(&mut decoder, &bytes[..20]).is_err());
}

#[test]
fn frame_longer_than_a_block_is_refused() {
    let mut encoder = new_encoder(24, 2000);
    let made = encode_request(&mut encoder, &request(&frame(&samples(1025)), 0)).unwrap();
    assert!(decode_packet(&mut new_decoder(24), &made.result).is_err());
}

#[test]
fn response_passes_on_what_the_encoder_made() {
    let made: Result<EncodeResponse, String> = respond(Ok(BytesMut::from(&b"flac"[..])), 9);
    let response = made.unwrap_or_else(|e| panic!("{}", e));
    assert_eq!(&response.result[..], b"flac");
    assert_eq!(response.encoding, EncodingFlag::FLAC);
    assert_eq!(response.dts, 9);
    let failed = respond(Err("no".to_string()), 9);
    assert_eq!(failed.err(), Some("no".to_string()));
}
