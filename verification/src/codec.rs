//! FLAC encoding of the frames that senders deliver, and decoding of the packets
//! that come back from the network.
//!
//! A packet is a header and one raw FLAC frame. What the frame leaves open, the
//! two ends have agreed on: sample rate, sample depth, channels and the length
//! of the longest block.
use bytes::BytesMut;
use soundkit::audio_packet::Encoder;
use soundkit_flac::{FlacEncoder, FlacFrameConfig, FlacFrameDecoder, FlacProfile};
use vstd::prelude::*;

#[allow(unused_imports)]
use crate::buffers;
use crate::framing::EncodeRequest;
#[allow(unused_imports)]
use crate::header;
#[allow(unused_imports)]
use crate::header::Endianness;
use crate::header::{EncodingFlag, FrameHeader};

verus! {

/// The sample rate of the encoded streams.
pub const SAMPLE_RATE: u32 = 48000;

/// The number of channels of the encoded streams.
pub const CHANNELS: u32 = 2;

/// The compression level of the encoded streams.
pub const LEVEL: u32 = 1;

/// The most samples that one block is decoded to.
pub const BLOCK_SAMPLES: usize = 2048;

/// The FLAC packet encoder.
#[verifier::external_type_specification]
#[verifier::external_body]
pub struct ExFlacEncoder(FlacEncoder);

/// The FLAC frame decoder.
#[verifier::external_type_specification]
#[verifier::external_body]
pub struct ExFlacFrameDecoder(FlacFrameDecoder);

/// What an encoder was made with: sample rate, bits per sample, channels,
/// samples per channel in the longest block, compression level.
pub uninterp spec fn encoder_setup(encoder: FlacEncoder) -> (u32, u32, u32, u32, u32);

/// The packets handed to an encoder so far, oldest first.
pub uninterp spec fn encoder_inputs(encoder: FlacEncoder) -> Seq<Seq<u8>>;

/// The packet that an encoder with the given setup makes of `packet` after it
/// has been handed `earlier`, where it can encode it.
pub uninterp spec fn flac_packet(
    setup: (u32, u32, u32, u32, u32),
    earlier: Seq<Seq<u8>>,
    packet: Seq<u8>,
) -> Option<Seq<u8>>;

/// What a decoder was made with: sample rate, bits per sample, channels, samples
/// per channel in the longest block. This and [`flac_samples`] speak of decoders
/// that do not check the checksums of frames, as they do not unless they are
/// told to.
pub uninterp spec fn decoder_setup(decoder: FlacFrameDecoder) -> (u32, u32, u32, u32);

/// The samples of a FLAC frame, over all channels, where a decoder with the
/// given setup can decode it.
pub uninterp spec fn flac_samples(setup: (u32, u32, u32, u32), frame: Seq<u8>) -> Option<Seq<i32>>;

/// The integer to which `soundkit::audio_bytes::f32le_to_i32` brings a
/// floating-point sample with the given bits.
pub uninterp spec fn scaled_float(bits: u32) -> i32;

/// The header of the FLAC packet that is made of a packet with header `h`.
pub open spec fn flac_header(h: FrameHeader) -> FrameHeader {
    FrameHeader {
        encoding: EncodingFlag::FLAC,
        endianness: Endianness::LittleEndian,
        pts: None,
        ..h
    }
}

/// The number of samples, over all channels, behind the header of a packet.
pub open spec fn packet_samples(packet: Seq<u8>) -> int
    recommends
        header::header_at(packet) is Some,
{
    let h = header::header_at(packet)->0;
    (packet.len() - h.spec_size()) / (h.bits_per_sample as int / 8)
}

/// The number that the bytes spell in two's complement, least significant byte
/// first.
pub open spec fn signed_le(bytes: Seq<u8>) -> int {
    let unsigned = header::big_endian(bytes.reverse()) as int;
    if bytes.last() < 0x80 {
        unsigned
    } else if bytes.len() == 2 {
        unsigned - 0x1_0000
    } else if bytes.len() == 3 {
        unsigned - 0x100_0000
    } else {
        unsigned - 0x1_0000_0000
    }
}

/// The sample at the place `i` behind the header of a packet. The samples of 32
/// bits that are not signed integers are floating-point numbers, which `float`
/// brings to integers.
pub open spec fn sample_at(packet: Seq<u8>, i: int, float: spec_fn(u32) -> i32) -> int {
    let h = header::header_at(packet)->0;
    let width = h.bits_per_sample as int / 8;
    let start = h.spec_size() + i * width;
    let bytes = packet.subrange(start, start + width);
    if h.bits_per_sample == 32 && h.encoding != EncodingFlag::PCMSigned {
        float(header::big_endian(bytes.reverse()) as u32) as int
    } else {
        signed_le(bytes)
    }
}

/// The value that comes closest to `value` among those of the given depth.
pub open spec fn clipped(bits_per_sample: u32, value: int) -> i32 {
    let limit: int = if bits_per_sample == 16 {
        0x8000
    } else {
        0x80_0000
    };
    if value < -limit {
        -limit as i32
    } else if value >= limit {
        (limit - 1) as i32
    } else {
        value as i32
    }
}

/// The samples behind the header of a packet, clipped to the given depth.
pub open spec fn sound_of(
    bits_per_sample: u32,
    packet: Seq<u8>,
    float: spec_fn(u32) -> i32,
) -> Seq<i32> {
    Seq::new(
        packet_samples(packet) as nat,
        |i: int| clipped(bits_per_sample, sample_at(packet, i, float)),
    )
}

/// What stands behind the header of a packet.
pub open spec fn payload_of(packet: Seq<u8>) -> Seq<u8> {
    packet.skip(header::header_at(packet)->0.spec_size() as int)
}

/// The setup of the decoders that decode what an encoder with the given setup
/// makes, with a longest block of `block` samples per channel.
pub open spec fn matching(setup: (u32, u32, u32, u32, u32), block: u32) -> (u32, u32, u32, u32) {
    (setup.0, setup.1, setup.2, block)
}

/// Whether the decoders that match an encoder with the given setup decode
/// `encoded` to the samples of `packet`, clipped to the depth of the encoder.
pub open spec fn carries(
    setup: (u32, u32, u32, u32, u32),
    packet: Seq<u8>,
    encoded: Seq<u8>,
) -> bool {
    forall|block: u32|
        packet_samples(packet) / (setup.2 as int) <= block <= 65535 ==> #[trigger] flac_samples(
            matching(setup, block),
            payload_of(encoded),
        ) == Some(sound_of(setup.1, packet, |bits: u32| scaled_float(bits)))
}

/// Whether the samples of a packet make a block that an encoder with the given
/// setup takes.
pub open spec fn fits_block(setup: (u32, u32, u32, u32, u32), packet: Seq<u8>) -> bool {
    &&& packet_samples(packet) % (setup.2 as int) == 0
    &&& 32 <= packet_samples(packet) / (setup.2 as int) <= setup.3
}

/// `soundkit::audio_packet::Encoder::new` and `init` of
/// `soundkit_flac::FlacEncoder` make an encoder that has not been handed
/// anything. A setup outside the ranges panics.
#[verifier::external_body]
fn new_flac_encoder(rate: u32, bits: u32, channels: u32, block: u32, level: u32) -> (encoder:
    Result<FlacEncoder, String>)
    requires
        1 <= rate <= 655350,
        bits == 16 || bits == 24,
        1 <= channels <= 8,
        32 <= block <= 32767,
    ensures
        encoder is Ok,
        encoder_setup(encoder->Ok_0) == (rate, bits, channels, block, level),
        encoder_inputs(encoder->Ok_0) == Seq::<Seq<u8>>::empty(),
{
    let mut encoder = FlacEncoder::new(rate, bits, channels, block, level);
    encoder.init()?;
    Ok(encoder)
}

/// `soundkit::audio_packet::encode_audio_packet`, asked for FLAC, encodes the
/// samples behind the header of the packet and puts a header of its own in
/// front; it panics where the packet has no header. At the levels from 1 to 8
/// the encoder works in integers alone, and samples that are floating-point
/// numbers are brought to integers by one multiplication each, rounded as IEEE
/// 754 says, so that what it returns is settled by its setup, by the packets it
/// was handed before and by this one. It takes only whole blocks of at least 32
/// samples per channel and at most as many as it was set up for. FLAC loses
/// nothing: a decoder for the same format gives back the samples, clipped to
/// the depth of the encoder. What else makes the encoder fail, and the encoded
/// bytes, are left to [`flac_packet`].
#[verifier::external_body]
fn encode_flac(encoder: &mut FlacEncoder, packet: &[u8]) -> (encoded: Result<BytesMut, String>)
    requires
        header::header_at(packet@) is Some,
        packet@.len() <= isize::MAX / 4,
        1 <= encoder_setup(*old(encoder)).4 <= 8,
    ensures
        encoder_setup(*final(encoder)) == encoder_setup(*old(encoder)),
        encoder_inputs(*final(encoder)) == encoder_inputs(*old(encoder)).push(packet@),
        (match encoded {
            Ok(made) => Some(buffers::bytes_mut_of(made)),
            Err(_) => None,
        }) == flac_packet(
            encoder_setup(*old(encoder)),
            encoder_inputs(*old(encoder)),
            packet@,
        ),
        encoded matches Ok(made) ==> {
            let h = flac_header(header::header_at(packet@)->0);
            &&& header::header_at(buffers::bytes_mut_of(made)) == Some(h)
            &&& buffers::bytes_mut_of(made).len() > h.spec_size()
            &&& fits_block(encoder_setup(*old(encoder)), packet@)
        },
        encoded matches Ok(made) ==> forall|block: u32|
            packet_samples(packet@) / (encoder_setup(*old(encoder)).2 as int) <= block <= 65535
                ==> #[trigger] flac_samples(
                matching(encoder_setup(*old(encoder)), block),
                payload_of(buffers::bytes_mut_of(made)),
            ) == Some(
                sound_of(
                    encoder_setup(*old(encoder)).1,
                    packet@,
                    |bits: u32| scaled_float(bits),
                ),
            ),
{
    let format = frame_header::EncodingFlag::FLAC;
    soundkit::audio_packet::encode_audio_packet(format, encoder, packet)
}

/// `soundkit_flac::FlacFrameDecoder::new` makes a decoder for frames of the
/// given format, which does not check the checksums of frames. It does not fail
/// on a format within the ranges. A decoder does not use the profile, which says how much effort an encoder makes.
#[verifier::external_body]
fn new_frame_decoder(rate: u32, bits: u8, channels: u16, block: u32) -> (decoder: Option<
    FlacFrameDecoder,
>)
    requires
        1 <= rate <= 655350,
        bits == 16 || bits == 24,
        1 <= channels <= 8,
        32 <= block <= 65535,
    ensures
        decoder is Some,
        decoder_setup(decoder->0) == (rate, bits as u32, channels as u32, block),
{
    let config = FlacFrameConfig::new(rate, channels, bits, block, FlacProfile::Balanced).ok()?;
    FlacFrameDecoder::new(config).ok()
}

/// `soundkit_flac::FlacFrameDecoder::decode_i32_block_into` decodes one raw FLAC
/// frame, independently of those before it, and gives its samples, where there
/// is room for them. A frame has whole blocks of at least 32 samples per channel
/// and at most as many as the decoder was set up for; what else makes it fail,
/// and the decoded samples, are left to [`flac_samples`].
#[verifier::external_body]
fn decode_frame(decoder: &mut FlacFrameDecoder, frame: &[u8], room: usize) -> (samples: Result<
    Vec<i32>,
    String,
>)
    requires
        room <= isize::MAX / 4,
    ensures
        decoder_setup(*final(decoder)) == decoder_setup(*old(decoder)),
        (match samples {
            Ok(decoded) => Some(decoded@),
            Err(_) => None,
        }) == match flac_samples(decoder_setup(*old(decoder)), frame@) {
            Some(decoded) => if decoded.len() <= room {
                Some(decoded)
            } else {
                None
            },
            None => None,
        },
        samples matches Ok(decoded) ==> {
            let setup = decoder_setup(*old(decoder));
            &&& decoded@.len() % (setup.2 as nat) == 0
            &&& 32 <= decoded@.len() / (setup.2 as nat) <= setup.3
        },
{
    let mut samples = vec![0i32; room];
    let decoded = decoder.decode_i32_block_into(frame, &mut samples);
    let count = decoded.map_err(|error| error.to_string())?;
    samples.truncate(count);
    Ok(samples)
}

/// An encoded frame on its way to the network.
pub struct EncodeResponse {
    pub result: BytesMut,
    pub encoding: EncodingFlag,
    pub dts: u64,
}

/// An encoder for frames of at most `frame_length` samples per channel.
pub fn new_encoder(bits_per_sample: u32, frame_length: u32) -> (encoder: FlacEncoder)
    requires
        bits_per_sample == 16 || bits_per_sample == 24,
        32 <= frame_length <= 32767,
    ensures
        encoder_setup(encoder) == (SAMPLE_RATE, bits_per_sample, CHANNELS, frame_length, LEVEL),
        encoder_setup(encoder) == (48000u32, bits_per_sample, 2u32, frame_length, 1u32),
        encoder_inputs(encoder) == Seq::<Seq<u8>>::empty(),
{
    new_flac_encoder(SAMPLE_RATE, bits_per_sample, CHANNELS, frame_length, LEVEL).unwrap()
}

/// The response to a request that is due at `dts`, given what the encoder made
/// of it.
pub fn respond(encoded: Result<BytesMut, String>, dts: u64) -> (response: Result<
    EncodeResponse,
    String,
>)
    ensures
        response == match encoded {
            Ok(result) => Ok(EncodeResponse { result, encoding: EncodingFlag::FLAC, dts }),
            Err(error) => Err(error),
        },
{
    match encoded {
        Ok(result) => Ok(EncodeResponse { result, encoding: EncodingFlag::FLAC, dts }),
        Err(error) => Err(error),
    }
}

/// Encodes the frame of a request as FLAC. The response has the time stamp of
/// the request, and a header that says what the header of the frame said, but
/// for the encoding, the byte order and the presentation time.
pub fn encode_request(encoder: &mut FlacEncoder, request: &EncodeRequest) -> (response: Result<
    EncodeResponse,
    String,
>)
    requires
        header::header_at(request@.bytes) is Some,
        request@.bytes.len() <= isize::MAX / 4,
        1 <= encoder_setup(*old(encoder)).4 <= 8,
    ensures
        encoder_setup(*final(encoder)) == encoder_setup(*old(encoder)),
        encoder_inputs(*final(encoder)) == encoder_inputs(*old(encoder)).push(request@.bytes),
        ({
            let packet = flac_packet(
                encoder_setup(*old(encoder)),
                encoder_inputs(*old(encoder)),
                request@.bytes,
            );
            match response {
                Ok(made) => {
                    let h = flac_header(header::header_at(request@.bytes)->0);
                    &&& packet == Some(buffers::bytes_mut_of(made.result))
                    &&& made.encoding == EncodingFlag::FLAC
                    &&& made.dts == request.dts
                    &&& header::header_at(buffers::bytes_mut_of(made.result)) == Some(h)
                    &&& buffers::bytes_mut_of(made.result).len() > h.spec_size()
                    &&& fits_block(encoder_setup(*old(encoder)), request@.bytes)
                    &&& carries(encoder_setup(*old(encoder)), request@.bytes, packet->0)
                },
                Err(_) => packet is None,
            }
        }),
{
    let packet: &[u8] = &request.buffer;
    respond(encode_flac(encoder, packet), request.dts)
}

/// A decoder for frames of at most [`BLOCK_SAMPLES`] samples over all channels.
pub fn new_decoder(bits_per_sample: u8) -> (decoder: FlacFrameDecoder)
    requires
        bits_per_sample == 16 || bits_per_sample == 24,
    ensures
        decoder_setup(decoder) == (
            SAMPLE_RATE,
            bits_per_sample as u32,
            CHANNELS,
            BLOCK_SAMPLES as u32 / CHANNELS,
        ),
        decoder_setup(decoder) == (48000u32, bits_per_sample as u32, 2u32, 1024u32),
{
    let block: u32 = BLOCK_SAMPLES as u32 / CHANNELS;
    new_frame_decoder(SAMPLE_RATE, bits_per_sample, CHANNELS as u16, block).unwrap()
}

/// Decodes the frame behind the header of a packet to at most [`BLOCK_SAMPLES`]
/// samples.
pub fn decode_packet(decoder: &mut FlacFrameDecoder, packet: &[u8]) -> (samples: Result<
    Vec<i32>,
    String,
>)
    requires
        header::header_at(packet@) is Some,
    ensures
        decoder_setup(*final(decoder)) == decoder_setup(*old(decoder)),
        ({
            let sound = flac_samples(decoder_setup(*old(decoder)), payload_of(packet@));
            match samples {
                Ok(decoded) => sound == Some(decoded@) && decoded@.len() <= 2048,
                Err(_) => sound is None || sound->0.len() > 2048,
            }
        }),
{
    proof {
        header::law_header_stands_alone(packet@, Seq::empty());
    }
    let size = FrameHeader::decode(packet).unwrap().size();
    let frame = vstd::slice::slice_subrange(packet, size, packet.len());
    assert(frame@ =~= payload_of(packet@));
    decode_frame(decoder, frame, BLOCK_SAMPLES)
}

/// Encoding keeps the id of a frame, by which the encoded packet is routed.
pub proof fn law_encoding_keeps_the_id(h: FrameHeader)
    ensures
        flac_header(h).id == h.id,
        flac_header(h).spec_size() == if h.id is Some {
            12nat
        } else {
            4nat
        },
{
}

/// What a sender delivers is what is decoded at the other end: a decoder for
/// blocks as long as those of the encoder decodes the packet that is made of a
/// frame to the samples of the frame, clipped to the depth of the encoder.
pub proof fn law_sound_gets_through(
    setup: (u32, u32, u32, u32, u32),
    block: u32,
    frame: Seq<u8>,
    encoded: Seq<u8>,
)
    requires
        header::header_at(frame) is Some,
        1 <= setup.2,
        fits_block(setup, frame),
        carries(setup, frame, encoded),
        setup.3 <= block <= 65535,
    ensures
        ({
            let sound = sound_of(setup.1, frame, |bits: u32| scaled_float(bits));
            &&& flac_samples(matching(setup, block), payload_of(encoded)) == Some(sound)
            &&& sound.len() == packet_samples(frame)
            &&& setup.2 == CHANNELS && setup.3 <= BLOCK_SAMPLES as u32 / CHANNELS ==> sound.len()
                <= BLOCK_SAMPLES
        }),
{
    let count = packet_samples(frame);
    let channels = setup.2 as int;
    assert(count == channels * (count / channels) + count % channels) by (nonlinear_arith)
        requires
            channels >= 1,
    ;
    assert(channels * (count / channels) >= 0) by (nonlinear_arith)
        requires
            channels >= 1,
            count / channels >= 32,
    ;
    if setup.2 == CHANNELS {
        assert(channels * (count / channels) == 2 * (count / 2));
        assert(BLOCK_SAMPLES as u32 / CHANNELS == 1024);
    }
}

/// The numbers that two or three bytes spell.
proof fn lemma_signed_range(bytes: Seq<u8>)
    requires
        bytes.len() == 2 || bytes.len() == 3,
    ensures
        bytes.len() == 2 ==> -0x8000 <= signed_le(bytes) < 0x8000,
        bytes.len() == 3 ==> -0x80_0000 <= signed_le(bytes) < 0x80_0000,
{
    reveal_with_fuel(header::big_endian, 4);
    let back = bytes.reverse();
    assert(back[0] == bytes.last());
    let two = back.drop_last();
    assert(two.len() == bytes.len() - 1 && two[0] == back[0]);
    if bytes.len() == 3 {
        assert(two.drop_last()[0] == back[0]);
    }
}

/// Samples of no more bits than the encoder has are not clipped.
pub proof fn law_fitting_samples_are_kept(bits_per_sample: u32, packet: Seq<u8>, i: int)
    requires
        header::header_at(packet) is Some,
        bits_per_sample == 16 || bits_per_sample == 24,
        header::header_at(packet)->0.bits_per_sample <= bits_per_sample,
        0 <= i < packet_samples(packet),
    ensures
        sound_of(bits_per_sample, packet, |bits: u32| scaled_float(bits))[i] == sample_at(
            packet,
            i,
            |bits: u32| scaled_float(bits),
        ),
{
    let h = header::header_at(packet)->0;
    header::law_header_stands_alone(packet, Seq::empty());
    let width = h.bits_per_sample as int / 8;
    let start = h.spec_size() + i * width;
    let count = packet_samples(packet);
    assert(width == 2 || width == 3);
    assert(0 <= i * width && (i + 1) * width <= count * width && (i + 1) * width == i * width
        + width) by (nonlinear_arith)
        requires
            0 <= i < count,
            width >= 2,
    ;
    assert(count * width <= packet.len() - h.spec_size()) by (nonlinear_arith)
        requires
            count == (packet.len() - h.spec_size()) / width,
            width >= 2,
    ;
    lemma_signed_range(packet.subrange(start, start + width));
}

/// What is decoded is all that stands behind the header and nothing of the
/// header: the two make up the packet, and the front is the shortest that reads
/// as the header.
pub proof fn law_payload_follows_the_header(packet: Seq<u8>)
    requires
        header::header_at(packet) is Some,
    ensures
        ({
            let h = header::header_at(packet)->0;
            let size = packet.len() - payload_of(packet).len();
            &&& packet.take(size) + payload_of(packet) == packet
            &&& header::header_at(packet.take(size)) == Some(h)
            &&& forall|fewer: int|
                0 <= fewer < size ==> #[trigger] header::header_at(packet.take(fewer)) is None
            &&& h.id is None && h.pts is None ==> size == 4
            &&& h.id is Some != h.pts is Some ==> size == 12
            &&& h.id is Some && h.pts is Some ==> size == 20
        }),
{
    header::law_header_stands_alone(packet, Seq::empty());
    let size = header::announced_size(packet);
    assert(packet.take(size) + payload_of(packet) =~= packet);
    assert forall|fewer: int| 0 <= fewer < size implies #[trigger] header::header_at(
        packet.take(fewer),
    ) is None by {
        header::law_header_is_needed_whole(packet, fewer);
    }
}

/// A header in front of a frame does not get into what is decoded: whatever
/// frame is put behind a header is what is decoded.
pub proof fn law_frame_behind_a_header_is_decoded(front: Seq<u8>, frame: Seq<u8>)
    requires
        header::header_at(front) is Some,
        front.len() == header::header_at(front)->0.spec_size(),
    ensures
        header::header_at(front + frame) == header::header_at(front),
        payload_of(front + frame) == frame,
{
    header::law_header_stands_alone(front, frame);
    assert(payload_of(front + frame) =~= frame);
}

} // verus!
