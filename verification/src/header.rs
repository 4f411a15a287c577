//! The header in front of every audio packet.
//!
//! A header is four bytes, followed by an eight byte id and an eight byte
//! presentation time stamp where its flags announce them:
//!
//! ```text
//! byte 0   magic word (6 bits, 42)   sample rate code (2 bits)
//! byte 1   depth code (2)  pts (1)  id (1)  encoding code (3)  big endian (1)
//! byte 2   channels - 1 (4)  sample size, high (4)
//! byte 3   sample size, low (8)
//! ```
use vstd::prelude::*;

verus! {

/// How the samples of a packet are encoded.
#[derive(Clone, Copy, Debug, PartialEq, Eq, Structural)]
pub enum EncodingFlag {
    PCMSigned,
    PCMFloat,
    Opus,
    FLAC,
    AAC,
    H264,
}

/// The byte order of the samples of a packet.
#[derive(Clone, Copy, Debug, PartialEq, Eq, Structural)]
pub enum Endianness {
    LittleEndian,
    BigEndian,
}

/// What a packet header says.
#[derive(Clone, Copy, Debug, PartialEq, Eq, Structural)]
pub struct FrameHeader {
    pub encoding: EncodingFlag,
    pub sample_size: u16,
    pub sample_rate: u32,
    pub channels: u8,
    pub bits_per_sample: u8,
    pub endianness: Endianness,
    pub id: Option<u64>,
    pub pts: Option<u64>,
}

/// The code of an encoding on the wire.
pub open spec fn encoding_code(encoding: EncodingFlag) -> u8 {
    match encoding {
        EncodingFlag::PCMSigned => 0,
        EncodingFlag::PCMFloat => 1,
        EncodingFlag::Opus => 2,
        EncodingFlag::FLAC => 3,
        EncodingFlag::AAC => 4,
        EncodingFlag::H264 => 5,
    }
}

/// The encoding that a code on the wire stands for.
pub open spec fn encoding_of(code: int) -> Option<EncodingFlag> {
    if code == 0 {
        Some(EncodingFlag::PCMSigned)
    } else if code == 1 {
        Some(EncodingFlag::PCMFloat)
    } else if code == 2 {
        Some(EncodingFlag::Opus)
    } else if code == 3 {
        Some(EncodingFlag::FLAC)
    } else if code == 4 {
        Some(EncodingFlag::AAC)
    } else if code == 5 {
        Some(EncodingFlag::H264)
    } else {
        None
    }
}

/// The code of a byte order on the wire.
pub open spec fn endianness_code(endianness: Endianness) -> u8 {
    match endianness {
        Endianness::LittleEndian => 0,
        Endianness::BigEndian => 1,
    }
}

/// The sample rate that a code on the wire stands for.
pub open spec fn sample_rate_of(code: int) -> u32 {
    if code == 0 {
        16000
    } else if code == 1 {
        44100
    } else if code == 2 {
        48000
    } else {
        96000
    }
}

/// The sample depth that a code on the wire stands for.
pub open spec fn depth_of(code: int) -> Option<u8> {
    if code == 0 {
        Some(16)
    } else if code == 1 {
        Some(24)
    } else if code == 2 {
        Some(32)
    } else {
        None
    }
}

/// The number that the bytes spell, most significant byte first.
pub open spec fn big_endian(bytes: Seq<u8>) -> nat
    decreases bytes.len(),
{
    if bytes.len() == 0 {
        0
    } else {
        big_endian(bytes.drop_last()) * 256 + bytes.last() as nat
    }
}

/// The number of bytes that the header beginning at the front of `bytes`
/// takes, going by its flags.
pub open spec fn announced_size(bytes: Seq<u8>) -> int
    recommends
        bytes.len() >= 4,
{
    4 + (if has_id(bytes) {
        8int
    } else {
        0
    }) + (if has_pts(bytes) {
        8int
    } else {
        0
    })
}

/// Whether the flags announce an id.
pub open spec fn has_id(bytes: Seq<u8>) -> bool {
    (bytes[1] as int / 16) % 2 == 1
}

/// Whether the flags announce a presentation time stamp.
pub open spec fn has_pts(bytes: Seq<u8>) -> bool {
    (bytes[1] as int / 32) % 2 == 1
}

/// The header at the front of `bytes`, where there is a whole and valid one.
pub open spec fn header_at(bytes: Seq<u8>) -> Option<FrameHeader> {
    let encoding = encoding_of((bytes[1] as int / 2) % 8);
    let depth = depth_of(bytes[1] as int / 64);
    let end = announced_size(bytes);
    if bytes.len() >= 4 && bytes[0] as int / 4 == 42 && encoding is Some && depth is Some
        && bytes.len() >= end {
        Some(
            FrameHeader {
                encoding: encoding->0,
                sample_size: ((bytes[2] as int % 16) * 256 + bytes[3]) as u16,
                sample_rate: sample_rate_of(bytes[0] as int % 4),
                channels: (bytes[2] as int / 16 + 1) as u8,
                bits_per_sample: depth->0,
                endianness: if bytes[1] as int % 2 == 0 {
                    Endianness::LittleEndian
                } else {
                    Endianness::BigEndian
                },
                id: if has_id(bytes) {
                    Some(big_endian(bytes.subrange(4, 12)) as u64)
                } else {
                    None
                },
                pts: if has_pts(bytes) {
                    Some(big_endian(bytes.subrange(end - 8, end)) as u64)
                } else {
                    None
                },
            },
        )
    } else {
        None
    }
}

impl FrameHeader {
    /// The number of bytes that the header takes on the wire.
    pub open spec fn spec_size(self) -> nat {
        4 + (if self.id is Some {
            8nat
        } else {
            0
        }) + (if self.pts is Some {
            8nat
        } else {
            0
        })
    }

    /// The number of bytes that the header takes on the wire.
    pub fn size(&self) -> (size: usize)
        ensures
            size == self.spec_size(),
            self.id is None && self.pts is None ==> size == 4,
            self.id is Some != self.pts is Some ==> size == 12,
            self.id is Some && self.pts is Some ==> size == 20,
    {
        let id: usize = if self.id.is_some() {
            8
        } else {
            0
        };
        let pts: usize = if self.pts.is_some() {
            8
        } else {
            0
        };
        4 + id + pts
    }

    /// Reads the header at the front of `bytes`.
    pub fn decode(bytes: &[u8]) -> (header: Option<FrameHeader>)
        ensures
            header == header_at(bytes@),
    {
        match decode_fields(bytes) {
            None => None,
            Some((code, sample_size, sample_rate, channels, bits_per_sample, order, id, pts)) => {
                let encoding = if code == 0 {
                    EncodingFlag::PCMSigned
                } else if code == 1 {
                    EncodingFlag::PCMFloat
                } else if code == 2 {
                    EncodingFlag::Opus
                } else if code == 3 {
                    EncodingFlag::FLAC
                } else if code == 4 {
                    EncodingFlag::AAC
                } else {
                    EncodingFlag::H264
                };
                let endianness = if order == 0 {
                    Endianness::LittleEndian
                } else {
                    Endianness::BigEndian
                };
                Some(
                    FrameHeader {
                        encoding,
                        sample_size,
                        sample_rate,
                        channels,
                        bits_per_sample,
                        endianness,
                        id,
                        pts,
                    },
                )
            },
        }
    }
}

/// `frame_header::FrameHeader::decode` reads a header from the front of the
/// bytes and fails where the magic word is missing, a code stands for nothing
/// or bytes that the flags announce are missing; the getters then give the
/// fields. Encoding and byte order come as their codes.
#[verifier::external_body]
fn decode_fields(bytes: &[u8]) -> (fields: Option<
    (u8, u16, u32, u8, u8, u8, Option<u64>, Option<u64>),
>)
    ensures
        fields == match header_at(bytes@) {
            Some(h) => Some(
                (
                    encoding_code(h.encoding),
                    h.sample_size,
                    h.sample_rate,
                    h.channels,
                    h.bits_per_sample,
                    endianness_code(h.endianness),
                    h.id,
                    h.pts,
                ),
            ),
            None => None,
        },
{
    let h = frame_header::FrameHeader::decode(&mut &bytes[..]).ok()?;
    let (code, order) = (*h.encoding() as u8, *h.endianness() as u8);
    let (sample_size, sample_rate) = (h.sample_size(), h.sample_rate());
    let (channels, depth) = (h.channels(), h.bits_per_sample());
    Some((code, sample_size, sample_rate, channels, depth, order, h.id(), h.pts()))
}

/// A header says the same whatever follows it, and takes as many bytes as its
/// flags announce.
pub proof fn law_header_stands_alone(bytes: Seq<u8>, more: Seq<u8>)
    requires
        header_at(bytes) is Some,
    ensures
        header_at(bytes + more) == header_at(bytes),
        header_at(bytes)->0.spec_size() == announced_size(bytes) <= bytes.len(),
        header_at(bytes.take(announced_size(bytes))) == header_at(bytes),
{
    let whole = bytes + more;
    let end = announced_size(bytes);
    assert(whole[0] == bytes[0] && whole[1] == bytes[1] && whole[2] == bytes[2] && whole[3]
        == bytes[3]);
    if has_id(bytes) {
        assert(whole.subrange(4, 12) =~= bytes.subrange(4, 12));
        assert(bytes.take(end).subrange(4, 12) =~= bytes.subrange(4, 12));
    }
    if has_pts(bytes) {
        assert(whole.subrange(end - 8, end) =~= bytes.subrange(end - 8, end));
        assert(bytes.take(end).subrange(end - 8, end) =~= bytes.subrange(end - 8, end));
    }
}

/// Every header describes audio that can be played: at least one channel and a
/// sample rate other than zero.
pub proof fn law_header_is_playable(bytes: Seq<u8>)
    requires
        header_at(bytes) is Some,
    ensures
        1 <= header_at(bytes)->0.channels <= 16,
        header_at(bytes)->0.sample_size <= 4095,
        16000 <= header_at(bytes)->0.sample_rate <= 96000,
        4 <= header_at(bytes)->0.spec_size() <= 20,
{
}

/// An id and a presentation time stamp take eight bytes each, and what is in
/// front of them four; nothing else in a header has a bearing on its size.
pub proof fn law_id_and_pts_take_eight_bytes(h: FrameHeader, id: u64, pts: u64)
    ensures
        (FrameHeader { id: None, pts: None, ..h }).spec_size() == 4,
        (FrameHeader { id: Some(id), ..h }).spec_size() == (FrameHeader {
            id: None,
            ..h
        }).spec_size() + 8,
        (FrameHeader { pts: Some(pts), ..h }).spec_size() == (FrameHeader {
            pts: None,
            ..h
        }).spec_size() + 8,
{
}

/// No part of a header reads as a header: what comes after its last byte is not
/// looked at, and every byte up to it is.
pub proof fn law_header_is_needed_whole(bytes: Seq<u8>, count: int)
    requires
        header_at(bytes) is Some,
        0 <= count <= bytes.len(),
    ensures
        header_at(bytes.take(count)) is Some <==> header_at(bytes)->0.spec_size() <= count,
        header_at(bytes.take(count)) is Some ==> header_at(bytes.take(count)) == header_at(bytes),
{
    let part = bytes.take(count);
    let end = announced_size(bytes);
    if count >= end {
        law_header_stands_alone(bytes, Seq::empty());
        law_header_stands_alone(bytes.take(end), part.skip(end));
        assert(bytes.take(end) + part.skip(end) =~= part);
    } else if count >= 4 {
        assert(part[1] == bytes[1]);
    }
}

/// Each field of a header can be told from its bytes, and the first four bytes
/// from its fields.
pub proof fn law_fields_make_up_the_bytes(bytes: Seq<u8>)
    requires
        header_at(bytes) is Some,
    ensures
        ({
            let h = header_at(bytes)->0;
            &&& h.sample_rate == 16000 <==> bytes[0] == 168
            &&& h.sample_rate == 44100 <==> bytes[0] == 169
            &&& h.sample_rate == 48000 <==> bytes[0] == 170
            &&& h.sample_rate == 96000 <==> bytes[0] == 171
            &&& 168 <= bytes[0] <= 171
            &&& bytes[1] == (h.bits_per_sample - 16) * 8 + (if h.pts is Some {
                32int
            } else {
                0
            }) + (if h.id is Some {
                16int
            } else {
                0
            }) + encoding_code(h.encoding) * 2 + endianness_code(h.endianness)
            &&& bytes[2] * 256 + bytes[3] == (h.channels - 1) * 4096 + h.sample_size
            &&& h.id matches Some(id) ==> id == spelled(bytes, 4)
            &&& h.pts matches Some(pts) ==> pts == spelled(bytes, h.spec_size() - 8)
        }),
{
    let h = header_at(bytes)->0;
    let end = announced_size(bytes);
    if has_id(bytes) {
        lemma_eight_bytes(bytes, 4);
    }
    if has_pts(bytes) {
        lemma_eight_bytes(bytes, end - 8);
    }
}

/// The number that the eight bytes from `at` on spell, most significant byte
/// first.
pub open spec fn spelled(bytes: Seq<u8>, at: int) -> int {
    bytes[at] * 0x100_0000_0000_0000 + bytes[at + 1] * 0x1_0000_0000_0000 + bytes[at + 2]
        * 0x100_0000_0000 + bytes[at + 3] * 0x1_0000_0000 + bytes[at + 4] * 0x100_0000 + bytes[at
        + 5] * 0x1_0000 + bytes[at + 6] * 0x100 + bytes[at + 7]
}

proof fn lemma_eight_bytes(bytes: Seq<u8>, at: int)
    requires
        0 <= at <= bytes.len() - 8,
    ensures
        big_endian(bytes.subrange(at, at + 8)) == spelled(bytes, at),
        spelled(bytes, at) <= u64::MAX,
{
    reveal_with_fuel(big_endian, 9);
    let b8 = bytes.subrange(at, at + 8);
    let b7 = b8.drop_last();
    let b6 = b7.drop_last();
    let b5 = b6.drop_last();
    let b4 = b5.drop_last();
    let b3 = b4.drop_last();
    let b2 = b3.drop_last();
    let b1 = b2.drop_last();
    assert(b1.drop_last() =~= Seq::empty());
    assert(b1.last() == bytes[at] && b2.last() == bytes[at + 1] && b3.last() == bytes[at + 2]);
    assert(b4.last() == bytes[at + 3] && b5.last() == bytes[at + 4] && b6.last() == bytes[at + 5]);
    assert(b7.last() == bytes[at + 6] && b8.last() == bytes[at + 7]);
}

} // verus!
