use bytes::{Bytes, BytesMut};
use daw_nexus::allocator::{Channels, Streams};
use daw_nexus::codec::EncodeResponse;
use daw_nexus::framing::FrameFault;
use daw_nexus::header::EncodingFlag;
use daw_nexus::mux::AudioMuxer;
use daw_nexus::session::{played, Next, Phase, Session};

#[test]
fn sender_is_told_its_channel() {
    let mut chans = Channels::new(3);
    let mut streams = Streams::new(3);
    chans.next();
    let mut session = Session::new();
    let next = session.greeted(b"SEND", &mut chans, &mut streams);
    assert!(matches!(next, Next::Write(bytes) if bytes == [1u8, 0][..]));
    assert_eq!(session.phase, Phase::Acknowledging);
    assert_eq!(session.id, Some(1));
    assert_eq!(chans.chans, vec![true, true, false]);

    let next = session.written(true, &mut chans);
    assert!(matches!(next, Next::Receive));
    assert_eq!(session.phase, Phase::Receiving);

    session.ended(&mut chans);
    assert_eq!(session.phase, Phase::Closed);
    assert_eq!(session.id, None);
    assert_eq!(chans.chans, vec![true, false, false]);
}

#[test]
fn channel_number_is_sent_low_byte_first() {
    let mut chans = Channels::new(600);
    let mut streams = Streams::new(0);
    for _ in 0..513 {
        chans.next();
    }
    let next = Session::new().greeted(b"SEND", &mut chans, &mut streams);
    assert!(matches!(next, Next::Write(bytes) if bytes == 513u16.to_le_bytes()[..]));
}

#[test]
fn listener_is_played_its_channel() {
    let mut chans = Channels::new(2);
    let mut streams = Streams::new(2);
    let mut producer = streams.add(0);
    assert!(producer.push(Bytes::from_static(b"one")).is_ok());
    let mut session = Session::new();
    let next = session.greeted(b"PLAY", &mut chans, &mut streams);
    assert!(matches!(next, Next::Wait));
    assert_eq!(session.phase, Phase::Playing);
    assert!(streams.consumers[0].is_none());

    assert!(matches!(session.due(), Next::Write(data) if data == b"one"[..]));
    assert!(matches!(session.written(true, &mut chans), Next::Wait));
    assert!(matches!(session.due(), Next::Wait));
    assert!(producer.push(Bytes::from_static(b"two")).is_ok());
    assert!(matches!(session.due(), Next::Write(data) if data == b"two"[..]));

    assert!(matches!(session.written(false, &mut chans), Next::Close));
    assert_eq!(session.phase, Phase::Closed);
    assert_eq!(chans.chans, vec![false, false]);
    assert!(producer.is_abandoned());
}

#[test]
fn listener_without_stream_is_read_from() {
    let mut chans = Channels::new(1);
    let mut streams = Streams::new(1);
    let mut session = Session::new();
    let next = session.greeted(b"PLAY", &mut chans, &mut streams);
    assert!(matches!(next, Next::Receive));
    assert_eq!(session.phase, Phase::Receiving);
    assert_eq!(session.id, Some(0));
}

#[test]
fn any_other_greeting_is_read_from() {
    for greeting in [b"HELO", b"send", b"PLAX", &[0u8; 4]] {
        let mut chans = Channels::new(1);
        let mut streams = Streams::new(1);
        let _producer = streams.add(0);
        let mut session = Session::new();
        let next = session.greeted(greeting, &mut chans, &mut streams);
        assert!(matches!(next, Next::Receive));
        assert_eq!(chans.chans, vec![true]);
        assert!(streams.consumers[0].is_some());
    }
}

#[test]
fn client_is_turned_away_when_all_channels_are_taken() {
    let mut chans = Channels::new(1);
    let mut streams = Streams::new(1);
    let _producer = streams.add(0);
    chans.next();
    for greeting in [b"SEND", b"PLAY", b"HELO"] {
        let mut session = Session::new();
        let next = session.greeted(greeting, &mut chans, &mut streams);
        assert!(matches!(next, Next::Close));
        assert_eq!(session.phase, Phase::Closed);
        assert_eq!(session.id, None);
    }
    assert_eq!(chans.chans, vec![true]);
    assert!(streams.consumers[0].is_some());
}

#[test]
fn client_without_greeting_takes_no_channel() {
    let mut session = Session::new();
    assert!(matches!(session.not_greeted(), Next::Close));
    assert_eq!(session.phase, Phase::Closed);
    assert_eq!(session.id, None);
}

#[test]
fn failed_acknowledgement_frees_the_channel_at_once() {
    let mut chans = Channels::new(1);
    let mut streams = Streams::new(1);
    let mut session = Session::new();
    session.greeted(b"SEND", &mut chans, &mut streams);
    assert!(matches!(session.written(false, &mut chans), Next::Receive));
    assert_eq!(session.phase, Phase::Receiving);
    assert_eq!(chans.chans, vec![false]);
    assert_eq!(session.id, Some(0));
    session.ended(&mut chans);
    assert_eq!(chans.chans, vec![false]);
}

#[test]
fn sessions_do_not_share_channels() {
    let mut chans = Channels::new(3);
    let mut streams = Streams::new(3);
    let mut sessions: Vec<Session> = Vec::new();
    for _ in 0..3 {
        let mut session = Session::new();
        session.greeted(b"HELO", &mut chans, &mut streams);
        sessions.push(session);
    }
    let ids: Vec<Option<usize>> = sessions.iter().map(|s| s.id).collect();
    assert_eq!(ids, vec![Some(0), Some(1), Some(2)]);
    sessions[1].ended(&mut chans);
    assert_eq!(chans.chans, vec![true, false, true]);
    let mut late = Session::new();
    late.greeted(b"HELO", &mut chans, &mut streams);
    assert_eq!(late.id, Some(1));
}

fn frame(sample_size: u16) -> Vec<u8> {
    let header = frame_header::FrameHeader::new(
        frame_header::EncodingFlag::PCMFloat,
        sample_size,
        48000,
        1,
        32,
        frame_header::Endianness::LittleEndian,
        Some(123456789),
        None,
    )
    .unwrap();
    let mut bytes: Vec<u8> = Vec::new();
    header.encode(&mut bytes).unwrap();
    bytes.extend(vec![0u8; sample_size as usize * 4]);
    bytes
}

#[test]
fn frames_are_cut_out_of_what_is_received() {
    let mut chans = Channels::new(1);
    let mut streams = Streams::new(1);
    let mut session = Session::new();
    session.greeted(b"HELO", &mut chans, &mut streams);
    let sent = frame(1024);
    let mut stamps: Vec<u64> = Vec::new();
    for _ in 0..3 {
        for chunk in sent.chunks(1000) {
            let batch = session.received(chunk);
            assert_eq!(batch.fault, None);
            for request in batch.requests {
                assert_eq!(&request.buffer[..], &sent[..]);
                stamps.push(request.dts);
            }
        }
    }
    assert_eq!(stamps, vec![0, 21, 42]);
    let batch = session.received(&[0u8; 12]);
    assert_eq!(batch.fault, Some(FrameFault::BadHeader));
    assert!(batch.requests.is_empty());
}

#[test]
fn encoded_frames_are_packed() {
    let mut chans = Channels::new(1);
    let mut streams = Streams::new(1);
    let mut session = Session::new();
    session.greeted(b"HELO", &mut chans, &mut streams);
    let response = EncodeResponse {
        result: BytesMut::from(&[9u8; 500][..]),
        encoding: EncodingFlag::FLAC,
        dts: 63,
    };
    let packets = session.encoded(response);
    let expected = AudioMuxer::new().pack(63, BytesMut::from(&[9u8; 500][..]));
    assert_eq!(packets, expected);
}

#[test]
fn played_block_is_written() {
    assert!(matches!(played(None), Next::Wait));
    let next = played(Some(Bytes::from_static(b"block")));
    assert!(matches!(next, Next::Write(data) if data == b"block"[..]));
}
