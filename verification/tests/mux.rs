use bytes::BytesMut;
use daw_nexus::mux::{AudioMuxer, MAX_DTS};

fn payload(len: usize, fill: u8) -> BytesMut {
    BytesMut::from(&vec![fill; len][..])
}

/// The packet ids of the transport packets.
fn pids(packets: &[u8]) -> Vec<u16> {
    packets
        .chunks(188)
        .map(|p| ((p[1] as u16 & 0x1f) << 8) | p[2] as u16)
        .collect()
}

#[test]
fn frames_are_packed_into_transport_packets() {
    let mut muxer = AudioMuxer::new();
    let packets = muxer.pack(0, payload(1000, 7));
    assert!(packets.len() >= 1000);
    assert_eq!(packets.len() % 188, 0);
    assert!(packets.chunks(188).all(|p| p[0] == 0x47));
    assert!(pids(&packets).contains(&0x101));
    let sevens = packets.iter().filter(|b| **b == 7).count();
    assert!(sevens >= 1000);
}

#[test]
fn packing_takes_what_was_put_out() {
    let mut muxer = AudioMuxer::new();
    let first = muxer.pack(0, payload(100, 1));
    let second = muxer.pack(21, payload(100, 2));
    assert!(first.iter().filter(|b| **b == 1).count() >= 100);
    assert!(second.iter().filter(|b| **b == 2).count() >= 100);
    assert!(second.len() <= first.len());
}

#[test]
fn packing_agrees_with_the_multiplexer() {
    let mut ours = AudioMuxer::new();
    let mut theirs = xmpegts::ts::TsMuxer::new();
    let pid = theirs
        .add_stream(
            xmpegts::define::epsi_stream_type::PSI_STREAM_AAC,
            BytesMut::new(),
        )
        .unwrap();
    assert_eq!(pid, 0x101);
    for i in 0..20u64 {
        let dts = i * 21;
        let data = payload(50 * i as usize, i as u8);
        assert!(theirs
            .write(pid, dts as i64, dts as i64, 0, data.clone())
            .is_ok());
        let expected = theirs.get_data().freeze();
        assert_eq!(ours.pack(dts, data), expected);
    }
}

#[test]
fn packets_depend_on_time_and_payload() {
    let one = AudioMuxer::new().pack(0, payload(10, 1));
    assert_eq!(AudioMuxer::new().pack(0, payload(10, 1)), one);
    assert_ne!(AudioMuxer::new().pack(1, payload(10, 1)), one);
    assert_ne!(AudioMuxer::new().pack(0, payload(10, 2)), one);
}

#[test]
fn largest_time_stamp_can_be_packed() {
    let packets = AudioMuxer::new().pack(MAX_DTS, payload(10, 1));
    assert_eq!(packets.len() % 188, 0);
}
