use catnip::protocols::frame::{
    checksum, frame_from_link, frame_size, read_frame, route, write_frame, FrameParts,
};
use catnip::protocols::ip::Port;
use catnip::protocols::ipv4::Endpoint;
use catnip::protocols::udp::OutgoingReq;
use catnip::runtime::{Packet, PacketSerialize, IPPROTO_UDP};
use catnip::sync::{BufEnum, Bytes, BytesMut};

const SRC_MAC: [u8; 6] = [2, 0, 0, 0, 0, 1];
const DST_MAC: [u8; 6] = [2, 0, 0, 0, 0, 2];
const LOCAL: u32 = 0x0a00_0001;
const REMOTE: u32 = 0x0a00_0002;

fn payload(len: usize) -> Bytes {
    let mut buf = BytesMut::zeroed(len);
    for i in 0..len {
        buf.set(i, (i * 3 + 1) as u8);
    }
    buf.freeze()
}

fn datagram(len: usize) -> Packet {
    Packet::Udp(OutgoingReq {
        local: Some(Endpoint::new(LOCAL, Port::try_from(4000).unwrap())),
        remote: Endpoint::new(REMOTE, Port::try_from(53).unwrap()),
        payload: payload(len),
    })
}

fn written(packet: &Packet) -> Vec<u8> {
    let size = frame_size(packet).unwrap();
    let mut out = vec![0xaau8; size];
    write_frame(packet, LOCAL, &SRC_MAC, &DST_MAC, out.as_mut_slice());
    out
}

#[test]
fn checksum_of_a_known_header() {
    let header = [
        0x45, 0x00, 0x00, 0x73, 0x00, 0x00, 0x40, 0x00, 0x40, 0x11, 0x00, 0x00, 0xc0, 0xa8, 0x00,
        0x01, 0xc0, 0xa8, 0x00, 0xc7,
    ];
    assert_eq!(checksum(&header), 0xb861);
    let mut summed = header;
    summed[10] = 0xb8;
    summed[11] = 0x61;
    assert_eq!(checksum(&summed), 0);
}

#[test]
fn checksum_counts_a_missing_last_byte_as_zero() {
    assert_eq!(checksum(&[]), 0xffff);
    assert_eq!(checksum(&[0x12]), !0x1200u16);
    assert_eq!(checksum(&[0x12, 0x00]), !0x1200u16);
    assert_eq!(checksum(&[0xff, 0xff, 0x00, 0x01]), !0x0001u16);
    assert_eq!(checksum(&[0xff, 0xff, 0xff, 0xff, 0xff]), !0xff00u16);
}

#[test]
fn frame_has_both_headers_before_the_packet() {
    let packet = datagram(5);
    assert_eq!(route(&packet, 7), (IPPROTO_UDP, LOCAL, REMOTE));
    assert_eq!(frame_size(&packet), Some(14 + 20 + 8 + 5));
    let out = written(&packet);
    assert_eq!(&out[0..6], &DST_MAC);
    assert_eq!(&out[6..12], &SRC_MAC);
    assert_eq!(&out[12..14], &[0x08, 0x00]);
    assert_eq!(&out[14..18], &[0x45, 0x00, 0x00, 33]);
    assert_eq!(&out[18..24], &[0, 0, 0, 0, 64, IPPROTO_UDP]);
    assert_eq!(&out[26..30], &[10, 0, 0, 1]);
    assert_eq!(&out[30..34], &[10, 0, 0, 2]);
    assert_eq!(checksum(&out[14..34]), 0);
    let mut wire = vec![0u8; 13];
    match &packet {
        Packet::Udp(d) => d.serialize(wire.as_mut_slice()),
        Packet::Tcp(_) => unreachable!(),
    }
    assert_eq!(&out[34..], wire.as_slice());
}

#[test]
fn datagram_of_an_unbound_socket_leaves_from_the_local_address() {
    let packet = Packet::Udp(OutgoingReq {
        local: None,
        remote: Endpoint::new(REMOTE, Port::try_from(53).unwrap()),
        payload: payload(1),
    });
    assert_eq!(route(&packet, LOCAL), (IPPROTO_UDP, LOCAL, REMOTE));
}

#[test]
fn packet_beyond_the_length_field_has_no_frame() {
    assert_eq!(frame_size(&datagram(0xffff - 20 - 8)), Some(14 + 0xffff));
    assert_eq!(frame_size(&datagram(0xffff - 20 - 8 + 1)), None);
    assert_eq!(frame_size(&datagram(70_000)), None);
}

#[test]
fn frame_that_was_written_is_read_back() {
    let mut out = written(&datagram(5));
    assert_eq!(
        read_frame(&out, REMOTE),
        Some(FrameParts {
            protocol: IPPROTO_UDP,
            src_addr: LOCAL,
            dst_addr: REMOTE,
            begin: 34,
            end: 47,
        })
    );
    // Padding of the link stays out of the packet.
    out.extend_from_slice(&[0, 0, 0]);
    assert_eq!(read_frame(&out, REMOTE).map(|p| (p.begin, p.end)), Some((34, 47)));
    let frame = frame_from_link(91, out.clone(), REMOTE).unwrap();
    assert_eq!(frame.protocol, IPPROTO_UDP);
    assert_eq!(frame.src_addr, LOCAL);
    assert_eq!(frame.dst_addr, REMOTE);
    assert_eq!(frame.payload.as_slice(), &out[34..47]);
    match frame.payload.take_buffer() {
        Some(BufEnum::DPDK(m)) => assert_eq!(m.handle(), 91),
        _ => panic!("the payload should lie in the driver's buffer"),
    }
}

#[test]
fn frame_that_is_not_sound_is_not_read() {
    let good = written(&datagram(5));
    assert!(read_frame(&good, REMOTE).is_some());
    assert_eq!(read_frame(&good, LOCAL), None);
    assert_eq!(read_frame(&good[..33], REMOTE), None);
    assert_eq!(read_frame(&good[..46], REMOTE), None);
    let mut other_type = good.clone();
    other_type[13] = 0x06;
    assert_eq!(read_frame(&other_type, REMOTE), None);
    let mut other_version = good.clone();
    other_version[14] = 0x65;
    assert_eq!(read_frame(&other_version, REMOTE), None);
    let mut short_header = good.clone();
    short_header[14] = 0x44;
    assert_eq!(read_frame(&short_header, REMOTE), None);
    let mut damaged = good.clone();
    damaged[22] = 63;
    assert_eq!(read_frame(&damaged, REMOTE), None);
    assert!(frame_from_link(1, damaged, REMOTE).is_none());
}
