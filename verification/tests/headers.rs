use catnip::fail::Fail;
use catnip::protocols::ip::Port;
use catnip::protocols::ipv4::Endpoint;
use catnip::protocols::tcp::segment::{TcpHeader, TcpHeaderMut, TcpSegment};
use catnip::protocols::udp::{Datagram, OutgoingReq};
use catnip::runtime::PacketSerialize;
use catnip::sync::{Bytes, BytesMut};

fn bytes(data: &[u8]) -> Bytes {
    BytesMut::from_slice(data).freeze()
}

#[test]
fn fields_are_read_in_network_order() {
    let raw: [u8; 20] = [
        0x12, 0x34, 0x56, 0x78, 0x01, 0x02, 0x03, 0x04, 0xa1, 0xa2, 0xa3, 0xa4, 0x61, 0x12, 0xff,
        0xfe, 0xab, 0xcd, 0x00, 0x07,
    ];
    let header = TcpHeader::new(&raw);
    assert_eq!(header.as_bytes(), &raw);
    assert_eq!(header.src_port(), 0x1234);
    assert_eq!(header.dest_port(), 0x5678);
    assert_eq!(header.seq_num(), 0x0102_0304);
    assert_eq!(header.ack_num(), 0xa1a2_a3a4);
    assert_eq!(header.header_len(), 24);
    assert!(header.ns());
    assert!(!header.cwr());
    assert!(!header.ece());
    assert!(!header.urg());
    assert!(header.ack());
    assert!(!header.psh());
    assert!(!header.rst());
    assert!(header.syn());
    assert!(!header.fin());
    assert_eq!(header.window_sz(), 0xfffe);
    assert_eq!(header.checksum(), 0xabcd);
    assert_eq!(header.urg_ptr(), 7);
}

#[test]
fn fields_are_written_in_network_order() {
    let mut raw = [0u8; 20];
    {
        let mut header = TcpHeaderMut::new(&mut raw);
        header.src_port(0x1234);
        header.dest_port(0x5678);
        header.seq_num(0x0102_0304);
        header.ack_num(0xa1a2_a3a4);
        assert_eq!(header.header_len(21), Ok(()));
        header.ns(true);
        header.ack(true);
        header.syn(true);
        header.window_sz(0xfffe);
        header.checksum(0xabcd);
        header.urg_ptr(7);
        assert_eq!(header.as_bytes().len(), 20);
    }
    assert_eq!(
        raw,
        [
            0x12, 0x34, 0x56, 0x78, 0x01, 0x02, 0x03, 0x04, 0xa1, 0xa2, 0xa3, 0xa4, 0x61, 0x12,
            0xff, 0xfe, 0xab, 0xcd, 0x00, 0x07,
        ]
    );
}

#[test]
fn each_flag_is_set_and_cleared_alone() {
    let mut raw = [0u8; 20];
    let mut header = TcpHeaderMut::new(&mut raw);
    header.cwr(true);
    header.ece(true);
    header.urg(true);
    header.ack(true);
    header.psh(true);
    header.rst(true);
    header.syn(true);
    header.fin(true);
    header.ns(true);
    assert_eq!(header.as_bytes()[13], 0xff);
    assert_eq!(header.as_bytes()[12], 0x01);
    header.psh(false);
    header.cwr(false);
    header.fin(false);
    header.ns(false);
    assert_eq!(header.as_bytes()[13], 0b0111_0110);
    assert_eq!(header.as_bytes()[12], 0x00);
    let read = TcpHeader::new(&raw);
    assert!(read.ece() && read.urg() && read.ack() && read.rst() && read.syn());
    assert!(!read.cwr() && !read.psh() && !read.fin() && !read.ns());
}

#[test]
fn header_length_outside_the_bounds_is_refused() {
    let mut raw = [0u8; 60];
    let mut header = TcpHeaderMut::new(&mut raw);
    assert_eq!(header.header_len(19), Err(Fail::OutOfRange { details: "TCP header length" }));
    assert_eq!(header.header_len(61), Err(Fail::OutOfRange { details: "TCP header length" }));
    assert_eq!(header.header_len(20), Ok(()));
    assert_eq!(header.as_bytes()[12], 0x50);
    assert_eq!(TcpHeader::new(&raw).header_len(), 20);
    let mut raw = [0u8; 60];
    let mut header = TcpHeaderMut::new(&mut raw);
    assert_eq!(header.header_len(60), Ok(()));
    assert_eq!(TcpHeader::new(&raw).header_len(), 60);
    let mut raw = [0u8; 60];
    let mut header = TcpHeaderMut::new(&mut raw);
    header.ns(true);
    assert_eq!(header.header_len(33), Ok(()));
    assert_eq!(raw[12], 0x90);
}

fn segment() -> TcpSegment {
    TcpSegment {
        src: Endpoint::from_octets(10, 0, 0, 2, Port::try_from(49152).unwrap()),
        dst: Endpoint::from_octets(10, 0, 0, 1, Port::try_from(9000).unwrap()),
        seq_num: 0xdead_beef,
        ack_num: 0x0bad_cafe,
        syn: true,
        ack: true,
        fin: false,
        rst: false,
        window_size: 0x1000,
        payload: bytes(&[1, 2, 3]),
    }
}

#[test]
fn segment_is_written_out_byte_for_byte() {
    let segment = segment();
    assert_eq!(segment.compute_size(), 23);
    let mut wire = [0xffu8; 23];
    segment.serialize(&mut wire);
    assert_eq!(
        wire,
        [
            0xc0, 0x00, 0x23, 0x28, 0xde, 0xad, 0xbe, 0xef, 0x0b, 0xad, 0xca, 0xfe, 0x50, 0x12,
            0x10, 0x00, 0x00, 0x00, 0x00, 0x00, 1, 2, 3,
        ]
    );
}

#[test]
fn segment_is_read_back_as_it_was_written() {
    let sent = segment();
    let mut wire = vec![0u8; sent.compute_size()];
    sent.serialize(&mut wire);
    let got = TcpSegment::parse(0x0a00_0002, 0x0a00_0001, bytes(&wire)).unwrap();
    assert_eq!(got.src, sent.src);
    assert_eq!(got.dst, sent.dst);
    assert_eq!(got.seq_num, sent.seq_num);
    assert_eq!(got.ack_num, sent.ack_num);
    assert_eq!((got.syn, got.ack, got.fin, got.rst), (true, true, false, false));
    assert_eq!(got.window_size, 0x1000);
    assert_eq!(got.payload.as_slice(), &[1, 2, 3]);
}

#[test]
fn broken_segments_are_refused() {
    assert_eq!(
        TcpSegment::parse(1, 2, bytes(&[0u8; 19])).err(),
        Some(Fail::Malformed { details: "TCP segment too small" })
    );
    let mut wire = vec![0u8; 23];
    segment().serialize(&mut wire);
    let mut short_header = wire.clone();
    short_header[12] = 0x40;
    assert_eq!(
        TcpSegment::parse(1, 2, bytes(&short_header)).err(),
        Some(Fail::Malformed { details: "TCP header too small" })
    );
    let mut long_header = wire.clone();
    long_header[12] = 0x60;
    assert_eq!(
        TcpSegment::parse(1, 2, bytes(&long_header)).err(),
        Some(Fail::Malformed { details: "TCP header too large" })
    );
    let mut no_port = wire.clone();
    no_port[2] = 0;
    no_port[3] = 0;
    assert_eq!(
        TcpSegment::parse(1, 2, bytes(&no_port)).err(),
        Some(Fail::OutOfRange { details: "port number may not be zero" })
    );
    // Options are skipped.
    let mut with_options = wire[..20].to_vec();
    with_options[12] = 0x60;
    with_options.extend_from_slice(&[9, 9, 9, 9, 7, 7]);
    let got = TcpSegment::parse(1, 2, bytes(&with_options)).unwrap();
    assert_eq!(got.payload.as_slice(), &[7, 7]);
}

#[test]
fn datagram_is_written_and_read_back() {
    let sent = OutgoingReq {
        local: Some(Endpoint::from_octets(192, 168, 1, 1, Port::try_from(5000).unwrap())),
        remote: Endpoint::from_octets(192, 168, 1, 2, Port::try_from(53).unwrap()),
        payload: bytes(&[0xca, 0xfe]),
    };
    assert_eq!(sent.compute_size(), 10);
    let mut wire = [0xffu8; 10];
    sent.serialize(&mut wire);
    assert_eq!(wire, [0x13, 0x88, 0x00, 0x35, 0x00, 0x0a, 0x00, 0x00, 0xca, 0xfe]);
    let got = Datagram::parse(0xc0a8_0101, 0xc0a8_0102, bytes(&wire)).unwrap();
    assert_eq!(got.remote, sent.local);
    assert_eq!(got.local, sent.remote);
    assert_eq!(got.payload.as_slice(), &[0xca, 0xfe]);

    let unbound = OutgoingReq { local: None, remote: sent.remote, payload: bytes(&[1]) };
    let mut wire = [0xffu8; 9];
    unbound.serialize(&mut wire);
    assert_eq!(wire, [0, 0, 0x00, 0x35, 0x00, 0x09, 0, 0, 1]);
    assert_eq!(Datagram::parse(1, 2, bytes(&wire)).unwrap().remote, None);
    assert_eq!(
        Datagram::parse(1, 2, bytes(&[0u8; 7])).err(),
        Some(Fail::Malformed { details: "UDP datagram too small" })
    );
    assert_eq!(
        Datagram::parse(1, 2, bytes(&[0u8; 8])).err(),
        Some(Fail::OutOfRange { details: "port number may not be zero" })
    );
}

#[test]
fn length_field_of_an_oversized_datagram_is_zero() {
    let big = OutgoingReq {
        local: None,
        remote: Endpoint::from_octets(192, 168, 1, 2, Port::try_from(53).unwrap()),
        payload: BytesMut::zeroed(0xffff - 7).freeze(),
    };
    let mut wire = vec![0xffu8; big.compute_size()];
    big.serialize(&mut wire);
    assert_eq!(&wire[4..6], &[0, 0]);
    let fits = OutgoingReq {
        local: None,
        remote: Endpoint::from_octets(192, 168, 1, 2, Port::try_from(53).unwrap()),
        payload: BytesMut::zeroed(0xffff - 8).freeze(),
    };
    let mut wire = vec![0u8; fits.compute_size()];
    fits.serialize(&mut wire);
    assert_eq!(&wire[4..6], &[0xff, 0xff]);
}
