//! The link and IPv4 headers around what the stack sends and receives: a
//! frame is an Ethernet header, an IPv4 header without options, and the
//! bytes of a segment or datagram.

use crate::protocols::tcp::segment::{overwrite, u16_from_be, u16_to_be, u32_from_be, u32_to_be};
use crate::runtime::{Frame, Packet, PacketSerialize, IPPROTO_TCP, IPPROTO_UDP};
use crate::sync::{BufEnum, Bytes, Mbuf};
use vstd::prelude::*;

verus! {

/// How many bytes the link header takes.
pub const ETHERNET_HEADER_SIZE: usize = 14;

/// How many bytes an IPv4 header without options takes.
pub const IPV4_HEADER_SIZE: usize = 20;

/// The number by which the link header names IPv4.
pub const ETHERTYPE_IPV4: u16 = 0x0800;

/// The hop limit that outgoing packets start with.
pub const DEFAULT_TTL: u8 = 64;

/// The largest number that the length field of IPv4 holds.
pub const MAX_IPV4_LENGTH: usize = 0xffff;

/// The 16-bit word at place `i` of `bytes`, highest byte first; a byte that
/// is missing at the end counts as zero.
pub open spec fn word_at(bytes: Seq<u8>, i: int) -> nat {
    if 2 * i + 1 < bytes.len() {
        (bytes[2 * i] * 0x100 + bytes[2 * i + 1]) as nat
    } else {
        (bytes[2 * i] * 0x100) as nat
    }
}

/// How many 16-bit words `bytes` take.
pub open spec fn word_count(bytes: Seq<u8>) -> nat {
    ((bytes.len() + 1) / 2) as nat
}

/// The sum of the first `n` words of `bytes`.
pub open spec fn word_sum(bytes: Seq<u8>, n: nat) -> nat
    decreases n,
{
    if n == 0 {
        0
    } else {
        word_sum(bytes, (n - 1) as nat) + word_at(bytes, n - 1)
    }
}

/// `sum` with what lies above its lowest sixteen bits added to them, again
/// and again until nothing lies above.
pub open spec fn end_around(sum: nat) -> nat
    decreases sum,
{
    if sum <= 0xffff {
        sum
    } else {
        end_around(sum % 0x1_0000 + sum / 0x1_0000)
    }
}

/// The Internet checksum of `bytes`: the complement of the sum of their
/// words, carries added back in.
pub open spec fn spec_checksum(bytes: Seq<u8>) -> u16 {
    (0xffff - end_around(word_sum(bytes, word_count(bytes)))) as u16
}

/// The Internet checksum of `header`.
pub fn checksum(header: &[u8]) -> (sum: u16)
    ensures
        sum == spec_checksum(header@),
{
    let words: usize = header.len() / 2;
    let mut sum: u128 = 0;
    let mut i: usize = 0;
    while i < words
        invariant
            words == header@.len() / 2,
            2 * words <= header@.len() <= usize::MAX,
            i <= words,
            sum == word_sum(header@, i as nat),
            sum <= i * 0xffff,
        decreases words - i,
    {
        let hi: u128 = header[2 * i] as u128;
        let lo: u128 = header[2 * i + 1] as u128;
        sum = sum + hi * 0x100 + lo;
        i = i + 1;
    }
    if header.len() % 2 == 1 {
        let hi: u128 = header[header.len() - 1] as u128;
        sum = sum + hi * 0x100;
    }
    assert(sum == word_sum(header@, word_count(header@)));
    while sum > 0xffff
        invariant
            end_around(sum as nat) == end_around(word_sum(header@, word_count(header@))),
        decreases sum,
    {
        sum = sum % 0x1_0000 + sum / 0x1_0000;
    }
    let folded: u16 = sum as u16;
    0xffff - folded
}

/// What a link frame holds for the stack: the protocol number, the
/// addresses it travels between, and where in the frame the bytes of the
/// segment or datagram begin and end.
#[derive(Clone, Copy, Debug, PartialEq, Eq, Structural)]
pub struct FrameParts {
    pub protocol: u8,
    pub src_addr: u32,
    pub dst_addr: u32,
    /// Where the payload of IPv4 begins.
    pub begin: usize,
    /// Where the packet ends; what follows is padding of the link.
    pub end: usize,
}

/// What the stack is to look at in the link frame `bytes`, where the frame
/// carries a sound IPv4 packet for the address `local_addr`: its header has
/// the version 4 and a length that the packet holds, the packet has a
/// length that the frame holds, and the header's checksum comes to zero.
pub open spec fn spec_read_frame(bytes: Seq<u8>, local_addr: u32) -> Option<FrameParts> {
    if bytes.len() < ETHERNET_HEADER_SIZE + IPV4_HEADER_SIZE {
        None
    } else if u16_from_be(bytes[12], bytes[13]) != ETHERTYPE_IPV4 {
        None
    } else {
        let version = bytes[14] / 16;
        let header_len = (bytes[14] % 16) * 4;
        let total = u16_from_be(bytes[16], bytes[17]);
        if version != 4 || header_len < IPV4_HEADER_SIZE || total < header_len || total
            > bytes.len() - ETHERNET_HEADER_SIZE {
            None
        } else if spec_checksum(
            bytes.subrange(ETHERNET_HEADER_SIZE as int, ETHERNET_HEADER_SIZE + header_len),
        ) != 0 {
            None
        } else if u32_from_be(bytes[30], bytes[31], bytes[32], bytes[33]) != local_addr {
            None
        } else {
            Some(
                FrameParts {
                    protocol: bytes[23],
                    src_addr: u32_from_be(bytes[26], bytes[27], bytes[28], bytes[29]),
                    dst_addr: local_addr,
                    begin: (ETHERNET_HEADER_SIZE + header_len) as usize,
                    end: (ETHERNET_HEADER_SIZE + total) as usize,
                },
            )
        }
    }
}

/// Reads the link frame `bytes`. Nothing comes back where the frame does
/// not carry a sound IPv4 packet for `local_addr`.
pub fn read_frame(bytes: &[u8], local_addr: u32) -> (parts: Option<FrameParts>)
    ensures
        parts == spec_read_frame(bytes@, local_addr),
        parts matches Some(p) ==> p.begin <= p.end <= bytes@.len(),
{
    if bytes.len() < ETHERNET_HEADER_SIZE + IPV4_HEADER_SIZE {
        return None;
    }
    let ether_type: u16 = bytes[12] as u16 * 0x100 + bytes[13] as u16;
    if ether_type != ETHERTYPE_IPV4 {
        return None;
    }
    let version: u8 = bytes[14] / 16;
    let header_len: usize = (bytes[14] % 16) as usize * 4;
    let total: usize = bytes[16] as usize * 0x100 + bytes[17] as usize;
    if version != 4 || header_len < IPV4_HEADER_SIZE || total < header_len || total > bytes.len()
        - ETHERNET_HEADER_SIZE {
        return None;
    }
    let header = &bytes[ETHERNET_HEADER_SIZE..ETHERNET_HEADER_SIZE + header_len];
    if checksum(header) != 0 {
        return None;
    }
    let src_addr: u32 = bytes[26] as u32 * 0x100_0000 + bytes[27] as u32 * 0x1_0000 + bytes[28] as u32
        * 0x100 + bytes[29] as u32;
    let dst_addr: u32 = bytes[30] as u32 * 0x100_0000 + bytes[31] as u32 * 0x1_0000 + bytes[32] as u32
        * 0x100 + bytes[33] as u32;
    if dst_addr != local_addr {
        return None;
    }
    Some(
        FrameParts {
            protocol: bytes[23],
            src_addr,
            dst_addr,
            begin: ETHERNET_HEADER_SIZE + header_len,
            end: ETHERNET_HEADER_SIZE + total,
        },
    )
}

/// Makes of the link frame `bytes`, which the driver knows by `handle`,
/// what the stack is to look at: the bytes of the segment or datagram as a
/// view into the driver's buffer, without headers and padding. Nothing
/// comes back where the frame does not carry a sound IPv4 packet for
/// `local_addr`.
pub fn frame_from_link(handle: u64, bytes: Vec<u8>, local_addr: u32) -> (frame: Option<Frame>)
    ensures
        match spec_read_frame(bytes@, local_addr) {
            Some(parts) => {
                &&& frame matches Some(f)
                &&& f.protocol == parts.protocol
                &&& f.src_addr == parts.src_addr
                &&& f.dst_addr == parts.dst_addr
                &&& f.payload@ == bytes@.subrange(parts.begin as int, parts.end as int)
                &&& f.payload.backing() matches Some(BufEnum::DPDK(m)) && m.spec_handle()
                    == handle
            },
            None => frame is None,
        },
{
    let parts = match read_frame(bytes.as_slice(), local_addr) {
        Some(parts) => parts,
        None => {
            return None;
        },
    };
    let ghost all = bytes@;
    let mut room = Mbuf::new(handle, bytes);
    let cut: usize = room.len() - parts.end;
    room.trim(cut);
    room.adjust(parts.begin);
    assert(room@ =~= all.subrange(parts.begin as int, parts.end as int));
    Some(
        Frame {
            protocol: parts.protocol,
            src_addr: parts.src_addr,
            dst_addr: parts.dst_addr,
            payload: Bytes::from_obj(BufEnum::DPDK(room)),
        },
    )
}

/// The bytes of `packet` behind the IPv4 header.
pub open spec fn packet_wire(packet: Packet) -> Seq<u8> {
    match packet {
        Packet::Tcp(segment) => segment.wire(),
        Packet::Udp(datagram) => datagram.wire(),
    }
}

/// The protocol number of `packet` and the addresses that it travels
/// between. A datagram of a socket that is not bound leaves from
/// `local_addr`.
pub open spec fn packet_route(packet: Packet, local_addr: u32) -> (u8, u32, u32) {
    match packet {
        Packet::Tcp(segment) => (IPPROTO_TCP, segment.src.addr, segment.dst.addr),
        Packet::Udp(datagram) => (
            IPPROTO_UDP,
            match datagram.local {
                Some(local) => local.addr,
                None => local_addr,
            },
            datagram.remote.addr,
        ),
    }
}

/// The protocol number of `packet` and the addresses that it travels
/// between.
pub fn route(packet: &Packet, local_addr: u32) -> (way: (u8, u32, u32))
    ensures
        way == packet_route(*packet, local_addr),
{
    match packet {
        Packet::Tcp(segment) => (IPPROTO_TCP, segment.src.address(), segment.dst.address()),
        Packet::Udp(datagram) => {
            let src = match datagram.local {
                Some(local) => local.address(),
                None => local_addr,
            };
            (IPPROTO_UDP, src, datagram.remote.address())
        },
    }
}

/// How many bytes `packet` takes on the link, headers and all. Nothing
/// where the packet is too large for the length field of IPv4.
pub fn frame_size(packet: &Packet) -> (size: Option<usize>)
    ensures
        size == (if IPV4_HEADER_SIZE + packet_wire(*packet).len() <= MAX_IPV4_LENGTH {
            Some((ETHERNET_HEADER_SIZE + IPV4_HEADER_SIZE + packet_wire(*packet).len()) as usize)
        } else {
            None
        }),
{
    let data: usize = match packet {
        Packet::Tcp(segment) => segment.payload.len(),
        Packet::Udp(datagram) => datagram.payload.len(),
    };
    if data > MAX_IPV4_LENGTH {
        return None;
    }
    let wire: usize = match packet {
        Packet::Tcp(segment) => segment.compute_size(),
        Packet::Udp(datagram) => datagram.compute_size(),
    };
    if wire > MAX_IPV4_LENGTH - IPV4_HEADER_SIZE {
        return None;
    }
    Some(ETHERNET_HEADER_SIZE + IPV4_HEADER_SIZE + wire)
}

/// The link header of a frame that carries IPv4 from `src_mac` to
/// `dst_mac`.
pub open spec fn ethernet_header(dst_mac: Seq<u8>, src_mac: Seq<u8>) -> Seq<u8> {
    dst_mac + src_mac + u16_to_be(ETHERTYPE_IPV4)
}

/// An IPv4 header without options for a packet of `total` bytes, its
/// checksum field left at zero.
pub open spec fn ipv4_header_unsummed(protocol: u8, src: u32, dst: u32, total: u16) -> Seq<u8> {
    seq![0x45u8, 0u8] + u16_to_be(total) + seq![0u8, 0u8, 0u8, 0u8, DEFAULT_TTL, protocol, 0u8, 0u8]
        + u32_to_be(src) + u32_to_be(dst)
}

/// An IPv4 header without options for a packet of `total` bytes.
pub open spec fn ipv4_header(protocol: u8, src: u32, dst: u32, total: u16) -> Seq<u8> {
    let unsummed = ipv4_header_unsummed(protocol, src, dst, total);
    overwrite(unsummed, 10, u16_to_be(spec_checksum(unsummed)))
}

/// The frame that carries `packet` from `src_mac` to `dst_mac`.
pub open spec fn frame_bytes(
    packet: Packet,
    local_addr: u32,
    src_mac: Seq<u8>,
    dst_mac: Seq<u8>,
) -> Seq<u8> {
    let way = packet_route(packet, local_addr);
    let payload = packet_wire(packet);
    ethernet_header(dst_mac, src_mac) + ipv4_header(
        way.0,
        way.1,
        way.2,
        (IPV4_HEADER_SIZE + payload.len()) as u16,
    ) + payload
}

/// Adding the carries back in leaves a number between one and `0xffff`
/// that has the remainder of the sum by `0xffff`; only the sum zero comes
/// to zero.
pub proof fn lemma_end_around(sum: nat)
    ensures
        end_around(sum) <= 0xffff,
        end_around(sum) % 0xffff == sum % 0xffff,
        sum > 0 ==> end_around(sum) > 0,
    decreases sum,
{
    if sum > 0xffff {
        let high = sum / 0x1_0000;
        let low = sum % 0x1_0000;
        lemma_end_around(low + high);
        assert(sum == 0xffff * high + (low + high));
        vstd::arithmetic::div_mod::lemma_mod_multiples_vanish(
            high as int,
            (low + high) as int,
            0xffff,
        );
    }
}

/// A sum to which the complement of its own folding is added folds to
/// `0xffff`: a header with its checksum in place sums up to nothing.
pub proof fn lemma_complement_cancels(sum: nat)
    requires
        sum > 0,
    ensures
        end_around((sum + (0xffff - end_around(sum))) as nat) == 0xffff,
{
    lemma_end_around(sum);
    let folded = end_around(sum);
    let whole = (sum + (0xffff - folded)) as nat;
    lemma_end_around(whole);
    let k = sum / 0xffff;
    let j = folded / 0xffff;
    assert(sum == 0xffff * k + sum % 0xffff);
    assert(folded == 0xffff * j + folded % 0xffff);
    assert(whole == 0xffff * (k - j + 1) + 0);
    vstd::arithmetic::div_mod::lemma_mod_multiples_vanish(k - j + 1, 0, 0xffff);
    assert(whole % 0xffff == 0);
    let again = end_around(whole);
    assert(0 < again <= 0xffff && again % 0xffff == 0);
}

/// The checksum of an IPv4 header that carries its checksum is zero.
pub proof fn lemma_header_sums_to_zero(protocol: u8, src: u32, dst: u32, total: u16)
    ensures
        ipv4_header(protocol, src, dst, total).len() == IPV4_HEADER_SIZE,
        spec_checksum(ipv4_header(protocol, src, dst, total)) == 0,
{
    let unsummed = ipv4_header_unsummed(protocol, src, dst, total);
    let sum = spec_checksum(unsummed);
    let header = ipv4_header(protocol, src, dst, total);
    assert(unsummed.len() == 20);
    assert(header.len() == 20);
    reveal_with_fuel(word_sum, 11);
    let before = word_sum(unsummed, 10);
    assert(unsummed[0] == 0x45);
    assert(before >= 0x4500);
    lemma_end_around(before);
    assert(word_at(unsummed, 5) == 0);
    assert(word_at(header, 5) == sum) by {
        assert(header[10] == u16_to_be(sum)[0]);
        assert(header[11] == u16_to_be(sum)[1]);
    }
    assert forall|i: int| 0 <= i < 10 && i != 5 implies word_at(header, i) == word_at(
        unsummed,
        i,
    ) by {
        assert(header[2 * i] == unsummed[2 * i]);
        assert(header[2 * i + 1] == unsummed[2 * i + 1]);
    }
    assert(word_sum(header, 10) == before + sum);
    lemma_complement_cancels(before);
}

/// What is written is read back: the frame of a packet that fits the
/// length field of IPv4, read at the address the packet is for, shows the
/// protocol and the addresses of the packet, and its bytes lie behind the
/// two headers.
pub proof fn lemma_frame_is_read_back(
    packet: Packet,
    local_addr: u32,
    src_mac: Seq<u8>,
    dst_mac: Seq<u8>,
)
    requires
        src_mac.len() == 6,
        dst_mac.len() == 6,
        IPV4_HEADER_SIZE + packet_wire(packet).len() <= MAX_IPV4_LENGTH,
    ensures
        ({
            let bytes = frame_bytes(packet, local_addr, src_mac, dst_mac);
            let way = packet_route(packet, local_addr);
            &&& bytes.len() == ETHERNET_HEADER_SIZE + IPV4_HEADER_SIZE + packet_wire(packet).len()
            &&& spec_read_frame(bytes, way.2) == Some(
                FrameParts {
                    protocol: way.0,
                    src_addr: way.1,
                    dst_addr: way.2,
                    begin: (ETHERNET_HEADER_SIZE + IPV4_HEADER_SIZE) as usize,
                    end: bytes.len() as usize,
                },
            )
            &&& bytes.subrange(
                (ETHERNET_HEADER_SIZE + IPV4_HEADER_SIZE) as int,
                bytes.len() as int,
            ) == packet_wire(packet)
        }),
{
    let way = packet_route(packet, local_addr);
    let payload = packet_wire(packet);
    let total = (IPV4_HEADER_SIZE + payload.len()) as u16;
    let link = ethernet_header(dst_mac, src_mac);
    lemma_header_fields(way.0, way.1, way.2, total);
    assert(link.len() == 14);
    assert(link[12] == u16_to_be(ETHERTYPE_IPV4)[0]);
    assert(link[13] == u16_to_be(ETHERTYPE_IPV4)[1]);
    lemma_parts_are_read(link, ipv4_header(way.0, way.1, way.2, total), payload);
}

/// What the fields of an IPv4 header hold.
proof fn lemma_header_fields(protocol: u8, src: u32, dst: u32, total: u16)
    ensures
        ({
            let header = ipv4_header(protocol, src, dst, total);
            &&& header.len() == IPV4_HEADER_SIZE
            &&& header[0] == 0x45
            &&& u16_from_be(header[2], header[3]) == total
            &&& header[9] == protocol
            &&& u32_from_be(header[12], header[13], header[14], header[15]) == src
            &&& u32_from_be(header[16], header[17], header[18], header[19]) == dst
            &&& spec_checksum(header) == 0
        }),
{
    let header = ipv4_header(protocol, src, dst, total);
    let unsummed = ipv4_header_unsummed(protocol, src, dst, total);
    lemma_header_sums_to_zero(protocol, src, dst, total);
    assert(unsummed.len() == 20);
    assert(unsummed[0] == 0x45);
    assert(unsummed[2] == u16_to_be(total)[0]);
    assert(unsummed[3] == u16_to_be(total)[1]);
    assert(unsummed[9] == protocol);
    assert(unsummed[12] == u32_to_be(src)[0]);
    assert(unsummed[13] == u32_to_be(src)[1]);
    assert(unsummed[14] == u32_to_be(src)[2]);
    assert(unsummed[15] == u32_to_be(src)[3]);
    assert(unsummed[16] == u32_to_be(dst)[0]);
    assert(unsummed[17] == u32_to_be(dst)[1]);
    assert(unsummed[18] == u32_to_be(dst)[2]);
    assert(unsummed[19] == u32_to_be(dst)[3]);
    assert(header[0] == unsummed[0]);
    assert(header[2] == unsummed[2]);
    assert(header[3] == unsummed[3]);
    assert(header[9] == unsummed[9]);
    assert(header[12] == unsummed[12]);
    assert(header[13] == unsummed[13]);
    assert(header[14] == unsummed[14]);
    assert(header[15] == unsummed[15]);
    assert(header[16] == unsummed[16]);
    assert(header[17] == unsummed[17]);
    assert(header[18] == unsummed[18]);
    assert(header[19] == unsummed[19]);
    crate::protocols::tcp::segment::lemma_u16_reads_as_written(total);
    crate::protocols::tcp::segment::lemma_u32_reads_as_written(src);
    crate::protocols::tcp::segment::lemma_u32_reads_as_written(dst);
}

/// A frame of a link header that names IPv4, a sound IPv4 header without
/// options and the bytes that the header counts is read as those parts.
proof fn lemma_parts_are_read(link: Seq<u8>, header: Seq<u8>, payload: Seq<u8>)
    requires
        link.len() == ETHERNET_HEADER_SIZE,
        link[12] == 0x08,
        link[13] == 0x00,
        header.len() == IPV4_HEADER_SIZE,
        header[0] == 0x45,
        u16_from_be(header[2], header[3]) == IPV4_HEADER_SIZE + payload.len(),
        spec_checksum(header) == 0,
    ensures
        ({
            let bytes = link + header + payload;
            &&& bytes.len() == ETHERNET_HEADER_SIZE + IPV4_HEADER_SIZE + payload.len()
            &&& spec_read_frame(
                bytes,
                u32_from_be(header[16], header[17], header[18], header[19]),
            ) == Some(
                FrameParts {
                    protocol: header[9],
                    src_addr: u32_from_be(header[12], header[13], header[14], header[15]),
                    dst_addr: u32_from_be(header[16], header[17], header[18], header[19]),
                    begin: (ETHERNET_HEADER_SIZE + IPV4_HEADER_SIZE) as usize,
                    end: bytes.len() as usize,
                },
            )
            &&& bytes.subrange(
                (ETHERNET_HEADER_SIZE + IPV4_HEADER_SIZE) as int,
                bytes.len() as int,
            ) == payload
        }),
{
    let bytes = link + header + payload;
    assert(bytes.len() == 34 + payload.len());
    assert(bytes[12] == link[12]);
    assert(bytes[13] == link[13]);
    assert(bytes[14] == header[0]);
    assert(bytes[16] == header[2]);
    assert(bytes[17] == header[3]);
    assert(bytes[23] == header[9]);
    assert(bytes[26] == header[12]);
    assert(bytes[27] == header[13]);
    assert(bytes[28] == header[14]);
    assert(bytes[29] == header[15]);
    assert(bytes[30] == header[16]);
    assert(bytes[31] == header[17]);
    assert(bytes[32] == header[18]);
    assert(bytes[33] == header[19]);
    assert(u16_from_be(bytes[12], bytes[13]) == ETHERTYPE_IPV4);
    assert(bytes[14] / 16 == 4 && (bytes[14] % 16) * 4 == 20);
    assert(bytes.subrange(14, 34) =~= header);
    assert(bytes.subrange(34, bytes.len() as int) =~= payload);
}

/// The thirty-four bytes of the two headers of a frame.
fn headers(
    protocol: u8,
    src: u32,
    dst: u32,
    total: u16,
    src_mac: &[u8; 6],
    dst_mac: &[u8; 6],
) -> (bytes: Vec<u8>)
    ensures
        bytes@ == ethernet_header(dst_mac@, src_mac@) + ipv4_header(protocol, src, dst, total),
        bytes@.len() == ETHERNET_HEADER_SIZE + IPV4_HEADER_SIZE,
{
    let mut ip: Vec<u8> = Vec::new();
    ip.push(0x45);
    ip.push(0);
    ip.push((total / 0x100) as u8);
    ip.push((total % 0x100) as u8);
    ip.push(0);
    ip.push(0);
    ip.push(0);
    ip.push(0);
    ip.push(DEFAULT_TTL);
    ip.push(protocol);
    ip.push(0);
    ip.push(0);
    ip.push((src / 0x100_0000) as u8);
    ip.push((src / 0x1_0000 % 0x100) as u8);
    ip.push((src / 0x100 % 0x100) as u8);
    ip.push((src % 0x100) as u8);
    ip.push((dst / 0x100_0000) as u8);
    ip.push((dst / 0x1_0000 % 0x100) as u8);
    ip.push((dst / 0x100 % 0x100) as u8);
    ip.push((dst % 0x100) as u8);
    assert(ip@ =~= ipv4_header_unsummed(protocol, src, dst, total));
    let sum: u16 = checksum(ip.as_slice());
    ip.set(10, (sum / 0x100) as u8);
    ip.set(11, (sum % 0x100) as u8);
    assert(ip@ =~= ipv4_header(protocol, src, dst, total));
    let mut bytes: Vec<u8> = Vec::new();
    let mut i: usize = 0;
    while i < 6
        invariant
            i <= 6,
            bytes@ == dst_mac@.take(i as int),
        decreases 6 - i,
    {
        bytes.push(dst_mac[i]);
        assert(bytes@ =~= dst_mac@.take(i + 1));
        i = i + 1;
    }
    assert(dst_mac@.take(6) =~= dst_mac@);
    let mut i: usize = 0;
    while i < 6
        invariant
            i <= 6,
            bytes@ == dst_mac@ + src_mac@.take(i as int),
        decreases 6 - i,
    {
        bytes.push(src_mac[i]);
        assert(bytes@ =~= dst_mac@ + src_mac@.take(i + 1));
        i = i + 1;
    }
    assert(src_mac@.take(6) =~= src_mac@);
    bytes.push((ETHERTYPE_IPV4 / 0x100) as u8);
    bytes.push((ETHERTYPE_IPV4 % 0x100) as u8);
    assert(bytes@ =~= ethernet_header(dst_mac@, src_mac@));
    let mut i: usize = 0;
    while i < 20
        invariant
            i <= 20,
            ip@.len() == 20,
            bytes@ == ethernet_header(dst_mac@, src_mac@) + ip@.take(i as int),
        decreases 20 - i,
    {
        bytes.push(ip[i]);
        assert(bytes@ =~= ethernet_header(dst_mac@, src_mac@) + ip@.take(i + 1));
        i = i + 1;
    }
    assert(ip@.take(20) =~= ip@);
    bytes
}

/// Writes the frame that carries `packet` from `src_mac` to `dst_mac` into
/// `out`, which has the size that `frame_size` gave.
pub fn write_frame(
    packet: &Packet,
    local_addr: u32,
    src_mac: &[u8; 6],
    dst_mac: &[u8; 6],
    out: &mut [u8],
)
    requires
        IPV4_HEADER_SIZE + packet_wire(*packet).len() <= MAX_IPV4_LENGTH,
        old(out)@.len() == ETHERNET_HEADER_SIZE + IPV4_HEADER_SIZE + packet_wire(*packet).len(),
    ensures
        final(out)@ == frame_bytes(*packet, local_addr, src_mac@, dst_mac@),
{
    let way = route(packet, local_addr);
    let total: u16 = (out.len() - ETHERNET_HEADER_SIZE) as u16;
    let front = headers(way.0, way.1, way.2, total, src_mac, dst_mac);
    let (head, payload) = out.split_at_mut(ETHERNET_HEADER_SIZE + IPV4_HEADER_SIZE);
    let mut i: usize = 0;
    while i < front.len()
        invariant
            i <= front@.len(),
            head@.len() == front@.len(),
            forall|j: int| 0 <= j < i ==> head@[j] == front@[j],
        decreases front@.len() - i,
    {
        head[i] = front[i];
        i = i + 1;
    }
    assert(head@ =~= front@);
    match packet {
        Packet::Tcp(segment) => segment.serialize(payload),
        Packet::Udp(datagram) => datagram.serialize(payload),
    }
    assert(out@ =~= head@ + payload@);
}

} // verus!
