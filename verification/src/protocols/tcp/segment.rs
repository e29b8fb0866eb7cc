//! The TCP header on the wire: readers and writers of its fields over a
//! borrowed byte range.

use crate::fail::Fail;
use crate::protocols::ip::Port;
use crate::protocols::ipv4::Endpoint;
use crate::runtime::PacketSerialize;
use crate::sync::Bytes;
use vstd::prelude::*;

verus! {

pub const MIN_TCP_HEADER_SIZE: usize = 20;

pub const MAX_TCP_HEADER_SIZE: usize = 60;
/// The bit of byte 12 that says: the ECN nonce sum.
pub const NS: u8 = 0x01;
/// The bit of byte 13 that says: congestion window reduced.
pub const CWR: u8 = 0x80;
/// The bit of byte 13 that says: ECN echo.
pub const ECE: u8 = 0x40;
/// The bit of byte 13 that says: the urgent pointer counts.
pub const URG: u8 = 0x20;
/// The bit of byte 13 that says: the acknowledgment number counts.
pub const ACK: u8 = 0x10;
/// The bit of byte 13 that says: push the data to the application.
pub const PSH: u8 = 0x08;
/// The bit of byte 13 that says: reset the connection.
pub const RST: u8 = 0x04;
/// The bit of byte 13 that says: synchronise sequence numbers.
pub const SYN: u8 = 0x02;
/// The bit of byte 13 that says: the sender has no more data.
pub const FIN: u8 = 0x01;
/// The 16-bit number whose bytes, highest first, are `hi` and `lo`.
pub open spec fn u16_from_be(hi: u8, lo: u8) -> u16 {
    (hi * 0x100 + lo) as u16
}

/// The 32-bit number whose bytes, highest first, are `b0` to `b3`.
pub open spec fn u32_from_be(b0: u8, b1: u8, b2: u8, b3: u8) -> u32 {
    (b0 * 0x100_0000 + b1 * 0x1_0000 + b2 * 0x100 + b3) as u32
}

/// The two bytes of `value`, highest first.
pub open spec fn u16_to_be(value: u16) -> Seq<u8> {
    seq![(value / 0x100) as u8, (value % 0x100) as u8]
}

/// The four bytes of `value`, highest first.
pub open spec fn u32_to_be(value: u32) -> Seq<u8> {
    seq![
        (value / 0x100_0000) as u8,
        (value / 0x1_0000 % 0x100) as u8,
        (value / 0x100 % 0x100) as u8,
        (value % 0x100) as u8,
    ]
}

/// The bytes `s` with `bytes` written over them from position `at` on.
pub open spec fn overwrite(s: Seq<u8>, at: int, bytes: Seq<u8>) -> Seq<u8> {
    Seq::new(
        s.len(),
        |i: int|
            if at <= i < at + bytes.len() {
                bytes[i - at]
            } else {
                s[i]
            },
    )
}

/// Whether the bit `mask` of `byte` is set.
pub open spec fn has_flag(byte: u8, mask: u8) -> bool {
    byte & mask != 0
}

/// `byte` with its bit `mask` set or cleared.
pub open spec fn with_flag(byte: u8, mask: u8, value: bool) -> u8 {
    if value {
        byte | mask
    } else {
        byte & !mask
    }
}

/// The header length in bytes that the data-offset field of `byte` gives.
pub open spec fn header_len_of(byte: u8) -> int {
    (byte >> 4) * 4
}

/// How many 32-bit words a header of `value` bytes takes.
pub open spec fn header_words(value: int) -> int {
    (value + 3) / 4
}

/// The big-endian number in the first two bytes of `buf`.
pub(crate) fn read_u16(buf: &[u8]) -> (value: u16)
    requires
        buf@.len() >= 2,
    ensures
        value == u16_from_be(buf@[0], buf@[1]),
{
    buf[0] as u16 * 0x100 + buf[1] as u16
}

/// The big-endian number in the first four bytes of `buf`.
fn read_u32(buf: &[u8]) -> (value: u32)
    requires
        buf@.len() >= 4,
    ensures
        value == u32_from_be(buf@[0], buf@[1], buf@[2], buf@[3]),
{
    buf[0] as u32 * 0x100_0000 + buf[1] as u32 * 0x1_0000 + buf[2] as u32 * 0x100 + buf[3] as u32
}

/// Writes the bytes of `value`, highest first, into the first two bytes of
/// `buf`; the rest of `buf` stays.
pub(crate) fn write_u16(buf: &mut [u8], value: u16)
    requires
        old(buf)@.len() >= 2,
    ensures
        final(buf)@ == overwrite(old(buf)@, 0, u16_to_be(value)),
{
    buf[0] = (value / 0x100) as u8;
    buf[1] = (value % 0x100) as u8;
    assert(buf@ =~= overwrite(old(buf)@, 0, u16_to_be(value)));
}

/// Writes the bytes of `value`, highest first, into the first four bytes of
/// `buf`; the rest of `buf` stays.
fn write_u32(buf: &mut [u8], value: u32)
    requires
        old(buf)@.len() >= 4,
    ensures
        final(buf)@ == overwrite(old(buf)@, 0, u32_to_be(value)),
{
    buf[0] = (value / 0x100_0000) as u8;
    buf[1] = (value / 0x1_0000 % 0x100) as u8;
    buf[2] = (value / 0x100 % 0x100) as u8;
    buf[3] = (value % 0x100) as u8;
    assert(buf@ =~= overwrite(old(buf)@, 0, u32_to_be(value)));
}

/// A TCP header to read, over the bytes that hold it.
pub struct TcpHeader<'a>(pub &'a [u8]);

impl<'a> TcpHeader<'a> {
    pub fn new(bytes: &'a [u8]) -> (header: TcpHeader<'a>)
        requires
            MIN_TCP_HEADER_SIZE <= bytes@.len() <= MAX_TCP_HEADER_SIZE,
        ensures
            header.0@ == bytes@,
    {
        TcpHeader(bytes)
    }

    pub fn as_bytes(&self) -> (bytes: &[u8])
        ensures
            bytes@ == self.0@,
    {
        self.0
    }

    /// Reads the port that the segment comes from.
    pub fn src_port(&self) -> (value: u16)
        requires
            MIN_TCP_HEADER_SIZE <= self.0@.len(),
        ensures
            value == u16_from_be(self.0@[0], self.0@[1]),
    {
        read_u16(&self.0[0..2])
    }

    /// Reads the port that the segment goes to.
    pub fn dest_port(&self) -> (value: u16)
        requires
            MIN_TCP_HEADER_SIZE <= self.0@.len(),
        ensures
            value == u16_from_be(self.0@[2], self.0@[3]),
    {
        read_u16(&self.0[2..4])
    }

    /// Reads the sequence number of the first byte of data.
    pub fn seq_num(&self) -> (value: u32)
        requires
            MIN_TCP_HEADER_SIZE <= self.0@.len(),
        ensures
            value == u32_from_be(self.0@[4], self.0@[5], self.0@[6], self.0@[7]),
    {
        read_u32(&self.0[4..8])
    }

    /// Reads the sequence number that the sender expects next.
    pub fn ack_num(&self) -> (value: u32)
        requires
            MIN_TCP_HEADER_SIZE <= self.0@.len(),
        ensures
            value == u32_from_be(self.0@[8], self.0@[9], self.0@[10], self.0@[11]),
    {
        read_u32(&self.0[8..12])
    }

    /// Reads the length of the header in bytes.
    pub fn header_len(&self) -> (len: usize)
        requires
            MIN_TCP_HEADER_SIZE <= self.0@.len(),
        ensures
            len == header_len_of(self.0@[12]),
            len <= MAX_TCP_HEADER_SIZE,
    {
        let byte = self.0[12];
        assert(byte >> 4 <= 15) by (bit_vector);
        let n = (byte >> 4) as usize;
        n * 4
    }

    /// Reads the flag NS: the ECN nonce sum.
    pub fn ns(&self) -> (set: bool)
        requires
            MIN_TCP_HEADER_SIZE <= self.0@.len(),
        ensures
            set == has_flag(self.0@[12], NS),
    {
        (self.0[12] & NS) != 0u8
    }

    /// Reads the flag CWR: congestion window reduced.
    pub fn cwr(&self) -> (set: bool)
        requires
            MIN_TCP_HEADER_SIZE <= self.0@.len(),
        ensures
            set == has_flag(self.0@[13], CWR),
    {
        (self.0[13] & CWR) != 0u8
    }

    /// Reads the flag ECE: ECN echo.
    pub fn ece(&self) -> (set: bool)
        requires
            MIN_TCP_HEADER_SIZE <= self.0@.len(),
        ensures
            set == has_flag(self.0@[13], ECE),
    {
        (self.0[13] & ECE) != 0u8
    }

    /// Reads the flag URG: the urgent pointer counts.
    pub fn urg(&self) -> (set: bool)
        requires
            MIN_TCP_HEADER_SIZE <= self.0@.len(),
        ensures
            set == has_flag(self.0@[13], URG),
    {
        (self.0[13] & URG) != 0u8
    }

    /// Reads the flag ACK: the acknowledgment number counts.
    pub fn ack(&self) -> (set: bool)
        requires
            MIN_TCP_HEADER_SIZE <= self.0@.len(),
        ensures
            set == has_flag(self.0@[13], ACK),
    {
        (self.0[13] & ACK) != 0u8
    }

    /// Reads the flag PSH: push the data to the application.
    pub fn psh(&self) -> (set: bool)
        requires
            MIN_TCP_HEADER_SIZE <= self.0@.len(),
        ensures
            set == has_flag(self.0@[13], PSH),
    {
        (self.0[13] & PSH) != 0u8
    }

    /// Reads the flag RST: reset the connection.
    pub fn rst(&self) -> (set: bool)
        requires
            MIN_TCP_HEADER_SIZE <= self.0@.len(),
        ensures
            set == has_flag(self.0@[13], RST),
    {
        (self.0[13] & RST) != 0u8
    }

    /// Reads the flag SYN: synchronise sequence numbers.
    pub fn syn(&self) -> (set: bool)
        requires
            MIN_TCP_HEADER_SIZE <= self.0@.len(),
        ensures
            set == has_flag(self.0@[13], SYN),
    {
        (self.0[13] & SYN) != 0u8
    }

    /// Reads the flag FIN: the sender has no more data.
    pub fn fin(&self) -> (set: bool)
        requires
            MIN_TCP_HEADER_SIZE <= self.0@.len(),
        ensures
            set == has_flag(self.0@[13], FIN),
    {
        (self.0[13] & FIN) != 0u8
    }

    /// Reads the receive window that the sender offers.
    pub fn window_sz(&self) -> (value: u16)
        requires
            MIN_TCP_HEADER_SIZE <= self.0@.len(),
        ensures
            value == u16_from_be(self.0@[14], self.0@[15]),
    {
        read_u16(&self.0[14..16])
    }

    /// Reads the checksum.
    pub fn checksum(&self) -> (value: u16)
        requires
            MIN_TCP_HEADER_SIZE <= self.0@.len(),
        ensures
            value == u16_from_be(self.0@[16], self.0@[17]),
    {
        read_u16(&self.0[16..18])
    }

    /// Reads the urgent pointer.
    pub fn urg_ptr(&self) -> (value: u16)
        requires
            MIN_TCP_HEADER_SIZE <= self.0@.len(),
        ensures
            value == u16_from_be(self.0@[18], self.0@[19]),
    {
        read_u16(&self.0[18..20])
    }
}

/// A TCP header to write, over the bytes that hold it.
pub struct TcpHeaderMut<'a>(pub &'a mut [u8]);

impl<'a> TcpHeaderMut<'a> {
    pub fn new(bytes: &'a mut [u8]) -> (header: TcpHeaderMut<'a>)
        requires
            MIN_TCP_HEADER_SIZE <= old(bytes)@.len() <= MAX_TCP_HEADER_SIZE,
        ensures
            header.0@ == old(bytes)@,
            final(bytes)@ == final(header.0)@,
    {
        TcpHeaderMut(bytes)
    }

    pub fn as_bytes(&mut self) -> (bytes: &mut [u8])
        ensures
            bytes@ == old(self).0@,
            final(self).0@ == final(bytes)@,
            final(final(self).0)@ == final(old(self).0)@,
    {
        self.0
    }

    /// Writes the port that the segment comes from.
    pub fn src_port(&mut self, value: u16)
        requires
            MIN_TCP_HEADER_SIZE <= old(self).0@.len(),
        ensures
            final(self).0@ == overwrite(old(self).0@, 0, u16_to_be(value)),
            final(final(self).0)@ == final(old(self).0)@,
    {
        write_u16(self.0, value);
        assert(self.0@ =~= overwrite(old(self).0@, 0, u16_to_be(value)));
    }

    /// Writes the port that the segment goes to.
    pub fn dest_port(&mut self, value: u16)
        requires
            MIN_TCP_HEADER_SIZE <= old(self).0@.len(),
        ensures
            final(self).0@ == overwrite(old(self).0@, 2, u16_to_be(value)),
            final(final(self).0)@ == final(old(self).0)@,
    {
        let (_, tail) = self.0.split_at_mut(2);
        write_u16(tail, value);
        assert(self.0@ =~= overwrite(old(self).0@, 2, u16_to_be(value)));
    }

    /// Writes the sequence number of the first byte of data.
    pub fn seq_num(&mut self, value: u32)
        requires
            MIN_TCP_HEADER_SIZE <= old(self).0@.len(),
        ensures
            final(self).0@ == overwrite(old(self).0@, 4, u32_to_be(value)),
            final(final(self).0)@ == final(old(self).0)@,
    {
        let (_, tail) = self.0.split_at_mut(4);
        write_u32(tail, value);
        assert(self.0@ =~= overwrite(old(self).0@, 4, u32_to_be(value)));
    }

    /// Writes the sequence number that the sender expects next.
    pub fn ack_num(&mut self, value: u32)
        requires
            MIN_TCP_HEADER_SIZE <= old(self).0@.len(),
        ensures
            final(self).0@ == overwrite(old(self).0@, 8, u32_to_be(value)),
            final(final(self).0)@ == final(old(self).0)@,
    {
        let (_, tail) = self.0.split_at_mut(8);
        write_u32(tail, value);
        assert(self.0@ =~= overwrite(old(self).0@, 8, u32_to_be(value)));
    }

    /// Writes the length of the header, counted in 32-bit words and rounded
    /// up, into the data-offset field. A length outside 20 to 60 bytes is
    /// refused. The new count is joined to the bits that the field holds,
    /// and the low half of its byte is cleared.
    pub fn header_len(&mut self, value: usize) -> (done: Result<(), Fail>)
        requires
            MIN_TCP_HEADER_SIZE <= old(self).0@.len(),
        ensures
            final(final(self).0)@ == final(old(self).0)@,
            MIN_TCP_HEADER_SIZE <= value <= MAX_TCP_HEADER_SIZE ==> done == Ok::<(), Fail>(())
                && final(self).0@ == old(self).0@.update(
                12,
                (old(self).0@[12] & 0xf0) | ((header_words(value as int) as u8) << 4),
            ),
            !(MIN_TCP_HEADER_SIZE <= value <= MAX_TCP_HEADER_SIZE) ==> done == Err::<(), Fail>(
                Fail::OutOfRange { details: "TCP header length" },
            ) && final(self).0@ == old(self).0@,
    {
        if value < MIN_TCP_HEADER_SIZE {
            return Err(Fail::OutOfRange { details: "TCP header length" });
        }
        if value > MAX_TCP_HEADER_SIZE {
            return Err(Fail::OutOfRange { details: "TCP header length" });
        }
        let mut n = value / 4;
        if n * 4 != value {
            n += 1
        }
        let n = n as u8;
        self.0[12] = (self.0[12] & 0xf0) | (n << 4);
        Ok(())
    }

    /// Writes the flag NS: the ECN nonce sum.
    pub fn ns(&mut self, value: bool)
        requires
            MIN_TCP_HEADER_SIZE <= old(self).0@.len(),
        ensures
            final(self).0@ == old(self).0@.update(12, with_flag(old(self).0@[12], NS, value)),
            final(final(self).0)@ == final(old(self).0)@,
    {
        if value {
            self.0[12] = self.0[12] | NS;
        } else {
            self.0[12] = self.0[12] & !NS;
        }
    }

    /// Writes the flag CWR: congestion window reduced.
    pub fn cwr(&mut self, value: bool)
        requires
            MIN_TCP_HEADER_SIZE <= old(self).0@.len(),
        ensures
            final(self).0@ == old(self).0@.update(13, with_flag(old(self).0@[13], CWR, value)),
            final(final(self).0)@ == final(old(self).0)@,
    {
        if value {
            self.0[13] = self.0[13] | CWR;
        } else {
            self.0[13] = self.0[13] & !CWR;
        }
    }

    /// Writes the flag ECE: ECN echo.
    pub fn ece(&mut self, value: bool)
        requires
            MIN_TCP_HEADER_SIZE <= old(self).0@.len(),
        ensures
            final(self).0@ == old(self).0@.update(13, with_flag(old(self).0@[13], ECE, value)),
            final(final(self).0)@ == final(old(self).0)@,
    {
        if value {
            self.0[13] = self.0[13] | ECE;
        } else {
            self.0[13] = self.0[13] & !ECE;
        }
    }

    /// Writes the flag URG: the urgent pointer counts.
    pub fn urg(&mut self, value: bool)
        requires
            MIN_TCP_HEADER_SIZE <= old(self).0@.len(),
        ensures
            final(self).0@ == old(self).0@.update(13, with_flag(old(self).0@[13], URG, value)),
            final(final(self).0)@ == final(old(self).0)@,
    {
        if value {
            self.0[13] = self.0[13] | URG;
        } else {
            self.0[13] = self.0[13] & !URG;
        }
    }

    /// Writes the flag ACK: the acknowledgment number counts.
    pub fn ack(&mut self, value: bool)
        requires
            MIN_TCP_HEADER_SIZE <= old(self).0@.len(),
        ensures
            final(self).0@ == old(self).0@.update(13, with_flag(old(self).0@[13], ACK, value)),
            final(final(self).0)@ == final(old(self).0)@,
    {
        if value {
            self.0[13] = self.0[13] | ACK;
        } else {
            self.0[13] = self.0[13] & !ACK;
        }
    }

    /// Writes the flag PSH: push the data to the application.
    pub fn psh(&mut self, value: bool)
        requires
            MIN_TCP_HEADER_SIZE <= old(self).0@.len(),
        ensures
            final(self).0@ == old(self).0@.update(13, with_flag(old(self).0@[13], PSH, value)),
            final(final(self).0)@ == final(old(self).0)@,
    {
        if value {
            self.0[13] = self.0[13] | PSH;
        } else {
            self.0[13] = self.0[13] & !PSH;
        }
    }

    /// Writes the flag RST: reset the connection.
    pub fn rst(&mut self, value: bool)
        requires
            MIN_TCP_HEADER_SIZE <= old(self).0@.len(),
        ensures
            final(self).0@ == old(self).0@.update(13, with_flag(old(self).0@[13], RST, value)),
            final(final(self).0)@ == final(old(self).0)@,
    {
        if value {
            self.0[13] = self.0[13] | RST;
        } else {
            self.0[13] = self.0[13] & !RST;
        }
    }

    /// Writes the flag SYN: synchronise sequence numbers.
    pub fn syn(&mut self, value: bool)
        requires
            MIN_TCP_HEADER_SIZE <= old(self).0@.len(),
        ensures
            final(self).0@ == old(self).0@.update(13, with_flag(old(self).0@[13], SYN, value)),
            final(final(self).0)@ == final(old(self).0)@,
    {
        if value {
            self.0[13] = self.0[13] | SYN;
        } else {
            self.0[13] = self.0[13] & !SYN;
        }
    }

    /// Writes the flag FIN: the sender has no more data.
    pub fn fin(&mut self, value: bool)
        requires
            MIN_TCP_HEADER_SIZE <= old(self).0@.len(),
        ensures
            final(self).0@ == old(self).0@.update(13, with_flag(old(self).0@[13], FIN, value)),
            final(final(self).0)@ == final(old(self).0)@,
    {
        if value {
            self.0[13] = self.0[13] | FIN;
        } else {
            self.0[13] = self.0[13] & !FIN;
        }
    }

    /// Writes the receive window that the sender offers.
    pub fn window_sz(&mut self, value: u16)
        requires
            MIN_TCP_HEADER_SIZE <= old(self).0@.len(),
        ensures
            final(self).0@ == overwrite(old(self).0@, 14, u16_to_be(value)),
            final(final(self).0)@ == final(old(self).0)@,
    {
        let (_, tail) = self.0.split_at_mut(14);
        write_u16(tail, value);
        assert(self.0@ =~= overwrite(old(self).0@, 14, u16_to_be(value)));
    }

    /// Writes the checksum.
    pub fn checksum(&mut self, value: u16)
        requires
            MIN_TCP_HEADER_SIZE <= old(self).0@.len(),
        ensures
            final(self).0@ == overwrite(old(self).0@, 16, u16_to_be(value)),
            final(final(self).0)@ == final(old(self).0)@,
    {
        let (_, tail) = self.0.split_at_mut(16);
        write_u16(tail, value);
        assert(self.0@ =~= overwrite(old(self).0@, 16, u16_to_be(value)));
    }

    /// Writes the urgent pointer.
    pub fn urg_ptr(&mut self, value: u16)
        requires
            MIN_TCP_HEADER_SIZE <= old(self).0@.len(),
        ensures
            final(self).0@ == overwrite(old(self).0@, 18, u16_to_be(value)),
            final(final(self).0)@ == final(old(self).0)@,
    {
        let (_, tail) = self.0.split_at_mut(18);
        write_u16(tail, value);
        assert(self.0@ =~= overwrite(old(self).0@, 18, u16_to_be(value)));
    }
}

/// A flag reads as it was written.
pub proof fn lemma_flag_reads_as_written(byte: u8, mask: u8, value: bool)
    requires
        mask != 0,
    ensures
        has_flag(with_flag(byte, mask, value), mask) == value,
{
    assert((byte | mask) & mask != 0) by (bit_vector)
        requires
            mask != 0,
    ;
    assert((byte & !mask) & mask == 0) by (bit_vector);
}

/// Writing one flag leaves every other flag of the byte as it was.
pub proof fn lemma_flag_leaves_others(byte: u8, mask: u8, value: bool, other: u8)
    requires
        mask & other == 0,
    ensures
        has_flag(with_flag(byte, mask, value), other) == has_flag(byte, other),
{
    assert((byte | mask) & other == byte & other) by (bit_vector)
        requires
            mask & other == 0,
    ;
    assert((byte & !mask) & other == byte & other) by (bit_vector)
        requires
            mask & other == 0,
    ;
}

/// A 16-bit field reads as it was written.
pub proof fn lemma_u16_reads_as_written(value: u16)
    ensures
        u16_from_be(u16_to_be(value)[0], u16_to_be(value)[1]) == value,
{
}

/// A 32-bit field reads as it was written.
pub proof fn lemma_u32_reads_as_written(value: u32)
    ensures
        u32_from_be(
            u32_to_be(value)[0],
            u32_to_be(value)[1],
            u32_to_be(value)[2],
            u32_to_be(value)[3],
        ) == value,
{
}

/// A header length written into a cleared data-offset field reads as the
/// length rounded up to whole words.
pub proof fn lemma_header_len_reads_as_written(byte: u8, value: int)
    requires
        MIN_TCP_HEADER_SIZE <= value <= MAX_TCP_HEADER_SIZE,
        byte & 0xf0 == 0,
    ensures
        header_len_of((byte & 0xf0) | ((header_words(value) as u8) << 4)) == header_words(value)
            * 4,
{
    let words = header_words(value) as u8;
    assert(5 <= words <= 15);
    assert(((byte & 0xf0) | (words << 4)) >> 4 == words) by (bit_vector)
        requires
            byte & 0xf0 == 0,
            words <= 15,
    ;
}

/// A TCP segment as plain values: the endpoints it travels between, the
/// header fields that the stack uses, and the data it carries.
#[derive(Debug)]
pub struct TcpSegment {
    pub src: Endpoint,
    pub dst: Endpoint,
    pub seq_num: u32,
    pub ack_num: u32,
    pub syn: bool,
    pub ack: bool,
    pub fin: bool,
    pub rst: bool,
    pub window_size: u16,
    pub payload: Bytes,
}

/// The flag byte of a header with the given flags.
pub open spec fn flags_byte(syn: bool, ack: bool, fin: bool, rst: bool) -> u8 {
    with_flag(with_flag(with_flag(with_flag(0, SYN, syn), ACK, ack), FIN, fin), RST, rst)
}

/// The data-offset byte of a header without options.
pub const PLAIN_DATA_OFFSET: u8 = 0x50;

impl TcpSegment {
    /// The twenty bytes of the segment's header: no options, no urgent
    /// data, the checksum left to the layer below.
    pub open spec fn header_bytes(&self) -> Seq<u8> {
        u16_to_be(self.src.port@) + u16_to_be(self.dst.port@) + u32_to_be(self.seq_num)
            + u32_to_be(self.ack_num) + seq![
            PLAIN_DATA_OFFSET,
            flags_byte(self.syn, self.ack, self.fin, self.rst),
        ] + u16_to_be(self.window_size) + seq![0u8, 0u8, 0u8, 0u8]
    }

    /// Whether `parse` reads a segment out of `bytes`: they hold a whole
    /// header, and the ports in it are not zero.
    pub open spec fn parses(bytes: Seq<u8>) -> bool {
        &&& bytes.len() >= MIN_TCP_HEADER_SIZE
        &&& MIN_TCP_HEADER_SIZE <= header_len_of(bytes[12]) <= bytes.len()
        &&& u16_from_be(bytes[0], bytes[1]) != 0
        &&& u16_from_be(bytes[2], bytes[3]) != 0
    }

    /// Why `parse` reads no segment out of `bytes`.
    pub open spec fn parse_error(bytes: Seq<u8>) -> Fail {
        if bytes.len() < MIN_TCP_HEADER_SIZE {
            Fail::Malformed { details: "TCP segment too small" }
        } else if header_len_of(bytes[12]) < MIN_TCP_HEADER_SIZE {
            Fail::Malformed { details: "TCP header too small" }
        } else if header_len_of(bytes[12]) > bytes.len() {
            Fail::Malformed { details: "TCP header too large" }
        } else {
            Fail::OutOfRange { details: "port number may not be zero" }
        }
    }

    /// The segment that `parse` reads out of `bytes`, sent from the address
    /// `src_addr` to the address `dst_addr`.
    pub open spec fn parsed(src_addr: u32, dst_addr: u32, bytes: Bytes) -> TcpSegment {
        TcpSegment {
            src: Endpoint {
                addr: src_addr,
                port: Port::spec_from(u16_from_be(bytes@[0], bytes@[1])),
            },
            dst: Endpoint {
                addr: dst_addr,
                port: Port::spec_from(u16_from_be(bytes@[2], bytes@[3])),
            },
            seq_num: u32_from_be(bytes@[4], bytes@[5], bytes@[6], bytes@[7]),
            ack_num: u32_from_be(bytes@[8], bytes@[9], bytes@[10], bytes@[11]),
            syn: has_flag(bytes@[13], SYN),
            ack: has_flag(bytes@[13], ACK),
            fin: has_flag(bytes@[13], FIN),
            rst: has_flag(bytes@[13], RST),
            window_size: u16_from_be(bytes@[14], bytes@[15]),
            payload: bytes.spec_split(header_len_of(bytes@[12]) as usize).1,
        }
    }

    /// Whether this segment is what the bytes `bytes`, sent from the address
    /// `src_addr` to the address `dst_addr`, say.
    pub open spec fn says(&self, src_addr: u32, dst_addr: u32, bytes: Seq<u8>) -> bool {
        &&& self.src.addr == src_addr
        &&& self.src.port@ == u16_from_be(bytes[0], bytes[1])
        &&& self.dst.addr == dst_addr
        &&& self.dst.port@ == u16_from_be(bytes[2], bytes[3])
        &&& self.seq_num == u32_from_be(bytes[4], bytes[5], bytes[6], bytes[7])
        &&& self.ack_num == u32_from_be(bytes[8], bytes[9], bytes[10], bytes[11])
        &&& self.syn == has_flag(bytes[13], SYN)
        &&& self.ack == has_flag(bytes[13], ACK)
        &&& self.fin == has_flag(bytes[13], FIN)
        &&& self.rst == has_flag(bytes[13], RST)
        &&& self.window_size == u16_from_be(bytes[14], bytes[15])
        &&& self.payload@ == bytes.skip(header_len_of(bytes[12]))
    }

    /// The segment that is read out of bytes that hold one is what the
    /// bytes say.
    pub proof fn lemma_parsed_says(src_addr: u32, dst_addr: u32, bytes: Bytes)
        requires
            bytes.wf(),
            Self::parses(bytes@),
        ensures
            Self::parsed(src_addr, dst_addr, bytes).says(src_addr, dst_addr, bytes@),
    {
        Port::lemma_spec_from(u16_from_be(bytes@[0], bytes@[1]));
        Port::lemma_spec_from(u16_from_be(bytes@[2], bytes@[3]));
        bytes.lemma_spec_split(header_len_of(bytes@[12]) as usize);
    }

    /// Reads the segment that `bytes` hold. The data of the segment is a
    /// view into the store of `bytes`: nothing is copied.
    pub fn parse(src_addr: u32, dst_addr: u32, bytes: Bytes) -> (parsed: Result<TcpSegment, Fail>)
        ensures
            match parsed {
                Ok(segment) => Self::parses(bytes@) && segment.says(src_addr, dst_addr, bytes@)
                    && segment == Self::parsed(src_addr, dst_addr, bytes),
                Err(e) => !Self::parses(bytes@) && e == Self::parse_error(bytes@),
            },
    {
        if bytes.len() < MIN_TCP_HEADER_SIZE {
            return Err(Fail::Malformed { details: "TCP segment too small" });
        }
        let all = bytes.as_slice();
        let header = TcpHeader::new(&all[0..20]);
        let header_len = header.header_len();
        if header_len < MIN_TCP_HEADER_SIZE {
            return Err(Fail::Malformed { details: "TCP header too small" });
        }
        if header_len > bytes.len() {
            return Err(Fail::Malformed { details: "TCP header too large" });
        }
        proof {
            Port::lemma_spec_from(u16_from_be(bytes@[0], bytes@[1]));
            Port::lemma_spec_from(u16_from_be(bytes@[2], bytes@[3]));
        }
        let src_port = match Port::try_from(header.src_port()) {
            Ok(port) => port,
            Err(e) => {
                return Err(e);
            },
        };
        let dst_port = match Port::try_from(header.dest_port()) {
            Ok(port) => port,
            Err(e) => {
                return Err(e);
            },
        };
        let seq_num = header.seq_num();
        let ack_num = header.ack_num();
        let syn = header.syn();
        let ack = header.ack();
        let fin = header.fin();
        let rst = header.rst();
        let window_size = header.window_sz();
        let (_, payload) = bytes.split(header_len);
        Ok(
            TcpSegment {
                src: Endpoint::new(src_addr, src_port),
                dst: Endpoint::new(dst_addr, dst_port),
                seq_num,
                ack_num,
                syn,
                ack,
                fin,
                rst,
                window_size,
                payload,
            },
        )
    }
}

impl PacketSerialize for TcpSegment {
    open spec fn wire(&self) -> Seq<u8> {
        self.header_bytes() + self.payload@
    }

    fn compute_size(&self) -> (size: usize) {
        MIN_TCP_HEADER_SIZE + self.payload.len()
    }

    fn serialize(&self, buf: &mut [u8]) {
        let (head, tail) = buf.split_at_mut(20);
        head[12] = 0;
        head[13] = 0;
        let mut header = TcpHeaderMut::new(head);
        header.src_port(self.src.port.value());
        header.dest_port(self.dst.port.value());
        header.seq_num(self.seq_num);
        header.ack_num(self.ack_num);
        let _ = header.header_len(MIN_TCP_HEADER_SIZE);
        header.syn(self.syn);
        header.ack(self.ack);
        header.fin(self.fin);
        header.rst(self.rst);
        header.window_sz(self.window_size);
        header.checksum(0);
        header.urg_ptr(0);
        assert((0u8 & 0xf0) | (5u8 << 4) == 0x50) by (bit_vector);
        assert(head@ =~= self.header_bytes());
        let data = self.payload.as_slice();
        let mut i: usize = 0;
        while i < data.len()
            invariant
                i <= data@.len(),
                tail@.len() == data@.len(),
                forall|j: int| 0 <= j < i ==> tail@[j] == data@[j],
            decreases data@.len() - i,
        {
            tail[i] = data[i];
            i = i + 1;
        }
        assert(tail@ =~= self.payload@);
    }
}

/// Each flag of a flag byte reads as it was given.
pub proof fn lemma_flags_byte_reads_as_written(syn: bool, ack: bool, fin: bool, rst: bool)
    ensures
        has_flag(flags_byte(syn, ack, fin, rst), SYN) == syn,
        has_flag(flags_byte(syn, ack, fin, rst), ACK) == ack,
        has_flag(flags_byte(syn, ack, fin, rst), FIN) == fin,
        has_flag(flags_byte(syn, ack, fin, rst), RST) == rst,
{
    let b1 = with_flag(0, SYN, syn);
    let b2 = with_flag(b1, ACK, ack);
    let b3 = with_flag(b2, FIN, fin);
    assert(0x02u8 & 0x10u8 == 0 && 0x02u8 & 0x01u8 == 0 && 0x02u8 & 0x04u8 == 0 && 0x10u8
        & 0x01u8 == 0 && 0x10u8 & 0x04u8 == 0 && 0x01u8 & 0x04u8 == 0 && 0x10u8 & 0x02u8 == 0
        && 0x01u8 & 0x02u8 == 0 && 0x04u8 & 0x02u8 == 0 && 0x01u8 & 0x10u8 == 0 && 0x04u8
        & 0x10u8 == 0 && 0x04u8 & 0x01u8 == 0) by (bit_vector);
    lemma_flag_reads_as_written(0, SYN, syn);
    lemma_flag_leaves_others(b1, ACK, ack, SYN);
    lemma_flag_leaves_others(b2, FIN, fin, SYN);
    lemma_flag_leaves_others(b3, RST, rst, SYN);
    lemma_flag_reads_as_written(b1, ACK, ack);
    lemma_flag_leaves_others(b2, FIN, fin, ACK);
    lemma_flag_leaves_others(b3, RST, rst, ACK);
    lemma_flag_reads_as_written(b2, FIN, fin);
    lemma_flag_leaves_others(b3, RST, rst, FIN);
    lemma_flag_reads_as_written(b3, RST, rst);
}

impl TcpSegment {
    /// What `serialize` writes, `parse` reads back: the bytes of a segment
    /// say the segment.
    pub proof fn lemma_wire_says_segment(&self)
        requires
            self.src.port@ != 0,
            self.dst.port@ != 0,
        ensures
            Self::parses(self.wire()),
            self.says(self.src.addr, self.dst.addr, self.wire()),
            header_len_of(self.wire()[12]) == MIN_TCP_HEADER_SIZE,
            self.wire().skip(MIN_TCP_HEADER_SIZE as int) == self.payload@,
    {
        let bytes = self.wire();
        lemma_flags_byte_reads_as_written(self.syn, self.ack, self.fin, self.rst);
        lemma_u16_reads_as_written(self.src.port@);
        lemma_u16_reads_as_written(self.dst.port@);
        lemma_u16_reads_as_written(self.window_size);
        lemma_u32_reads_as_written(self.seq_num);
        lemma_u32_reads_as_written(self.ack_num);
        assert(0x50u8 >> 4 == 5) by (bit_vector);
        assert(self.header_bytes().len() == 20);
        assert(bytes[12] == PLAIN_DATA_OFFSET);
        assert(bytes[13] == flags_byte(self.syn, self.ack, self.fin, self.rst));
        assert(bytes.skip(20) =~= self.payload@);
    }
}

} // verus!
