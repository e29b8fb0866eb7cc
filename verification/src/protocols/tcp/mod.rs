//! The TCP connection engine.

pub mod operations;
pub mod out_of_order;
pub mod peer;
pub mod receiver;
pub mod segment;
pub mod sender;

use vstd::prelude::*;

verus! {

/// A TCP sequence number: a position in the byte stream, modulo 2^32.
pub type SeqNumber = u32;

/// The sequence number `n` bytes after `seq`.
pub open spec fn seq_add(seq: u32, n: int) -> u32 {
    ((seq + n) % 0x1_0000_0000) as u32
}

/// How many bytes lie from `from` up to `to`, going forwards round the
/// sequence space.
pub open spec fn seq_distance(from: u32, to: u32) -> int {
    (to - from) % 0x1_0000_0000
}

/// How far `to` lies ahead of `from` in the order of the sequence space:
/// the distance forwards where that is less than half the space, and
/// otherwise the distance backwards, which counts as negative.
pub open spec fn seq_ahead(from: u32, to: u32) -> int {
    let forwards = seq_distance(from, to);
    if forwards < 0x8000_0000 {
        forwards
    } else {
        forwards - 0x1_0000_0000
    }
}

/// The sequence number `n` bytes after `seq`.
pub fn seq_advance(seq: u32, n: u32) -> (next: u32)
    ensures
        next == seq_add(seq, n as int),
{
    seq.wrapping_add(n)
}

/// How many bytes lie from `from` up to `to`.
pub fn seq_gap(from: u32, to: u32) -> (gap: u32)
    ensures
        gap == seq_distance(from, to),
{
    to.wrapping_sub(from)
}

} // verus!
