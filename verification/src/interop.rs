//! The records in which the outcome of an operation crosses to the
//! application: a fixed shape tagged by the kind of the operation.

#![allow(non_camel_case_types)]

use crate::file_table::FileDescriptor;
use crate::operations::OperationResult;
use crate::protocols::ipv4::Endpoint;
use crate::sync::{Bytes, BytesMut};
use vstd::prelude::*;

verus! {

pub type dmtr_qtoken_t = u64;

/// How many segments a scatter-gather array holds at most.
pub const DMTR_SGARRAY_MAXSIZE: usize = 1;

/// One segment of a scatter-gather array: its bytes and their number.
#[derive(Debug)]
pub struct dmtr_sgaseg_t {
    pub sgaseg_buf: Bytes,
    pub sgaseg_len: u32,
}

/// A scatter-gather array: the segments of a payload, and the endpoint it
/// came from where the protocol says so.
#[derive(Debug)]
pub struct dmtr_sgarray_t {
    pub sga_numsegs: u32,
    pub sga_segs: Vec<dmtr_sgaseg_t>,
    pub sga_addr: Option<Endpoint>,
}

/// The kind of operation that a result belongs to.
#[derive(Clone, Copy, Debug, PartialEq, Eq, Structural)]
pub enum dmtr_opcode_t {
    DMTR_OPC_INVALID,
    DMTR_OPC_PUSH,
    DMTR_OPC_POP,
    DMTR_OPC_ACCEPT,
    DMTR_OPC_CONNECT,
}

/// The outcome of an accept: the descriptor of the new connection.
#[derive(Clone, Copy, Debug, PartialEq, Eq, Structural)]
pub struct dmtr_accept_result_t {
    pub qd: i32,
    pub addr: Option<Endpoint>,
}

/// What a result carries besides its tags.
#[derive(Debug)]
pub enum dmtr_qr_value_t {
    /// Nothing.
    none,
    /// The payload that came in.
    sga(dmtr_sgarray_t),
    /// The connection that was accepted.
    ares(dmtr_accept_result_t),
}

/// The outcome of an operation, keyed by the descriptor it worked on and
/// the token it was known by.
#[derive(Debug)]
pub struct dmtr_qresult_t {
    pub qr_opcode: dmtr_opcode_t,
    pub qr_qd: i32,
    pub qr_qt: dmtr_qtoken_t,
    pub qr_value: dmtr_qr_value_t,
}

/// The descriptor `qd` as the signed number of the record: the same bits.
pub open spec fn descriptor_field(qd: FileDescriptor) -> i32 {
    if qd <= i32::MAX {
        qd as i32
    } else {
        (qd - 0x1_0000_0000) as i32
    }
}

/// The length `len` as the 32-bit number of the record: its low 32 bits.
pub open spec fn length_field(len: nat) -> u32 {
    (len % 0x1_0000_0000) as u32
}

/// The descriptor `qd` as the signed number of the record.
pub fn descriptor(qd: FileDescriptor) -> (field: i32)
    ensures
        field == descriptor_field(qd),
{
    if qd <= 0x7fff_ffff {
        qd as i32
    } else {
        ((qd - 0x8000_0000) as i32) - 0x7fff_ffff - 1
    }
}

/// The bytes of the first `n` of the segments `segs`, in order.
pub open spec fn gathered(segs: Seq<dmtr_sgaseg_t>, n: int) -> Seq<u8>
    decreases n,
{
    if n <= 0 {
        Seq::empty()
    } else {
        gathered(segs, n - 1) + segs[n - 1].sgaseg_buf@
    }
}

impl dmtr_sgarray_t {
    /// Whether the array has the segments that it counts.
    pub open spec fn wf(&self) -> bool {
        self.sga_numsegs <= self.sga_segs@.len()
    }

    /// The bytes of the array: those of the segments that it counts, in
    /// order.
    pub open spec fn spec_bytes(&self) -> Seq<u8> {
        gathered(self.sga_segs@, self.sga_numsegs as int)
    }

    /// Copies the bytes of the array into one buffer.
    pub fn gather(&self) -> (buf: BytesMut)
        requires
            self.wf(),
            0 < self.spec_bytes().len() <= usize::MAX,
        ensures
            buf@ == self.spec_bytes(),
    {
        let numsegs = self.sga_numsegs as usize;
        let mut len: usize = 0;
        let mut i: usize = 0;
        while i < numsegs
            invariant
                i <= numsegs,
                numsegs == self.sga_numsegs,
                numsegs <= self.sga_segs@.len(),
                len == gathered(self.sga_segs@, i as int).len(),
                self.spec_bytes().len() <= usize::MAX,
            decreases numsegs - i,
        {
            proof {
                lemma_gathered_grows(self.sga_segs@, i as int + 1, numsegs as int);
            }
            len = len + self.sga_segs[i].sgaseg_buf.len();
            i = i + 1;
        }
        let mut buf = BytesMut::zeroed(len);
        let mut pos: usize = 0;
        let mut i: usize = 0;
        while i < numsegs
            invariant
                i <= numsegs,
                numsegs == self.sga_numsegs,
                numsegs <= self.sga_segs@.len(),
                buf@.len() == len,
                len == self.spec_bytes().len(),
                pos == gathered(self.sga_segs@, i as int).len(),
                buf@.take(pos as int) == gathered(self.sga_segs@, i as int),
            decreases numsegs - i,
        {
            proof {
                lemma_gathered_grows(self.sga_segs@, i as int + 1, numsegs as int);
            }
            let seg_slice = self.sga_segs[i].sgaseg_buf.as_slice();
            let ghost before = buf@;
            buf.write_at(pos, seg_slice);
            proof {
                assert(buf@.take(pos + seg_slice@.len()) =~= before.take(pos as int)
                    + seg_slice@);
            }
            pos = pos + seg_slice.len();
            i = i + 1;
        }
        assert(buf@.take(len as int) =~= buf@);
        buf
    }

    /// The array of the one segment `bytes`, which came from `addr`. No
    /// byte is copied.
    pub fn from_bytes(bytes: Bytes, addr: Option<Endpoint>) -> (sga: dmtr_sgarray_t)
        ensures
            sga.sga_numsegs == 1,
            sga.sga_segs@.len() == 1,
            sga.sga_segs@[0].sgaseg_buf == bytes,
            sga.sga_segs@[0].sgaseg_len == length_field(bytes@.len()),
            sga.sga_addr == addr,
            sga.spec_bytes() == bytes@,
    {
        let len = bytes.len();
        let sgaseg_len = ((len as u64) % 0x1_0000_0000) as u32;
        let mut sga_segs: Vec<dmtr_sgaseg_t> = Vec::new();
        sga_segs.push(dmtr_sgaseg_t { sgaseg_buf: bytes, sgaseg_len });
        let sga = dmtr_sgarray_t { sga_numsegs: 1, sga_segs, sga_addr: addr };
        proof {
            assert(gathered(sga.sga_segs@, 0) =~= Seq::<u8>::empty());
            assert(gathered(sga.sga_segs@, 1) =~= bytes@);
        }
        sga
    }
}

/// The bytes of more segments are no fewer.
pub proof fn lemma_gathered_grows(segs: Seq<dmtr_sgaseg_t>, n: int, m: int)
    requires
        0 <= n <= m,
    ensures
        gathered(segs, n).len() <= gathered(segs, m).len(),
    decreases m - n,
{
    if n < m {
        lemma_gathered_grows(segs, n, m - 1);
    }
}

impl dmtr_qresult_t {
    /// The kind of operation that `result` belongs to. A failure is tagged
    /// as an invalid operation.
    pub open spec fn opcode_of(result: OperationResult) -> dmtr_opcode_t {
        match result {
            OperationResult::Connect => dmtr_opcode_t::DMTR_OPC_CONNECT,
            OperationResult::Accept(_) => dmtr_opcode_t::DMTR_OPC_ACCEPT,
            OperationResult::Push => dmtr_opcode_t::DMTR_OPC_PUSH,
            OperationResult::Pop(..) => dmtr_opcode_t::DMTR_OPC_POP,
            OperationResult::Failed(_) => dmtr_opcode_t::DMTR_OPC_INVALID,
        }
    }

    /// Whether this record holds `result`, the outcome of the operation
    /// with the token `qt` on the descriptor `qd`.
    pub open spec fn holds(&self, result: OperationResult, qd: FileDescriptor, qt: u64) -> bool {
        &&& self.qr_opcode == Self::opcode_of(result)
        &&& self.qr_qd == descriptor_field(qd)
        &&& self.qr_qt == qt
        &&& match result {
            OperationResult::Accept(new_qd) => self.qr_value matches dmtr_qr_value_t::ares(ares)
                && ares == (dmtr_accept_result_t { qd: descriptor_field(new_qd), addr: None }),
            OperationResult::Pop(addr, bytes) => self.qr_value matches dmtr_qr_value_t::sga(sga)
                && sga.sga_numsegs == 1 && sga.sga_addr == addr && sga.sga_segs@ == seq![
                dmtr_sgaseg_t { sgaseg_buf: bytes, sgaseg_len: length_field(bytes@.len()) },
            ],
            _ => self.qr_value is none,
        }
    }

    /// Packs `result`, the outcome of the operation with the token `qt` on
    /// the descriptor `qd`, into a record. A failure is tagged as an
    /// invalid operation.
    pub fn pack(result: OperationResult, qd: FileDescriptor, qt: u64) -> (record: dmtr_qresult_t)
        ensures
            record.holds(result, qd, qt),
    {
        match result {
            OperationResult::Connect => dmtr_qresult_t {
                qr_opcode: dmtr_opcode_t::DMTR_OPC_CONNECT,
                qr_qd: descriptor(qd),
                qr_qt: qt,
                qr_value: dmtr_qr_value_t::none,
            },
            OperationResult::Accept(new_qd) => {
                let qr_value = dmtr_qr_value_t::ares(
                    dmtr_accept_result_t { qd: descriptor(new_qd), addr: None },
                );
                dmtr_qresult_t {
                    qr_opcode: dmtr_opcode_t::DMTR_OPC_ACCEPT,
                    qr_qd: descriptor(qd),
                    qr_qt: qt,
                    qr_value,
                }
            },
            OperationResult::Push => dmtr_qresult_t {
                qr_opcode: dmtr_opcode_t::DMTR_OPC_PUSH,
                qr_qd: descriptor(qd),
                qr_qt: qt,
                qr_value: dmtr_qr_value_t::none,
            },
            OperationResult::Pop(addr, bytes) => {
                let sga = dmtr_sgarray_t::from_bytes(bytes, addr);
                assert(sga.sga_segs@ =~= seq![
                    dmtr_sgaseg_t { sgaseg_buf: bytes, sgaseg_len: length_field(bytes@.len()) },
                ]);
                let qr_value = dmtr_qr_value_t::sga(sga);
                dmtr_qresult_t {
                    qr_opcode: dmtr_opcode_t::DMTR_OPC_POP,
                    qr_qd: descriptor(qd),
                    qr_qt: qt,
                    qr_value,
                }
            },
            OperationResult::Failed(_) => dmtr_qresult_t {
                qr_opcode: dmtr_opcode_t::DMTR_OPC_INVALID,
                qr_qd: descriptor(qd),
                qr_qt: qt,
                qr_value: dmtr_qr_value_t::none,
            },
        }
    }
}

} // verus!
