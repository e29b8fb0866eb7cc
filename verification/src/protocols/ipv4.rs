//! IPv4 addressing.

use crate::protocols::ip::Port;
use vstd::prelude::*;

verus! {

/// One end of a conversation: an IPv4 address, as the 32-bit number that
/// its four octets spell highest first, and a port.
#[derive(Clone, Copy, Debug, PartialEq, Eq, Structural, Hash)]
pub struct Endpoint {
    pub addr: u32,
    pub port: Port,
}

/// The address whose octets are `a.b.c.d`.
pub open spec fn addr_of(a: u8, b: u8, c: u8, d: u8) -> u32 {
    (a * 0x100_0000 + b * 0x1_0000 + c * 0x100 + d) as u32
}

/// The number that stands for the endpoint with address `addr` and port
/// `port` where endpoints key a table.
pub open spec fn endpoint_key(addr: u32, port: u16) -> u128 {
    (addr * 0x1_0000 + port) as u128
}

impl Endpoint {
    pub fn new(addr: u32, port: Port) -> (e: Endpoint)
        ensures
            e.addr == addr,
            e.port == port,
    {
        Endpoint { addr, port }
    }

    /// The endpoint at the address `a.b.c.d`.
    pub fn from_octets(a: u8, b: u8, c: u8, d: u8, port: Port) -> (e: Endpoint)
        ensures
            e.addr == addr_of(a, b, c, d),
            e.port == port,
    {
        let addr = (a as u32) * 0x100_0000 + (b as u32) * 0x1_0000 + (c as u32) * 0x100 + (
        d as u32);
        Endpoint { addr, port }
    }

    pub fn address(&self) -> (addr: u32)
        ensures
            addr == self.addr,
    {
        self.addr
    }

    pub fn port(&self) -> (port: Port)
        ensures
            port == self.port,
    {
        self.port
    }

    /// The number that stands for this endpoint where endpoints key a
    /// table. Different endpoints have different keys.
    pub open spec fn spec_key(&self) -> u128 {
        endpoint_key(self.addr, self.port@)
    }

    pub fn key(&self) -> (key: u128)
        ensures
            key == self.spec_key(),
    {
        (self.addr as u128) * 0x1_0000 + (self.port.value() as u128)
    }
}

/// Endpoints with the same key are the same endpoint.
pub proof fn lemma_endpoint_key_is_injective(a: Endpoint, b: Endpoint)
    requires
        a.spec_key() == b.spec_key(),
    ensures
        a.addr == b.addr,
        a.port@ == b.port@,
{
}

} // verus!
