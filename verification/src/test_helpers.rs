//! Two engines at fixed addresses, for trying the stack against itself.

use crate::engine::Engine;
use crate::runtime::{Runtime, TcpOptions};
use vstd::prelude::*;

verus! {

/// The address of Alice: 192.168.1.1.
pub const ALICE_IPV4: u32 = 0xc0a8_0101;

/// The address of Bob: 192.168.1.2.
pub const BOB_IPV4: u32 = 0xc0a8_0102;

/// The settings of the two engines.
pub fn options() -> (options: TcpOptions)
    ensures
        options == (TcpOptions { receive_window_size: 0xffff, window_scale: 0 }),
{
    TcpOptions { receive_window_size: 0xffff, window_scale: 0 }
}

/// The engine of Alice, with no socket, at time `now`.
pub fn new_alice(now: u64) -> (engine: Engine)
    ensures
        engine.wf(),
        engine@.is_fresh(engine@.rt),
        engine@.rt.now == now,
        engine@.rt.ipv4_addr == ALICE_IPV4,
        engine@.rt.tcp_options == (TcpOptions { receive_window_size: 0xffff, window_scale: 0 }),
{
    Engine::new(Runtime::new(now, ALICE_IPV4, options(), 1)).unwrap()
}

/// The engine of Bob, with no socket, at time `now`.
pub fn new_bob(now: u64) -> (engine: Engine)
    ensures
        engine.wf(),
        engine@.is_fresh(engine@.rt),
        engine@.rt.now == now,
        engine@.rt.ipv4_addr == BOB_IPV4,
        engine@.rt.tcp_options == (TcpOptions { receive_window_size: 0xffff, window_scale: 0 }),
{
    Engine::new(Runtime::new(now, BOB_IPV4, options(), 2)).unwrap()
}

} // verus!
