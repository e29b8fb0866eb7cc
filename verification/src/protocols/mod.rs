//! The protocols that the stack speaks.

pub mod frame;
pub mod ip;
pub mod ipv4;
pub mod tcp;
pub mod udp;
