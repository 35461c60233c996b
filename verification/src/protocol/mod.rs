//! Messages shared by the netidx protocols.

pub mod shared;
