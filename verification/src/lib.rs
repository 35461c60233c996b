//! Verified core of the netidx client library: the wire format of the
//! shared protocol messages, the length-prefixed message channel, the
//! decisions of the resolver client and the request handling of the
//! subscriber tools.

pub mod buffers;
pub mod channel;
pub mod codec;
pub mod pathset;
pub mod protocol;
pub mod resolver;
pub mod subscriber;
pub mod text;
pub mod wire;
