# netidx (verified core)

The client side of netidx, a publish/subscribe system in which values are
published at paths and a resolver server tells subscribers where each path
is published. This crate holds the parts that decide, with contracts that
Verus proves:

- `wire`, `codec`, `protocol::shared`: the protobuf messages shared by the
  protocols (socket addresses and permission tokens): their size, their
  encoding, and the decoding of bytes back into them, with the errors the
  decoder reports. Encoding a message without unknown fields and decoding
  it gives it back; unknown fields are written after the known ones, each
  field's values together, the fields in the order the runtime's hash map
  gives. Decoding two runs of bytes one after the other is decoding them
  as one, for the addresses and the token (not for the socket address,
  whose nested message may be cut between the runs).
- `buffers`, `channel`: the buffers of a message channel, where each
  message travels as a four-byte big-endian length and the message.
- `resolver`: what a reader and a writer do at each step of talking to the
  resolver servers: how they authenticate, what each reply means, when a
  writer publishes its paths again, and when its connection is kept alive,
  dropped or reopened.
- `subscriber`, `pathset`, `text`: the command language of the subscriber
  tools, the batching of their requests and the bookkeeping of their
  subscriptions.

`app/` drives sockets, timers, tasks and the terminal around these
decisions. `tests/` exercises the library on concrete values.

The browser's view widgets (building widgets from a view description and
loading the tables they show) are not part of this crate.
