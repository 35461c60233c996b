//! The message channel: messages travel as a four-byte big-endian length
//! followed by that many bytes. This module holds the buffers of a channel
//! and the framing; reading and writing the socket is left to the caller.

use crate::buffers::{
    be32_bytes, be32_value, bytes_advance, bytes_as_slice, bytes_contents, bytes_len,
    bytes_mut_advance, bytes_mut_as_slice, bytes_mut_contents,
    bytes_mut_freeze, bytes_mut_len, bytes_mut_put_u32, bytes_mut_split, bytes_mut_split_to,
    bytes_mut_with_capacity, read_u32_be,
};
use std::collections::VecDeque;
use vstd::prelude::*;

verus! {

/// The capacity the channel's buffers start with.
pub const BUF: usize = 4096;

/// The total length of a sequence of chunks.
pub open spec fn chunks_len(ch: Seq<Seq<u8>>) -> nat
    decreases ch.len(),
{
    if ch.len() == 0 {
        0
    } else {
        ch[0].len() + chunks_len(ch.drop_first())
    }
}

/// The chunks one after the other.
pub open spec fn chunks_bytes(ch: Seq<Seq<u8>>) -> Seq<u8>
    decreases ch.len(),
{
    if ch.len() == 0 {
        Seq::empty()
    } else {
        ch[0] + chunks_bytes(ch.drop_first())
    }
}

/// The chunks after consuming `cnt` bytes from the front: the first chunk
/// loses what is consumed of it and leaves when it is empty, then the next
/// one, until `cnt` bytes are consumed and the first chunk left is not
/// empty. No empty chunk stays at the front, so a queue with nothing left
/// to send holds no chunk.
pub open spec fn advance_chunks(ch: Seq<Seq<u8>>, cnt: nat) -> Seq<Seq<u8>>
    decreases ch.len(),
{
    if ch.len() == 0 {
        ch
    } else {
        let b = ch[0];
        let n = if cnt < b.len() { cnt } else { b.len() };
        let b2 = b.skip(n as int);
        if b2.len() == 0 {
            advance_chunks(ch.drop_first(), (cnt - n) as nat)
        } else {
            ch.update(0, b2)
        }
    }
}

/// Consuming every byte of the chunks leaves none of them.
pub proof fn lemma_advance_all(ch: Seq<Seq<u8>>, cnt: nat)
    requires
        cnt == chunks_len(ch),
    ensures
        advance_chunks(ch, cnt).len() == 0,
    decreases ch.len(),
{
    if ch.len() > 0 {
        lemma_advance_all(ch.drop_first(), (cnt - ch[0].len()) as nat);
    }
}

/// The bytes of the chunks are as many as their total length.
pub proof fn lemma_chunks_bytes_len(ch: Seq<Seq<u8>>)
    ensures
        chunks_bytes(ch).len() == chunks_len(ch),
    decreases ch.len(),
{
    if ch.len() > 0 {
        lemma_chunks_bytes_len(ch.drop_first());
    }
}

/// Consuming `cnt` bytes of the chunks drops the first `cnt` of their
/// bytes.
pub proof fn lemma_advance_chunks(ch: Seq<Seq<u8>>, cnt: nat)
    requires
        cnt <= chunks_len(ch),
    ensures
        chunks_bytes(advance_chunks(ch, cnt)) == chunks_bytes(ch).skip(cnt as int),
        chunks_len(advance_chunks(ch, cnt)) == chunks_len(ch) - cnt,
    decreases ch.len(),
{
    lemma_chunks_bytes_len(ch);
    if ch.len() == 0 {
        assert(chunks_bytes(ch).skip(0) =~= chunks_bytes(ch));
    } else {
        let b = ch[0];
        let n = if cnt < b.len() { cnt } else { b.len() };
        let b2 = b.skip(n as int);
        let rest = ch.drop_first();
        lemma_chunks_bytes_len(rest);
        if b2.len() == 0 {
            lemma_advance_chunks(rest, (cnt - n) as nat);
            assert(chunks_bytes(ch) == b + chunks_bytes(rest));
            assert((b + chunks_bytes(rest)).skip(cnt as int) =~= chunks_bytes(rest).skip(cnt - n));
        } else {
            let ch2 = ch.update(0, b2);
            assert(ch2.drop_first() =~= rest);
            lemma_chunks_bytes_len(ch2);
            assert(chunks_bytes(ch2) == b2 + chunks_bytes(rest));
            assert((b + chunks_bytes(rest)).skip(cnt as int) =~= b2 + chunks_bytes(rest));
        }
    }
}

/// A queue of byte chunks read as one buffer.
pub struct BytesDeque(pub VecDeque<bytes::Bytes>);

impl View for BytesDeque {
    type V = Seq<Seq<u8>>;

    open spec fn view(&self) -> Seq<Seq<u8>> {
        Seq::new(self.0@.len(), |i: int| bytes_contents(self.0@[i]))
    }
}

impl BytesDeque {
    /// An empty queue.
    pub fn new() -> (r: Self)
        ensures
            r@ == Seq::<Seq<u8>>::empty(),
    {
        let r = BytesDeque(VecDeque::new());
        assert(r@ =~= Seq::<Seq<u8>>::empty());
        r
    }

    /// How many chunks are queued.
    pub fn len(&self) -> (r: usize)
        ensures
            r == self@.len(),
    {
        self.0.len()
    }

    /// Appends a chunk.
    pub fn push_back(&mut self, b: bytes::Bytes)
        ensures
            final(self)@ == old(self)@.push(bytes_contents(b)),
    {
        self.0.push_back(b);
        assert(self@ =~= old(self)@.push(bytes_contents(b)));
    }

    /// How many bytes remain in all chunks together.
    pub fn remaining(&self) -> (r: usize)
        requires
            chunks_len(self@) <= usize::MAX,
        ensures
            r == chunks_len(self@),
    {
        let n = self.0.len();
        let mut i: usize = n;
        let mut total: usize = 0;
        while i > 0
            invariant
                n == self@.len(),
                i <= n,
                chunks_len(self@) <= usize::MAX,
                total == chunks_len(self@.skip(i as int)),
            decreases i,
        {
            i = i - 1;
            proof {
                assert(self@.skip(i as int).drop_first() =~= self@.skip(i + 1));
                assert(self@ =~= self@.take(i as int) + self@.skip(i as int));
                lemma_chunks_len_concat(self@.take(i as int), self@.skip(i as int));
            }
            total = total + bytes_len(&self.0[i]);
        }
        assert(self@.skip(0) =~= self@);
        total
    }

    /// The first chunk, or nothing when the queue is empty.
    pub fn chunk(&self) -> (r: &[u8])
        ensures
            r@ == (if self@.len() == 0 { Seq::<u8>::empty() } else { self@[0] }),
    {
        if self.0.len() == 0 {
            let empty: &[u8] = &[];
            assert(empty@ =~= Seq::<u8>::empty());
            empty
        } else {
            bytes_as_slice(&self.0[0])
        }
    }

    /// The first chunks, at most `max` of them, and how many bytes they
    /// hold together.
    pub fn chunks_vectored<'a>(&'a self, max: usize) -> (r: (Vec<&'a [u8]>, usize))
        requires
            chunks_len(self@) <= usize::MAX,
        ensures
            r.0@.len() == (if max < self@.len() { max as nat } else { self@.len() }),
            forall|j: int| 0 <= j < r.0@.len() ==> #[trigger] r.0@[j]@ == self@[j],
            r.1 == chunks_len(self@.take(r.0@.len() as int)),
    {
        let mut out: Vec<&'a [u8]> = Vec::new();
        let mut len: usize = 0;
        let mut i: usize = 0;
        let n = self.0.len();
        assert(self@.take(0) =~= Seq::<Seq<u8>>::empty());
        while i < n && i < max
            invariant
                n == self@.len(),
                i <= n,
                i <= max,
                out@.len() == i,
                forall|j: int| 0 <= j < i ==> #[trigger] out@[j]@ == self@[j],
                chunks_len(self@) <= usize::MAX,
                len == chunks_len(self@.take(i as int)),
            decreases n - i,
        {
            let b = bytes_as_slice(&self.0[i]);
            proof {
                let t = self@.take(i as int);
                assert(self@.take(i + 1) =~= t + seq![self@[i as int]]);
                lemma_chunks_len_concat(t, seq![self@[i as int]]);
                assert(seq![self@[i as int]].drop_first() =~= Seq::<Seq<u8>>::empty());
                assert(chunks_len(Seq::<Seq<u8>>::empty()) == 0);
                assert(chunks_len(seq![self@[i as int]]) == self@[i as int].len());
                assert(self@ =~= self@.take(i + 1) + self@.skip(i + 1));
                lemma_chunks_len_concat(self@.take(i + 1), self@.skip(i + 1));
            }
            out.push(b);
            len = len + b.len();
            i = i + 1;
        }
        (out, len)
    }

    /// Consumes `cnt` bytes from the front of the queue: chunks that are
    /// used up leave it, and so do empty chunks at its front.
    pub fn advance(&mut self, cnt: usize)
        requires
            cnt <= chunks_len(old(self)@),
        ensures
            final(self)@ == advance_chunks(old(self)@, cnt as nat),
            chunks_bytes(final(self)@) == chunks_bytes(old(self)@).skip(cnt as int),
            cnt == chunks_len(old(self)@) ==> final(self)@.len() == 0,
    {
        proof {
            lemma_advance_chunks(self@, cnt as nat);
            if cnt == chunks_len(self@) {
                lemma_advance_all(self@, cnt as nat);
            }
        }
        let ghost orig = self@;
        let ghost cnt0 = cnt as nat;
        let mut cnt: usize = cnt;
        let mut done = false;
        while !done && self.0.len() > 0
            invariant
                cnt <= chunks_len(self@),
                done ==> advance_chunks(orig, cnt0) == self@,
                !done ==> advance_chunks(orig, cnt0) == advance_chunks(self@, cnt as nat),
            decreases self@.len() + (if done { 0int } else { 1int }),
        {
            let ghost ch = self@;
            let mut b = self.0.pop_front().unwrap();
            assert(self@ =~= ch.drop_first());
            let bl = bytes_len(&b);
            let n: usize = if cnt < bl {
                cnt
            } else {
                bl
            };
            bytes_advance(&mut b, n);
            cnt = cnt - n;
            if bytes_len(&b) != 0 {
                self.0.push_front(b);
                assert(self@ =~= ch.update(0, bytes_contents(b)));
                done = true;
            }
        }
        proof {
            if self@.len() == 0 {
                assert(chunks_len(self@) == 0);
            }
        }
    }
}

/// The total length of chunks one after the other is the sum of theirs.
pub proof fn lemma_chunks_len_concat(a: Seq<Seq<u8>>, b: Seq<Seq<u8>>)
    ensures
        chunks_len(a + b) == chunks_len(a) + chunks_len(b),
    decreases a.len(),
{
    if a.len() == 0 {
        assert(a + b =~= b);
    } else {
        assert((a + b).drop_first() =~= a.drop_first() + b);
        lemma_chunks_len_concat(a.drop_first(), b);
    }
}


/// The chunks with two more appended read as their bytes with the two
/// appended.
pub proof fn lemma_chunks_bytes_push(ch: Seq<Seq<u8>>, a: Seq<u8>)
    ensures
        chunks_bytes(ch.push(a)) == chunks_bytes(ch) + a,
    decreases ch.len(),
{
    if ch.len() == 0 {
        assert(ch.push(a).drop_first() =~= Seq::<Seq<u8>>::empty());
        assert(chunks_bytes(Seq::<Seq<u8>>::empty()) == Seq::<u8>::empty());
        assert(ch.push(a)[0] == a);
        assert(chunks_bytes(ch) == Seq::<u8>::empty());
        assert(chunks_bytes(ch.push(a)) =~= a + Seq::<u8>::empty());
    } else {
        assert(ch.push(a).drop_first() =~= ch.drop_first().push(a));
        lemma_chunks_bytes_push(ch.drop_first(), a);
        assert(chunks_bytes(ch.push(a)) =~= ch[0] + (chunks_bytes(ch.drop_first()) + a));
    }
}

/// A frame on the wire: the length of the message in four big-endian bytes,
/// then the message.
pub open spec fn frame_bytes(msg: Seq<u8>) -> Seq<u8> {
    be32_bytes(msg.len() as u32) + msg
}

/// What the received bytes hold: nothing while a whole frame has not
/// arrived, else the message of the first frame and the bytes after it.
pub open spec fn frame_decode(incoming: Seq<u8>) -> Option<(Seq<u8>, Seq<u8>)> {
    if incoming.len() < 4 {
        None
    } else {
        let len = be32_value(incoming) as nat;
        if incoming.len() - 4 < len {
            None
        } else {
            Some((incoming.subrange(4, 4 + len as int), incoming.skip(4 + len as int)))
        }
    }
}

/// A frame read from the received bytes gives back its message and leaves
/// what follows it.
pub proof fn lemma_frame_roundtrip(msg: Seq<u8>, rest: Seq<u8>)
    requires
        msg.len() <= u32::MAX,
    ensures
        frame_decode(frame_bytes(msg) + rest) == Some((msg, rest)),
{
    let w = frame_bytes(msg) + rest;
    crate::buffers::lemma_be32_roundtrip(msg.len() as u32, msg + rest);
    assert(w =~= be32_bytes(msg.len() as u32) + (msg + rest));
    assert(w.subrange(4, 4 + msg.len() as int) =~= msg);
    assert(w.skip(4 + msg.len() as int) =~= rest);
}

/// While only part of a frame has arrived, nothing is read.
pub proof fn lemma_frame_incomplete(msg: Seq<u8>, n: nat)
    requires
        msg.len() <= u32::MAX,
        n < frame_bytes(msg).len(),
    ensures
        frame_decode(frame_bytes(msg).take(n as int)) is None,
{
    let p = frame_bytes(msg).take(n as int);
    if n >= 4 {
        crate::buffers::lemma_be32_roundtrip(msg.len() as u32, msg);
        assert(be32_value(p) == be32_value(frame_bytes(msg)));
    }
}

/// Why a message could not be queued.
#[derive(Debug, Clone, Copy, PartialEq, Eq)]
pub enum ChannelError {
    /// A message longer than its four-byte length can say; its length.
    MessageTooLarge(usize),
}

/// The buffers of a channel as bytes: what is being framed, the frames
/// waiting to be sent, and what was received and not yet read.
pub struct ChannelView {
    pub header: Seq<u8>,
    pub outgoing: Seq<Seq<u8>>,
    pub incoming: Seq<u8>,
}

/// The buffers of a message channel.
pub struct ChannelBuffers {
    pub header: bytes::BytesMut,
    pub outgoing: BytesDeque,
    pub incoming: bytes::BytesMut,
}

impl View for ChannelBuffers {
    type V = ChannelView;

    open spec fn view(&self) -> ChannelView {
        ChannelView {
            header: bytes_mut_contents(self.header),
            outgoing: self.outgoing@,
            incoming: bytes_mut_contents(self.incoming),
        }
    }
}

impl ChannelBuffers {
    /// Empty buffers.
    pub fn new() -> (r: Self)
        ensures
            r@.header == Seq::<u8>::empty(),
            r@.outgoing == Seq::<Seq<u8>>::empty(),
            r@.incoming == Seq::<u8>::empty(),
    {
        ChannelBuffers {
            header: bytes_mut_with_capacity(BUF),
            outgoing: BytesDeque::new(),
            incoming: bytes_mut_with_capacity(BUF),
        }
    }

    /// Queues a message to be sent: its four-byte length, then the message.
    /// Nothing is sent here. A message longer than `u32::MAX` bytes is
    /// refused.
    pub fn queue_send_raw(&mut self, msg: bytes::Bytes) -> (r: Result<(), ChannelError>)
        requires
            old(self)@.header.len() + 4 <= isize::MAX,
        ensures
            r is Err <==> bytes_contents(msg).len() > u32::MAX,
            r matches Err(ChannelError::MessageTooLarge(n)) ==> n == bytes_contents(msg).len()
                && final(self)@ == old(self)@,
            r is Ok ==> final(self)@ == (ChannelView {
                header: Seq::empty(),
                outgoing: old(self)@.outgoing.push(old(self)@.header + be32_bytes(
                    bytes_contents(msg).len() as u32,
                )).push(bytes_contents(msg)),
                incoming: old(self)@.incoming,
            }),
            r is Ok && old(self)@.header.len() == 0 ==> chunks_bytes(final(self)@.outgoing) == chunks_bytes(
                old(self)@.outgoing,
            ) + frame_bytes(bytes_contents(msg)),
    {
        let len = bytes_len(&msg);
        if len > 0xffff_ffff {
            return Err(ChannelError::MessageTooLarge(len));
        }
        bytes_mut_put_u32(&mut self.header, len as u32);
        let h = bytes_mut_freeze(bytes_mut_split(&mut self.header));
        let ghost before = self.outgoing@;
        self.outgoing.push_back(h);
        self.outgoing.push_back(msg);
        proof {
            let hb = bytes_contents(h);
            lemma_chunks_bytes_push(before, hb);
            lemma_chunks_bytes_push(before.push(hb), bytes_contents(msg));
            if old(self)@.header.len() == 0 {
                assert(hb =~= be32_bytes(len as u32));
                assert(chunks_bytes(self.outgoing@) =~= chunks_bytes(before) + frame_bytes(bytes_contents(msg)));
            }
        }
        Ok(())
    }

    /// Reads the first whole frame of the received bytes: its message, which
    /// leaves the buffer with its length. Nothing, and nothing changes,
    /// while no whole frame has arrived.
    pub fn decode_from_buffer(&mut self) -> (r: Option<bytes::Bytes>)
        ensures
            match frame_decode(old(self)@.incoming) {
                None => r is None && final(self)@ == old(self)@,
                Some((m, rest)) => r matches Some(b) && bytes_contents(b) == m && final(self)@ == (ChannelView {
                    incoming: rest,
                    ..old(self)@
                }),
            },
    {
        let n = bytes_mut_len(&self.incoming);
        if n < 4 {
            None
        } else {
            let len = read_u32_be(bytes_mut_as_slice(&self.incoming)) as usize;
            if n - 4 < len {
                None
            } else {
                let ghost inc = self@.incoming;
                bytes_mut_advance(&mut self.incoming, 4);
                let msg = bytes_mut_freeze(bytes_mut_split_to(&mut self.incoming, len));
                proof {
                    assert(bytes_contents(msg) =~= inc.subrange(4, 4 + len));
                    assert(self@.incoming =~= inc.skip(4 + len));
                }
                Some(msg)
            }
        }
    }
}

} // verus!
