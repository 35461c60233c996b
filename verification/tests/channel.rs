use bytes::{Bytes, BytesMut};
use netidx::channel::{BytesDeque, ChannelBuffers, BUF};

fn outgoing_bytes(c: &ChannelBuffers) -> Vec<u8> {
    let mut v = Vec::new();
    for b in c.outgoing.0.iter() {
        v.extend_from_slice(&b[..]);
    }
    v
}

#[test]
fn deque_empty() {
    let d = BytesDeque::new();
    assert_eq!(d.len(), 0);
    assert_eq!(d.remaining(), 0);
    assert_eq!(d.chunk(), &[] as &[u8]);
    let (v, n) = d.chunks_vectored(4);
    assert!(v.is_empty());
    assert_eq!(n, 0);
}

#[test]
fn deque_chunks_and_advance() {
    let mut d = BytesDeque::new();
    d.push_back(Bytes::from_static(b"abc"));
    d.push_back(Bytes::from_static(b"de"));
    assert_eq!(d.len(), 2);
    assert_eq!(d.remaining(), 5);
    assert_eq!(d.chunk(), b"abc");
    let (v, n) = d.chunks_vectored(1);
    assert_eq!(v, vec![&b"abc"[..]]);
    assert_eq!(n, 3);
    let (v, n) = d.chunks_vectored(10);
    assert_eq!(v, vec![&b"abc"[..], &b"de"[..]]);
    assert_eq!(n, 5);
    d.advance(2);
    assert_eq!(d.chunk(), b"c");
    assert_eq!(d.remaining(), 3);
    assert_eq!(d.len(), 2);
    d.advance(1);
    assert_eq!(d.len(), 1);
    assert_eq!(d.chunk(), b"de");
    d.advance(0);
    assert_eq!(d.remaining(), 2);
    d.advance(2);
    assert_eq!(d.len(), 0);
    assert_eq!(d.remaining(), 0);
}

#[test]
fn deque_advance_across_chunks() {
    let mut d = BytesDeque::new();
    d.push_back(Bytes::from_static(b"ab"));
    d.push_back(Bytes::from_static(b"cd"));
    d.push_back(Bytes::from_static(b"ef"));
    d.advance(3);
    assert_eq!(d.len(), 2);
    assert_eq!(d.chunk(), b"d");
    assert_eq!(d.remaining(), 3);
}

#[test]
fn queue_frames_a_message() {
    let mut c = ChannelBuffers::new();
    assert!(c.header.is_empty());
    assert!(c.header.capacity() >= BUF);
    assert_eq!(c.queue_send_raw(Bytes::from_static(b"hello")), Ok(()));
    assert_eq!(c.outgoing.len(), 2);
    assert_eq!(outgoing_bytes(&c), b"\x00\x00\x00\x05hello".to_vec());
    assert!(c.header.is_empty());
    assert_eq!(c.queue_send_raw(Bytes::new()), Ok(()));
    assert_eq!(outgoing_bytes(&c), b"\x00\x00\x00\x05hello\x00\x00\x00\x00".to_vec());
}

#[test]
fn frame_roundtrip_between_channels() {
    let mut a = ChannelBuffers::new();
    assert_eq!(a.queue_send_raw(Bytes::from_static(b"first")), Ok(()));
    assert_eq!(a.queue_send_raw(Bytes::from_static(b"second!")), Ok(()));
    let mut b = ChannelBuffers::new();
    b.incoming.extend_from_slice(&outgoing_bytes(&a));
    b.incoming.extend_from_slice(b"\x00\x00");
    assert_eq!(b.decode_from_buffer(), Some(Bytes::from_static(b"first")));
    assert_eq!(b.decode_from_buffer(), Some(Bytes::from_static(b"second!")));
    // two bytes of a length are not a frame
    assert_eq!(b.decode_from_buffer(), None);
    assert_eq!(&b.incoming[..], b"\x00\x00");
}

#[test]
fn partial_frame_waits() {
    let mut b = ChannelBuffers::new();
    b.incoming = BytesMut::from(&b"\x00\x00\x00\x04ab"[..]);
    assert_eq!(b.decode_from_buffer(), None);
    assert_eq!(&b.incoming[..], b"\x00\x00\x00\x04ab");
    b.incoming.extend_from_slice(b"cdXY");
    assert_eq!(b.decode_from_buffer(), Some(Bytes::from_static(b"abcd")));
    assert_eq!(&b.incoming[..], b"XY");
}

#[test]
fn big_endian_length() {
    let mut b = ChannelBuffers::new();
    let mut frame = vec![0x00, 0x00, 0x01, 0x02];
    frame.extend(std::iter::repeat(7u8).take(0x102));
    b.incoming.extend_from_slice(&frame);
    let m = b.decode_from_buffer().unwrap();
    assert_eq!(m.len(), 0x102);
    assert!(b.incoming.is_empty());
}

#[test]
fn empty_chunks_leave_the_front() {
    let mut d = BytesDeque::new();
    d.push_back(Bytes::new());
    d.push_back(Bytes::from_static(b"ab"));
    d.advance(0);
    assert_eq!(d.len(), 1);
    assert_eq!(d.chunk(), b"ab");
    d.push_back(Bytes::new());
    d.advance(2);
    assert_eq!(d.len(), 0);
}

#[test]
fn sending_an_empty_message_drains_the_queue() {
    let mut c = ChannelBuffers::new();
    assert_eq!(c.queue_send_raw(Bytes::new()), Ok(()));
    assert_eq!(c.outgoing.len(), 2);
    let n = c.outgoing.remaining();
    assert_eq!(n, 4);
    c.outgoing.advance(n);
    assert_eq!(c.outgoing.len(), 0);
}
