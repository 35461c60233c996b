// The readers of `netidx::wire` and the decoding of the shared messages,
// held against the protobuf runtime's own input stream on the same bytes.

use netidx::protocol::shared::{
    PermissionToken, SocketAddr, SocketAddr_SocketAddrV4, SocketAddr_SocketAddrV6,
    SocketAddr_oneof_addr,
};
use netidx::wire::{
    read_length_delimited, read_tag, read_unknown_value, read_varint64, skip_group, DecodeError,
    WireValue, NO_LIMIT,
};
use protobuf::{
    error::WireError, rt, wire_format::WireType, CodedInputStream, ProtobufError,
    ProtobufResult, UnknownFields, UnknownValue,
};

fn decode_error(e: ProtobufError) -> DecodeError {
    match e {
        ProtobufError::WireError(WireError::UnexpectedEof) => DecodeError::UnexpectedEof,
        ProtobufError::WireError(WireError::IncorrectVarint) => DecodeError::IncorrectVarint,
        ProtobufError::WireError(WireError::IncorrectTag(t)) => DecodeError::IncorrectTag(t),
        ProtobufError::WireError(WireError::UnexpectedWireType(wt)) => {
            DecodeError::UnexpectedWireType(wt as u32)
        }
        ProtobufError::WireError(WireError::TruncatedMessage) => DecodeError::TruncatedMessage,
        ProtobufError::WireError(WireError::Utf8Error) => DecodeError::Utf8,
        ProtobufError::Utf8(_) => DecodeError::Utf8,
        ProtobufError::WireError(WireError::Other) => DecodeError::LimitOverflow,
        e => panic!("unexpected error {:?}", e),
    }
}

fn wire_value(v: UnknownValue) -> WireValue {
    match v {
        UnknownValue::Fixed32(x) => WireValue::Fixed32(x),
        UnknownValue::Fixed64(x) => WireValue::Fixed64(x),
        UnknownValue::Varint(x) => WireValue::Varint(x),
        UnknownValue::LengthDelimited(b) => WireValue::LengthDelimited(b),
    }
}

/// A deterministic run of inputs: short byte strings, biased towards
/// small values and continuation bytes.
fn inputs() -> Vec<Vec<u8>> {
    let mut out = vec![
        vec![],
        vec![0x00],
        vec![0x08],
        vec![0x08, 0x96, 0x01],
        vec![0xff; 9],
        vec![0xff; 10],
        vec![0xff; 11],
        vec![0xff, 0xff, 0xff, 0xff, 0xff, 0xff, 0xff, 0xff, 0xff, 0x01],
        vec![0x80, 0x80, 0x80, 0x80, 0x10],
        vec![0x0f],
        vec![0x1b, 0x08, 0x01, 0x1c],
        vec![0x1b, 0x1b, 0x1c],
        vec![0x22, 0x03, 0x61, 0x62],
        vec![0x22, 0xff, 0xff, 0xff, 0xff, 0x0f],
        vec![0x22, 0x80, 0xad, 0xe2, 0x04],
        vec![0x25, 0x01, 0x02, 0x03],
        vec![0x21, 0x01, 0x02, 0x03, 0x04, 0x05, 0x06, 0x07, 0x08, 0x09],
    ];
    let mut state: u64 = 0x2545_f491_4f6c_dd1d;
    for _ in 0..3000 {
        state = state.wrapping_mul(6364136223846793005).wrapping_add(1442695040888963407);
        let len = ((state >> 33) % 14) as usize;
        let mut v = Vec::with_capacity(len);
        for _ in 0..len {
            state = state.wrapping_mul(6364136223846793005).wrapping_add(1442695040888963407);
            let r = (state >> 40) as u32;
            let b = match r % 8 {
                0 | 1 => (r >> 8) as u8,
                2 => 0x80 | ((r >> 8) as u8 & 0x7f),
                3 => 0xff,
                _ => ((r >> 8) % 0x30) as u8,
            };
            v.push(b);
        }
        out.push(v);
    }
    out
}

#[test]
fn varints_read_as_the_runtime_reads_them() {
    for b in inputs() {
        let mut is = CodedInputStream::from_bytes(&b);
        let expected = is.read_raw_varint64().map(|v| (v, is.pos() as usize)).map_err(decode_error);
        assert_eq!(read_varint64(&b, 0, b.len()), expected, "input {:?}", b);
    }
}

#[test]
fn tags_read_as_the_runtime_reads_them() {
    for b in inputs() {
        let mut is = CodedInputStream::from_bytes(&b);
        let expected = is
            .read_tag_unpack()
            .map(|(f, wt)| (f, wt as u32, is.pos() as usize))
            .map_err(decode_error);
        assert_eq!(read_tag(&b, 0, NO_LIMIT), expected, "input {:?}", b);
    }
}

#[test]
fn unknown_values_read_as_the_runtime_reads_them() {
    for b in inputs() {
        for wt in 0..6u32 {
            let mut is = CodedInputStream::from_bytes(&b);
            let expected = is
                .read_unknown(WireType::new(wt).unwrap())
                .map(|v| (wire_value(v), is.pos() as usize))
                .map_err(decode_error);
            assert_eq!(read_unknown_value(&b, 0, NO_LIMIT, wt), expected, "input {:?} {}", b, wt);
        }
    }
}

#[test]
fn length_delimited_runs_read_as_the_runtime_reads_them() {
    for b in inputs() {
        let mut is = CodedInputStream::from_bytes(&b);
        let expected = is.read_bytes().map(|v| (v, is.pos() as usize)).map_err(decode_error);
        assert_eq!(read_length_delimited(&b, 0, NO_LIMIT), expected, "input {:?}", b);
    }
}

#[test]
fn groups_skip_as_the_runtime_skips_them() {
    for b in inputs() {
        let mut is = CodedInputStream::from_bytes(&b);
        let mut uf = UnknownFields::new();
        let expected = rt::read_unknown_or_skip_group(1, WireType::WireTypeStartGroup, &mut is, &mut uf)
            .map(|()| is.pos() as usize)
            .map_err(decode_error);
        assert_eq!(skip_group(&b, 0, NO_LIMIT), expected, "input {:?}", b);
    }
}

fn runtime_v4(is: &mut CodedInputStream, m: &mut SocketAddr_SocketAddrV4) -> ProtobufResult<()> {
    while !is.eof()? {
        let (f, wt) = is.read_tag_unpack()?;
        match f {
            1 | 2 => {
                if wt != WireType::WireTypeVarint {
                    return Err(rt::unexpected_wire_type(wt));
                }
                let v = is.read_uint32()?;
                if f == 1 {
                    m.port = v;
                } else {
                    m.octets = v;
                }
            }
            _ => rt::read_unknown_or_skip_group(f, wt, is, &mut m.unknown_fields)?,
        }
    }
    Ok(())
}

fn runtime_v6(is: &mut CodedInputStream, m: &mut SocketAddr_SocketAddrV6) -> ProtobufResult<()> {
    while !is.eof()? {
        let (f, wt) = is.read_tag_unpack()?;
        match f {
            1..=5 => {
                if wt != WireType::WireTypeVarint {
                    return Err(rt::unexpected_wire_type(wt));
                }
                match f {
                    1 => m.port = is.read_uint32()?,
                    2 => m.flowinfo = is.read_uint32()?,
                    3 => m.scope_id = is.read_uint32()?,
                    4 => m.octets_a = is.read_uint64()?,
                    _ => m.octets_b = is.read_uint64()?,
                }
            }
            _ => rt::read_unknown_or_skip_group(f, wt, is, &mut m.unknown_fields)?,
        }
    }
    Ok(())
}

fn runtime_token(is: &mut CodedInputStream, m: &mut PermissionToken) -> ProtobufResult<()> {
    while !is.eof()? {
        let (f, wt) = is.read_tag_unpack()?;
        match f {
            1 => {
                if wt != WireType::WireTypeLengthDelimited {
                    return Err(rt::unexpected_wire_type(wt));
                }
                // the path is replaced only by a run that is valid UTF-8
                let b = is.read_bytes()?;
                m.path = String::from_utf8(b)
                    .map_err(|_| ProtobufError::WireError(WireError::Utf8Error))?;
            }
            2 => {
                if wt != WireType::WireTypeVarint {
                    return Err(rt::unexpected_wire_type(wt));
                }
                m.timestamp = is.read_uint64()?;
            }
            _ => rt::read_unknown_or_skip_group(f, wt, is, &mut m.unknown_fields)?,
        }
    }
    Ok(())
}

#[test]
fn v4_decodes_as_the_runtime_decodes() {
    for b in inputs() {
        let mut expected = SocketAddr_SocketAddrV4::new();
        let r = runtime_v4(&mut CodedInputStream::from_bytes(&b), &mut expected).map_err(decode_error);
        let mut got = SocketAddr_SocketAddrV4::new();
        assert_eq!(got.merge_from(&b), r, "input {:?}", b);
        assert_eq!(got, expected, "input {:?}", b);
    }
}

#[test]
fn v6_decodes_as_the_runtime_decodes() {
    for b in inputs() {
        let mut expected = SocketAddr_SocketAddrV6::new();
        let r = runtime_v6(&mut CodedInputStream::from_bytes(&b), &mut expected).map_err(decode_error);
        let mut got = SocketAddr_SocketAddrV6::new();
        assert_eq!(got.merge_from(&b), r, "input {:?}", b);
        assert_eq!(got, expected, "input {:?}", b);
    }
}

#[test]
fn token_decodes_as_the_runtime_decodes() {
    let mut all = inputs();
    all.push(vec![0x0a, 0x02, 0xc3, 0xa9, 0x10, 0x05]);
    all.push(vec![0x0a, 0x02, 0xff, 0xfe]);
    for b in all {
        let mut expected = PermissionToken::new();
        let r = runtime_token(&mut CodedInputStream::from_bytes(&b), &mut expected).map_err(decode_error);
        let mut got = PermissionToken::new();
        assert_eq!(got.merge_from(&b), r, "input {:?}", b);
        assert_eq!(got, expected, "input {:?}", b);
    }
}

fn runtime_socket_addr(is: &mut CodedInputStream, m: &mut SocketAddr) -> ProtobufResult<()> {
    while !is.eof()? {
        let (f, wt) = is.read_tag_unpack()?;
        match f {
            1 | 2 => {
                if wt != WireType::WireTypeLengthDelimited {
                    return Err(rt::unexpected_wire_type(wt));
                }
                let len = is.read_raw_varint64()?;
                let old = is.push_limit(len)?;
                if f == 1 {
                    let mut v = SocketAddr_SocketAddrV4::new();
                    runtime_v4(is, &mut v)?;
                    m.addr = Some(SocketAddr_oneof_addr::V4(v));
                } else {
                    let mut v = SocketAddr_SocketAddrV6::new();
                    runtime_v6(is, &mut v)?;
                    m.addr = Some(SocketAddr_oneof_addr::V6(v));
                }
                is.pop_limit(old);
            }
            _ => rt::read_unknown_or_skip_group(f, wt, is, &mut m.unknown_fields)?,
        }
    }
    Ok(())
}

#[test]
fn socket_addr_decodes_as_the_runtime_decodes() {
    let mut all = inputs();
    for b in inputs().into_iter().take(1500) {
        let mut v = vec![0x0a, b.len() as u8];
        v.extend_from_slice(&b);
        all.push(v);
        let mut w = vec![0x12, (b.len() + 2) as u8];
        w.extend_from_slice(&b);
        all.push(w);
    }
    all.push(vec![0x0a, 0xff, 0xff, 0xff, 0xff, 0xff, 0xff, 0xff, 0xff, 0xff, 0x01]);
    for b in all {
        let mut expected = SocketAddr::new();
        let r = runtime_socket_addr(&mut CodedInputStream::from_bytes(&b), &mut expected)
            .map_err(decode_error);
        let mut got = SocketAddr::new();
        assert_eq!(got.merge_from(&b), r, "input {:?}", b);
        assert_eq!(got, expected, "input {:?}", b);
    }
}
