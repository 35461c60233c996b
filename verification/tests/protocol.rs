use netidx::protocol::shared::{
    PermissionToken, SocketAddr, SocketAddr_SocketAddrV4, SocketAddr_SocketAddrV6,
    SocketAddr_oneof_addr,
};
use netidx::wire::DecodeError;

const V4_BYTES: [u8; 9] = [0x08, 0x90, 0x3f, 0x10, 0x81, 0x80, 0x80, 0xf8, 0x07];
const V6_BYTES: [u8; 19] = [
    0x08, 0xbb, 0x03, 0x10, 0x07, 0x18, 0x02, 0x20, 0x80, 0x80, 0x80, 0x80, 0x80, 0xb7, 0xc3,
    0x80, 0x20, 0x28, 0x01,
];

fn v4() -> SocketAddr_SocketAddrV4 {
    let mut m = SocketAddr_SocketAddrV4::new();
    m.port = 8080;
    m.octets = 0x7f00_0001;
    m
}

fn v6() -> SocketAddr_SocketAddrV6 {
    let mut m = SocketAddr_SocketAddrV6::new();
    m.port = 443;
    m.flowinfo = 7;
    m.scope_id = 2;
    m.octets_a = 0x2001_0db8_0000_0000;
    m.octets_b = 1;
    m
}

#[test]
fn v4_new_is_empty() {
    let m = SocketAddr_SocketAddrV4::new();
    assert_eq!(m.get_port(), 0);
    assert_eq!(m.get_octets(), 0);
    assert!(m.is_initialized());
    assert_eq!(m.compute_size(), 0);
    let mut buf = Vec::new();
    m.write_to_with_cached_sizes(&mut buf);
    assert!(buf.is_empty());
}

#[test]
fn v4_encoding() {
    let m = v4();
    assert_eq!(m.compute_size(), 9);
    let mut buf = vec![0xaa];
    m.write_to_with_cached_sizes(&mut buf);
    let mut expected = vec![0xaa];
    expected.extend_from_slice(&V4_BYTES);
    assert_eq!(buf, expected);
}

#[test]
fn v4_roundtrip() {
    let m = v4();
    let mut buf = Vec::new();
    m.write_to_with_cached_sizes(&mut buf);
    let mut d = SocketAddr_SocketAddrV4::new();
    assert_eq!(d.merge_from(&buf), Ok(()));
    assert_eq!(d.get_port(), 8080);
    assert_eq!(d.get_octets(), 0x7f00_0001);
    assert_eq!(d, m);
}

#[test]
fn v4_merge_keeps_fields_not_in_input() {
    let mut d = v4();
    assert_eq!(d.merge_from(&[0x08, 0x05]), Ok(()));
    assert_eq!(d.get_port(), 5);
    assert_eq!(d.get_octets(), 0x7f00_0001);
}

#[test]
fn v4_truncated_input() {
    let mut d = SocketAddr_SocketAddrV4::new();
    assert_eq!(d.merge_from(&V4_BYTES[..4]), Err(DecodeError::UnexpectedEof));
    // the port was read before the input ran out
    assert_eq!(d.get_port(), 8080);
}

#[test]
fn v4_wrong_wire_type() {
    let mut d = SocketAddr_SocketAddrV4::new();
    assert_eq!(d.merge_from(&[0x0a, 0x00]), Err(DecodeError::UnexpectedWireType(2)));
}

#[test]
fn v4_zero_tag() {
    let mut d = SocketAddr_SocketAddrV4::new();
    assert_eq!(d.merge_from(&[0x00]), Err(DecodeError::IncorrectTag(0)));
}

#[test]
fn v4_overlong_varint() {
    let mut d = SocketAddr_SocketAddrV4::new();
    let bytes = [0x08, 0xff, 0xff, 0xff, 0xff, 0xff, 0xff, 0xff, 0xff, 0xff, 0xff, 0x01];
    assert_eq!(d.merge_from(&bytes), Err(DecodeError::IncorrectVarint));
}

#[test]
fn v4_large_varint_truncates_to_u32() {
    let mut d = SocketAddr_SocketAddrV4::new();
    // 2^32 + 3 read into a 32-bit field keeps the low 32 bits
    assert_eq!(d.merge_from(&[0x08, 0x83, 0x80, 0x80, 0x80, 0x10]), Ok(()));
    assert_eq!(d.get_port(), 3);
}

#[test]
fn v4_unknown_fields_kept() {
    let mut d = SocketAddr_SocketAddrV4::new();
    // field 3, varint 150, then field 1
    assert_eq!(d.merge_from(&[0x18, 0x96, 0x01, 0x08, 0x01]), Ok(()));
    assert_eq!(d.get_port(), 1);
    // two bytes for field 1, three for the unknown field
    assert_eq!(d.compute_size(), 5);
    let mut buf = Vec::new();
    d.write_to_with_cached_sizes(&mut buf);
    assert_eq!(buf, vec![0x08, 0x01, 0x18, 0x96, 0x01]);
}

#[test]
fn v4_unknown_length_delimited_kept() {
    let mut d = SocketAddr_SocketAddrV4::new();
    assert_eq!(d.merge_from(&[0x22, 0x02, 0x61, 0x62]), Ok(()));
    assert_eq!(d.compute_size(), 4);
    let mut buf = Vec::new();
    d.write_to_with_cached_sizes(&mut buf);
    assert_eq!(buf, vec![0x22, 0x02, 0x61, 0x62]);
    d.clear();
    assert_eq!(d.compute_size(), 0);
}

#[test]
fn v4_truncated_length_delimited() {
    let mut d = SocketAddr_SocketAddrV4::new();
    assert_eq!(d.merge_from(&[0x22, 0x05, 0x61]), Err(DecodeError::UnexpectedEof));
}

#[test]
fn v4_unknown_fixed_fields_kept() {
    let mut d = SocketAddr_SocketAddrV4::new();
    let bytes = [0x1d, 1, 2, 3, 4, 0x21, 1, 2, 3, 4, 5, 6, 7, 8];
    assert_eq!(d.merge_from(&bytes), Ok(()));
    assert_eq!(d.compute_size(), 14);
}

#[test]
fn v4_group_skipped() {
    let mut d = SocketAddr_SocketAddrV4::new();
    // field 3 start group, field 1 varint inside, field 3 end group, field 1 = 9
    assert_eq!(d.merge_from(&[0x1b, 0x08, 0x01, 0x1c, 0x08, 0x09]), Ok(()));
    assert_eq!(d.get_port(), 9);
    assert_eq!(d.compute_size(), 2);
}

#[test]
fn v4_bad_wire_type_tag() {
    let mut d = SocketAddr_SocketAddrV4::new();
    // wire type 7 does not exist
    assert_eq!(d.merge_from(&[0x0f]), Err(DecodeError::IncorrectTag(15)));
}

#[test]
fn v4_copy_and_clear() {
    let m = v4();
    let c = m.copy();
    assert_eq!(c, m);
    let mut c = c;
    c.clear();
    assert_eq!(c, SocketAddr_SocketAddrV4::new());
}

#[test]
fn v6_encoding_and_roundtrip() {
    let m = v6();
    assert_eq!(m.get_port(), 443);
    assert_eq!(m.get_flowinfo(), 7);
    assert_eq!(m.get_scope_id(), 2);
    assert_eq!(m.get_octets_a(), 0x2001_0db8_0000_0000);
    assert_eq!(m.get_octets_b(), 1);
    assert_eq!(m.compute_size(), 19);
    let mut buf = Vec::new();
    m.write_to_with_cached_sizes(&mut buf);
    assert_eq!(buf, V6_BYTES.to_vec());
    let mut d = SocketAddr_SocketAddrV6::new();
    assert_eq!(d.merge_from(&buf), Ok(()));
    assert_eq!(d, m);
    assert!(d.is_initialized());
    d.clear();
    assert_eq!(d, SocketAddr_SocketAddrV6::new());
}

#[test]
fn v6_truncated() {
    let mut d = SocketAddr_SocketAddrV6::new();
    assert_eq!(d.merge_from(&V6_BYTES[..10]), Err(DecodeError::UnexpectedEof));
    assert_eq!(d.get_port(), 443);
    assert_eq!(d.get_scope_id(), 2);
}

#[test]
fn v6_wrong_wire_type() {
    let mut d = SocketAddr_SocketAddrV6::new();
    assert_eq!(d.merge_from(&[0x25, 0, 0, 0, 0]), Err(DecodeError::UnexpectedWireType(5)));
}

#[test]
fn socket_addr_v4() {
    let mut m = SocketAddr::new();
    assert_eq!(m.compute_size(), 0);
    m.addr = Some(SocketAddr_oneof_addr::V4(v4()));
    assert_eq!(m.compute_size(), 11);
    let mut buf = Vec::new();
    m.write_to_with_cached_sizes(&mut buf);
    let mut expected = vec![0x0a, 0x09];
    expected.extend_from_slice(&V4_BYTES);
    assert_eq!(buf, expected);
    let mut d = SocketAddr::new();
    assert_eq!(d.merge_from(&buf), Ok(()));
    assert_eq!(d, m);
    assert_eq!(d.get_V4(), v4());
    assert_eq!(d.get_V6(), SocketAddr_SocketAddrV6::new());
    assert!(d.is_initialized());
}

#[test]
fn socket_addr_v6() {
    let mut m = SocketAddr::new();
    m.addr = Some(SocketAddr_oneof_addr::V6(v6()));
    assert_eq!(m.compute_size(), 21);
    let mut buf = Vec::new();
    m.write_to_with_cached_sizes(&mut buf);
    let mut expected = vec![0x12, 0x13];
    expected.extend_from_slice(&V6_BYTES);
    assert_eq!(buf, expected);
    let mut d = SocketAddr::new();
    assert_eq!(d.merge_from(&buf), Ok(()));
    assert_eq!(d.get_V6(), v6());
    assert_eq!(d.get_V4(), SocketAddr_SocketAddrV4::new());
    d.clear();
    assert_eq!(d, SocketAddr::new());
}

#[test]
fn socket_addr_last_address_wins() {
    let mut buf = vec![0x0a, 0x09];
    buf.extend_from_slice(&V4_BYTES);
    buf.push(0x12);
    buf.push(0x13);
    buf.extend_from_slice(&V6_BYTES);
    let mut d = SocketAddr::new();
    assert_eq!(d.merge_from(&buf), Ok(()));
    assert_eq!(d.addr, Some(SocketAddr_oneof_addr::V6(v6())));
}

#[test]
fn socket_addr_nested_cut_short() {
    let mut d = SocketAddr::new();
    // the nested message claims nine bytes and three are there: it is read
    // up to the end of the input
    assert_eq!(d.merge_from(&[0x0a, 0x09, 0x08, 0x90, 0x3f]), Ok(()));
    let mut expected = SocketAddr_SocketAddrV4::new();
    expected.port = 8080;
    assert_eq!(d.get_V4(), expected);
}

#[test]
fn socket_addr_nested_error() {
    let mut d = SocketAddr::new();
    assert_eq!(d.merge_from(&[0x0a, 0x01, 0x00]), Err(DecodeError::IncorrectTag(0)));
}

#[test]
fn socket_addr_wrong_wire_type() {
    let mut d = SocketAddr::new();
    assert_eq!(d.merge_from(&[0x08, 0x01]), Err(DecodeError::UnexpectedWireType(0)));
}

#[test]
fn token_roundtrip() {
    let mut m = PermissionToken::new();
    assert_eq!(m.get_path(), "");
    assert_eq!(m.get_timestamp(), 0);
    assert_eq!(m.compute_size(), 0);
    m.path = String::from("/foo/bar");
    m.timestamp = 1_589_000_000;
    assert_eq!(m.compute_size(), 16);
    let mut buf = Vec::new();
    m.write_to_with_cached_sizes(&mut buf);
    let mut expected = vec![0x0a, 0x08];
    expected.extend_from_slice(b"/foo/bar");
    expected.extend_from_slice(&[0x10, 0xc0, 0xee, 0xd8, 0xf5, 0x05]);
    assert_eq!(buf, expected);
    let mut d = PermissionToken::new();
    assert_eq!(d.merge_from(&buf), Ok(()));
    assert_eq!(d.get_path(), "/foo/bar");
    assert_eq!(d.get_timestamp(), 1_589_000_000);
    assert_eq!(d, m);
    assert!(d.is_initialized());
    d.clear();
    assert_eq!(d, PermissionToken::new());
}

#[test]
fn token_non_ascii_path() {
    let mut m = PermissionToken::new();
    m.path = String::from("/é");
    assert_eq!(m.compute_size(), 5);
    let mut buf = Vec::new();
    m.write_to_with_cached_sizes(&mut buf);
    assert_eq!(buf, vec![0x0a, 0x03, 0x2f, 0xc3, 0xa9]);
    let mut d = PermissionToken::new();
    assert_eq!(d.merge_from(&buf), Ok(()));
    assert_eq!(d.get_path(), "/é");
}

#[test]
fn token_invalid_utf8() {
    let mut d = PermissionToken::new();
    assert_eq!(d.merge_from(&[0x0a, 0x02, 0xff, 0xfe]), Err(DecodeError::Utf8));
}

#[test]
fn token_wrong_wire_type() {
    let mut d = PermissionToken::new();
    assert_eq!(d.merge_from(&[0x08, 0x01]), Err(DecodeError::UnexpectedWireType(0)));
    assert_eq!(d.merge_from(&[0x12, 0x00]), Err(DecodeError::UnexpectedWireType(2)));
}

#[test]
fn v4_merging_in_two_runs_is_merging_once() {
    let a = [0x08, 0x05, 0x18, 0x01];
    let b = [0x10, 0x07, 0x08, 0x06];
    let mut one = SocketAddr_SocketAddrV4::new();
    assert_eq!(one.merge_from(&a), Ok(()));
    assert_eq!(one.merge_from(&b), Ok(()));
    let mut both = SocketAddr_SocketAddrV4::new();
    let ab: Vec<u8> = a.iter().chain(b.iter()).copied().collect();
    assert_eq!(both.merge_from(&ab), Ok(()));
    assert_eq!(one, both);
    assert_eq!(both.get_port(), 6);
    assert_eq!(both.get_octets(), 7);
}

#[test]
fn v6_merging_in_two_runs_is_merging_once() {
    let (a, b) = V6_BYTES.split_at(7);
    let mut one = SocketAddr_SocketAddrV6::new();
    assert_eq!(one.merge_from(a), Ok(()));
    assert_eq!(one.merge_from(b), Ok(()));
    assert_eq!(one, v6());
}

#[test]
fn token_merging_in_two_runs_is_merging_once() {
    let mut m = PermissionToken::new();
    m.path = String::from("/a");
    m.timestamp = 9;
    let mut buf = Vec::new();
    m.write_to_with_cached_sizes(&mut buf);
    let (a, b) = buf.split_at(4);
    let mut one = PermissionToken::new();
    assert_eq!(one.merge_from(a), Ok(()));
    assert_eq!(one.merge_from(b), Ok(()));
    assert_eq!(one, m);
}

#[test]
fn socket_addr_nested_message_cut_between_runs() {
    // merging the nested message in two runs is not merging it once: the
    // first run ends inside the nested message, which is read as far as it
    // goes, and the second run does not continue it
    let a = [0x0a, 0x04, 0x08, 0x01];
    let b = [0x10, 0x02];
    let mut both = SocketAddr::new();
    let ab: Vec<u8> = a.iter().chain(b.iter()).copied().collect();
    assert_eq!(both.merge_from(&ab), Ok(()));
    let mut expected = SocketAddr_SocketAddrV4::new();
    expected.port = 1;
    expected.octets = 2;
    assert_eq!(both.get_V4(), expected);
    let mut one = SocketAddr::new();
    assert_eq!(one.merge_from(&a), Ok(()));
    assert_eq!(one.merge_from(&b), Err(DecodeError::UnexpectedWireType(0)));
}

#[test]
fn unknown_fields_written_field_after_field() {
    let mut d = SocketAddr_SocketAddrV4::new();
    // field 3 varint 1, field 4 fixed32, field 3 varint 2, then field 1
    let bytes = [0x18, 0x01, 0x25, 1, 2, 3, 4, 0x18, 0x02, 0x08, 0x07];
    assert_eq!(d.merge_from(&bytes), Ok(()));
    let mut buf = Vec::new();
    d.write_to_with_cached_sizes(&mut buf);
    let field3 = [0x18, 0x01, 0x18, 0x02];
    let field4 = [0x25, 1, 2, 3, 4];
    let mut a = vec![0x08, 0x07];
    a.extend_from_slice(&field3);
    a.extend_from_slice(&field4);
    let mut b = vec![0x08, 0x07];
    b.extend_from_slice(&field4);
    b.extend_from_slice(&field3);
    assert!(buf == a || buf == b, "{:?}", buf);
    assert_eq!(buf.len() as u32, d.compute_size());
}
