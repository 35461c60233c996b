//! What the protocol buffers runtime computes and writes for the shared
//! messages: encoded sizes, encoded fields, and the unknown fields that a
//! message keeps. Each item here calls the `protobuf` crate; its contract
//! states what that crate's source shows the call does.

use crate::wire::{
    varint_bytes, DecodeError, WireValue, WireValueView, FIELD_NUMBER_MAX,
};
use vstd::prelude::*;
use vstd::utf8::encode_utf8;
use vstd::utf8::valid_utf8;

verus! {

/// The values kept for one unknown field number: fixed 32-bit values,
/// fixed 64-bit values, varints and length-delimited runs, each kind in the
/// order in which it was read.
pub type UnknownValuesView = (Seq<u32>, Seq<u64>, Seq<u64>, Seq<Seq<u8>>);

/// Unknown fields by field number.
pub type UnknownMap = Map<u32, (Seq<u32>, Seq<u64>, Seq<u64>, Seq<Seq<u8>>)>;

#[verifier::external_type_specification]
#[verifier::external_body]
pub struct ExUnknownFields(protobuf::UnknownFields);

/// What a `protobuf::UnknownFields` holds, by field number.
pub uninterp spec fn unknown_fields_contents(u: protobuf::UnknownFields) -> Map<u32, (Seq<u32>, Seq<u64>, Seq<u64>, Seq<Seq<u8>>)>;

/// No unknown field at all.
pub open spec fn no_unknown_fields() -> UnknownMap {
    Map::empty()
}

/// No value of any kind.
pub open spec fn no_values() -> UnknownValuesView {
    (Seq::empty(), Seq::empty(), Seq::empty(), Seq::empty())
}

/// `m` with `v` appended to the values of its kind under `number`.
pub open spec fn unknown_add(m: UnknownMap, number: u32, v: WireValueView) -> UnknownMap {
    let e = if m.contains_key(number) {
        m[number]
    } else {
        no_values()
    };
    let e2 = match v {
        WireValueView::Fixed32(x) => (e.0.push(x), e.1, e.2, e.3),
        WireValueView::Fixed64(x) => (e.0, e.1.push(x), e.2, e.3),
        WireValueView::Varint(x) => (e.0, e.1, e.2.push(x), e.3),
        WireValueView::LengthDelimited(b) => (e.0, e.1, e.2, e.3.push(b)),
    };
    m.insert(number, e2)
}

/// `m` with the value read for an unknown field, if it was not a group.
pub open spec fn unknown_add_opt(m: UnknownMap, number: u32, v: Option<WireValueView>) -> UnknownMap {
    match v {
        Some(x) => unknown_add(m, number, x),
        None => m,
    }
}

/// The bytes of a tag.
pub open spec fn tag_bytes(field: nat, wt: nat) -> Seq<u8> {
    varint_bytes(field * 8 + wt)
}

/// The size of a tag of field `field`, whatever its wire type.
pub open spec fn tag_len(field: nat) -> nat {
    varint_bytes(field * 8 + 1).len()
}

/// The encoded size of varint fields numbered `number` with the values `vs`.
pub open spec fn varints_len(number: nat, vs: Seq<u64>) -> nat
    decreases vs.len(),
{
    if vs.len() == 0 {
        0
    } else {
        varints_len(number, vs.drop_last()) + tag_len(number) + varint_bytes(vs.last() as nat).len()
    }
}

/// The encoded size of length-delimited fields numbered `number` with the
/// runs `vs`.
pub open spec fn runs_len(number: nat, vs: Seq<Seq<u8>>) -> nat
    decreases vs.len(),
{
    if vs.len() == 0 {
        0
    } else {
        runs_len(number, vs.drop_last()) + tag_len(number) + varint_bytes(vs.last().len()).len()
            + vs.last().len()
    }
}

/// The encoded size of the unknown values `e` of field `number`.
pub open spec fn unknown_values_len(number: nat, e: UnknownValuesView) -> nat {
    (tag_len(number) + 4) * e.0.len() + (tag_len(number) + 8) * e.1.len() + varints_len(number, e.2)
        + runs_len(number, e.3)
}

/// The encoded size of all unknown fields of `m`.
pub open spec fn unknown_fields_len(m: UnknownMap) -> nat {
    m.dom().fold(0nat, |acc: nat, k: u32| acc + unknown_values_len(k as nat, m[k]))
}

/// Unknown fields that can be sized and written: finitely many, each under
/// a field number that a tag can carry.
pub open spec fn unknown_fields_valid(m: UnknownMap) -> bool {
    &&& m.dom().finite()
    &&& forall|k: u32| #[trigger] m.contains_key(k) ==> 1 <= k <= FIELD_NUMBER_MAX
}

/// The `k` bytes of `v`, least significant first.
pub open spec fn le_bytes(v: nat, k: nat) -> Seq<u8>
    decreases k,
{
    if k == 0 {
        Seq::empty()
    } else {
        seq![(v % 256) as u8] + le_bytes(v / 256, (k - 1) as nat)
    }
}

/// The encoding of one unknown value of field `number`: its tag, then the
/// value in the form its wire type gives it.
pub open spec fn unknown_value_bytes(number: nat, v: WireValueView) -> Seq<u8> {
    match v {
        WireValueView::Fixed32(x) => tag_bytes(number, 5) + le_bytes(x as nat, 4),
        WireValueView::Fixed64(x) => tag_bytes(number, 1) + le_bytes(x as nat, 8),
        WireValueView::Varint(x) => tag_bytes(number, 0) + varint_bytes(x as nat),
        WireValueView::LengthDelimited(b) => tag_bytes(number, 2) + varint_bytes(b.len()) + b,
    }
}

/// The values kept for one field number, in the order they are written:
/// the fixed 32-bit values, the fixed 64-bit values, the varints, then the
/// length-delimited runs, each kind in the order in which it was read.
pub open spec fn unknown_values_list(e: UnknownValuesView) -> Seq<WireValueView> {
    e.0.map_values(|x: u32| WireValueView::Fixed32(x)) + e.1.map_values(
        |x: u64| WireValueView::Fixed64(x),
    ) + e.2.map_values(|x: u64| WireValueView::Varint(x)) + e.3.map_values(
        |b: Seq<u8>| WireValueView::LengthDelimited(b),
    )
}

/// The encodings of the values `vs` of field `number`, one after the other.
pub open spec fn values_bytes(number: nat, vs: Seq<WireValueView>) -> Seq<u8>
    decreases vs.len(),
{
    if vs.len() == 0 {
        Seq::empty()
    } else {
        values_bytes(number, vs.drop_last()) + unknown_value_bytes(number, vs.last())
    }
}

/// The encoding of the unknown fields of `m`, field after field in the
/// order `order` gives the field numbers.
pub open spec fn unknown_fields_bytes(m: UnknownMap, order: Seq<u32>) -> Seq<u8>
    decreases order.len(),
{
    if order.len() == 0 {
        Seq::empty()
    } else {
        unknown_fields_bytes(m, order.drop_last()) + values_bytes(
            order.last() as nat,
            unknown_values_list(m[order.last()]),
        )
    }
}

/// `order` names each field number of `m` once, and nothing else.
pub open spec fn field_order(m: UnknownMap, order: Seq<u32>) -> bool {
    order.no_duplicates() && order.to_set() == m.dom()
}

/// `after` is `before` followed by the unknown fields of `m`, field after
/// field in some order that names each field number once.
pub open spec fn appended_in_some_order(before: Seq<u8>, after: Seq<u8>, m: UnknownMap) -> bool {
    exists|order: Seq<u32>| #[trigger] field_order(m, order) && after == before + unknown_fields_bytes(m, order)
}

/// With no unknown field there is one order, and nothing is written.
pub proof fn lemma_no_unknown_bytes(order: Seq<u32>)
    requires
        field_order(no_unknown_fields(), order),
    ensures
        unknown_fields_bytes(no_unknown_fields(), order) == Seq::<u8>::empty(),
{
    if order.len() > 0 {
        assert(order.to_set().contains(order[0]));
    }
}

/// `UnknownFields::new`: no unknown field.
#[verifier::external_body]
pub(crate) fn unknown_fields_new() -> (r: protobuf::UnknownFields)
    ensures
        unknown_fields_contents(r) == no_unknown_fields(),
{
    protobuf::UnknownFields::new()
}

/// `UnknownFields::add_value`: appends `value` to the values of its kind
/// under `number`.
#[verifier::external_body]
pub(crate) fn unknown_fields_add(u: &mut protobuf::UnknownFields, number: u32, value: WireValue)
    ensures
        unknown_fields_contents(*final(u)) == unknown_add(unknown_fields_contents(*old(u)), number, value@),
{
    let v = match value {
        WireValue::Fixed32(x) => protobuf::UnknownValue::Fixed32(x),
        WireValue::Fixed64(x) => protobuf::UnknownValue::Fixed64(x),
        WireValue::Varint(x) => protobuf::UnknownValue::Varint(x),
        WireValue::LengthDelimited(b) => protobuf::UnknownValue::LengthDelimited(b),
    };
    u.add_value(number, v);
}

/// `Clear::clear` on unknown fields: no unknown field is left.
#[verifier::external_body]
pub(crate) fn unknown_fields_clear(u: &mut protobuf::UnknownFields)
    ensures
        unknown_fields_contents(*final(u)) == no_unknown_fields(),
{
    protobuf::Clear::clear(u);
}

/// `Clone::clone` on unknown fields: the same unknown fields.
pub assume_specification[ <protobuf::UnknownFields as core::clone::Clone>::clone ](u: &protobuf::UnknownFields) -> (r: protobuf::UnknownFields)
    ensures
        unknown_fields_contents(r) == unknown_fields_contents(*u),
;

/// `rt::unknown_fields_size`: the encoded size of the unknown fields.
#[verifier::external_body]
pub(crate) fn unknown_fields_size(u: &protobuf::UnknownFields) -> (r: u32)
    requires
        unknown_fields_valid(unknown_fields_contents(*u)),
        unknown_fields_len(unknown_fields_contents(*u)) <= u32::MAX,
    ensures
        r == unknown_fields_len(unknown_fields_contents(*u)),
{
    protobuf::rt::unknown_fields_size(u)
}

/// `CodedOutputStream::write_unknown_fields` into `buf`: appends the
/// unknown fields, field after field in the order in which the underlying
/// hash map is walked, and how many bytes that is. Which order that is
/// rests on the hash map and is not stated: only that each field number
/// comes once.
#[verifier::external_body]
pub(crate) fn put_unknown_fields(buf: &mut Vec<u8>, u: &protobuf::UnknownFields)
    requires
        unknown_fields_valid(unknown_fields_contents(*u)),
        unknown_fields_len(unknown_fields_contents(*u)) <= u32::MAX,
    ensures
        final(buf)@.len() == old(buf)@.len() + unknown_fields_len(unknown_fields_contents(*u)),
        final(buf)@.subrange(0, old(buf)@.len() as int) == old(buf)@,
        appended_in_some_order(old(buf)@, final(buf)@, unknown_fields_contents(*u)),
{
    let mut os = protobuf::CodedOutputStream::vec(buf);
    let _ = os.write_unknown_fields(u);
    let _ = os.flush();
}

/// `rt::compute_raw_varint32_size`: the size of the varint of `v`.
#[verifier::external_body]
pub(crate) fn varint32_size(v: u32) -> (r: u32)
    ensures
        r == varint_bytes(v as nat).len(),
{
    protobuf::rt::compute_raw_varint32_size(v)
}

/// `rt::value_size(field, value, WireTypeVarint)`: the size of a varint
/// field, its tag and its value.
#[verifier::external_body]
pub(crate) fn varint_field_size(field: u32, value: u64) -> (r: u32)
    requires
        1 <= field <= FIELD_NUMBER_MAX,
    ensures
        r == tag_len(field as nat) + varint_bytes(value as nat).len(),
{
    protobuf::rt::value_size(field, value, protobuf::wire_format::WireTypeVarint)
}

/// `rt::string_size`: the size of a string field, its tag, the varint of
/// its length in bytes and its UTF-8 bytes.
#[verifier::external_body]
pub(crate) fn string_field_size(field: u32, s: &str) -> (r: u32)
    requires
        1 <= field <= FIELD_NUMBER_MAX,
        tag_len(field as nat) + varint_bytes(encode_utf8(s@).len()).len() + encode_utf8(s@).len() <= u32::MAX,
    ensures
        r == tag_len(field as nat) + varint_bytes(encode_utf8(s@).len()).len() + encode_utf8(s@).len(),
{
    protobuf::rt::string_size(field, s)
}

/// `CodedOutputStream::write_uint32` into `buf`: appends the tag of a varint
/// field and the varint of `value`.
#[verifier::external_body]
pub(crate) fn put_uint32_field(buf: &mut Vec<u8>, field: u32, value: u32)
    requires
        1 <= field <= FIELD_NUMBER_MAX,
    ensures
        final(buf)@ == old(buf)@ + tag_bytes(field as nat, 0) + varint_bytes(value as nat),
{
    let mut os = protobuf::CodedOutputStream::vec(buf);
    let _ = os.write_uint32(field, value);
    let _ = os.flush();
}

/// `CodedOutputStream::write_uint64` into `buf`: appends the tag of a varint
/// field and the varint of `value`.
#[verifier::external_body]
pub(crate) fn put_uint64_field(buf: &mut Vec<u8>, field: u32, value: u64)
    requires
        1 <= field <= FIELD_NUMBER_MAX,
    ensures
        final(buf)@ == old(buf)@ + tag_bytes(field as nat, 0) + varint_bytes(value as nat),
{
    let mut os = protobuf::CodedOutputStream::vec(buf);
    let _ = os.write_uint64(field, value);
    let _ = os.flush();
}

/// `CodedOutputStream::write_string` into `buf`: appends the tag of a
/// length-delimited field, the varint of the length in bytes and the UTF-8
/// bytes of `s`.
#[verifier::external_body]
pub(crate) fn put_string_field(buf: &mut Vec<u8>, field: u32, s: &str)
    requires
        1 <= field <= FIELD_NUMBER_MAX,
        encode_utf8(s@).len() <= u32::MAX,
    ensures
        final(buf)@ == old(buf)@ + tag_bytes(field as nat, 2) + varint_bytes(encode_utf8(s@).len())
            + encode_utf8(s@),
{
    let mut os = protobuf::CodedOutputStream::vec(buf);
    let _ = os.write_string(field, s);
    let _ = os.flush();
}

/// `CodedOutputStream::write_tag` with the length-delimited wire type into
/// `buf`: appends the tag.
#[verifier::external_body]
pub(crate) fn put_length_delimited_tag(buf: &mut Vec<u8>, field: u32)
    requires
        1 <= field <= FIELD_NUMBER_MAX,
    ensures
        final(buf)@ == old(buf)@ + tag_bytes(field as nat, 2),
{
    let mut os = protobuf::CodedOutputStream::vec(buf);
    let _ = os.write_tag(field, protobuf::wire_format::WireTypeLengthDelimited);
    let _ = os.flush();
}

/// `CodedOutputStream::write_raw_varint32` into `buf`: appends the varint of
/// `value`.
#[verifier::external_body]
pub(crate) fn put_raw_varint32(buf: &mut Vec<u8>, value: u32)
    ensures
        final(buf)@ == old(buf)@ + varint_bytes(value as nat),
{
    let mut os = protobuf::CodedOutputStream::vec(buf);
    let _ = os.write_raw_varint32(value);
    let _ = os.flush();
}

/// `String::from_utf8`: the string whose UTF-8 bytes are `bytes`, if they
/// are valid UTF-8.
#[verifier::external_body]
pub(crate) fn string_from_utf8(bytes: Vec<u8>) -> (r: Option<String>)
    ensures
        r is Some <==> valid_utf8(bytes@),
        r matches Some(s) ==> encode_utf8(s@) == bytes@,
{
    match String::from_utf8(bytes) {
        Ok(s) => Some(s),
        Err(_) => None,
    }
}

} // verus!
