//! The messages of `shared.proto`: socket addresses and permission tokens,
//! with their protocol buffers encoding.

#![allow(non_camel_case_types)]
#![allow(non_snake_case)]

use crate::codec::{
    no_unknown_fields, put_length_delimited_tag, put_raw_varint32, put_string_field,
    put_uint32_field, put_uint64_field, put_unknown_fields, string_field_size, string_from_utf8,
    tag_bytes, tag_len, unknown_add_opt, unknown_fields_add, unknown_fields_clear,
    unknown_fields_contents, unknown_fields_len, unknown_fields_new,
    unknown_fields_size, unknown_fields_valid, varint32_size, varint_field_size, UnknownMap,
    appended_in_some_order, field_order, unknown_fields_bytes,
};
use vstd::utf8::{decode_utf8, encode_utf8, valid_utf8};
use crate::wire::{extends_at, 
    avail, avail_end, read_ld_at, read_length_delimited, read_tag, read_tag_at, read_unknown_field,
    read_unknown_field_at, read_varint64, read_varint_field, read_varint_field_at, varint_bytes,
    varint_decode, window, DecodeError, NO_LIMIT,
};
use vstd::prelude::*;

verus! {

/// What the result of a merge says: the error that stopped it, if any.
pub open spec fn err_of(r: Result<(), DecodeError>) -> Option<DecodeError> {
    match r {
        Ok(_) => None,
        Err(e) => Some(e),
    }
}

/// The low 32 bits of a varint, as a `uint32` field keeps them.
pub open spec fn as_u32(v: u64) -> u32 {
    (v % 0x1_0000_0000) as u32
}

/// Appends a `uint32` field unless `value` is zero.
fn put_opt_uint32(buf: &mut Vec<u8>, field: u32, value: u32)
    requires
        1 <= field <= 5,
    ensures
        final(buf)@ == old(buf)@ + opt_varint_field(field as nat, value as nat),
{
    if value != 0 {
        put_uint32_field(buf, field, value);
        assert(final(buf)@ =~= old(buf)@ + opt_varint_field(field as nat, value as nat));
    } else {
        assert(buf@ =~= old(buf)@ + opt_varint_field(field as nat, value as nat));
    }
}

/// Appends a `uint64` field unless `value` is zero.
fn put_opt_uint64(buf: &mut Vec<u8>, field: u32, value: u64)
    requires
        1 <= field <= 5,
    ensures
        final(buf)@ == old(buf)@ + opt_varint_field(field as nat, value as nat),
{
    if value != 0 {
        put_uint64_field(buf, field, value);
        assert(final(buf)@ =~= old(buf)@ + opt_varint_field(field as nat, value as nat));
    } else {
        assert(buf@ =~= old(buf)@ + opt_varint_field(field as nat, value as nat));
    }
}

/// No unknown field takes no byte.
pub proof fn lemma_no_unknown_len(m: UnknownMap)
    requires
        m == no_unknown_fields(),
    ensures
        unknown_fields_len(m) == 0,
{
    vstd::set::fold::lemma_fold_empty(0nat, |acc: nat, k: u32| acc + crate::codec::unknown_values_len(k as nat, m[k]));
    assert(m.dom() =~= Set::<u32>::empty());
}

/// The bytes of a varint field that is written only when it is not zero.
pub open spec fn opt_varint_field(field: nat, v: nat) -> Seq<u8> {
    if v != 0 {
        tag_bytes(field, 0) + varint_bytes(v)
    } else {
        Seq::empty()
    }
}

// ---------------------------------------------------------------------
// SocketAddr.SocketAddrV4

/// An IPv4 socket address as its fields.
pub struct V4View {
    pub port: u32,
    pub octets: u32,
    pub unknown: UnknownMap,
}

/// The IPv4 address that a new message holds.
pub open spec fn v4_default() -> V4View {
    V4View { port: 0, octets: 0, unknown: no_unknown_fields() }
}

/// The bytes written for the fields of an IPv4 address that this library
/// knows, in field order; zero fields are not written.
pub open spec fn v4_known_bytes(m: V4View) -> Seq<u8> {
    opt_varint_field(1, m.port as nat) + opt_varint_field(2, m.octets as nat)
}

/// The encoded size of an IPv4 address.
pub open spec fn v4_size(m: V4View) -> nat {
    v4_known_bytes(m).len() + unknown_fields_len(m.unknown)
}

/// An IPv4 address that can be sized and written: its size fits 32 bits.
pub open spec fn v4_sizable(m: V4View) -> bool {
    unknown_fields_valid(m.unknown) && v4_size(m) <= u32::MAX
}

/// Merging the fields at `pos` into `m`, up to what can be read under
/// `lim`: the message then, and the error that stopped the merge, if any.
/// Fields one and two set the port and the octets, other fields are kept
/// as unknown.
pub open spec fn v4_merge(s: Seq<u8>, pos: nat, lim: nat, m: V4View) -> (V4View, Option<DecodeError>)
    decreases avail(s, lim) - pos,
{
    if pos >= avail(s, lim) {
        (m, None)
    } else {
        match read_tag_at(s, pos, lim) {
            Err(e) => (m, Some(e)),
            Ok((f, wt, p1)) => {
                proof {
                    crate::wire::lemma_read_tag_progress(s, pos, lim);
                }
                if f == 1 {
                    match read_varint_field_at(s, p1, lim, wt) {
                        Err(e) => (m, Some(e)),
                        Ok((v, p2)) => {
                            proof {
                                crate::wire::lemma_varint_scan_len(window(s, p1, lim), 0, 0, 1);
                            }
                            v4_merge(s, p2, lim, V4View { port: as_u32(v), ..m })
                        },
                    }
                } else if f == 2 {
                    match read_varint_field_at(s, p1, lim, wt) {
                        Err(e) => (m, Some(e)),
                        Ok((v, p2)) => {
                            proof {
                                crate::wire::lemma_varint_scan_len(window(s, p1, lim), 0, 0, 1);
                            }
                            v4_merge(s, p2, lim, V4View { octets: as_u32(v), ..m })
                        },
                    }
                } else {
                    match read_unknown_field_at(s, p1, lim, wt) {
                        Err(e) => (m, Some(e)),
                        Ok((u, p2)) => {
                            proof {
                                crate::wire::lemma_read_unknown_field_progress(s, p1, lim, wt);
                            }
                            v4_merge(s, p2, lim, V4View { unknown: unknown_add_opt(m.unknown, f, u), ..m })
                        },
                    }
                }
            },
        }
    }
}

/// Reading a written varint field of an IPv4 address sets that field and
/// goes on after it.
proof fn lemma_v4_merge_field(s: Seq<u8>, pos: nat, lim: nat, m: V4View, field: u32, v: u32, rest: Seq<u8>)
    requires
        pos <= avail(s, lim),
        field == 1 || field == 2,
        window(s, pos, lim) == tag_bytes(field as nat, 0) + varint_bytes(v as nat) + rest,
    ensures
        v4_merge(s, pos, lim, m) == v4_merge(
            s,
            (avail(s, lim) - rest.len()) as nat,
            lim,
            if field == 1 { V4View { port: v, ..m } } else { V4View { octets: v, ..m } },
        ),
{
    let t = tag_bytes(field as nat, 0);
    let vb = varint_bytes(v as nat);
    assert(t == varint_bytes(field as nat * 8 + 0));
    assert(window(s, pos, lim) == varint_bytes(field as nat * 8 + 0) + (vb + rest));
    crate::wire::lemma_read_tag_of(s, pos, lim, field, 0, vb + rest);
    let p1 = pos + t.len();
    crate::wire::lemma_window_skip(s, pos, lim, t.len());
    assert(window(s, p1, lim) =~= vb + rest);
    crate::wire::lemma_read_varint_field_of(s, p1, lim, v as u64, rest);
    assert(as_u32(v as u64) == v);
}

/// Merging the encoding of the known fields of `m` sets the fields of `m`
/// that are not zero and keeps the others.
proof fn lemma_v4_merge_known(s: Seq<u8>, pos: nat, lim: nat, base: V4View, m: V4View)
    requires
        pos <= avail(s, lim),
        window(s, pos, lim) == v4_known_bytes(m),
    ensures
        v4_merge(s, pos, lim, base) == (V4View {
            port: if m.port != 0 { m.port } else { base.port },
            octets: if m.octets != 0 { m.octets } else { base.octets },
            unknown: base.unknown,
        }, None::<DecodeError>),
{
    let b1 = opt_varint_field(1, m.port as nat);
    let b2 = opt_varint_field(2, m.octets as nat);
    let e = avail(s, lim);
    let base1 = if m.port != 0 { V4View { port: m.port, ..base } } else { base };
    let base2 = if m.octets != 0 { V4View { octets: m.octets, ..base1 } } else { base1 };
    let p1 = (e - b2.len()) as nat;
    assert(v4_merge(s, pos, lim, base) == v4_merge(s, p1, lim, base1)) by {
        if m.port != 0 {
            assert(window(s, pos, lim) == tag_bytes(1, 0) + varint_bytes(m.port as nat) + b2);
            lemma_v4_merge_field(s, pos, lim, base, 1, m.port, b2);
        } else {
            assert(b1.len() == 0);
            assert(window(s, pos, lim) == b2);
        }
    }
    assert(window(s, p1, lim) =~= b2) by {
        assert(window(s, pos, lim).len() == b1.len() + b2.len());
        assert(p1 == pos + b1.len());
        crate::wire::lemma_window_skip(s, pos, lim, b1.len());
        assert((b1 + b2).skip(b1.len() as int) =~= b2);
    }
    assert(v4_merge(s, p1, lim, base1) == v4_merge(s, e, lim, base2)) by {
        if m.octets != 0 {
            assert(window(s, p1, lim) == tag_bytes(2, 0) + varint_bytes(m.octets as nat) + Seq::<u8>::empty());
            lemma_v4_merge_field(s, p1, lim, base1, 2, m.octets, Seq::<u8>::empty());
        }
    }
    assert(v4_merge(s, e, lim, base2) == (base2, None::<DecodeError>));
}

/// What is written for an IPv4 address without unknown fields decodes, into
/// a new message, as that address.
pub proof fn lemma_v4_roundtrip(m: V4View)
    requires
        m.unknown == no_unknown_fields(),
    ensures
        v4_merge(v4_known_bytes(m), 0, NO_LIMIT as nat, v4_default()) == (m, None::<DecodeError>),
{
    let s = v4_known_bytes(m);
    crate::wire::lemma_varint64_len(m.port as u64);
    crate::wire::lemma_varint64_len(m.octets as u64);
    crate::wire::lemma_varint64_len(8);
    crate::wire::lemma_varint64_len(16);
    assert(s.len() <= 22);
    assert(window(s, 0, NO_LIMIT as nat) =~= s);
    lemma_v4_merge_known(s, 0, NO_LIMIT as nat, v4_default(), m);
}

/// Merging one field of number `f` and wire type `wt` whose tag ends at
/// `p1` into an IPv4 address: the message then and the position after the
/// field.
pub open spec fn v4_field(s: Seq<u8>, p1: nat, lim: nat, m: V4View, f: u32, wt: u32) -> Result<(V4View, nat), DecodeError> {
    if f == 1 || f == 2 {
        match read_varint_field_at(s, p1, lim, wt) {
            Err(e) => Err(e),
            Ok((v, p2)) => Ok((if f == 1 { V4View { port: as_u32(v), ..m } } else { V4View { octets: as_u32(v), ..m } }, p2)),
        }
    } else {
        match read_unknown_field_at(s, p1, lim, wt) {
            Err(e) => Err(e),
            Ok((x, p2)) => Ok((V4View { unknown: unknown_add_opt(m.unknown, f, x), ..m }, p2)),
        }
    }
}

/// Merging the field at `pos` into an IPv4 address.
pub open spec fn v4_step(s: Seq<u8>, pos: nat, lim: nat, m: V4View) -> Result<(V4View, nat), DecodeError> {
    match read_tag_at(s, pos, lim) {
        Err(e) => Err(e),
        Ok((f, wt, p1)) => v4_field(s, p1, lim, m, f, wt),
    }
}

/// Merging an IPv4 address merges one field and then the rest.
proof fn lemma_v4_merge_unfold(s: Seq<u8>, pos: nat, lim: nat, m: V4View)
    requires
        pos < avail(s, lim),
    ensures
        v4_merge(s, pos, lim, m) == match v4_step(s, pos, lim, m) {
            Err(e) => (m, Some(e)),
            Ok((m2, p2)) => v4_merge(s, p2, lim, m2),
        },
        v4_step(s, pos, lim, m) matches Ok((m2, p2)) ==> pos < p2 <= avail(s, lim),
{
    crate::wire::lemma_read_tag_progress(s, pos, lim);
    if let Ok((f, wt, p1)) = read_tag_at(s, pos, lim) {
        crate::wire::lemma_varint_scan_len(window(s, p1, lim), 0, 0, 1);
        crate::wire::lemma_read_unknown_field_progress(s, p1, lim, wt);
    }
}

/// Merging a field where the bytes extend merges the same, and ends at
/// the same distance.
proof fn lemma_v4_step_extend(s1: Seq<u8>, p1: nat, s2: Seq<u8>, p2: nat, u: Seq<u8>, m: V4View)
    requires
        extends_at(s1, p1, s2, p2, u),
        v4_step(s1, p1, NO_LIMIT as nat, m) is Ok || u.len() == 0,
    ensures
        match (v4_step(s1, p1, NO_LIMIT as nat, m), v4_step(s2, p2, NO_LIMIT as nat, m)) {
            (Ok((ma, q1)), Ok((mb, q2))) => ma == mb && q1 - p1 == q2 - p2,
            (Err(e1), Err(e2)) => e1 == e2,
            _ => false,
        },
{
    let nl = NO_LIMIT as nat;
    assert(avail(s1, nl) == s1.len());
    crate::wire::lemma_read_tag_progress(s1, p1, nl);
    crate::wire::lemma_read_tag_extend(s1, p1, s2, p2, u);
    if let Ok((f, wt, q1)) = read_tag_at(s1, p1, nl) {
        let d = (q1 - p1) as nat;
        crate::wire::lemma_extends_skip(s1, p1, s2, p2, u, d);
        if f == 1 || f == 2 {
            crate::wire::lemma_read_varint_field_extend(s1, q1, s2, p2 + d, u, wt);
        } else {
            crate::wire::lemma_read_unknown_field_extend(s1, q1, s2, p2 + d, u, wt);
        }
    }
}

/// Merging where the bytes extend: when merging from `p1` in `s1` ends
/// without error, merging from `p2` in `s2` reads the same fields and goes
/// on where the bytes of `s1` end; with nothing after them, it gives the
/// same result, error or not.
proof fn lemma_v4_merge_extend(s1: Seq<u8>, p1: nat, s2: Seq<u8>, p2: nat, u: Seq<u8>, m: V4View)
    requires
        extends_at(s1, p1, s2, p2, u),
        v4_merge(s1, p1, NO_LIMIT as nat, m).1 is None || u.len() == 0,
    ensures
        u.len() == 0 ==> v4_merge(s2, p2, NO_LIMIT as nat, m) == v4_merge(s1, p1, NO_LIMIT as nat, m),
        v4_merge(s1, p1, NO_LIMIT as nat, m).1 is None ==> v4_merge(s2, p2, NO_LIMIT as nat, m)
            == v4_merge(s2, (p2 + (s1.len() - p1)) as nat, NO_LIMIT as nat, v4_merge(s1, p1, NO_LIMIT as nat, m).0),
    decreases s1.len() - p1,
{
    let nl = NO_LIMIT as nat;
    assert(avail(s1, nl) == s1.len());
    assert(avail(s2, nl) == s2.len());
    assert(window(s1, p1, nl).len() == s1.len() - p1);
    assert(window(s2, p2, nl).len() == s2.len() - p2);
    if p1 < s1.len() {
        lemma_v4_merge_unfold(s1, p1, nl, m);
        lemma_v4_merge_unfold(s2, p2, nl, m);
        lemma_v4_step_extend(s1, p1, s2, p2, u, m);
        if let Ok((m2, r1)) = v4_step(s1, p1, nl, m) {
            let d = (r1 - p1) as nat;
            crate::wire::lemma_extends_skip(s1, p1, s2, p2, u, d);
            lemma_v4_merge_extend(s1, r1, s2, p2 + d, u, m2);
        }
    }
}

/// Merging two runs of bytes one after the other is merging them as one
/// run: when the first merges without error, merging both together gives
/// what merging the second into that result gives.
pub proof fn lemma_v4_merge_concat(a: Seq<u8>, b: Seq<u8>, m: V4View)
    requires
        a.len() + b.len() <= NO_LIMIT,
        v4_merge(a, 0, NO_LIMIT as nat, m).1 is None,
    ensures
        v4_merge(a + b, 0, NO_LIMIT as nat, m) == v4_merge(b, 0, NO_LIMIT as nat, v4_merge(a, 0, NO_LIMIT as nat, m).0),
{
    let nl = NO_LIMIT as nat;
    let ab = a + b;
    assert(window(ab, 0, nl) =~= window(a, 0, nl) + b);
    lemma_v4_merge_extend(a, 0, ab, 0, b, m);
    let m1 = v4_merge(a, 0, nl, m).0;
    assert(window(ab, a.len(), nl) =~= window(b, 0, nl) + Seq::<u8>::empty());
    lemma_v4_merge_extend(b, 0, ab, a.len(), Seq::<u8>::empty(), m1);
}

/// An IPv4 socket address: port and address octets.
#[derive(Clone, PartialEq, Debug)]
pub struct SocketAddr_SocketAddrV4 {
    pub port: u32,
    pub octets: u32,
    pub unknown_fields: protobuf::UnknownFields,
}

impl View for SocketAddr_SocketAddrV4 {
    type V = V4View;

    open spec fn view(&self) -> V4View {
        V4View {
            port: self.port,
            octets: self.octets,
            unknown: unknown_fields_contents(self.unknown_fields),
        }
    }
}

impl Default for SocketAddr_SocketAddrV4 {
    fn default() -> (r: Self)
        ensures
            r@ == v4_default(),
    {
        SocketAddr_SocketAddrV4::new()
    }
}

impl SocketAddr_SocketAddrV4 {
    /// A message with every field zero and no unknown field.
    pub fn new() -> (r: Self)
        ensures
            r@ == v4_default(),
    {
        SocketAddr_SocketAddrV4 { port: 0, octets: 0, unknown_fields: unknown_fields_new() }
    }

    /// A copy of the message.
    pub fn copy(&self) -> (r: Self)
        ensures
            r@ == self@,
    {
        SocketAddr_SocketAddrV4 {
            port: self.port,
            octets: self.octets,
            unknown_fields: self.unknown_fields.clone(),
        }
    }

    /// The port.
    pub fn get_port(&self) -> (r: u32)
        ensures
            r == self.port,
    {
        self.port
    }

    /// The address octets, most significant first.
    pub fn get_octets(&self) -> (r: u32)
        ensures
            r == self.octets,
    {
        self.octets
    }

    /// Every field is optional, so the message is always initialized.
    pub fn is_initialized(&self) -> (r: bool)
        ensures
            r,
    {
        true
    }

    /// Resets every field to zero and forgets the unknown fields.
    pub fn clear(&mut self)
        ensures
            final(self)@ == v4_default(),
    {
        self.port = 0;
        self.octets = 0;
        unknown_fields_clear(&mut self.unknown_fields);
    }

    /// The encoded size of the message.
    pub fn compute_size(&self) -> (r: u32)
        requires
            v4_sizable(self@),
        ensures
            r == v4_size(self@),
    {
        let mut my_size: u32 = 0;
        proof {
            crate::wire::lemma_tag_len(1, 0);
            crate::wire::lemma_tag_len(2, 0);
        }
        if self.port != 0 {
            my_size = my_size + varint_field_size(1, self.port as u64);
        }
        if self.octets != 0 {
            my_size = my_size + varint_field_size(2, self.octets as u64);
        }
        my_size = my_size + unknown_fields_size(&self.unknown_fields);
        my_size
    }

    /// Appends the encoding of the message to `buf`: the known fields that
    /// are not zero, in field order, then the unknown fields.
    pub fn write_to_with_cached_sizes(&self, buf: &mut Vec<u8>)
        requires
            v4_sizable(self@),
        ensures
            final(buf)@.len() == old(buf)@.len() + v4_size(self@),
            final(buf)@.subrange(0, (old(buf)@.len() + v4_known_bytes(self@).len()) as int) == old(buf)@
                + v4_known_bytes(self@),
            self@.unknown == no_unknown_fields() ==> final(buf)@ == old(buf)@ + v4_known_bytes(self@),
            appended_in_some_order(old(buf)@ + v4_known_bytes(self@), final(buf)@, self@.unknown),
    {
        let ghost start = buf@;
        if self.port != 0 {
            put_uint32_field(buf, 1, self.port);
        }
        if self.octets != 0 {
            put_uint32_field(buf, 2, self.octets);
        }
        let ghost known = buf@;
        assert(known == start + v4_known_bytes(self@));
        put_unknown_fields(buf, &self.unknown_fields);
        proof {
            assert(buf@.subrange(0, known.len() as int) == known);
            assert(start.len() + v4_known_bytes(self@).len() == known.len());
            if self@.unknown == no_unknown_fields() {
                lemma_no_unknown_len(self@.unknown);
                assert(buf@ =~= known);
            }
        }
    }

    /// Merges the fields encoded in `buf[pos..]`, up to `limit`, into the
    /// message.
    fn merge_range(&mut self, buf: &[u8], pos: usize, limit: u64) -> (r: Result<(), DecodeError>)
        requires
            pos <= avail(buf@, limit as nat),
        ensures
            v4_merge(buf@, pos as nat, limit as nat, old(self)@) == (final(self)@, err_of(r)),
    {
        let end = avail_end(buf.len(), limit);
        let mut p: usize = pos;
        loop
            invariant
                end == avail(buf@, limit as nat),
                pos <= p <= end,
                v4_merge(buf@, pos as nat, limit as nat, old(self)@) == v4_merge(buf@, p as nat, limit as nat, self@),
            decreases end - p,
        {
            if p >= end {
                return Ok(());
            }
            proof {
                crate::wire::lemma_read_tag_progress(buf@, p as nat, limit as nat);
            }
            match read_tag(buf, p, limit) {
                Err(e) => {
                    return Err(e);
                },
                Ok((f, wt, p1)) => {
                    proof {
                        crate::wire::lemma_varint_scan_len(window(buf@, p1 as nat, limit as nat), 0, 0, 1);
                        crate::wire::lemma_read_unknown_field_progress(buf@, p1 as nat, limit as nat, wt);
                    }
                    if f == 1 {
                        match read_varint_field(buf, p1, limit, wt) {
                            Err(e) => {
                                return Err(e);
                            },
                            Ok((v, p2)) => {
                                self.port = (v % 0x1_0000_0000) as u32;
                                p = p2;
                            },
                        }
                    } else if f == 2 {
                        match read_varint_field(buf, p1, limit, wt) {
                            Err(e) => {
                                return Err(e);
                            },
                            Ok((v, p2)) => {
                                self.octets = (v % 0x1_0000_0000) as u32;
                                p = p2;
                            },
                        }
                    } else {
                        match read_unknown_field(buf, p1, limit, wt) {
                            Err(e) => {
                                return Err(e);
                            },
                            Ok((u, p2)) => {
                                match u {
                                    Some(x) => {
                                        unknown_fields_add(&mut self.unknown_fields, f, x);
                                    },
                                    None => {},
                                }
                                p = p2;
                            },
                        }
                    }
                },
            }
        }
    }

    /// Merges the fields encoded in `buf` into the message: a field read
    /// later replaces one read earlier, unknown fields are kept. On an
    /// error the fields read before it stay merged.
    pub fn merge_from(&mut self, buf: &[u8]) -> (r: Result<(), DecodeError>)
        ensures
            v4_merge(buf@, 0, NO_LIMIT as nat, old(self)@) == (final(self)@, err_of(r)),
    {
        self.merge_range(buf, 0, NO_LIMIT)
    }
}

// ---------------------------------------------------------------------
// SocketAddr.SocketAddrV6

/// An IPv6 socket address as its fields.
pub struct V6View {
    pub port: u32,
    pub flowinfo: u32,
    pub scope_id: u32,
    pub octets_a: u64,
    pub octets_b: u64,
    pub unknown: UnknownMap,
}

/// The IPv6 address that a new message holds.
pub open spec fn v6_default() -> V6View {
    V6View { port: 0, flowinfo: 0, scope_id: 0, octets_a: 0, octets_b: 0, unknown: no_unknown_fields() }
}

/// The bytes written for the fields of an IPv6 address that this library
/// knows, in field order; zero fields are not written.
pub open spec fn v6_known_bytes(m: V6View) -> Seq<u8> {
    opt_varint_field(1, m.port as nat) + opt_varint_field(2, m.flowinfo as nat) + opt_varint_field(
        3,
        m.scope_id as nat,
    ) + opt_varint_field(4, m.octets_a as nat) + opt_varint_field(5, m.octets_b as nat)
}

/// The encoded size of an IPv6 address.
pub open spec fn v6_size(m: V6View) -> nat {
    v6_known_bytes(m).len() + unknown_fields_len(m.unknown)
}

/// An IPv6 address that can be sized and written: its size fits 32 bits.
pub open spec fn v6_sizable(m: V6View) -> bool {
    unknown_fields_valid(m.unknown) && v6_size(m) <= u32::MAX
}

/// `m` with known field `f` (one to five) set from the varint `v`; the
/// 32-bit fields keep its low 32 bits.
pub open spec fn v6_set(m: V6View, f: u32, v: u64) -> V6View {
    if f == 1 {
        V6View { port: as_u32(v), ..m }
    } else if f == 2 {
        V6View { flowinfo: as_u32(v), ..m }
    } else if f == 3 {
        V6View { scope_id: as_u32(v), ..m }
    } else if f == 4 {
        V6View { octets_a: v, ..m }
    } else {
        V6View { octets_b: v, ..m }
    }
}

/// Merging the fields at `pos` into `m`, up to what can be read under
/// `lim`: the message then, and the error that stopped the merge, if any.
/// Fields one to five are port, flow info, scope id and the two halves of
/// the address; other fields are kept as unknown.
#[verifier::opaque]
pub open spec fn v6_merge(s: Seq<u8>, pos: nat, lim: nat, m: V6View) -> (V6View, Option<DecodeError>)
    decreases avail(s, lim) - pos,
{
    if pos >= avail(s, lim) {
        (m, None)
    } else {
        match read_tag_at(s, pos, lim) {
            Err(e) => (m, Some(e)),
            Ok((f, wt, p1)) => {
                proof {
                    crate::wire::lemma_read_tag_progress(s, pos, lim);
                }
                if 1 <= f <= 5 {
                    match read_varint_field_at(s, p1, lim, wt) {
                        Err(e) => (m, Some(e)),
                        Ok((v, p2)) => {
                            proof {
                                crate::wire::lemma_varint_scan_len(window(s, p1, lim), 0, 0, 1);
                            }
                            v6_merge(s, p2, lim, v6_set(m, f, v))
                        },
                    }
                } else {
                    match read_unknown_field_at(s, p1, lim, wt) {
                        Err(e) => (m, Some(e)),
                        Ok((u, p2)) => {
                            proof {
                                crate::wire::lemma_read_unknown_field_progress(s, p1, lim, wt);
                            }
                            v6_merge(s, p2, lim, V6View { unknown: unknown_add_opt(m.unknown, f, u), ..m })
                        },
                    }
                }
            },
        }
    }
}

/// Merging one field of number `f` and wire type `wt` whose tag ends at
/// `p1` into an IPv6 address: the message then and the position after the
/// field.
pub open spec fn v6_field(s: Seq<u8>, p1: nat, lim: nat, m: V6View, f: u32, wt: u32) -> Result<(V6View, nat), DecodeError> {
    if 1 <= f <= 5 {
        match read_varint_field_at(s, p1, lim, wt) {
            Err(e) => Err(e),
            Ok((v, p2)) => Ok((v6_set(m, f, v), p2)),
        }
    } else {
        match read_unknown_field_at(s, p1, lim, wt) {
            Err(e) => Err(e),
            Ok((x, p2)) => Ok((V6View { unknown: unknown_add_opt(m.unknown, f, x), ..m }, p2)),
        }
    }
}

/// Merging the field at `pos` into an IPv6 address.
pub open spec fn v6_step(s: Seq<u8>, pos: nat, lim: nat, m: V6View) -> Result<(V6View, nat), DecodeError> {
    match read_tag_at(s, pos, lim) {
        Err(e) => Err(e),
        Ok((f, wt, p1)) => v6_field(s, p1, lim, m, f, wt),
    }
}

/// Merging an IPv6 address merges one field and then the rest.
proof fn lemma_v6_merge_unfold(s: Seq<u8>, pos: nat, lim: nat, m: V6View)
    requires
        pos < avail(s, lim),
    ensures
        v6_merge(s, pos, lim, m) == match v6_step(s, pos, lim, m) {
            Err(e) => (m, Some(e)),
            Ok((m2, p2)) => v6_merge(s, p2, lim, m2),
        },
        v6_step(s, pos, lim, m) matches Ok((m2, p2)) ==> pos < p2 <= avail(s, lim),
{
    reveal(v6_merge);
    crate::wire::lemma_read_tag_progress(s, pos, lim);
    if let Ok((f, wt, p1)) = read_tag_at(s, pos, lim) {
        crate::wire::lemma_varint_scan_len(window(s, p1, lim), 0, 0, 1);
        crate::wire::lemma_read_unknown_field_progress(s, p1, lim, wt);
    }
}

/// Merging a field where the bytes extend merges the same, and ends at
/// the same distance.
proof fn lemma_v6_step_extend(s1: Seq<u8>, p1: nat, s2: Seq<u8>, p2: nat, u: Seq<u8>, m: V6View)
    requires
        extends_at(s1, p1, s2, p2, u),
        v6_step(s1, p1, NO_LIMIT as nat, m) is Ok || u.len() == 0,
    ensures
        match (v6_step(s1, p1, NO_LIMIT as nat, m), v6_step(s2, p2, NO_LIMIT as nat, m)) {
            (Ok((ma, q1)), Ok((mb, q2))) => ma == mb && q1 - p1 == q2 - p2,
            (Err(e1), Err(e2)) => e1 == e2,
            _ => false,
        },
{
    let nl = NO_LIMIT as nat;
    assert(avail(s1, nl) == s1.len());
    crate::wire::lemma_read_tag_progress(s1, p1, nl);
    crate::wire::lemma_read_tag_extend(s1, p1, s2, p2, u);
    if let Ok((f, wt, q1)) = read_tag_at(s1, p1, nl) {
        let d = (q1 - p1) as nat;
        crate::wire::lemma_extends_skip(s1, p1, s2, p2, u, d);
        if 1 <= f <= 5 {
            crate::wire::lemma_read_varint_field_extend(s1, q1, s2, p2 + d, u, wt);
        } else {
            crate::wire::lemma_read_unknown_field_extend(s1, q1, s2, p2 + d, u, wt);
        }
    }
}

/// Merging an IPv6 address where the bytes extend (see
/// `lemma_v4_merge_extend`).
proof fn lemma_v6_merge_extend(s1: Seq<u8>, p1: nat, s2: Seq<u8>, p2: nat, u: Seq<u8>, m: V6View)
    requires
        extends_at(s1, p1, s2, p2, u),
        v6_merge(s1, p1, NO_LIMIT as nat, m).1 is None || u.len() == 0,
    ensures
        u.len() == 0 ==> v6_merge(s2, p2, NO_LIMIT as nat, m) == v6_merge(s1, p1, NO_LIMIT as nat, m),
        v6_merge(s1, p1, NO_LIMIT as nat, m).1 is None ==> v6_merge(s2, p2, NO_LIMIT as nat, m)
            == v6_merge(s2, (p2 + (s1.len() - p1)) as nat, NO_LIMIT as nat, v6_merge(s1, p1, NO_LIMIT as nat, m).0),
    decreases s1.len() - p1,
{
    let nl = NO_LIMIT as nat;
    assert(avail(s1, nl) == s1.len());
    assert(avail(s2, nl) == s2.len());
    assert(window(s1, p1, nl).len() == s1.len() - p1);
    assert(window(s2, p2, nl).len() == s2.len() - p2);
    if p1 < s1.len() {
        lemma_v6_merge_unfold(s1, p1, nl, m);
        lemma_v6_merge_unfold(s2, p2, nl, m);
        lemma_v6_step_extend(s1, p1, s2, p2, u, m);
        if let Ok((m2, r1)) = v6_step(s1, p1, nl, m) {
            let d = (r1 - p1) as nat;
            crate::wire::lemma_extends_skip(s1, p1, s2, p2, u, d);
            lemma_v6_merge_extend(s1, r1, s2, p2 + d, u, m2);
        }
    } else {
        reveal(v6_merge);
    }
}

/// Merging two runs of bytes one after the other into an IPv6 address is
/// merging them as one run, when the first merges without error.
pub proof fn lemma_v6_merge_concat(a: Seq<u8>, b: Seq<u8>, m: V6View)
    requires
        a.len() + b.len() <= NO_LIMIT,
        v6_merge(a, 0, NO_LIMIT as nat, m).1 is None,
    ensures
        v6_merge(a + b, 0, NO_LIMIT as nat, m) == v6_merge(b, 0, NO_LIMIT as nat, v6_merge(a, 0, NO_LIMIT as nat, m).0),
{
    let nl = NO_LIMIT as nat;
    let ab = a + b;
    assert(window(ab, 0, nl) =~= window(a, 0, nl) + b);
    lemma_v6_merge_extend(a, 0, ab, 0, b, m);
    let m1 = v6_merge(a, 0, nl, m).0;
    assert(window(ab, a.len(), nl) =~= window(b, 0, nl) + Seq::<u8>::empty());
    lemma_v6_merge_extend(b, 0, ab, a.len(), Seq::<u8>::empty(), m1);
}

/// Reading a written varint field of an IPv6 address sets that field and
/// goes on after it.
proof fn lemma_v6_merge_field(s: Seq<u8>, pos: nat, lim: nat, m: V6View, field: u32, v: u64, rest: Seq<u8>)
    requires
        pos <= avail(s, lim),
        1 <= field <= 5,
        window(s, pos, lim) == tag_bytes(field as nat, 0) + varint_bytes(v as nat) + rest,
    ensures
        v6_merge(s, pos, lim, m) == v6_merge(s, (avail(s, lim) - rest.len()) as nat, lim, v6_set(m, field, v)),
{
    reveal(v6_merge);
    let t = tag_bytes(field as nat, 0);
    let vb = varint_bytes(v as nat);
    assert(window(s, pos, lim) == varint_bytes(field as nat * 8 + 0) + (vb + rest));
    crate::wire::lemma_read_tag_of(s, pos, lim, field, 0, vb + rest);
    let p1 = pos + t.len();
    crate::wire::lemma_window_skip(s, pos, lim, t.len());
    assert(window(s, p1, lim) =~= vb + rest);
    crate::wire::lemma_read_varint_field_of(s, p1, lim, v, rest);
}

/// Merging an optional varint field written at `pos`, followed by `rest`.
proof fn lemma_v6_merge_opt(s: Seq<u8>, pos: nat, lim: nat, m: V6View, field: u32, v: u64, rest: Seq<u8>)
    requires
        pos <= avail(s, lim),
        1 <= field <= 5,
        window(s, pos, lim) == opt_varint_field(field as nat, v as nat) + rest,
    ensures
        v6_merge(s, pos, lim, m) == v6_merge(
            s,
            (avail(s, lim) - rest.len()) as nat,
            lim,
            if v != 0 { v6_set(m, field, v) } else { m },
        ),
        window(s, (avail(s, lim) - rest.len()) as nat, lim) == rest,
        pos <= avail(s, lim) - rest.len(),
{
    let b = opt_varint_field(field as nat, v as nat);
    assert(window(s, pos, lim).len() == avail(s, lim) - pos);
    if v != 0 {
        lemma_v6_merge_field(s, pos, lim, m, field, v, rest);
    } else {
        assert(b.len() == 0);
        assert(window(s, pos, lim) =~= rest);
    }
    crate::wire::lemma_window_skip(s, pos, lim, b.len());
    assert((b + rest).skip(b.len() as int) =~= rest);
}

/// Merging the encoding of the known fields of `m` sets the fields of `m`
/// that are not zero and keeps the others.
proof fn lemma_v6_merge_known(s: Seq<u8>, pos: nat, lim: nat, base: V6View, m: V6View)
    requires
        pos <= avail(s, lim),
        window(s, pos, lim) == v6_known_bytes(m),
    ensures
        v6_merge(s, pos, lim, base) == (V6View {
            port: if m.port != 0 { m.port } else { base.port },
            flowinfo: if m.flowinfo != 0 { m.flowinfo } else { base.flowinfo },
            scope_id: if m.scope_id != 0 { m.scope_id } else { base.scope_id },
            octets_a: if m.octets_a != 0 { m.octets_a } else { base.octets_a },
            octets_b: if m.octets_b != 0 { m.octets_b } else { base.octets_b },
            unknown: base.unknown,
        }, None::<DecodeError>),
{
    let b1 = opt_varint_field(1, m.port as nat);
    let b2 = opt_varint_field(2, m.flowinfo as nat);
    let b3 = opt_varint_field(3, m.scope_id as nat);
    let b4 = opt_varint_field(4, m.octets_a as nat);
    let b5 = opt_varint_field(5, m.octets_b as nat);
    let e = avail(s, lim);
    let r2 = b2 + b3 + b4 + b5;
    let r3 = b3 + b4 + b5;
    let r4 = b4 + b5;
    let m1 = if m.port != 0 { v6_set(base, 1, m.port as u64) } else { base };
    let m2 = if m.flowinfo != 0 { v6_set(m1, 2, m.flowinfo as u64) } else { m1 };
    let m3 = if m.scope_id != 0 { v6_set(m2, 3, m.scope_id as u64) } else { m2 };
    let m4 = if m.octets_a != 0 { v6_set(m3, 4, m.octets_a) } else { m3 };
    let m5 = if m.octets_b != 0 { v6_set(m4, 5, m.octets_b) } else { m4 };
    let p2 = (e - r2.len()) as nat;
    let p3 = (e - r3.len()) as nat;
    let p4 = (e - r4.len()) as nat;
    let p5 = (e - b5.len()) as nat;
    assert(v6_merge(s, pos, lim, base) == v6_merge(s, p2, lim, m1) && window(s, p2, lim) == r2 && p2 <= e) by {
        assert(window(s, pos, lim) =~= b1 + r2);
        lemma_v6_merge_opt(s, pos, lim, base, 1, m.port as u64, r2);
    }
    assert(v6_merge(s, p2, lim, m1) == v6_merge(s, p3, lim, m2) && window(s, p3, lim) == r3 && p3 <= e) by {
        assert(r2 =~= b2 + r3);
        lemma_v6_merge_opt(s, p2, lim, m1, 2, m.flowinfo as u64, r3);
    }
    assert(v6_merge(s, p3, lim, m2) == v6_merge(s, p4, lim, m3) && window(s, p4, lim) == r4 && p4 <= e) by {
        assert(r3 =~= b3 + r4);
        lemma_v6_merge_opt(s, p3, lim, m2, 3, m.scope_id as u64, r4);
    }
    assert(v6_merge(s, p4, lim, m3) == v6_merge(s, p5, lim, m4) && window(s, p5, lim) == b5 && p5 <= e) by {
        lemma_v6_merge_opt(s, p4, lim, m3, 4, m.octets_a, b5);
    }
    assert(v6_merge(s, p5, lim, m4) == v6_merge(s, e, lim, m5)) by {
        assert(b5 =~= b5 + Seq::<u8>::empty());
        lemma_v6_merge_opt(s, p5, lim, m4, 5, m.octets_b, Seq::<u8>::empty());
    }
    assert(v6_merge(s, e, lim, m5) == (m5, None::<DecodeError>)) by {
        reveal(v6_merge);
    }
    assert(as_u32(m.port as u64) == m.port);
    assert(as_u32(m.flowinfo as u64) == m.flowinfo);
    assert(as_u32(m.scope_id as u64) == m.scope_id);
}

/// What is written for an IPv6 address without unknown fields decodes, into
/// a new message, as that address.
pub proof fn lemma_v6_roundtrip(m: V6View)
    requires
        m.unknown == no_unknown_fields(),
    ensures
        v6_merge(v6_known_bytes(m), 0, NO_LIMIT as nat, v6_default()) == (m, None::<DecodeError>),
{
    let s = v6_known_bytes(m);
    lemma_v6_known_len(m);
    assert(window(s, 0, NO_LIMIT as nat) =~= s);
    lemma_v6_merge_known(s, 0, NO_LIMIT as nat, v6_default(), m);
}

/// The known fields of an IPv6 address take at most 55 bytes.
proof fn lemma_v6_known_len(m: V6View)
    ensures
        v6_known_bytes(m).len() <= 55,
{
    crate::wire::lemma_varint64_len(m.port as u64);
    crate::wire::lemma_varint64_len(m.flowinfo as u64);
    crate::wire::lemma_varint64_len(m.scope_id as u64);
    crate::wire::lemma_varint64_len(m.octets_a);
    crate::wire::lemma_varint64_len(m.octets_b);
    crate::wire::lemma_varint64_len(8);
    crate::wire::lemma_varint64_len(16);
    crate::wire::lemma_varint64_len(24);
    crate::wire::lemma_varint64_len(32);
    crate::wire::lemma_varint64_len(40);
}

/// An IPv6 socket address: port, flow info, scope id and the address as two
/// 64-bit halves.
#[derive(Clone, PartialEq, Debug)]
pub struct SocketAddr_SocketAddrV6 {
    pub port: u32,
    pub flowinfo: u32,
    pub scope_id: u32,
    pub octets_a: u64,
    pub octets_b: u64,
    pub unknown_fields: protobuf::UnknownFields,
}

impl View for SocketAddr_SocketAddrV6 {
    type V = V6View;

    open spec fn view(&self) -> V6View {
        V6View {
            port: self.port,
            flowinfo: self.flowinfo,
            scope_id: self.scope_id,
            octets_a: self.octets_a,
            octets_b: self.octets_b,
            unknown: unknown_fields_contents(self.unknown_fields),
        }
    }
}

impl Default for SocketAddr_SocketAddrV6 {
    fn default() -> (r: Self)
        ensures
            r@ == v6_default(),
    {
        SocketAddr_SocketAddrV6::new()
    }
}

impl SocketAddr_SocketAddrV6 {
    /// A message with every field zero and no unknown field.
    pub fn new() -> (r: Self)
        ensures
            r@ == v6_default(),
    {
        SocketAddr_SocketAddrV6 {
            port: 0,
            flowinfo: 0,
            scope_id: 0,
            octets_a: 0,
            octets_b: 0,
            unknown_fields: unknown_fields_new(),
        }
    }

    /// A copy of the message.
    pub fn copy(&self) -> (r: Self)
        ensures
            r@ == self@,
    {
        SocketAddr_SocketAddrV6 {
            port: self.port,
            flowinfo: self.flowinfo,
            scope_id: self.scope_id,
            octets_a: self.octets_a,
            octets_b: self.octets_b,
            unknown_fields: self.unknown_fields.clone(),
        }
    }

    /// The port.
    pub fn get_port(&self) -> (r: u32)
        ensures
            r == self.port,
    {
        self.port
    }

    /// The flow info.
    pub fn get_flowinfo(&self) -> (r: u32)
        ensures
            r == self.flowinfo,
    {
        self.flowinfo
    }

    /// The scope id.
    pub fn get_scope_id(&self) -> (r: u32)
        ensures
            r == self.scope_id,
    {
        self.scope_id
    }

    /// The high 64 bits of the address.
    pub fn get_octets_a(&self) -> (r: u64)
        ensures
            r == self.octets_a,
    {
        self.octets_a
    }

    /// The low 64 bits of the address.
    pub fn get_octets_b(&self) -> (r: u64)
        ensures
            r == self.octets_b,
    {
        self.octets_b
    }

    /// Every field is optional, so the message is always initialized.
    pub fn is_initialized(&self) -> (r: bool)
        ensures
            r,
    {
        true
    }

    /// Resets every field to zero and forgets the unknown fields.
    pub fn clear(&mut self)
        ensures
            final(self)@ == v6_default(),
    {
        self.port = 0;
        self.flowinfo = 0;
        self.scope_id = 0;
        self.octets_a = 0;
        self.octets_b = 0;
        unknown_fields_clear(&mut self.unknown_fields);
    }

    /// The encoded size of the message.
    pub fn compute_size(&self) -> (r: u32)
        requires
            v6_sizable(self@),
        ensures
            r == v6_size(self@),
    {
        let mut my_size: u32 = 0;
        proof {
            crate::wire::lemma_tag_len(1, 0);
            crate::wire::lemma_tag_len(2, 0);
            crate::wire::lemma_tag_len(3, 0);
            crate::wire::lemma_tag_len(4, 0);
            crate::wire::lemma_tag_len(5, 0);
            lemma_v6_known_len(self@);
        }
        if self.port != 0 {
            my_size = my_size + varint_field_size(1, self.port as u64);
        }
        if self.flowinfo != 0 {
            my_size = my_size + varint_field_size(2, self.flowinfo as u64);
        }
        if self.scope_id != 0 {
            my_size = my_size + varint_field_size(3, self.scope_id as u64);
        }
        if self.octets_a != 0 {
            my_size = my_size + varint_field_size(4, self.octets_a);
        }
        if self.octets_b != 0 {
            my_size = my_size + varint_field_size(5, self.octets_b);
        }
        my_size = my_size + unknown_fields_size(&self.unknown_fields);
        my_size
    }

    /// Appends the encoding of the message to `buf`: the known fields that
    /// are not zero, in field order, then the unknown fields.
    pub fn write_to_with_cached_sizes(&self, buf: &mut Vec<u8>)
        requires
            v6_sizable(self@),
        ensures
            final(buf)@.len() == old(buf)@.len() + v6_size(self@),
            final(buf)@.subrange(0, (old(buf)@.len() + v6_known_bytes(self@).len()) as int) == old(buf)@
                + v6_known_bytes(self@),
            self@.unknown == no_unknown_fields() ==> final(buf)@ == old(buf)@ + v6_known_bytes(self@),
            appended_in_some_order(old(buf)@ + v6_known_bytes(self@), final(buf)@, self@.unknown),
    {
        let ghost start = buf@;
        let ghost m = self@;
        put_opt_uint32(buf, 1, self.port);
        put_opt_uint32(buf, 2, self.flowinfo);
        put_opt_uint32(buf, 3, self.scope_id);
        put_opt_uint64(buf, 4, self.octets_a);
        put_opt_uint64(buf, 5, self.octets_b);
        let ghost known = buf@;
        assert(known =~= start + v6_known_bytes(m));
        put_unknown_fields(buf, &self.unknown_fields);
        proof {
            assert(buf@.subrange(0, known.len() as int) == known);
            if self@.unknown == no_unknown_fields() {
                lemma_no_unknown_len(self@.unknown);
                assert(buf@ =~= known);
            }
        }
    }

    /// Merges the fields encoded in `buf[pos..]`, up to `limit`, into the
    /// message.
    fn merge_range(&mut self, buf: &[u8], pos: usize, limit: u64) -> (r: Result<(), DecodeError>)
        requires
            pos <= avail(buf@, limit as nat),
        ensures
            v6_merge(buf@, pos as nat, limit as nat, old(self)@) == (final(self)@, err_of(r)),
    {
        proof {
            reveal(v6_merge);
        }
        let end = avail_end(buf.len(), limit);
        let mut p: usize = pos;
        loop
            invariant
                end == avail(buf@, limit as nat),
                pos <= p <= end,
                v6_merge(buf@, pos as nat, limit as nat, old(self)@) == v6_merge(buf@, p as nat, limit as nat, self@),
            decreases end - p,
        {
            proof {
                reveal(v6_merge);
            }
            if p >= end {
                return Ok(());
            }
            proof {
                crate::wire::lemma_read_tag_progress(buf@, p as nat, limit as nat);
            }
            match read_tag(buf, p, limit) {
                Err(e) => {
                    return Err(e);
                },
                Ok((f, wt, p1)) => {
                    proof {
                        crate::wire::lemma_varint_scan_len(window(buf@, p1 as nat, limit as nat), 0, 0, 1);
                        crate::wire::lemma_read_unknown_field_progress(buf@, p1 as nat, limit as nat, wt);
                    }
                    if 1 <= f && f <= 5 {
                        match read_varint_field(buf, p1, limit, wt) {
                            Err(e) => {
                                return Err(e);
                            },
                            Ok((v, p2)) => {
                                if f == 1 {
                                    self.port = (v % 0x1_0000_0000) as u32;
                                } else if f == 2 {
                                    self.flowinfo = (v % 0x1_0000_0000) as u32;
                                } else if f == 3 {
                                    self.scope_id = (v % 0x1_0000_0000) as u32;
                                } else if f == 4 {
                                    self.octets_a = v;
                                } else {
                                    self.octets_b = v;
                                }
                                p = p2;
                            },
                        }
                    } else {
                        match read_unknown_field(buf, p1, limit, wt) {
                            Err(e) => {
                                return Err(e);
                            },
                            Ok((u, p2)) => {
                                match u {
                                    Some(x) => {
                                        unknown_fields_add(&mut self.unknown_fields, f, x);
                                    },
                                    None => {},
                                }
                                p = p2;
                            },
                        }
                    }
                },
            }
        }
    }

    /// Merges the fields encoded in `buf` into the message: a field read
    /// later replaces one read earlier, unknown fields are kept. On an
    /// error the fields read before it stay merged.
    pub fn merge_from(&mut self, buf: &[u8]) -> (r: Result<(), DecodeError>)
        ensures
            v6_merge(buf@, 0, NO_LIMIT as nat, old(self)@) == (final(self)@, err_of(r)),
    {
        self.merge_range(buf, 0, NO_LIMIT)
    }
}

// ---------------------------------------------------------------------
// SocketAddr

/// The address a socket address holds, IPv4 or IPv6.
pub enum AddrView {
    V4(V4View),
    V6(V6View),
}

/// A socket address as its fields.
pub struct SocketAddrView {
    pub addr: Option<AddrView>,
    pub unknown: UnknownMap,
}

/// The socket address that a new message holds: no address.
pub open spec fn socket_addr_default() -> SocketAddrView {
    SocketAddrView { addr: None, unknown: no_unknown_fields() }
}

/// The encoded size of the address field: a tag byte, the varint of the
/// size of the nested message, and the nested message.
pub open spec fn addr_size(a: AddrView) -> nat {
    match a {
        AddrView::V4(v) => 1 + varint_bytes(v4_size(v)).len() + v4_size(v),
        AddrView::V6(v) => 1 + varint_bytes(v6_size(v)).len() + v6_size(v),
    }
}

/// The encoded size of a socket address.
pub open spec fn socket_addr_size(m: SocketAddrView) -> nat {
    (match m.addr {
        Some(a) => addr_size(a),
        None => 0,
    }) + unknown_fields_len(m.unknown)
}

/// A socket address that can be sized and written: every size fits 32
/// bits.
pub open spec fn socket_addr_sizable(m: SocketAddrView) -> bool {
    &&& unknown_fields_valid(m.unknown)
    &&& match m.addr {
        Some(AddrView::V4(v)) => v4_sizable(v),
        Some(AddrView::V6(v)) => v6_sizable(v),
        None => true,
    }
    &&& socket_addr_size(m) <= u32::MAX
}

/// No unknown field, neither in the socket address nor in its address.
pub open spec fn socket_addr_unknown_free(m: SocketAddrView) -> bool {
    &&& m.unknown == no_unknown_fields()
    &&& match m.addr {
        Some(AddrView::V4(v)) => v.unknown == no_unknown_fields(),
        Some(AddrView::V6(v)) => v.unknown == no_unknown_fields(),
        None => true,
    }
}

/// The bytes written for the address of a socket address: the tag and size
/// of the address field, the known fields of the address, then its unknown
/// fields in the order `inner` gives them.
pub open spec fn addr_bytes(a: Option<AddrView>, inner: Seq<u32>) -> Seq<u8> {
    match a {
        Some(AddrView::V4(v)) => tag_bytes(1, 2) + varint_bytes(v4_size(v)) + v4_known_bytes(v)
            + unknown_fields_bytes(v.unknown, inner),
        Some(AddrView::V6(v)) => tag_bytes(2, 2) + varint_bytes(v6_size(v)) + v6_known_bytes(v)
            + unknown_fields_bytes(v.unknown, inner),
        None => Seq::empty(),
    }
}

/// `inner` names each unknown field number of the address once (and is
/// empty when there is no address).
pub open spec fn addr_order(a: Option<AddrView>, inner: Seq<u32>) -> bool {
    match a {
        Some(AddrView::V4(v)) => field_order(v.unknown, inner),
        Some(AddrView::V6(v)) => field_order(v.unknown, inner),
        None => inner.len() == 0,
    }
}

/// `after` is `before` followed by the encoding of `m`: its address, then
/// its unknown fields, the unknown fields of each message in some order
/// that names each of their field numbers once.
pub open spec fn socket_addr_written(before: Seq<u8>, after: Seq<u8>, m: SocketAddrView) -> bool {
    exists|inner: Seq<u32>|
        #[trigger] addr_order(m.addr, inner) && appended_in_some_order(
            before + addr_bytes(m.addr, inner),
            after,
            m.unknown,
        )
}

/// The bytes written first for a socket address: the tag and size of the
/// address field and the known fields of the address.
pub open spec fn socket_addr_head_bytes(m: SocketAddrView) -> Seq<u8> {
    match m.addr {
        Some(AddrView::V4(v)) => tag_bytes(1, 2) + varint_bytes(v4_size(v)) + v4_known_bytes(v),
        Some(AddrView::V6(v)) => tag_bytes(2, 2) + varint_bytes(v6_size(v)) + v6_known_bytes(v),
        None => Seq::empty(),
    }
}

/// The nested IPv4 message of wire type `wt` whose length starts at `pos`:
/// the message read into a new one within its length, and the position
/// after it. A length past the limit is refused.
pub open spec fn read_v4_message_at(s: Seq<u8>, pos: nat, lim: nat, wt: u32) -> Result<(V4View, nat), DecodeError> {
    if wt != 2 {
        Err(DecodeError::UnexpectedWireType(wt))
    } else {
        match varint_decode(window(s, pos, lim)) {
            Err(e) => Err(e),
            Ok((len, n)) => {
                let p1 = pos + n;
                let nl = p1 + len as nat;
                if nl > NO_LIMIT || nl > lim {
                    Err(DecodeError::LimitOverflow)
                } else {
                    match v4_merge(s, p1, nl, v4_default()) {
                        (m, Some(e)) => Err(e),
                        (m, None) => Ok((m, avail(s, nl))),
                    }
                }
            },
        }
    }
}

/// The nested IPv6 message of wire type `wt` whose length starts at `pos`.
pub open spec fn read_v6_message_at(s: Seq<u8>, pos: nat, lim: nat, wt: u32) -> Result<(V6View, nat), DecodeError> {
    if wt != 2 {
        Err(DecodeError::UnexpectedWireType(wt))
    } else {
        match varint_decode(window(s, pos, lim)) {
            Err(e) => Err(e),
            Ok((len, n)) => {
                let p1 = pos + n;
                let nl = p1 + len as nat;
                if nl > NO_LIMIT || nl > lim {
                    Err(DecodeError::LimitOverflow)
                } else {
                    match v6_merge(s, p1, nl, v6_default()) {
                        (m, Some(e)) => Err(e),
                        (m, None) => Ok((m, avail(s, nl))),
                    }
                }
            },
        }
    }
}

/// Reading a nested message that succeeds moves forward, within what can
/// be read.
pub proof fn lemma_read_message_progress(s: Seq<u8>, pos: nat, lim: nat, wt: u32)
    requires
        pos <= avail(s, lim),
    ensures
        read_v4_message_at(s, pos, lim, wt) matches Ok((m, p)) ==> pos < p <= avail(s, lim),
        read_v6_message_at(s, pos, lim, wt) matches Ok((m, p)) ==> pos < p <= avail(s, lim),
{
    crate::wire::lemma_varint_scan_len(window(s, pos, lim), 0, 0, 1);
}

/// Merging the fields at `pos` into `m`, up to what can be read under
/// `lim`. Field one holds an IPv4 address and field two an IPv6 address;
/// each replaces the address read before it. Other fields are kept as
/// unknown.
#[verifier::opaque]
pub open spec fn socket_addr_merge(s: Seq<u8>, pos: nat, lim: nat, m: SocketAddrView) -> (SocketAddrView, Option<DecodeError>)
    decreases avail(s, lim) - pos,
{
    if pos >= avail(s, lim) {
        (m, None)
    } else {
        match read_tag_at(s, pos, lim) {
            Err(e) => (m, Some(e)),
            Ok((f, wt, p1)) => {
                proof {
                    crate::wire::lemma_read_tag_progress(s, pos, lim);
                    lemma_read_message_progress(s, p1, lim, wt);
                }
                if f == 1 {
                    match read_v4_message_at(s, p1, lim, wt) {
                        Err(e) => (m, Some(e)),
                        Ok((v, p2)) => socket_addr_merge(s, p2, lim, SocketAddrView { addr: Some(AddrView::V4(v)), ..m }),
                    }
                } else if f == 2 {
                    match read_v6_message_at(s, p1, lim, wt) {
                        Err(e) => (m, Some(e)),
                        Ok((v, p2)) => socket_addr_merge(s, p2, lim, SocketAddrView { addr: Some(AddrView::V6(v)), ..m }),
                    }
                } else {
                    match read_unknown_field_at(s, p1, lim, wt) {
                        Err(e) => (m, Some(e)),
                        Ok((u, p2)) => {
                            proof {
                                crate::wire::lemma_read_unknown_field_progress(s, p1, lim, wt);
                            }
                            socket_addr_merge(s, p2, lim, SocketAddrView { unknown: unknown_add_opt(m.unknown, f, u), ..m })
                        },
                    }
                }
            },
        }
    }
}

/// What is written for a socket address without unknown fields decodes,
/// into a new message, as that socket address.
pub proof fn lemma_socket_addr_roundtrip(m: SocketAddrView)
    requires
        socket_addr_unknown_free(m),
        socket_addr_sizable(m),
    ensures
        socket_addr_merge(socket_addr_head_bytes(m), 0, NO_LIMIT as nat, socket_addr_default()) == (m, None::<DecodeError>),
{
    reveal(socket_addr_merge);
    let s = socket_addr_head_bytes(m);
    let nl_ = NO_LIMIT as nat;
    match m.addr {
        None => {
            assert(s.len() == 0);
            assert(m == socket_addr_default());
        },
        Some(AddrView::V4(v)) => {
            let size = v4_size(v);
            lemma_no_unknown_len(v.unknown);
            let vb = varint_bytes(size);
            let inner = v4_known_bytes(v);
            crate::wire::lemma_varint64_len(size as u64);
            crate::wire::lemma_varint64_len(10);
            assert(s =~= varint_bytes(1 * 8 + 2) + (vb + inner));
            assert(window(s, 0, nl_) =~= s);
            crate::wire::lemma_read_tag_of(s, 0, nl_, 1, 2, vb + inner);
            crate::wire::lemma_window_skip(s, 0, nl_, 1);
            assert(window(s, 1, nl_) =~= vb + inner);
            crate::wire::lemma_varint_roundtrip(size as u64, inner);
            let p1 = 1 + vb.len();
            let nl = p1 + size;
            assert(nl == s.len());
            assert(window(s, p1, nl) =~= inner);
            lemma_v4_merge_known(s, p1, nl, v4_default(), v);
            let m2 = SocketAddrView { addr: Some(AddrView::V4(v)), ..socket_addr_default() };
            assert(read_v4_message_at(s, 1, nl_, 2) == Ok::<(V4View, nat), DecodeError>((v, s.len())));
            assert(socket_addr_merge(s, s.len(), nl_, m2) == (m2, None::<DecodeError>));
            assert(m2 == m);
        },
        Some(AddrView::V6(v)) => {
            let size = v6_size(v);
            lemma_no_unknown_len(v.unknown);
            let vb = varint_bytes(size);
            let inner = v6_known_bytes(v);
            crate::wire::lemma_varint64_len(size as u64);
            crate::wire::lemma_varint64_len(18);
            assert(s =~= varint_bytes(2 * 8 + 2) + (vb + inner));
            assert(window(s, 0, nl_) =~= s);
            crate::wire::lemma_read_tag_of(s, 0, nl_, 2, 2, vb + inner);
            crate::wire::lemma_window_skip(s, 0, nl_, 1);
            assert(window(s, 1, nl_) =~= vb + inner);
            crate::wire::lemma_varint_roundtrip(size as u64, inner);
            let p1 = 1 + vb.len();
            let nl = p1 + size;
            assert(nl == s.len());
            assert(window(s, p1, nl) =~= inner);
            lemma_v6_merge_known(s, p1, nl, v6_default(), v);
            let m2 = SocketAddrView { addr: Some(AddrView::V6(v)), ..socket_addr_default() };
            assert(read_v6_message_at(s, 1, nl_, 2) == Ok::<(V6View, nat), DecodeError>((v, s.len())));
            assert(socket_addr_merge(s, s.len(), nl_, m2) == (m2, None::<DecodeError>));
            assert(m2 == m);
        },
    }
}

/// The address of a socket address.
#[derive(Clone, PartialEq, Debug)]
pub enum SocketAddr_oneof_addr {
    V4(SocketAddr_SocketAddrV4),
    V6(SocketAddr_SocketAddrV6),
}

impl View for SocketAddr_oneof_addr {
    type V = AddrView;

    open spec fn view(&self) -> AddrView {
        match self {
            SocketAddr_oneof_addr::V4(v) => AddrView::V4(v@),
            SocketAddr_oneof_addr::V6(v) => AddrView::V6(v@),
        }
    }
}

/// A socket address: an IPv4 or an IPv6 address, or none.
#[derive(Clone, PartialEq, Debug)]
pub struct SocketAddr {
    pub addr: Option<SocketAddr_oneof_addr>,
    pub unknown_fields: protobuf::UnknownFields,
}

impl View for SocketAddr {
    type V = SocketAddrView;

    open spec fn view(&self) -> SocketAddrView {
        SocketAddrView {
            addr: match self.addr {
                Some(a) => Some(a@),
                None => None,
            },
            unknown: unknown_fields_contents(self.unknown_fields),
        }
    }
}

/// Reads the nested IPv4 message whose length starts at `pos`.
fn read_v4_message(buf: &[u8], pos: usize, limit: u64, wt: u32) -> (r: Result<(SocketAddr_SocketAddrV4, usize), DecodeError>)
    requires
        pos <= avail(buf@, limit as nat),
    ensures
        match read_v4_message_at(buf@, pos as nat, limit as nat, wt) {
            Ok((m, p)) => r matches Ok((rm, rp)) && rm@ == m && rp == p,
            Err(e) => r matches Err(re) && re == e,
        },
{
    if wt != 2 {
        return Err(DecodeError::UnexpectedWireType(wt));
    }
    let end = avail_end(buf.len(), limit);
    proof {
        crate::wire::lemma_varint_scan_len(window(buf@, pos as nat, limit as nat), 0, 0, 1);
    }
    match read_varint64(buf, pos, end) {
        Err(e) => Err(e),
        Ok((len, p1)) => match (p1 as u64).checked_add(len) {
            None => Err(DecodeError::LimitOverflow),
            Some(nl) => {
                if nl > limit {
                    Err(DecodeError::LimitOverflow)
                } else {
                    let mut m = SocketAddr_SocketAddrV4::new();
                    match m.merge_range(buf, p1, nl) {
                        Err(e) => Err(e),
                        Ok(()) => Ok((m, avail_end(buf.len(), nl))),
                    }
                }
            },
        },
    }
}

/// Reads the nested IPv6 message whose length starts at `pos`.
fn read_v6_message(buf: &[u8], pos: usize, limit: u64, wt: u32) -> (r: Result<(SocketAddr_SocketAddrV6, usize), DecodeError>)
    requires
        pos <= avail(buf@, limit as nat),
    ensures
        match read_v6_message_at(buf@, pos as nat, limit as nat, wt) {
            Ok((m, p)) => r matches Ok((rm, rp)) && rm@ == m && rp == p,
            Err(e) => r matches Err(re) && re == e,
        },
{
    if wt != 2 {
        return Err(DecodeError::UnexpectedWireType(wt));
    }
    let end = avail_end(buf.len(), limit);
    proof {
        crate::wire::lemma_varint_scan_len(window(buf@, pos as nat, limit as nat), 0, 0, 1);
    }
    match read_varint64(buf, pos, end) {
        Err(e) => Err(e),
        Ok((len, p1)) => match (p1 as u64).checked_add(len) {
            None => Err(DecodeError::LimitOverflow),
            Some(nl) => {
                if nl > limit {
                    Err(DecodeError::LimitOverflow)
                } else {
                    let mut m = SocketAddr_SocketAddrV6::new();
                    match m.merge_range(buf, p1, nl) {
                        Err(e) => Err(e),
                        Ok(()) => Ok((m, avail_end(buf.len(), nl))),
                    }
                }
            },
        },
    }
}

impl Default for SocketAddr {
    fn default() -> (r: Self)
        ensures
            r@ == socket_addr_default(),
    {
        SocketAddr::new()
    }
}

impl SocketAddr {
    /// A message with no address and no unknown field.
    pub fn new() -> (r: Self)
        ensures
            r@ == socket_addr_default(),
    {
        SocketAddr { addr: None, unknown_fields: unknown_fields_new() }
    }

    /// The IPv4 address, or a new IPv4 address when the address is not one.
    pub fn get_V4(&self) -> (r: SocketAddr_SocketAddrV4)
        ensures
            r@ == match self@.addr {
                Some(AddrView::V4(v)) => v,
                _ => v4_default(),
            },
    {
        match &self.addr {
            Some(SocketAddr_oneof_addr::V4(v)) => v.copy(),
            _ => SocketAddr_SocketAddrV4::new(),
        }
    }

    /// The IPv6 address, or a new IPv6 address when the address is not one.
    pub fn get_V6(&self) -> (r: SocketAddr_SocketAddrV6)
        ensures
            r@ == match self@.addr {
                Some(AddrView::V6(v)) => v,
                _ => v6_default(),
            },
    {
        match &self.addr {
            Some(SocketAddr_oneof_addr::V6(v)) => v.copy(),
            _ => SocketAddr_SocketAddrV6::new(),
        }
    }

    /// Every field is optional, and so are those of both addresses: the
    /// message is always initialized.
    pub fn is_initialized(&self) -> (r: bool)
        ensures
            r,
    {
        match &self.addr {
            Some(SocketAddr_oneof_addr::V4(v)) => {
                if !v.is_initialized() {
                    return false;
                }
            },
            Some(SocketAddr_oneof_addr::V6(v)) => {
                if !v.is_initialized() {
                    return false;
                }
            },
            None => {},
        }
        true
    }

    /// Forgets the address and the unknown fields.
    pub fn clear(&mut self)
        ensures
            final(self)@ == socket_addr_default(),
    {
        self.addr = None;
        unknown_fields_clear(&mut self.unknown_fields);
    }

    /// The encoded size of the message.
    pub fn compute_size(&self) -> (r: u32)
        requires
            socket_addr_sizable(self@),
        ensures
            r == socket_addr_size(self@),
    {
        let mut my_size: u32 = 0;
        match &self.addr {
            Some(SocketAddr_oneof_addr::V4(v)) => {
                let len = v.compute_size();
                my_size = my_size + 1 + varint32_size(len) + len;
            },
            Some(SocketAddr_oneof_addr::V6(v)) => {
                let len = v.compute_size();
                my_size = my_size + 1 + varint32_size(len) + len;
            },
            None => {},
        }
        my_size = my_size + unknown_fields_size(&self.unknown_fields);
        my_size
    }

    /// Appends the encoding of the message to `buf`: the address as a
    /// nested message with its size in front, then the unknown fields.
    pub fn write_to_with_cached_sizes(&self, buf: &mut Vec<u8>)
        requires
            socket_addr_sizable(self@),
        ensures
            final(buf)@.len() == old(buf)@.len() + socket_addr_size(self@),
            final(buf)@.subrange(0, (old(buf)@.len() + socket_addr_head_bytes(self@).len()) as int)
                == old(buf)@ + socket_addr_head_bytes(self@),
            socket_addr_unknown_free(self@) ==> final(buf)@ == old(buf)@ + socket_addr_head_bytes(self@),
            socket_addr_written(old(buf)@, final(buf)@, self@),
    {
        let ghost start = buf@;
        let ghost mut inner: Seq<u32> = Seq::empty();
        proof {
            crate::wire::lemma_tag_len(1, 2);
            crate::wire::lemma_tag_len(2, 2);
            assert(tag_bytes(1, 2) == varint_bytes(10));
            assert(tag_bytes(2, 2) == varint_bytes(18));
            assert(varint_bytes(10).len() == 1);
            assert(varint_bytes(18).len() == 1);
        }
        match &self.addr {
            Some(SocketAddr_oneof_addr::V4(v)) => {
                put_length_delimited_tag(buf, 1);
                let len = v.compute_size();
                put_raw_varint32(buf, len);
                let ghost mid = buf@;
                v.write_to_with_cached_sizes(buf);
                proof {
                    assert(buf@.subrange(0, mid.len() as int) == mid) by {
                        assert(buf@.subrange(0, (mid.len() + v4_known_bytes(v@).len()) as int).subrange(0, mid.len() as int)
                            =~= buf@.subrange(0, mid.len() as int));
                        assert((mid + v4_known_bytes(v@)).subrange(0, mid.len() as int) =~= mid);
                    }
                    assert(buf@.subrange(0, (start.len() + socket_addr_head_bytes(self@).len()) as int)
                        =~= start + socket_addr_head_bytes(self@));
                    if v@.unknown == no_unknown_fields() {
                        assert(buf@ =~= start + socket_addr_head_bytes(self@));
                    }
                    let o = choose|o: Seq<u32>| #[trigger] field_order(v@.unknown, o) && buf@ == mid
                        + v4_known_bytes(v@) + unknown_fields_bytes(v@.unknown, o);
                    inner = o;
                    assert(buf@ =~= start + addr_bytes(self@.addr, inner));
                    assert(addr_order(self@.addr, inner));
                }
            },
            Some(SocketAddr_oneof_addr::V6(v)) => {
                put_length_delimited_tag(buf, 2);
                let len = v.compute_size();
                put_raw_varint32(buf, len);
                let ghost mid = buf@;
                v.write_to_with_cached_sizes(buf);
                proof {
                    assert(buf@.subrange(0, (start.len() + socket_addr_head_bytes(self@).len()) as int)
                        =~= start + socket_addr_head_bytes(self@));
                    if v@.unknown == no_unknown_fields() {
                        assert(buf@ =~= start + socket_addr_head_bytes(self@));
                    }
                    let o = choose|o: Seq<u32>| #[trigger] field_order(v@.unknown, o) && buf@ == mid
                        + v6_known_bytes(v@) + unknown_fields_bytes(v@.unknown, o);
                    inner = o;
                    assert(buf@ =~= start + addr_bytes(self@.addr, inner));
                    assert(addr_order(self@.addr, inner));
                }
            },
            None => {
                assert(buf@ =~= start + addr_bytes(self@.addr, inner));
            },
        }
        let ghost known = buf@;
        assert(addr_order(self@.addr, inner));
        put_unknown_fields(buf, &self.unknown_fields);
        proof {
            assert(buf@.subrange(0, known.len() as int) == known);
            assert(buf@.subrange(0, (start.len() + socket_addr_head_bytes(self@).len()) as int)
                =~= start + socket_addr_head_bytes(self@)) by {
                assert(known.subrange(0, (start.len() + socket_addr_head_bytes(self@).len()) as int)
                    =~= start + socket_addr_head_bytes(self@));
            }
            if socket_addr_unknown_free(self@) {
                lemma_no_unknown_len(self@.unknown);
                assert(buf@ =~= known);
            }
        }
    }

    /// Merges the fields encoded in `buf[pos..]`, up to `limit`, into the
    /// message.
    fn merge_range(&mut self, buf: &[u8], pos: usize, limit: u64) -> (r: Result<(), DecodeError>)
        requires
            pos <= avail(buf@, limit as nat),
        ensures
            socket_addr_merge(buf@, pos as nat, limit as nat, old(self)@) == (final(self)@, err_of(r)),
    {
        let end = avail_end(buf.len(), limit);
        let mut p: usize = pos;
        loop
            invariant
                end == avail(buf@, limit as nat),
                pos <= p <= end,
                socket_addr_merge(buf@, pos as nat, limit as nat, old(self)@) == socket_addr_merge(
                    buf@,
                    p as nat,
                    limit as nat,
                    self@,
                ),
            decreases end - p,
        {
            proof {
                reveal(socket_addr_merge);
            }
            if p >= end {
                return Ok(());
            }
            proof {
                crate::wire::lemma_read_tag_progress(buf@, p as nat, limit as nat);
            }
            match read_tag(buf, p, limit) {
                Err(e) => {
                    return Err(e);
                },
                Ok((f, wt, p1)) => {
                    proof {
                        lemma_read_message_progress(buf@, p1 as nat, limit as nat, wt);
                        crate::wire::lemma_read_unknown_field_progress(buf@, p1 as nat, limit as nat, wt);
                    }
                    if f == 1 {
                        match read_v4_message(buf, p1, limit, wt) {
                            Err(e) => {
                                return Err(e);
                            },
                            Ok((v, p2)) => {
                                self.addr = Some(SocketAddr_oneof_addr::V4(v));
                                p = p2;
                            },
                        }
                    } else if f == 2 {
                        match read_v6_message(buf, p1, limit, wt) {
                            Err(e) => {
                                return Err(e);
                            },
                            Ok((v, p2)) => {
                                self.addr = Some(SocketAddr_oneof_addr::V6(v));
                                p = p2;
                            },
                        }
                    } else {
                        match read_unknown_field(buf, p1, limit, wt) {
                            Err(e) => {
                                return Err(e);
                            },
                            Ok((u, p2)) => {
                                match u {
                                    Some(x) => {
                                        unknown_fields_add(&mut self.unknown_fields, f, x);
                                    },
                                    None => {},
                                }
                                p = p2;
                            },
                        }
                    }
                },
            }
        }
    }

    /// Merges the fields encoded in `buf` into the message: an address read
    /// later replaces one read earlier, unknown fields are kept. On an
    /// error the fields read before it stay merged.
    pub fn merge_from(&mut self, buf: &[u8]) -> (r: Result<(), DecodeError>)
        ensures
            socket_addr_merge(buf@, 0, NO_LIMIT as nat, old(self)@) == (final(self)@, err_of(r)),
    {
        self.merge_range(buf, 0, NO_LIMIT)
    }
}

// ---------------------------------------------------------------------
// PermissionToken

/// A permission token as its fields.
pub struct TokenView {
    pub path: Seq<char>,
    pub timestamp: u64,
    pub unknown: UnknownMap,
}

/// The token that a new message holds: empty path, time zero.
pub open spec fn token_default() -> TokenView {
    TokenView { path: Seq::empty(), timestamp: 0, unknown: no_unknown_fields() }
}

/// The bytes written for the path: nothing when it is empty, else the tag
/// of a length-delimited field, the varint of its length in bytes and its
/// UTF-8 bytes.
pub open spec fn path_bytes(path: Seq<char>) -> Seq<u8> {
    if path.len() != 0 {
        tag_bytes(1, 2) + varint_bytes(encode_utf8(path).len()) + encode_utf8(path)
    } else {
        Seq::empty()
    }
}

/// The bytes written for the known fields of a token, in field order.
pub open spec fn token_known_bytes(m: TokenView) -> Seq<u8> {
    path_bytes(m.path) + opt_varint_field(2, m.timestamp as nat)
}

/// The encoded size of a token.
pub open spec fn token_size(m: TokenView) -> nat {
    token_known_bytes(m).len() + unknown_fields_len(m.unknown)
}

/// A token that can be sized and written: its size fits 32 bits.
pub open spec fn token_sizable(m: TokenView) -> bool {
    unknown_fields_valid(m.unknown) && token_size(m) <= u32::MAX
}

/// The string field of wire type `wt` whose length starts at `pos`: its
/// characters, which must be valid UTF-8, and the position after it.
pub open spec fn read_string_at(s: Seq<u8>, pos: nat, lim: nat, wt: u32) -> Result<(Seq<char>, nat), DecodeError> {
    if wt != 2 {
        Err(DecodeError::UnexpectedWireType(wt))
    } else {
        match read_ld_at(s, pos, lim) {
            Err(e) => Err(e),
            Ok((b, p)) => if valid_utf8(b) {
                Ok((decode_utf8(b), p))
            } else {
                Err(DecodeError::Utf8)
            },
        }
    }
}

/// Merging the fields at `pos` into `m`, up to what can be read under
/// `lim`. Field one is the path, field two the time stamp; other fields are
/// kept as unknown.
#[verifier::opaque]
pub open spec fn token_merge(s: Seq<u8>, pos: nat, lim: nat, m: TokenView) -> (TokenView, Option<DecodeError>)
    decreases avail(s, lim) - pos,
{
    if pos >= avail(s, lim) {
        (m, None)
    } else {
        match read_tag_at(s, pos, lim) {
            Err(e) => (m, Some(e)),
            Ok((f, wt, p1)) => {
                proof {
                    crate::wire::lemma_read_tag_progress(s, pos, lim);
                    crate::wire::lemma_read_unknown_value_progress(s, p1, lim, 2);
                    crate::wire::lemma_varint_scan_len(window(s, p1, lim), 0, 0, 1);
                }
                if f == 1 {
                    match read_string_at(s, p1, lim, wt) {
                        Err(e) => (m, Some(e)),
                        Ok((path, p2)) => token_merge(s, p2, lim, TokenView { path: path, ..m }),
                    }
                } else if f == 2 {
                    match read_varint_field_at(s, p1, lim, wt) {
                        Err(e) => (m, Some(e)),
                        Ok((v, p2)) => token_merge(s, p2, lim, TokenView { timestamp: v, ..m }),
                    }
                } else {
                    match read_unknown_field_at(s, p1, lim, wt) {
                        Err(e) => (m, Some(e)),
                        Ok((u, p2)) => {
                            proof {
                                crate::wire::lemma_read_unknown_field_progress(s, p1, lim, wt);
                            }
                            token_merge(s, p2, lim, TokenView { unknown: unknown_add_opt(m.unknown, f, u), ..m })
                        },
                    }
                }
            },
        }
    }
}

/// Merging one field of number `f` and wire type `wt` whose tag ends at
/// `p1` into a token: the message then and the position after the field.
pub open spec fn token_field(s: Seq<u8>, p1: nat, lim: nat, m: TokenView, f: u32, wt: u32) -> Result<(TokenView, nat), DecodeError> {
    if f == 1 {
        match read_string_at(s, p1, lim, wt) {
            Err(e) => Err(e),
            Ok((path, p2)) => Ok((TokenView { path: path, ..m }, p2)),
        }
    } else if f == 2 {
        match read_varint_field_at(s, p1, lim, wt) {
            Err(e) => Err(e),
            Ok((v, p2)) => Ok((TokenView { timestamp: v, ..m }, p2)),
        }
    } else {
        match read_unknown_field_at(s, p1, lim, wt) {
            Err(e) => Err(e),
            Ok((x, p2)) => Ok((TokenView { unknown: unknown_add_opt(m.unknown, f, x), ..m }, p2)),
        }
    }
}

/// Merging the field at `pos` into a token.
pub open spec fn token_step(s: Seq<u8>, pos: nat, lim: nat, m: TokenView) -> Result<(TokenView, nat), DecodeError> {
    match read_tag_at(s, pos, lim) {
        Err(e) => Err(e),
        Ok((f, wt, p1)) => token_field(s, p1, lim, m, f, wt),
    }
}

/// Merging a token merges one field and then the rest.
proof fn lemma_token_merge_unfold(s: Seq<u8>, pos: nat, lim: nat, m: TokenView)
    requires
        pos < avail(s, lim),
    ensures
        token_merge(s, pos, lim, m) == match token_step(s, pos, lim, m) {
            Err(e) => (m, Some(e)),
            Ok((m2, p2)) => token_merge(s, p2, lim, m2),
        },
        token_step(s, pos, lim, m) matches Ok((m2, p2)) ==> pos < p2 <= avail(s, lim),
{
    reveal(token_merge);
    crate::wire::lemma_read_tag_progress(s, pos, lim);
    if let Ok((f, wt, p1)) = read_tag_at(s, pos, lim) {
        crate::wire::lemma_varint_scan_len(window(s, p1, lim), 0, 0, 1);
        crate::wire::lemma_read_unknown_field_progress(s, p1, lim, wt);
        crate::wire::lemma_read_unknown_value_progress(s, p1, lim, 2);
    }
}

/// Merging a field where the bytes extend merges the same, and ends at
/// the same distance.
proof fn lemma_token_step_extend(s1: Seq<u8>, p1: nat, s2: Seq<u8>, p2: nat, u: Seq<u8>, m: TokenView)
    requires
        extends_at(s1, p1, s2, p2, u),
        token_step(s1, p1, NO_LIMIT as nat, m) is Ok || u.len() == 0,
    ensures
        match (token_step(s1, p1, NO_LIMIT as nat, m), token_step(s2, p2, NO_LIMIT as nat, m)) {
            (Ok((ma, q1)), Ok((mb, q2))) => ma == mb && q1 - p1 == q2 - p2,
            (Err(e1), Err(e2)) => e1 == e2,
            _ => false,
        },
{
    let nl = NO_LIMIT as nat;
    assert(avail(s1, nl) == s1.len());
    crate::wire::lemma_read_tag_progress(s1, p1, nl);
    crate::wire::lemma_read_tag_extend(s1, p1, s2, p2, u);
    if let Ok((f, wt, q1)) = read_tag_at(s1, p1, nl) {
        let d = (q1 - p1) as nat;
        crate::wire::lemma_extends_skip(s1, p1, s2, p2, u, d);
        if f == 1 {
            if wt == 2 {
                crate::wire::lemma_read_ld_extend(s1, q1, s2, p2 + d, u);
            }
        } else if f == 2 {
            crate::wire::lemma_read_varint_field_extend(s1, q1, s2, p2 + d, u, wt);
        } else {
            crate::wire::lemma_read_unknown_field_extend(s1, q1, s2, p2 + d, u, wt);
        }
    }
}

/// Merging a token where the bytes extend (see `lemma_v4_merge_extend`).
proof fn lemma_token_merge_extend(s1: Seq<u8>, p1: nat, s2: Seq<u8>, p2: nat, u: Seq<u8>, m: TokenView)
    requires
        extends_at(s1, p1, s2, p2, u),
        token_merge(s1, p1, NO_LIMIT as nat, m).1 is None || u.len() == 0,
    ensures
        u.len() == 0 ==> token_merge(s2, p2, NO_LIMIT as nat, m) == token_merge(s1, p1, NO_LIMIT as nat, m),
        token_merge(s1, p1, NO_LIMIT as nat, m).1 is None ==> token_merge(s2, p2, NO_LIMIT as nat, m)
            == token_merge(s2, (p2 + (s1.len() - p1)) as nat, NO_LIMIT as nat, token_merge(s1, p1, NO_LIMIT as nat, m).0),
    decreases s1.len() - p1,
{
    let nl = NO_LIMIT as nat;
    assert(avail(s1, nl) == s1.len());
    assert(avail(s2, nl) == s2.len());
    assert(window(s1, p1, nl).len() == s1.len() - p1);
    assert(window(s2, p2, nl).len() == s2.len() - p2);
    if p1 < s1.len() {
        lemma_token_merge_unfold(s1, p1, nl, m);
        lemma_token_merge_unfold(s2, p2, nl, m);
        lemma_token_step_extend(s1, p1, s2, p2, u, m);
        if let Ok((m2, r1)) = token_step(s1, p1, nl, m) {
            let d = (r1 - p1) as nat;
            crate::wire::lemma_extends_skip(s1, p1, s2, p2, u, d);
            lemma_token_merge_extend(s1, r1, s2, p2 + d, u, m2);
        }
    } else {
        reveal(token_merge);
    }
}

/// Merging two runs of bytes one after the other into a token is merging
/// them as one run, when the first merges without error.
pub proof fn lemma_token_merge_concat(a: Seq<u8>, b: Seq<u8>, m: TokenView)
    requires
        a.len() + b.len() <= NO_LIMIT,
        token_merge(a, 0, NO_LIMIT as nat, m).1 is None,
    ensures
        token_merge(a + b, 0, NO_LIMIT as nat, m) == token_merge(b, 0, NO_LIMIT as nat, token_merge(a, 0, NO_LIMIT as nat, m).0),
{
    let nl = NO_LIMIT as nat;
    let ab = a + b;
    assert(window(ab, 0, nl) =~= window(a, 0, nl) + b);
    lemma_token_merge_extend(a, 0, ab, 0, b, m);
    let m1 = token_merge(a, 0, nl, m).0;
    assert(window(ab, a.len(), nl) =~= window(b, 0, nl) + Seq::<u8>::empty());
    lemma_token_merge_extend(b, 0, ab, a.len(), Seq::<u8>::empty(), m1);
}

/// Merging the written path of a token reads the path.
#[verifier::rlimit(30)]
proof fn lemma_token_path_step(m: TokenView)
    requires
        m.path.len() != 0,
        token_known_bytes(m).len() <= u32::MAX,
    ensures
        token_merge(token_known_bytes(m), 0, NO_LIMIT as nat, token_default()) == token_merge(
            token_known_bytes(m),
            path_bytes(m.path).len(),
            NO_LIMIT as nat,
            TokenView { path: m.path, ..token_default() },
        ),
{
    let s = token_known_bytes(m);
    let nl_ = NO_LIMIT as nat;
    let tb = opt_varint_field(2, m.timestamp as nat);
    let enc = encode_utf8(m.path);
    let lb = varint_bytes(enc.len());
    let p1 = path_bytes(m.path).len();
    let m1 = TokenView { path: m.path, ..token_default() };
    crate::wire::lemma_varint64_len(enc.len() as u64);
    crate::wire::lemma_varint64_len(10);
    assert(avail(s, nl_) == s.len());
    assert(window(s, 0, nl_) =~= s);
    assert(s =~= varint_bytes(1 * 8 + 2) + (lb + enc + tb));
    crate::wire::lemma_read_tag_of(s, 0, nl_, 1, 2, lb + enc + tb);
    crate::wire::lemma_window_skip(s, 0, nl_, 1);
    assert(window(s, 1, nl_) =~= lb + (enc + tb));
    crate::wire::lemma_varint_roundtrip(enc.len() as u64, enc + tb);
    let q = 1 + lb.len();
    assert(s.subrange(q as int, (q + enc.len()) as int) =~= enc);
    vstd::utf8::encode_utf8_valid_utf8(m.path);
    vstd::utf8::encode_utf8_decode_utf8(m.path);
    assert(read_ld_at(s, 1, nl_) == Ok::<(Seq<u8>, nat), DecodeError>((enc, q + enc.len())));
    assert(read_string_at(s, 1, nl_, 2) == Ok::<(Seq<char>, nat), DecodeError>((m.path, p1)));
    assert(token_step(s, 0, nl_, token_default()) == Ok::<(TokenView, nat), DecodeError>((m1, p1)));
    lemma_token_merge_unfold(s, 0, nl_, token_default());
}

/// Merging the written time stamp of a token reads it.
proof fn lemma_token_timestamp_step(s: Seq<u8>, p1: nat, m1: TokenView, ts: u64)
    requires
        ts != 0,
        p1 <= s.len(),
        s.len() <= u32::MAX,
        window(s, p1, NO_LIMIT as nat) == opt_varint_field(2, ts as nat),
    ensures
        token_merge(s, p1, NO_LIMIT as nat, m1) == token_merge(
            s,
            s.len(),
            NO_LIMIT as nat,
            TokenView { timestamp: ts, ..m1 },
        ),
{
    let nl_ = NO_LIMIT as nat;
    let vb = varint_bytes(ts as nat);
    assert(avail(s, nl_) == s.len());
    assert(window(s, p1, nl_) =~= varint_bytes(2 * 8 + 0) + (vb + Seq::<u8>::empty()));
    crate::wire::lemma_read_tag_of(s, p1, nl_, 2, 0, vb);
    crate::wire::lemma_window_skip(s, p1, nl_, 1);
    assert(window(s, p1 + 1, nl_) =~= vb + Seq::<u8>::empty());
    crate::wire::lemma_read_varint_field_of(s, p1 + 1, nl_, ts, Seq::<u8>::empty());
    assert(token_step(s, p1, nl_, m1) == Ok::<(TokenView, nat), DecodeError>((TokenView { timestamp: ts, ..m1 }, s.len())));
    lemma_token_merge_unfold(s, p1, nl_, m1);
}

/// What is written for a token without unknown fields decodes, into a new
/// message, as that token.
pub proof fn lemma_token_roundtrip(m: TokenView)
    requires
        m.unknown == no_unknown_fields(),
        token_sizable(m),
    ensures
        token_merge(token_known_bytes(m), 0, NO_LIMIT as nat, token_default()) == (m, None::<DecodeError>),
{
    let s = token_known_bytes(m);
    let nl_ = NO_LIMIT as nat;
    let pb = path_bytes(m.path);
    let tb = opt_varint_field(2, m.timestamp as nat);
    lemma_no_unknown_len(m.unknown);
    assert(s.len() <= u32::MAX);
    let m1 = TokenView { path: m.path, ..token_default() };
    let p1 = pb.len();
    if m.path.len() != 0 {
        lemma_token_path_step(m);
    } else {
        assert(m.path =~= Seq::<char>::empty());
        assert(m1 == token_default());
    }
    assert(window(s, p1, nl_) =~= tb) by {
        assert(avail(s, nl_) == s.len());
    }
    let m2 = if m.timestamp != 0 { TokenView { timestamp: m.timestamp, ..m1 } } else { m1 };
    if m.timestamp != 0 {
        lemma_token_timestamp_step(s, p1, m1, m.timestamp);
    } else {
        assert(p1 == s.len());
    }
    assert(token_merge(s, s.len(), nl_, m2) == (m2, None::<DecodeError>)) by {
        reveal(token_merge);
    }
    assert(m2 == m);
}

/// A token granting access to a path, with the time it was issued.
#[derive(Clone, PartialEq, Debug)]
pub struct PermissionToken {
    pub path: String,
    pub timestamp: u64,
    pub unknown_fields: protobuf::UnknownFields,
}

impl View for PermissionToken {
    type V = TokenView;

    open spec fn view(&self) -> TokenView {
        TokenView {
            path: self.path@,
            timestamp: self.timestamp,
            unknown: unknown_fields_contents(self.unknown_fields),
        }
    }
}

/// Reads the string field whose length starts at `pos`.
fn read_string(buf: &[u8], pos: usize, limit: u64, wt: u32) -> (r: Result<(String, usize), DecodeError>)
    requires
        pos <= avail(buf@, limit as nat),
    ensures
        match read_string_at(buf@, pos as nat, limit as nat, wt) {
            Ok((path, p)) => r matches Ok((rs, rp)) && rs@ == path && rp == p,
            Err(e) => r matches Err(re) && re == e,
        },
{
    if wt != 2 {
        return Err(DecodeError::UnexpectedWireType(wt));
    }
    match read_length_delimited(buf, pos, limit) {
        Err(e) => Err(e),
        Ok((b, p)) => {
            let ghost bytes = b@;
            match string_from_utf8(b) {
                None => Err(DecodeError::Utf8),
                Some(st) => {
                    proof {
                        vstd::utf8::encode_utf8_decode_utf8(st@);
                    }
                    Ok((st, p))
                },
            }
        },
    }
}

impl Default for PermissionToken {
    fn default() -> (r: Self)
        ensures
            r@ == token_default(),
    {
        PermissionToken::new()
    }
}

impl PermissionToken {
    /// A token with an empty path, time zero and no unknown field.
    pub fn new() -> (r: Self)
        ensures
            r@ == token_default(),
    {
        PermissionToken { path: String::new(), timestamp: 0, unknown_fields: unknown_fields_new() }
    }

    /// The path.
    pub fn get_path(&self) -> (r: &str)
        ensures
            r@ == self.path@,
    {
        self.path.as_str()
    }

    /// The time the token was issued.
    pub fn get_timestamp(&self) -> (r: u64)
        ensures
            r == self.timestamp,
    {
        self.timestamp
    }

    /// Every field is optional, so the message is always initialized.
    pub fn is_initialized(&self) -> (r: bool)
        ensures
            r,
    {
        true
    }

    /// Empties the path, sets the time to zero and forgets the unknown
    /// fields.
    pub fn clear(&mut self)
        ensures
            final(self)@ == token_default(),
    {
        self.path = String::new();
        self.timestamp = 0;
        unknown_fields_clear(&mut self.unknown_fields);
    }

    /// The encoded size of the message.
    pub fn compute_size(&self) -> (r: u32)
        requires
            token_sizable(self@),
        ensures
            r == token_size(self@),
    {
        let mut my_size: u32 = 0;
        proof {
            crate::wire::lemma_tag_len(1, 2);
            crate::wire::lemma_tag_len(2, 0);
        }
        if !self.path.as_str().is_empty() {
            my_size = my_size + string_field_size(1, self.path.as_str());
        }
        if self.timestamp != 0 {
            my_size = my_size + varint_field_size(2, self.timestamp);
        }
        my_size = my_size + unknown_fields_size(&self.unknown_fields);
        my_size
    }

    /// Appends the encoding of the message to `buf`: the path unless it is
    /// empty, the time stamp unless it is zero, then the unknown fields.
    pub fn write_to_with_cached_sizes(&self, buf: &mut Vec<u8>)
        requires
            token_sizable(self@),
        ensures
            final(buf)@.len() == old(buf)@.len() + token_size(self@),
            final(buf)@.subrange(0, (old(buf)@.len() + token_known_bytes(self@).len()) as int) == old(buf)@
                + token_known_bytes(self@),
            self@.unknown == no_unknown_fields() ==> final(buf)@ == old(buf)@ + token_known_bytes(self@),
            appended_in_some_order(old(buf)@ + token_known_bytes(self@), final(buf)@, self@.unknown),
    {
        let ghost start = buf@;
        if !self.path.as_str().is_empty() {
            put_string_field(buf, 1, self.path.as_str());
        }
        assert(buf@ =~= start + path_bytes(self.path@));
        put_opt_uint64(buf, 2, self.timestamp);
        let ghost known = buf@;
        assert(known =~= start + token_known_bytes(self@));
        put_unknown_fields(buf, &self.unknown_fields);
        proof {
            assert(buf@.subrange(0, known.len() as int) == known);
            if self@.unknown == no_unknown_fields() {
                lemma_no_unknown_len(self@.unknown);
                assert(buf@ =~= known);
            }
        }
    }

    /// Merges the fields encoded in `buf[pos..]`, up to `limit`, into the
    /// message.
    fn merge_range(&mut self, buf: &[u8], pos: usize, limit: u64) -> (r: Result<(), DecodeError>)
        requires
            pos <= avail(buf@, limit as nat),
        ensures
            token_merge(buf@, pos as nat, limit as nat, old(self)@) == (final(self)@, err_of(r)),
    {
        let end = avail_end(buf.len(), limit);
        let mut p: usize = pos;
        loop
            invariant
                end == avail(buf@, limit as nat),
                pos <= p <= end,
                token_merge(buf@, pos as nat, limit as nat, old(self)@) == token_merge(
                    buf@,
                    p as nat,
                    limit as nat,
                    self@,
                ),
            decreases end - p,
        {
            proof {
                reveal(token_merge);
            }
            if p >= end {
                return Ok(());
            }
            proof {
                crate::wire::lemma_read_tag_progress(buf@, p as nat, limit as nat);
            }
            match read_tag(buf, p, limit) {
                Err(e) => {
                    return Err(e);
                },
                Ok((f, wt, p1)) => {
                    proof {
                        crate::wire::lemma_read_unknown_value_progress(buf@, p1 as nat, limit as nat, 2);
                        crate::wire::lemma_varint_scan_len(window(buf@, p1 as nat, limit as nat), 0, 0, 1);
                        crate::wire::lemma_read_unknown_field_progress(buf@, p1 as nat, limit as nat, wt);
                    }
                    if f == 1 {
                        match read_string(buf, p1, limit, wt) {
                            Err(e) => {
                                return Err(e);
                            },
                            Ok((st, p2)) => {
                                self.path = st;
                                p = p2;
                            },
                        }
                    } else if f == 2 {
                        match read_varint_field(buf, p1, limit, wt) {
                            Err(e) => {
                                return Err(e);
                            },
                            Ok((v, p2)) => {
                                self.timestamp = v;
                                p = p2;
                            },
                        }
                    } else {
                        match read_unknown_field(buf, p1, limit, wt) {
                            Err(e) => {
                                return Err(e);
                            },
                            Ok((u, p2)) => {
                                match u {
                                    Some(x) => {
                                        unknown_fields_add(&mut self.unknown_fields, f, x);
                                    },
                                    None => {},
                                }
                                p = p2;
                            },
                        }
                    }
                },
            }
        }
    }

    /// Merges the fields encoded in `buf` into the message: a field read
    /// later replaces one read earlier, unknown fields are kept. On an
    /// error the fields read before it stay merged.
    pub fn merge_from(&mut self, buf: &[u8]) -> (r: Result<(), DecodeError>)
        ensures
            token_merge(buf@, 0, NO_LIMIT as nat, old(self)@) == (final(self)@, err_of(r)),
    {
        self.merge_range(buf, 0, NO_LIMIT)
    }
}

} // verus!
