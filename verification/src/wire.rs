//! Primitives of the protocol buffers wire format: varints, tags,
//! little-endian fixed-width values, length-delimited runs.

use vstd::prelude::*;
use vstd::slice::slice_subrange;
use vstd::slice::slice_to_vec;

verus! {

/// The largest field number that a tag can carry.
pub const FIELD_NUMBER_MAX: u32 = 0x1fff_ffff;

/// The limit of a stream that reads up to the end of its input.
pub const NO_LIMIT: u64 = 0xffff_ffff_ffff_ffff;

/// Runs at least this long are read piecewise, and a short input is then
/// reported as a truncated message rather than as an unexpected end.
pub const READ_RAW_BYTES_MAX_ALLOC: u64 = 10_000_000;

/// Why bytes could not be decoded.
#[derive(Debug, Clone, Copy, PartialEq, Eq)]
pub enum DecodeError {
    /// The input ended inside a value.
    UnexpectedEof,
    /// A varint ran on for more than ten bytes.
    IncorrectVarint,
    /// A tag with field number zero or an unknown wire type.
    IncorrectTag(u32),
    /// A field came with a wire type that it cannot have.
    UnexpectedWireType(u32),
    /// A length-delimited run goes past the end of its message.
    TruncatedMessage,
    /// A nested message would end past the end of its parent.
    LimitOverflow,
    /// A string field does not hold UTF-8.
    Utf8,
}

/// `128` to the power `i`.
pub open spec fn pow128(i: nat) -> nat
    decreases i,
{
    if i == 0 {
        1
    } else {
        128 * pow128((i - 1) as nat)
    }
}

/// The varint encoding of `v`: seven bits per byte, least significant
/// first, the high bit set on every byte but the last.
pub open spec fn varint_bytes(v: nat) -> Seq<u8>
    decreases v,
{
    if v < 128 {
        seq![v as u8]
    } else {
        seq![(v % 128 + 128) as u8] + varint_bytes(v / 128)
    }
}

/// Decoding of a varint from `w`, having read `i` bytes that sum to `acc`,
/// the next byte counting `mult` times its low seven bits. At most ten
/// bytes are read; the value is taken modulo `2^64`.
pub open spec fn varint_scan(w: Seq<u8>, i: nat, acc: nat, mult: nat) -> Result<(u64, nat), DecodeError>
    decreases 10 - i,
{
    if i >= 10 {
        Err(DecodeError::IncorrectVarint)
    } else if i >= w.len() {
        Err(DecodeError::UnexpectedEof)
    } else {
        let acc2 = acc + (w[i as int] % 128) as nat * mult;
        if w[i as int] < 128 {
            Ok(((acc2 % 0x1_0000_0000_0000_0000) as u64, i + 1))
        } else {
            varint_scan(w, i + 1, acc2, mult * 128)
        }
    }
}

/// The value of the varint at the start of `w` and its length in bytes.
pub open spec fn varint_decode(w: Seq<u8>) -> Result<(u64, nat), DecodeError> {
    varint_scan(w, 0, 0, 1)
}

proof fn lemma_pow128_bound(i: nat)
    requires
        i <= 9,
    ensures
        pow128(i) <= 0x8000_0000_0000_0000,
        pow128(i) >= 1,
    decreases 9 - i,
{
    if i < 9 {
        lemma_pow128_bound((i + 1) as nat);
        assert(pow128((i + 1) as nat) == 128 * pow128(i));
    } else {
        reveal_with_fuel(pow128, 10);
        assert(pow128(9) == 0x8000_0000_0000_0000);
    }
}

/// Reads the varint that starts at `pos`, looking no further than `end`;
/// on success returns its value and the position after it.
pub fn read_varint64(buf: &[u8], pos: usize, end: usize) -> (r: Result<(u64, usize), DecodeError>)
    requires
        pos <= end <= buf@.len(),
    ensures
        match varint_decode(buf@.subrange(pos as int, end as int)) {
            Ok((v, n)) => r == Ok::<(u64, usize), DecodeError>((v, (pos + n) as usize)),
            Err(e) => r == Err::<(u64, usize), DecodeError>(e),
        },
{
    let ghost w = buf@.subrange(pos as int, end as int);
    let mut i: usize = 0;
    let mut acc: u128 = 0;
    let mut mult: u128 = 1;
    while i < 10
        invariant
            pos <= end <= buf@.len(),
            w == buf@.subrange(pos as int, end as int),
            i <= 10,
            mult == pow128(i as nat),
            acc < mult,
            varint_decode(w) == varint_scan(w, i as nat, acc as nat, mult as nat),
        decreases 10 - i,
    {
        proof {
            lemma_pow128_bound(i as nat);
        }
        if i >= end - pos {
            return Err(DecodeError::UnexpectedEof);
        }
        let b: u8 = buf[pos + i];
        assert(b == w[i as int]);
        let d: u128 = (b % 128) as u128;
        assert(d * mult <= 127 * mult) by (nonlinear_arith)
            requires
                d <= 127,
        ;
        assert(acc + d * mult < 128 * mult) by (nonlinear_arith)
            requires
                acc < mult,
                d * mult <= 127 * mult,
        ;
        acc = acc + d * mult;
        if b < 128 {
            let v: u64 = (acc % 0x1_0000_0000_0000_0000u128) as u64;
            return Ok((v, pos + i + 1));
        }
        mult = mult * 128;
        i = i + 1;
    }
    Err(DecodeError::IncorrectVarint)
}


/// Scanning a varint that succeeds ends past where it started, within the
/// input and within ten bytes.
pub proof fn lemma_varint_scan_len(w: Seq<u8>, i: nat, acc: nat, mult: nat)
    ensures
        varint_scan(w, i, acc, mult) matches Ok((v, n)) ==> i < n <= w.len() && n <= 10,
    decreases 10 - i,
{
    if i < 10 && i < w.len() && w[i as int] >= 128 {
        lemma_varint_scan_len(w, i + 1, acc + (w[i as int] % 128) as nat * mult, mult * 128);
    }
}

/// A varint of fewer than `128^k` has at most `k` bytes, and at least one.
pub proof fn lemma_varint_bytes_len(v: nat, k: nat)
    requires
        1 <= k,
        v < pow128(k),
    ensures
        1 <= varint_bytes(v).len() <= k,
    decreases v,
{
    if v >= 128 {
        assert(k >= 2) by {
            if k == 1 {
                assert(pow128(1) == 128) by {
                    reveal_with_fuel(pow128, 2);
                }
            }
        }
        assert(v / 128 < pow128((k - 1) as nat)) by {
            assert(pow128(k) == 128 * pow128((k - 1) as nat));
        }
        lemma_varint_bytes_len(v / 128, (k - 1) as nat);
    }
}

/// Every 64-bit value has a varint of one to ten bytes.
pub proof fn lemma_varint64_len(v: u64)
    ensures
        1 <= varint_bytes(v as nat).len() <= 10,
{
    reveal_with_fuel(pow128, 11);
    assert(pow128(10) == 0x40_0000_0000_0000_0000);
    lemma_varint_bytes_len(v as nat, 10);
}

/// Scanning the encoding of `x` placed at byte `i` adds `x` times `mult`.
proof fn lemma_varint_scan_bytes(w: Seq<u8>, x: nat, i: nat, acc: nat, mult: nat)
    requires
        i + varint_bytes(x).len() <= 10,
        i + varint_bytes(x).len() <= w.len(),
        w.subrange(i as int, (i + varint_bytes(x).len()) as int) == varint_bytes(x),
    ensures
        varint_scan(w, i, acc, mult) == Ok::<(u64, nat), DecodeError>(
            (((acc + x * mult) % 0x1_0000_0000_0000_0000) as u64, i + varint_bytes(x).len()),
        ),
    decreases x,
{
    let b = varint_bytes(x);
    assert(w[i as int] == b[0]);
    if x < 128 {
        assert(b[0] == x as u8);
    } else {
        let rest = varint_bytes(x / 128);
        assert(b == seq![(x % 128 + 128) as u8] + rest);
        assert(w[i as int] % 128 == x % 128);
        assert(w.subrange((i + 1) as int, (i + 1 + rest.len()) as int) == rest) by {
            assert forall|j: int| 0 <= j < rest.len() implies w.subrange(
                (i + 1) as int,
                (i + 1 + rest.len()) as int,
            )[j] == rest[j] by {
                assert(w[i + 1 + j] == w.subrange(i as int, (i + b.len()) as int)[1 + j]);
            }
        }
        lemma_varint_scan_bytes(w, x / 128, i + 1, acc + (x % 128) * mult, mult * 128);
        assert(acc + (x % 128) * mult + (x / 128) * (mult * 128) == acc + x * mult) by (nonlinear_arith);
    }
}

/// Decoding reads back what encoding wrote, whatever follows it.
pub proof fn lemma_varint_roundtrip(v: u64, rest: Seq<u8>)
    ensures
        varint_decode(varint_bytes(v as nat) + rest) == Ok::<(u64, nat), DecodeError>(
            (v, varint_bytes(v as nat).len()),
        ),
{
    let b = varint_bytes(v as nat);
    lemma_varint64_len(v);
    assert((b + rest).subrange(0, b.len() as int) == b);
    lemma_varint_scan_bytes(b + rest, v as nat, 0, 0, 1);
}


/// The end of what can be read: the limit or the end of the input,
/// whichever comes first.
pub open spec fn avail(s: Seq<u8>, lim: nat) -> nat {
    if lim < s.len() {
        lim
    } else {
        s.len()
    }
}

/// The bytes from `pos` up to what can be read.
pub open spec fn window(s: Seq<u8>, pos: nat, lim: nat) -> Seq<u8> {
    s.subrange(pos as int, avail(s, lim) as int)
}

/// The low 32 bits of a value, as `u32` keeps them.
pub open spec fn low32(v: u64) -> u32 {
    (v % 0x1_0000_0000) as u32
}

/// The tag at `pos`: field number, wire type and the position after it.
/// The tag is read as a varint cut to 32 bits; a wire type above five or a
/// field number zero makes it incorrect.
pub open spec fn read_tag_at(s: Seq<u8>, pos: nat, lim: nat) -> Result<(u32, u32, nat), DecodeError> {
    match varint_decode(window(s, pos, lim)) {
        Err(e) => Err(e),
        Ok((v, n)) => {
            let t = low32(v);
            if t % 8 > 5 || t / 8 == 0 {
                Err(DecodeError::IncorrectTag(t))
            } else {
                Ok((t / 8, t % 8, pos + n))
            }
        },
    }
}

/// A varint field of wire type `wt` at `pos`: its value and the position
/// after it.
pub open spec fn read_varint_field_at(s: Seq<u8>, pos: nat, lim: nat, wt: u32) -> Result<(u64, nat), DecodeError> {
    if wt != 0 {
        Err(DecodeError::UnexpectedWireType(wt))
    } else {
        match varint_decode(window(s, pos, lim)) {
            Err(e) => Err(e),
            Ok((v, n)) => Ok((v, pos + n)),
        }
    }
}

/// The little-endian value of `w`.
pub open spec fn le_value(w: Seq<u8>) -> nat
    decreases w.len(),
{
    if w.len() == 0 {
        0
    } else {
        w[0] as nat + 256 * le_value(w.drop_first())
    }
}

/// A fixed-width little-endian value of `k` bytes at `pos`.
pub open spec fn read_fixed_at(s: Seq<u8>, pos: nat, lim: nat, k: nat) -> Result<(nat, nat), DecodeError> {
    if avail(s, lim) < pos + k {
        Err(DecodeError::UnexpectedEof)
    } else {
        Ok((le_value(s.subrange(pos as int, (pos + k) as int)), pos + k))
    }
}

/// How many bytes the stream may still read before its limit.
pub open spec fn until_limit(pos: nat, lim: nat) -> nat {
    if lim == NO_LIMIT {
        NO_LIMIT as nat
    } else {
        (lim - pos) as nat
    }
}

/// A length-delimited run at `pos`: a varint length cut to 32 bits, then
/// that many bytes. A run past the limit is a truncated message; a run that
/// stays within the limit but passes the end of the input is an unexpected
/// end, or a truncated message when it is long enough to be read piecewise.
pub open spec fn read_ld_at(s: Seq<u8>, pos: nat, lim: nat) -> Result<(Seq<u8>, nat), DecodeError> {
    match varint_decode(window(s, pos, lim)) {
        Err(e) => Err(e),
        Ok((v, n)) => {
            let count = low32(v) as nat;
            let p1 = pos + n;
            if count > until_limit(p1, lim) {
                Err(DecodeError::TruncatedMessage)
            } else if p1 + count > avail(s, lim) {
                if count >= READ_RAW_BYTES_MAX_ALLOC {
                    Err(DecodeError::TruncatedMessage)
                } else {
                    Err(DecodeError::UnexpectedEof)
                }
            } else {
                Ok((s.subrange(p1 as int, (p1 + count) as int), p1 + count))
            }
        },
    }
}

/// A value of a field this library does not know.
pub enum WireValueView {
    Fixed32(u32),
    Fixed64(u64),
    Varint(u64),
    LengthDelimited(Seq<u8>),
}

/// The value of an unknown field of wire type `wt` at `pos`. Groups cannot
/// be read as values.
pub open spec fn read_unknown_value_at(s: Seq<u8>, pos: nat, lim: nat, wt: u32) -> Result<(WireValueView, nat), DecodeError> {
    if wt == 0 {
        match varint_decode(window(s, pos, lim)) {
            Err(e) => Err(e),
            Ok((v, n)) => Ok((WireValueView::Varint(v), pos + n)),
        }
    } else if wt == 1 {
        match read_fixed_at(s, pos, lim, 8) {
            Err(e) => Err(e),
            Ok((v, p)) => Ok((WireValueView::Fixed64(v as u64), p)),
        }
    } else if wt == 2 {
        match read_ld_at(s, pos, lim) {
            Err(e) => Err(e),
            Ok((b, p)) => Ok((WireValueView::LengthDelimited(b), p)),
        }
    } else if wt == 5 {
        match read_fixed_at(s, pos, lim, 4) {
            Err(e) => Err(e),
            Ok((v, p)) => Ok((WireValueView::Fixed32(v as u32), p)),
        }
    } else {
        Err(DecodeError::UnexpectedWireType(wt))
    }
}

/// Reading a tag that succeeds moves forward, within what can be read.
pub proof fn lemma_read_tag_progress(s: Seq<u8>, pos: nat, lim: nat)
    requires
        pos <= avail(s, lim),
    ensures
        read_tag_at(s, pos, lim) matches Ok((f, wt, p)) ==> pos < p <= avail(s, lim),
{
    lemma_varint_scan_len(window(s, pos, lim), 0, 0, 1);
}

/// Reading an unknown value that succeeds moves forward, within what can
/// be read.
pub proof fn lemma_read_unknown_value_progress(s: Seq<u8>, pos: nat, lim: nat, wt: u32)
    requires
        pos <= avail(s, lim),
    ensures
        read_unknown_value_at(s, pos, lim, wt) matches Ok((v, p)) ==> pos < p <= avail(s, lim),
{
    lemma_varint_scan_len(window(s, pos, lim), 0, 0, 1);
}

/// Skips a group whose start tag ends at `pos`: fields up to the matching
/// end tag, none of them a group. Returns the position after the end tag.
pub open spec fn skip_group_at(s: Seq<u8>, pos: nat, lim: nat) -> Result<nat, DecodeError>
    decreases avail(s, lim) - pos,
{
    if pos > avail(s, lim) {
        Err(DecodeError::UnexpectedEof)
    } else {
        match read_tag_at(s, pos, lim) {
            Err(e) => Err(e),
            Ok((f, wt, p1)) => {
                if wt == 4 {
                    Ok(p1)
                } else {
                    proof {
                        lemma_read_tag_progress(s, pos, lim);
                    }
                    match read_unknown_value_at(s, p1, lim, wt) {
                        Err(e) => Err(e),
                        Ok((v, p2)) => {
                            proof {
                                lemma_read_unknown_value_progress(s, p1, lim, wt);
                            }
                            skip_group_at(s, p2, lim)
                        },
                    }
                }
            },
        }
    }
}

/// An unknown field of wire type `wt` whose tag ends at `pos`: its value,
/// or none for a group, which is skipped.
pub open spec fn read_unknown_field_at(s: Seq<u8>, pos: nat, lim: nat, wt: u32) -> Result<(Option<WireValueView>, nat), DecodeError> {
    if wt == 3 {
        match skip_group_at(s, pos, lim) {
            Err(e) => Err(e),
            Ok(p) => Ok((None, p)),
        }
    } else {
        match read_unknown_value_at(s, pos, lim, wt) {
            Err(e) => Err(e),
            Ok((v, p)) => Ok((Some(v), p)),
        }
    }
}

/// Skipping a group that succeeds moves forward, within what can be read.
pub proof fn lemma_skip_group_progress(s: Seq<u8>, pos: nat, lim: nat)
    requires
        pos <= avail(s, lim),
    ensures
        skip_group_at(s, pos, lim) matches Ok(p) ==> pos < p <= avail(s, lim),
    decreases avail(s, lim) - pos,
{
    lemma_read_tag_progress(s, pos, lim);
    if let Ok((f, wt, p1)) = read_tag_at(s, pos, lim) {
        if wt != 4 {
            lemma_read_unknown_value_progress(s, p1, lim, wt);
            if let Ok((v, p2)) = read_unknown_value_at(s, p1, lim, wt) {
                lemma_skip_group_progress(s, p2, lim);
            }
        }
    }
}

/// Reading an unknown field that succeeds moves forward, within what can
/// be read.
pub proof fn lemma_read_unknown_field_progress(s: Seq<u8>, pos: nat, lim: nat, wt: u32)
    requires
        pos <= avail(s, lim),
    ensures
        read_unknown_field_at(s, pos, lim, wt) matches Ok((v, p)) ==> pos < p <= avail(s, lim),
{
    lemma_skip_group_progress(s, pos, lim);
    lemma_read_unknown_value_progress(s, pos, lim, wt);
}


/// A value of a field this library does not know.
#[derive(Debug, Clone, PartialEq, Eq)]
pub enum WireValue {
    Fixed32(u32),
    Fixed64(u64),
    Varint(u64),
    LengthDelimited(Vec<u8>),
}

impl View for WireValue {
    type V = WireValueView;

    open spec fn view(&self) -> WireValueView {
        match self {
            WireValue::Fixed32(v) => WireValueView::Fixed32(*v),
            WireValue::Fixed64(v) => WireValueView::Fixed64(*v),
            WireValue::Varint(v) => WireValueView::Varint(*v),
            WireValue::LengthDelimited(b) => WireValueView::LengthDelimited(b@),
        }
    }
}

/// The end of what can be read from an input of `len` bytes under `limit`.
pub fn avail_end(len: usize, limit: u64) -> (r: usize)
    ensures
        r as nat == (if (limit as nat) < len { limit as nat } else { len as nat }),
{
    if limit < len as u64 {
        limit as usize
    } else {
        len
    }
}

/// Reads the tag at `pos`.
pub fn read_tag(buf: &[u8], pos: usize, limit: u64) -> (r: Result<(u32, u32, usize), DecodeError>)
    requires
        pos <= avail(buf@, limit as nat),
    ensures
        match read_tag_at(buf@, pos as nat, limit as nat) {
            Ok((f, wt, p)) => r == Ok::<(u32, u32, usize), DecodeError>((f, wt, p as usize)),
            Err(e) => r == Err::<(u32, u32, usize), DecodeError>(e),
        },
{
    proof {
        lemma_read_tag_progress(buf@, pos as nat, limit as nat);
    }
    let end = avail_end(buf.len(), limit);
    match read_varint64(buf, pos, end) {
        Err(e) => Err(e),
        Ok((v, p)) => {
            let t: u32 = (v % 0x1_0000_0000) as u32;
            if t % 8 > 5 || t / 8 == 0 {
                Err(DecodeError::IncorrectTag(t))
            } else {
                Ok((t / 8, t % 8, p))
            }
        },
    }
}

/// Reads a varint field of wire type `wt` whose tag ends at `pos`.
pub fn read_varint_field(buf: &[u8], pos: usize, limit: u64, wt: u32) -> (r: Result<(u64, usize), DecodeError>)
    requires
        pos <= avail(buf@, limit as nat),
    ensures
        match read_varint_field_at(buf@, pos as nat, limit as nat, wt) {
            Ok((v, p)) => r == Ok::<(u64, usize), DecodeError>((v, p as usize)),
            Err(e) => r == Err::<(u64, usize), DecodeError>(e),
        },
{
    if wt != 0 {
        return Err(DecodeError::UnexpectedWireType(wt));
    }
    let end = avail_end(buf.len(), limit);
    read_varint64(buf, pos, end)
}

/// Reads a little-endian 32-bit value at `pos`.
pub fn read_fixed32(buf: &[u8], pos: usize, limit: u64) -> (r: Result<(u32, usize), DecodeError>)
    requires
        pos <= avail(buf@, limit as nat),
    ensures
        match read_fixed_at(buf@, pos as nat, limit as nat, 4) {
            Ok((v, p)) => r == Ok::<(u32, usize), DecodeError>((v as u32, p as usize)),
            Err(e) => r == Err::<(u32, usize), DecodeError>(e),
        },
{
    let end = avail_end(buf.len(), limit);
    if end - pos < 4 {
        return Err(DecodeError::UnexpectedEof);
    }
    let ghost w = buf@.subrange(pos as int, pos + 4);
    let v: u32 = buf[pos] as u32 + 256 * (buf[pos + 1] as u32) + 65536 * (buf[pos + 2] as u32)
        + 16777216 * (buf[pos + 3] as u32);
    proof {
        reveal_with_fuel(le_value, 5);
        assert(w.drop_first().drop_first().drop_first().drop_first().len() == 0);
    }
    Ok((v, pos + 4))
}

/// Reads a little-endian 64-bit value at `pos`.
pub fn read_fixed64(buf: &[u8], pos: usize, limit: u64) -> (r: Result<(u64, usize), DecodeError>)
    requires
        pos <= avail(buf@, limit as nat),
    ensures
        match read_fixed_at(buf@, pos as nat, limit as nat, 8) {
            Ok((v, p)) => r == Ok::<(u64, usize), DecodeError>((v as u64, p as usize)),
            Err(e) => r == Err::<(u64, usize), DecodeError>(e),
        },
{
    let end = avail_end(buf.len(), limit);
    if end - pos < 8 {
        return Err(DecodeError::UnexpectedEof);
    }
    let ghost w = buf@.subrange(pos as int, pos + 8);
    let mut v: u64 = 0;
    let mut j: usize = 8;
    while j > 0
        invariant
            pos + 8 <= buf.len(),
            w == buf@.subrange(pos as int, pos + 8),
            j <= 8,
            v as nat == le_value(w.subrange(j as int, 8)),
            v < pow128_bytes((8 - j) as nat),
        decreases j,
    {
        j = j - 1;
        let b: u8 = buf[pos + j];
        proof {
            let t = w.subrange(j as int, 8);
            assert(t.drop_first() == w.subrange(j + 1, 8));
            assert(t[0] == b);
            lemma_pow256_step((8 - j - 1) as nat);
            assert(v * 256 + b < pow128_bytes((8 - j) as nat)) by (nonlinear_arith)
                requires
                    v < pow128_bytes((8 - j - 1) as nat),
                    b < 256,
                    pow128_bytes((8 - j) as nat) == 256 * pow128_bytes((8 - j - 1) as nat),
            ;
            lemma_pow256_le8((8 - j) as nat);
        }
        v = v * 256 + b as u64;
    }
    assert(w.subrange(0, 8) == w);
    Ok((v, pos + 8))
}

/// `256` to the power `i`.
pub open spec fn pow128_bytes(i: nat) -> nat
    decreases i,
{
    if i == 0 {
        1
    } else {
        256 * pow128_bytes((i - 1) as nat)
    }
}

proof fn lemma_pow256_step(i: nat)
    ensures
        pow128_bytes(i + 1) == 256 * pow128_bytes(i),
{
}

proof fn lemma_pow256_le8(i: nat)
    requires
        i <= 8,
    ensures
        pow128_bytes(i) <= 0x1_0000_0000_0000_0000,
    decreases 8 - i,
{
    if i < 8 {
        lemma_pow256_le8(i + 1);
    } else {
        reveal_with_fuel(pow128_bytes, 9);
    }
}

/// Reads a length-delimited run whose length starts at `pos`.
pub fn read_length_delimited(buf: &[u8], pos: usize, limit: u64) -> (r: Result<(Vec<u8>, usize), DecodeError>)
    requires
        pos <= avail(buf@, limit as nat),
    ensures
        match read_ld_at(buf@, pos as nat, limit as nat) {
            Ok((b, p)) => r matches Ok((rb, rp)) && rb@ == b && rp == p,
            Err(e) => r == Err::<(Vec<u8>, usize), DecodeError>(e),
        },
{
    let end = avail_end(buf.len(), limit);
    proof {
        lemma_varint_scan_len(window(buf@, pos as nat, limit as nat), 0, 0, 1);
    }
    match read_varint64(buf, pos, end) {
        Err(e) => Err(e),
        Ok((v, p1)) => {
            let count: u64 = v % 0x1_0000_0000;
            let until: u64 = if limit == NO_LIMIT {
                NO_LIMIT
            } else {
                limit - p1 as u64
            };
            if count > until {
                Err(DecodeError::TruncatedMessage)
            } else if count > (end - p1) as u64 {
                if count >= READ_RAW_BYTES_MAX_ALLOC {
                    Err(DecodeError::TruncatedMessage)
                } else {
                    Err(DecodeError::UnexpectedEof)
                }
            } else {
                let run = slice_to_vec(slice_subrange(buf, p1, p1 + count as usize));
                Ok((run, p1 + count as usize))
            }
        },
    }
}

/// Reads the value of an unknown field of wire type `wt` at `pos`.
pub fn read_unknown_value(buf: &[u8], pos: usize, limit: u64, wt: u32) -> (r: Result<(WireValue, usize), DecodeError>)
    requires
        pos <= avail(buf@, limit as nat),
    ensures
        match read_unknown_value_at(buf@, pos as nat, limit as nat, wt) {
            Ok((v, p)) => r matches Ok((rv, rp)) && rv@ == v && rp == p,
            Err(e) => r == Err::<(WireValue, usize), DecodeError>(e),
        },
{
    let len = buf.len();
    proof {
        lemma_read_unknown_value_progress(buf@, pos as nat, limit as nat, wt);
    }
    if wt == 0 {
        let end = avail_end(len, limit);
        match read_varint64(buf, pos, end) {
            Err(e) => Err(e),
            Ok((v, p)) => Ok((WireValue::Varint(v), p)),
        }
    } else if wt == 1 {
        match read_fixed64(buf, pos, limit) {
            Err(e) => Err(e),
            Ok((v, p)) => Ok((WireValue::Fixed64(v), p)),
        }
    } else if wt == 2 {
        match read_length_delimited(buf, pos, limit) {
            Err(e) => Err(e),
            Ok((b, p)) => Ok((WireValue::LengthDelimited(b), p)),
        }
    } else if wt == 5 {
        match read_fixed32(buf, pos, limit) {
            Err(e) => Err(e),
            Ok((v, p)) => Ok((WireValue::Fixed32(v), p)),
        }
    } else {
        Err(DecodeError::UnexpectedWireType(wt))
    }
}

/// Skips the group whose start tag ends at `pos`.
pub fn skip_group(buf: &[u8], pos: usize, limit: u64) -> (r: Result<usize, DecodeError>)
    requires
        pos <= avail(buf@, limit as nat),
    ensures
        match skip_group_at(buf@, pos as nat, limit as nat) {
            Ok(p) => r == Ok::<usize, DecodeError>(p as usize),
            Err(e) => r == Err::<usize, DecodeError>(e),
        },
{
    let len = buf.len();
    let mut p: usize = pos;
    proof {
        lemma_skip_group_progress(buf@, pos as nat, limit as nat);
    }
    loop
        invariant
            len == buf@.len(),
            pos <= p <= avail(buf@, limit as nat),
            skip_group_at(buf@, pos as nat, limit as nat) == skip_group_at(buf@, p as nat, limit as nat),
        decreases avail(buf@, limit as nat) - p,
    {
        proof {
            lemma_read_tag_progress(buf@, p as nat, limit as nat);
        }
        match read_tag(buf, p, limit) {
            Err(e) => {
                return Err(e);
            },
            Ok((f, wt, p1)) => {
                if wt == 4 {
                    return Ok(p1);
                }
                proof {
                    lemma_read_unknown_value_progress(buf@, p1 as nat, limit as nat, wt);
                }
                match read_unknown_value(buf, p1, limit, wt) {
                    Err(e) => {
                        return Err(e);
                    },
                    Ok((v, p2)) => {
                        p = p2;
                    },
                }
            },
        }
    }
}

/// Reads an unknown field of wire type `wt` whose tag ends at `pos`.
pub fn read_unknown_field(buf: &[u8], pos: usize, limit: u64, wt: u32) -> (r: Result<(Option<WireValue>, usize), DecodeError>)
    requires
        pos <= avail(buf@, limit as nat),
    ensures
        match read_unknown_field_at(buf@, pos as nat, limit as nat, wt) {
            Ok((v, p)) => r matches Ok((rv, rp)) && rp == p && (match rv {
                Some(x) => v == Some(x@),
                None => v.is_none(),
            }),
            Err(e) => r == Err::<(Option<WireValue>, usize), DecodeError>(e),
        },
{
    let len = buf.len();
    proof {
        lemma_read_unknown_field_progress(buf@, pos as nat, limit as nat, wt);
    }
    if wt == 3 {
        match skip_group(buf, pos, limit) {
            Err(e) => Err(e),
            Ok(p) => Ok((None, p)),
        }
    } else {
        match read_unknown_value(buf, pos, limit, wt) {
            Err(e) => Err(e),
            Ok((v, p)) => Ok((Some(v), p)),
        }
    }
}


/// The window after `k` more bytes is the rest of the window.
pub proof fn lemma_window_skip(s: Seq<u8>, pos: nat, lim: nat, k: nat)
    requires
        pos + k <= avail(s, lim),
    ensures
        window(s, pos + k, lim) == window(s, pos, lim).skip(k as int),
{
    assert(window(s, pos + k, lim) =~= window(s, pos, lim).skip(k as int));
}

/// A tag of field `field` and wire type `wt`, written as a varint, reads
/// back as that field and wire type.
pub proof fn lemma_read_tag_of(s: Seq<u8>, pos: nat, lim: nat, field: u32, wt: u32, rest: Seq<u8>)
    requires
        pos <= avail(s, lim),
        1 <= field <= FIELD_NUMBER_MAX,
        wt <= 5,
        window(s, pos, lim) == varint_bytes(field as nat * 8 + wt as nat) + rest,
    ensures
        read_tag_at(s, pos, lim) == Ok::<(u32, u32, nat), DecodeError>(
            (field, wt, pos + varint_bytes(field as nat * 8 + wt as nat).len()),
        ),
{
    let v: u64 = (field as nat * 8 + wt as nat) as u64;
    lemma_varint_roundtrip(v, rest);
    assert(low32(v) == field * 8 + wt);
    assert((field * 8 + wt) % 8 == wt as int);
    assert((field * 8 + wt) / 8 == field as int);
}

/// A varint written at `pos` reads back as a varint field.
pub proof fn lemma_read_varint_field_of(s: Seq<u8>, pos: nat, lim: nat, v: u64, rest: Seq<u8>)
    requires
        pos <= avail(s, lim),
        window(s, pos, lim) == varint_bytes(v as nat) + rest,
    ensures
        read_varint_field_at(s, pos, lim, 0) == Ok::<(u64, nat), DecodeError>(
            (v, pos + varint_bytes(v as nat).len()),
        ),
{
    lemma_varint_roundtrip(v, rest);
}

/// A tag has the same size whatever its wire type.
pub proof fn lemma_tag_len(field: nat, wt: nat)
    requires
        1 <= field,
        wt < 8,
    ensures
        varint_bytes(field * 8 + wt).len() == varint_bytes(field * 8 + 1).len(),
{
    let a = field * 8 + wt;
    let b = field * 8 + 1;
    assert(a < 128 <==> b < 128);
    if a >= 128 {
        assert(a / 128 == field / 16);
        assert(b / 128 == field / 16);
    }
}


// ---------------------------------------------------------------------
// Reads that see the same bytes

/// A varint read from the start of some bytes reads the same from those
/// bytes with more after them; with nothing after them it also fails the
/// same way.
pub proof fn lemma_varint_scan_extend(w: Seq<u8>, u: Seq<u8>, i: nat, acc: nat, mult: nat)
    requires
        varint_scan(w, i, acc, mult) is Ok || u.len() == 0,
    ensures
        varint_scan(w + u, i, acc, mult) == varint_scan(w, i, acc, mult),
    decreases 10 - i,
{
    if u.len() == 0 {
        assert(w + u =~= w);
    } else if i < 10 && i < w.len() {
        assert((w + u)[i as int] == w[i as int]);
        let acc2 = acc + (w[i as int] % 128) as nat * mult;
        if w[i as int] >= 128 {
            lemma_varint_scan_extend(w, u, i + 1, acc2, mult * 128);
        }
    }
}

/// The bytes from `p2` on in `s2` are those from `p1` on in `s1`, followed
/// by `u`; neither input is longer than the largest limit.
pub open spec fn extends_at(s1: Seq<u8>, p1: nat, s2: Seq<u8>, p2: nat, u: Seq<u8>) -> bool {
    &&& s1.len() <= NO_LIMIT
    &&& s2.len() <= NO_LIMIT
    &&& p1 <= s1.len()
    &&& p2 <= s2.len()
    &&& window(s2, p2, NO_LIMIT as nat) == window(s1, p1, NO_LIMIT as nat) + u
}

/// The relation holds on at positions that are as far ahead in both.
pub proof fn lemma_extends_skip(s1: Seq<u8>, p1: nat, s2: Seq<u8>, p2: nat, u: Seq<u8>, d: nat)
    requires
        extends_at(s1, p1, s2, p2, u),
        p1 + d <= s1.len(),
    ensures
        extends_at(s1, p1 + d, s2, p2 + d, u),
{
    let nl = NO_LIMIT as nat;
    let w1 = window(s1, p1, nl);
    assert(window(s1, p1 + d, nl) =~= w1.skip(d as int));
    assert(window(s2, p2 + d, nl) =~= (w1 + u).skip(d as int));
    assert((w1 + u).skip(d as int) =~= w1.skip(d as int) + u);
}

/// A tag read where the bytes extend reads the same, at the same distance.
pub proof fn lemma_read_tag_extend(s1: Seq<u8>, p1: nat, s2: Seq<u8>, p2: nat, u: Seq<u8>)
    requires
        extends_at(s1, p1, s2, p2, u),
        read_tag_at(s1, p1, NO_LIMIT as nat) is Ok || u.len() == 0,
    ensures
        match (read_tag_at(s1, p1, NO_LIMIT as nat), read_tag_at(s2, p2, NO_LIMIT as nat)) {
            (Ok((f1, w1, q1)), Ok((f2, w2, q2))) => f1 == f2 && w1 == w2 && q1 - p1 == q2 - p2,
            (Err(e1), Err(e2)) => e1 == e2,
            _ => false,
        },
{
    let nl = NO_LIMIT as nat;
    lemma_varint_scan_extend(window(s1, p1, nl), u, 0, 0, 1);
}

/// A varint field read where the bytes extend reads the same.
pub proof fn lemma_read_varint_field_extend(s1: Seq<u8>, p1: nat, s2: Seq<u8>, p2: nat, u: Seq<u8>, wt: u32)
    requires
        extends_at(s1, p1, s2, p2, u),
        read_varint_field_at(s1, p1, NO_LIMIT as nat, wt) is Ok || u.len() == 0,
    ensures
        match (
            read_varint_field_at(s1, p1, NO_LIMIT as nat, wt),
            read_varint_field_at(s2, p2, NO_LIMIT as nat, wt),
        ) {
            (Ok((v1, q1)), Ok((v2, q2))) => v1 == v2 && q1 - p1 == q2 - p2,
            (Err(e1), Err(e2)) => e1 == e2,
            _ => false,
        },
{
    let nl = NO_LIMIT as nat;
    if wt == 0 {
        lemma_varint_scan_extend(window(s1, p1, nl), u, 0, 0, 1);
    }
}

/// A fixed-width value read where the bytes extend reads the same.
pub proof fn lemma_read_fixed_extend(s1: Seq<u8>, p1: nat, s2: Seq<u8>, p2: nat, u: Seq<u8>, k: nat)
    requires
        extends_at(s1, p1, s2, p2, u),
        read_fixed_at(s1, p1, NO_LIMIT as nat, k) is Ok || u.len() == 0,
    ensures
        match (read_fixed_at(s1, p1, NO_LIMIT as nat, k), read_fixed_at(s2, p2, NO_LIMIT as nat, k)) {
            (Ok((v1, q1)), Ok((v2, q2))) => v1 == v2 && q1 - p1 == q2 - p2,
            (Err(e1), Err(e2)) => e1 == e2,
            _ => false,
        },
{
    let nl = NO_LIMIT as nat;
    let w1 = window(s1, p1, nl);
    assert(avail(s1, nl) == s1.len());
    assert(avail(s2, nl) == s2.len());
    if p1 + k <= s1.len() {
        assert(s2.subrange(p2 as int, (p2 + k) as int) =~= (w1 + u).subrange(0, k as int));
        assert(s1.subrange(p1 as int, (p1 + k) as int) =~= w1.subrange(0, k as int));
        assert((w1 + u).subrange(0, k as int) =~= w1.subrange(0, k as int));
    }
}

/// A length-delimited run read where the bytes extend reads the same.
pub proof fn lemma_read_ld_extend(s1: Seq<u8>, p1: nat, s2: Seq<u8>, p2: nat, u: Seq<u8>)
    requires
        extends_at(s1, p1, s2, p2, u),
        read_ld_at(s1, p1, NO_LIMIT as nat) is Ok || u.len() == 0,
    ensures
        match (read_ld_at(s1, p1, NO_LIMIT as nat), read_ld_at(s2, p2, NO_LIMIT as nat)) {
            (Ok((b1, q1)), Ok((b2, q2))) => b1 == b2 && q1 - p1 == q2 - p2,
            (Err(e1), Err(e2)) => e1 == e2,
            _ => false,
        },
{
    let nl = NO_LIMIT as nat;
    let w1 = window(s1, p1, nl);
    lemma_varint_scan_extend(w1, u, 0, 0, 1);
    lemma_varint_scan_len(w1, 0, 0, 1);
    assert(avail(s1, nl) == s1.len());
    assert(avail(s2, nl) == s2.len());
    if let Ok((v, n)) = varint_decode(w1) {
        let count = low32(v) as nat;
        let q1 = p1 + n;
        let q2 = p2 + n;
        if q1 + count <= s1.len() {
            assert(s2.subrange(q2 as int, (q2 + count) as int) =~= (w1 + u).subrange(
                n as int,
                (n + count) as int,
            ));
            assert(s1.subrange(q1 as int, (q1 + count) as int) =~= w1.subrange(
                n as int,
                (n + count) as int,
            ));
            assert((w1 + u).subrange(n as int, (n + count) as int) =~= w1.subrange(
                n as int,
                (n + count) as int,
            ));
        }
    }
}

/// An unknown value read where the bytes extend reads the same.
pub proof fn lemma_read_unknown_value_extend(
    s1: Seq<u8>,
    p1: nat,
    s2: Seq<u8>,
    p2: nat,
    u: Seq<u8>,
    wt: u32,
)
    requires
        extends_at(s1, p1, s2, p2, u),
        read_unknown_value_at(s1, p1, NO_LIMIT as nat, wt) is Ok || u.len() == 0,
    ensures
        match (
            read_unknown_value_at(s1, p1, NO_LIMIT as nat, wt),
            read_unknown_value_at(s2, p2, NO_LIMIT as nat, wt),
        ) {
            (Ok((v1, q1)), Ok((v2, q2))) => v1 == v2 && q1 - p1 == q2 - p2,
            (Err(e1), Err(e2)) => e1 == e2,
            _ => false,
        },
{
    let nl = NO_LIMIT as nat;
    if wt == 0 {
        lemma_varint_scan_extend(window(s1, p1, nl), u, 0, 0, 1);
    } else if wt == 1 {
        lemma_read_fixed_extend(s1, p1, s2, p2, u, 8);
    } else if wt == 2 {
        lemma_read_ld_extend(s1, p1, s2, p2, u);
    } else if wt == 5 {
        lemma_read_fixed_extend(s1, p1, s2, p2, u, 4);
    }
}

/// Skipping a group where the bytes extend ends at the same distance.
pub proof fn lemma_skip_group_extend(s1: Seq<u8>, p1: nat, s2: Seq<u8>, p2: nat, u: Seq<u8>)
    requires
        extends_at(s1, p1, s2, p2, u),
        skip_group_at(s1, p1, NO_LIMIT as nat) is Ok || u.len() == 0,
    ensures
        match (skip_group_at(s1, p1, NO_LIMIT as nat), skip_group_at(s2, p2, NO_LIMIT as nat)) {
            (Ok(q1), Ok(q2)) => q1 - p1 == q2 - p2,
            (Err(e1), Err(e2)) => e1 == e2,
            _ => false,
        },
    decreases s1.len() - p1,
{
    let nl = NO_LIMIT as nat;
    assert(avail(s1, nl) == s1.len());
    assert(avail(s2, nl) == s2.len());
    lemma_read_tag_progress(s1, p1, nl);
    lemma_read_tag_extend(s1, p1, s2, p2, u);
    if let Ok((f, wt, q1)) = read_tag_at(s1, p1, nl) {
        if wt != 4 {
            let d = (q1 - p1) as nat;
            lemma_extends_skip(s1, p1, s2, p2, u, d);
            lemma_read_unknown_value_progress(s1, q1, nl, wt);
            lemma_read_unknown_value_extend(s1, q1, s2, p2 + d, u, wt);
            if let Ok((v, r1)) = read_unknown_value_at(s1, q1, nl, wt) {
                let d2 = (r1 - p1) as nat;
                lemma_extends_skip(s1, p1, s2, p2, u, d2);
                lemma_skip_group_extend(s1, r1, s2, p2 + d2, u);
            }
        }
    }
}

/// An unknown field read where the bytes extend reads the same.
pub proof fn lemma_read_unknown_field_extend(
    s1: Seq<u8>,
    p1: nat,
    s2: Seq<u8>,
    p2: nat,
    u: Seq<u8>,
    wt: u32,
)
    requires
        extends_at(s1, p1, s2, p2, u),
        read_unknown_field_at(s1, p1, NO_LIMIT as nat, wt) is Ok || u.len() == 0,
    ensures
        match (
            read_unknown_field_at(s1, p1, NO_LIMIT as nat, wt),
            read_unknown_field_at(s2, p2, NO_LIMIT as nat, wt),
        ) {
            (Ok((v1, q1)), Ok((v2, q2))) => v1 == v2 && q1 - p1 == q2 - p2,
            (Err(e1), Err(e2)) => e1 == e2,
            _ => false,
        },
{
    if wt == 3 {
        lemma_skip_group_extend(s1, p1, s2, p2, u);
    } else {
        lemma_read_unknown_value_extend(s1, p1, s2, p2, u, wt);
    }
}

} // verus!
