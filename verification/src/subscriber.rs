//! The request handling of the subscriber tools.
//!
//! The tools read commands, one per line, from their input. Commands are
//! gathered in batches: within a batch, subscribing to a path and dropping
//! it cancel out; at the end of a batch the subscriptions are updated and
//! the writes go out. Values that arrive are printed one per line. The
//! subscriber itself and the terminal are driven by the caller.

use crate::pathset::{view_set, PathSet};
use crate::text::{
    escape, escape_char, find_char, lemma_escape_absent, lemma_find_char, starts_with, str_find_char, str_slice, str_starts_with,
    str_tail, string_push,
};
use vstd::prelude::*;
use vstd::string::*;

verus! {

/// `c` has the Unicode White_Space property: the ASCII tab, line feed,
/// vertical tab, form feed, carriage return and space, next line, no-break
/// space, ogham space mark, the spaces from en quad to hair space, line and
/// paragraph separators, narrow no-break space, medium mathematical space
/// and ideographic space. This is what `char::is_whitespace` tells.
pub open spec fn white_space(c: char) -> bool {
    let x = c as u32;
    ||| 0x09 <= x <= 0x0d
    ||| x == 0x20
    ||| x == 0x85
    ||| x == 0xa0
    ||| x == 0x1680
    ||| 0x2000 <= x <= 0x200a
    ||| x == 0x2028
    ||| x == 0x2029
    ||| x == 0x202f
    ||| x == 0x205f
    ||| x == 0x3000
}

/// Whether `c` is white space.
pub fn is_white_space(c: char) -> (r: bool)
    ensures
        r == white_space(c),
{
    let x = c as u32;
    (0x09 <= x && x <= 0x0d) || x == 0x20 || x == 0x85 || x == 0xa0 || x == 0x1680 || (0x2000 <= x
        && x <= 0x200a) || x == 0x2028 || x == 0x2029 || x == 0x202f || x == 0x205f || x == 0x3000
}

/// The line holds nothing but white space.
pub open spec fn blank(s: Seq<char>) -> bool {
    forall|k: int| 0 <= k < s.len() ==> white_space(#[trigger] s[k])
}

/// Whether the line holds nothing but white space, that is whether it is
/// empty once trimmed.
pub fn is_blank(s: &str) -> (r: bool)
    ensures
        r == blank(s@),
{
    let n = s.unicode_len();
    let mut i: usize = 0;
    while i < n
        invariant
            i <= n,
            n == s@.len(),
            forall|k: int| 0 <= k < i ==> white_space(#[trigger] s@[k]),
        decreases n - i,
    {
        if !is_white_space(s.get_char(i)) {
            return false;
        }
        i = i + 1;
    }
    true
}

/// A command of the subscriber tool. `V` is a value that can be written.
#[derive(Debug, Clone, PartialEq, Eq)]
pub enum In<V> {
    /// Subscribe to a path.
    Add(String),
    /// Drop the subscription to a path.
    Drop(String),
    /// Write a value to a subscribed path.
    Write(String, V),
}

/// Why a line is not a command. `E` is what the parsers of types and
/// values report.
#[derive(Debug, Clone, PartialEq, Eq)]
pub enum InError<E> {
    /// A write names no type.
    ExpectedType,
    /// A write gives no value.
    ExpectedValue,
    /// The line starts with none of the commands.
    Unknown,
    /// The type of a write does not parse.
    BadType(E),
    /// The value of a write does not parse as one of its type.
    BadValue(E),
}

/// The parts of a line, by their characters.
pub enum InShape {
    Add(Seq<char>),
    Drop(Seq<char>),
    /// A write: its path, its type, and its value if the line has one.
    Write(Seq<char>, Seq<char>, Option<Seq<char>>),
    /// A write that names no type.
    NoType,
    /// None of the commands.
    Unknown,
}

/// `DROP|`
pub open spec fn drop_tag() -> Seq<char> {
    seq!['D', 'R', 'O', 'P', '|']
}

/// `ADD|`
pub open spec fn add_tag() -> Seq<char> {
    seq!['A', 'D', 'D', '|']
}

/// `WRITE|`
pub open spec fn write_tag() -> Seq<char> {
    seq!['W', 'R', 'I', 'T', 'E', '|']
}

/// The arguments of a write, split at the first two `|` at most: a path,
/// then a type, then the value, which is the rest of the line. Without a
/// second `|` the rest of the line is the type and there is no value.
pub open spec fn write_shape(rest: Seq<char>) -> InShape {
    match find_char(rest, '|') {
        None => InShape::NoType,
        Some(i) => {
            let tail = rest.skip(i + 1);
            match find_char(tail, '|') {
                None => InShape::Write(rest.take(i), tail, None),
                Some(j) => InShape::Write(rest.take(i), tail.take(j), Some(tail.skip(j + 1))),
            }
        },
    }
}

/// The parts of a line: `DROP|path`, `ADD|path` or `WRITE|path|type|value`,
/// each with something after the command.
pub open spec fn in_shape(s: Seq<char>) -> InShape {
    if starts_with(s, drop_tag()) && s.len() > 5 {
        InShape::Drop(s.skip(5))
    } else if starts_with(s, add_tag()) && s.len() > 4 {
        InShape::Add(s.skip(4))
    } else if starts_with(s, write_tag()) && s.len() > 6 {
        write_shape(s.skip(6))
    } else {
        InShape::Unknown
    }
}

/// What a write with path `p`, type `tt` and value `ov` comes to: the type
/// is parsed by `ft` first; if it parses, a missing value is an error, else
/// the value is parsed by `fv` as one of that type.
pub open spec fn write_outcome<T, V, E, FT: Fn(String) -> Result<T, E>, FV: Fn(T, String) -> Result<V, E>>(
    ft: FT,
    fv: FV,
    p: Seq<char>,
    tt: Seq<char>,
    ov: Option<Seq<char>>,
    r: Result<In<V>, InError<E>>,
) -> bool {
    exists|ts: String, rt: Result<T, E>|
        #[trigger] call_ensures(ft, (ts,), rt) && ts@ == tt && match rt {
            Err(e) => r == Err::<In<V>, InError<E>>(InError::BadType(e)),
            Ok(t) => match ov {
                None => r == Err::<In<V>, InError<E>>(InError::ExpectedValue),
                Some(vt) => exists|vs: String, rv: Result<V, E>|
                    #[trigger] call_ensures(fv, (t, vs), rv) && vs@ == vt && match rv {
                        Err(e) => r == Err::<In<V>, InError<E>>(InError::BadValue(e)),
                        Ok(v) => r matches Ok(In::Write(q, w)) && q@ == p && w == v,
                    },
            },
        }
}

fn parse_write<T, V, E, FT: Fn(String) -> Result<T, E>, FV: Fn(T, String) -> Result<V, E>>(
    s: &str,
    parse_typ: FT,
    parse_val: FV,
) -> (r: Result<In<V>, InError<E>>)
    requires
        6 <= s@.len(),
        forall|x: String| call_requires(parse_typ, (x,)),
        forall|t: T, x: String| call_requires(parse_val, (t, x)),
    ensures
        match write_shape(s@.skip(6)) {
            InShape::NoType => r == Err::<In<V>, InError<E>>(InError::ExpectedType),
            InShape::Write(p, tt, ov) => write_outcome(parse_typ, parse_val, p, tt, ov, r),
            _ => false,
        },
{
    let rest = str_tail(s, 6);
    let _rest_len: usize = rest.as_str().unicode_len();
    assert(rest@ == s@.skip(6));
    proof {
        lemma_find_char(rest@, '|');
    }
    match str_find_char(rest.as_str(), '|') {
        None => Err(InError::ExpectedType),
        Some(i) => {
            let path = str_slice(rest.as_str(), 0, i);
            let tail = str_tail(rest.as_str(), i + 1);
            let _tail_len: usize = tail.as_str().unicode_len();
            proof {
                lemma_find_char(tail@, '|');
            }
            let found = str_find_char(tail.as_str(), '|');
            let (typ, value) = match found {
                None => (tail, None),
                Some(j) => {
                    let typ = str_slice(tail.as_str(), 0, j);
                    let value = str_tail(tail.as_str(), j + 1);
                    (typ, Some(value))
                },
            };
            let ghost ts = typ;
            let ghost tt = typ@;
            let rt = parse_typ(typ);
            assert(call_ensures(parse_typ, (ts,), rt));
            match rt {
                Err(e) => {
                    let r = Err(InError::BadType(e));
                    assert(write_outcome(parse_typ, parse_val, path@, tt, value_view(value), r));
                    r
                },
                Ok(t) => match value {
                    None => {
                        let r = Err(InError::ExpectedValue);
                        assert(write_outcome(parse_typ, parse_val, path@, tt, None, r));
                        r
                    },
                    Some(v) => {
                        let ghost vs = v;
                        let ghost vt = v@;
                        let ghost tg = t;
                        let rv = parse_val(t, v);
                        assert(call_ensures(parse_val, (tg, vs), rv));
                        let r = match rv {
                            Err(e) => Err(InError::BadValue(e)),
                            Ok(w) => Ok(In::Write(path, w)),
                        };
                        assert(write_outcome(parse_typ, parse_val, path@, tt, Some(vt), r));
                        r
                    },
                },
            }
        },
    }
}

/// The characters of an optional string.
pub open spec fn value_view(v: Option<String>) -> Option<Seq<char>> {
    match v {
        Some(s) => Some(s@),
        None => None,
    }
}

/// Reads a command from a line. The type of a write is parsed by
/// `parse_typ`, and its value, as one of that type, by `parse_val`.
pub fn parse_in<T, V, E, FT: Fn(String) -> Result<T, E>, FV: Fn(T, String) -> Result<V, E>>(
    s: &str,
    parse_typ: FT,
    parse_val: FV,
) -> (r: Result<In<V>, InError<E>>)
    requires
        forall|x: String| call_requires(parse_typ, (x,)),
        forall|t: T, x: String| call_requires(parse_val, (t, x)),
    ensures
        match in_shape(s@) {
            InShape::Unknown => r == Err::<In<V>, InError<E>>(InError::Unknown),
            InShape::NoType => r == Err::<In<V>, InError<E>>(InError::ExpectedType),
            InShape::Add(p) => r matches Ok(In::Add(q)) && q@ == p,
            InShape::Drop(p) => r matches Ok(In::Drop(q)) && q@ == p,
            InShape::Write(p, tt, ov) => write_outcome(parse_typ, parse_val, p, tt, ov, r),
        },
{
    proof {
        reveal_strlit("DROP|");
        reveal_strlit("ADD|");
        reveal_strlit("WRITE|");
    }
    assert("DROP|"@ == drop_tag());
    assert("ADD|"@ == add_tag());
    assert("WRITE|"@ == write_tag());
    let n = s.unicode_len();
    if str_starts_with(s, "DROP|") && n > 5 {
        Ok(In::Drop(str_tail(s, 5)))
    } else if str_starts_with(s, "ADD|") && n > 4 {
        Ok(In::Add(str_tail(s, 4)))
    } else if str_starts_with(s, "WRITE|") && n > 6 {
        parse_write(s, parse_typ, parse_val)
    } else {
        Err(InError::Unknown)
    }
}

/// A request of the value-printing subscriber tool.
#[derive(Debug, Clone, PartialEq, Eq)]
pub enum Req {
    /// Subscribe to a path.
    Add(String),
    /// Drop the subscription to a path.
    Drop(String),
}

/// A request, by the characters of its path.
pub enum ReqView {
    Add(Seq<char>),
    Drop(Seq<char>),
}

impl View for Req {
    type V = ReqView;

    open spec fn view(&self) -> ReqView {
        match self {
            Req::Add(p) => ReqView::Add(p@),
            Req::Drop(p) => ReqView::Drop(p@),
        }
    }
}

/// `drop: `
pub open spec fn drop_req_tag() -> Seq<char> {
    seq!['d', 'r', 'o', 'p', ':', ' ']
}

/// The message that starts the error for a path that is not absolute.
pub open spec fn not_absolute_msg() -> Seq<char> {
    seq![
        'p', 'a', 't', 'h', ' ', 'i', 's', ' ', 'n', 'o', 't', ' ', 'a', 'b', 's', 'o', 'l', 'u', 't', 'e', ' '
    ]
}

/// A path is absolute when it starts at the root.
pub open spec fn is_absolute(p: Seq<char>) -> bool {
    starts_with(p, seq!['/'])
}

/// What a line means: `drop: path` drops the subscription to the path;
/// any other line is a path to subscribe to, which must be absolute.
pub open spec fn parse_req_spec(s: Seq<char>) -> Result<ReqView, Seq<char>> {
    if starts_with(s, drop_req_tag()) && s.len() > 6 {
        Ok(ReqView::Drop(s.skip(6)))
    } else if is_absolute(s) {
        Ok(ReqView::Add(s))
    } else {
        Err(not_absolute_msg() + s)
    }
}

/// Reads a request from a line; the error is the message to show.
pub fn parse_req(s: &str) -> (r: Result<Req, String>)
    ensures
        (match r {
            Ok(q) => parse_req_spec(s@) == Ok::<ReqView, Seq<char>>(q@),
            Err(m) => parse_req_spec(s@) == Err::<ReqView, Seq<char>>(m@),
        }),
{
    proof {
        reveal_strlit("drop: ");
        reveal_strlit("/");
        reveal_strlit("path is not absolute ");
    }
    assert("drop: "@ == drop_req_tag());
    assert("/"@ == seq!['/']);
    assert("path is not absolute "@ == not_absolute_msg());
    let n = s.unicode_len();
    if str_starts_with(s, "drop: ") && n > 6 {
        Ok(Req::Drop(str_tail(s, 6)))
    } else if str_starts_with(s, "/") {
        Ok(Req::Add(String::from_str(s)))
    } else {
        let mut m = String::from_str("path is not absolute ");
        m.append(s);
        Err(m)
    }
}

/// The pending subscriptions of a batch after a request to subscribe to
/// `p`: a pending drop of `p` is cancelled, or else `p` is to be added.
pub open spec fn batch_add(
    add: Set<Seq<char>>,
    drop: Set<Seq<char>>,
    p: Seq<char>,
) -> (Set<Seq<char>>, Set<Seq<char>>) {
    if drop.contains(p) {
        (add, drop.remove(p))
    } else {
        (add.insert(p), drop)
    }
}

/// The pending subscriptions of a batch after a request to drop `p`: a
/// pending addition of `p` is cancelled, or else `p` is to be dropped.
pub open spec fn batch_drop(
    add: Set<Seq<char>>,
    drop: Set<Seq<char>>,
    p: Seq<char>,
) -> (Set<Seq<char>>, Set<Seq<char>>) {
    if add.contains(p) {
        (add.remove(p), drop)
    } else {
        (add, drop.insert(p))
    }
}

/// The requests gathered since the end of the last batch: the paths to
/// subscribe to, the paths to drop, and the writes, in order. No path is
/// both to be added and to be dropped.
pub struct RequestBatch<W> {
    add: PathSet,
    drop: PathSet,
    writes: Vec<W>,
}

impl<W> RequestBatch<W> {
    #[verifier::type_invariant]
    spec fn wf(self) -> bool {
        self.add@.disjoint(self.drop@)
    }

    /// The paths to subscribe to.
    pub closed spec fn adds(self) -> Set<Seq<char>> {
        self.add@
    }

    /// The paths to drop.
    pub closed spec fn drops(self) -> Set<Seq<char>> {
        self.drop@
    }

    /// The writes, in the order they were asked for.
    pub closed spec fn pending_writes(self) -> Seq<W> {
        self.writes@
    }

    pub fn new() -> (r: Self)
        ensures
            r.adds() == Set::<Seq<char>>::empty(),
            r.drops() == Set::<Seq<char>>::empty(),
            r.pending_writes() == Seq::<W>::empty(),
    {
        RequestBatch { add: PathSet::new(), drop: PathSet::new(), writes: Vec::new() }
    }

    /// Moves the requests out and leaves the batch empty.
    fn take_all(&mut self) -> (r: Self)
        ensures
            r == *old(self),
            final(self).adds() == Set::<Seq<char>>::empty(),
            final(self).drops() == Set::<Seq<char>>::empty(),
            final(self).pending_writes() == Seq::<W>::empty(),
    {
        let mut r = RequestBatch::new();
        std::mem::swap(self, &mut r);
        r
    }

    /// A request to subscribe to `p`.
    pub fn request_add(&mut self, p: String)
        ensures
            (final(self).adds(), final(self).drops()) == batch_add(old(self).adds(), old(self).drops(), p@),
            final(self).pending_writes() == old(self).pending_writes(),
            final(self).adds().disjoint(final(self).drops()),
    {
        proof {
            use_type_invariant(&*self);
        }
        let RequestBatch { mut add, mut drop, writes } = self.take_all();
        if !drop.remove(&p) {
            add.insert(p);
        }
        *self = RequestBatch { add, drop, writes };
    }

    /// A request to drop the subscription to `p`.
    pub fn request_drop(&mut self, p: String)
        ensures
            (final(self).adds(), final(self).drops()) == batch_drop(old(self).adds(), old(self).drops(), p@),
            final(self).pending_writes() == old(self).pending_writes(),
            final(self).adds().disjoint(final(self).drops()),
    {
        proof {
            use_type_invariant(&*self);
        }
        let RequestBatch { mut add, mut drop, writes } = self.take_all();
        if !add.remove(&p) {
            drop.insert(p);
        }
        *self = RequestBatch { add, drop, writes };
    }

    /// A request to write.
    pub fn request_write(&mut self, w: W)
        ensures
            final(self).adds() == old(self).adds(),
            final(self).drops() == old(self).drops(),
            final(self).pending_writes() == old(self).pending_writes().push(w),
    {
        proof {
            use_type_invariant(&*self);
        }
        let RequestBatch { add, drop, mut writes } = self.take_all();
        writes.push(w);
        *self = RequestBatch { add, drop, writes };
    }

    /// Ends the batch: gives the paths to drop, the paths to subscribe to
    /// (each once) and the writes, and leaves the batch empty.
    pub fn take(&mut self) -> (r: (Vec<String>, Vec<String>, Vec<W>))
        ensures
            view_set(r.0@) == old(self).drops(),
            view_set(r.1@) == old(self).adds(),
            r.2@ == old(self).pending_writes(),
            final(self).adds() == Set::<Seq<char>>::empty(),
            final(self).drops() == Set::<Seq<char>>::empty(),
            final(self).pending_writes() == Seq::<W>::empty(),
    {
        let RequestBatch { mut add, mut drop, writes } = self.take_all();
        let drops = drop.drain();
        let adds = add.drain();
        (drops, adds, writes)
    }
}

/// Asking to subscribe to a path and then to drop it, with nothing pending
/// for that path before, leaves the batch as it was; so does dropping and
/// then subscribing again.
pub proof fn lemma_requests_cancel(add: Set<Seq<char>>, drop: Set<Seq<char>>, p: Seq<char>)
    requires
        !add.contains(p),
        !drop.contains(p),
    ensures
        ({
            let a = batch_add(add, drop, p);
            batch_drop(a.0, a.1, p)
        }) == (add, drop),
        ({
            let d = batch_drop(add, drop, p);
            batch_add(d.0, d.1, p)
        }) == (add, drop),
{
    assert(add.insert(p).remove(p) =~= add);
    assert(drop.insert(p).remove(p) =~= drop);
}

/// The requests of a batch never leave a path both to be added and to be
/// dropped.
pub proof fn lemma_batch_disjoint(add: Set<Seq<char>>, drop: Set<Seq<char>>, p: Seq<char>)
    requires
        add.disjoint(drop),
    ensures
        batch_add(add, drop, p).0.disjoint(batch_add(add, drop, p).1),
        batch_drop(add, drop, p).0.disjoint(batch_drop(add, drop, p).1),
{
}

/// The subscriptions after a batch: the dropped paths leave, the added
/// ones join.
pub open spec fn after_batch(
    subscribed: Set<Seq<char>>,
    drop: Set<Seq<char>>,
    add: Set<Seq<char>>,
) -> Set<Seq<char>> {
    subscribed.difference(drop).union(add)
}

/// The subscriptions of the subscriber tool: each subscribed path with the
/// id of its subscription. No path and no id occurs twice, so the ids
/// lead back to the paths.
pub struct Subscriptions {
    entries: Vec<(String, u64)>,
}

/// No path and no id occurs twice among the entries.
pub open spec fn entries_unique(e: Seq<(String, u64)>) -> bool {
    forall|i: int, j: int|
        0 <= i < j < e.len() ==> e[i].0@ != e[j].0@ && e[i].1 != e[j].1
}

/// The entries as a map from path to id.
pub open spec fn entries_map(e: Seq<(String, u64)>) -> Map<Seq<char>, u64>
    decreases e.len(),
{
    if e.len() == 0 {
        Map::empty()
    } else {
        entries_map(e.drop_last()).insert(e.last().0@, e.last().1)
    }
}

/// The map of unique entries holds each entry, and nothing else.
pub proof fn lemma_entries_map(e: Seq<(String, u64)>)
    requires
        entries_unique(e),
    ensures
        forall|p: Seq<char>| #[trigger]
            entries_map(e).contains_key(p) <==> exists|k: int| 0 <= k < e.len() && e[k].0@ == p,
        forall|k: int| 0 <= k < e.len() ==> #[trigger] entries_map(e)[e[k].0@] == e[k].1,
        entries_map(e).dom().finite(),
    decreases e.len(),
{
    if e.len() > 0 {
        let d = e.drop_last();
        assert(entries_unique(d));
        lemma_entries_map(d);
        assert forall|p: Seq<char>| #[trigger]
            entries_map(e).contains_key(p) <==> exists|k: int| 0 <= k < e.len() && e[k].0@ == p by {
            if entries_map(d).contains_key(p) {
                let k = choose|k: int| 0 <= k < d.len() && d[k].0@ == p;
                assert(e[k].0@ == p);
            }
            if exists|k: int| 0 <= k < e.len() && e[k].0@ == p {
                let k = choose|k: int| 0 <= k < e.len() && e[k].0@ == p;
                if k < d.len() {
                    assert(d[k].0@ == p);
                }
            }
        }
        assert forall|k: int| 0 <= k < e.len() implies #[trigger] entries_map(e)[e[k].0@] == e[k].1 by {
            if k < d.len() {
                assert(d[k] == e[k]);
                assert(e[k].0@ != e.last().0@);
            }
        }
    }
}

impl View for Subscriptions {
    type V = Map<Seq<char>, u64>;

    closed spec fn view(&self) -> Map<Seq<char>, u64> {
        entries_map(self.entries@)
    }
}

impl Subscriptions {
    #[verifier::type_invariant]
    spec fn wf(self) -> bool {
        entries_unique(self.entries@)
    }

    /// No two paths have the same subscription id.
    pub closed spec fn ids_unique(self) -> bool {
        forall|p: Seq<char>, q: Seq<char>|
            #![trigger self@[p], self@[q]]
            self@.contains_key(p) && self@.contains_key(q) && p != q ==> self@[p] != self@[q]
    }

    /// The path whose subscription has id `id`, if any.
    pub open spec fn path_with_id(self, id: u64) -> Option<Seq<char>> {
        if exists|p: Seq<char>| self@.contains_key(p) && self@[p] == id {
            Some(choose|p: Seq<char>| self@.contains_key(p) && self@[p] == id)
        } else {
            None
        }
    }

    proof fn lemma_view(&self)
        requires
            entries_unique(self.entries@),
        ensures
            self.ids_unique(),
            self@.dom().finite(),
            forall|p: Seq<char>| #[trigger]
                self@.contains_key(p) <==> exists|k: int|
                    0 <= k < self.entries@.len() && self.entries@[k].0@ == p,
            forall|k: int|
                0 <= k < self.entries@.len() ==> #[trigger] self@[self.entries@[k].0@]
                    == self.entries@[k].1,
    {
        let e = self.entries@;
        lemma_entries_map(e);
        assert forall|p: Seq<char>, q: Seq<char>|
            #![trigger self@[p], self@[q]]
            self@.contains_key(p) && self@.contains_key(q) && p != q implies self@[p] != self@[q] by {
            let i = choose|k: int| 0 <= k < e.len() && e[k].0@ == p;
            let j = choose|k: int| 0 <= k < e.len() && e[k].0@ == q;
            assert(self@[e[i].0@] == e[i].1);
            assert(self@[e[j].0@] == e[j].1);
            if i < j {
                assert(e[i].1 != e[j].1);
            } else if j < i {
                assert(e[j].1 != e[i].1);
            }
        }
    }

    /// No subscriptions.
    pub fn new() -> (r: Self)
        ensures
            r@ == Map::<Seq<char>, u64>::empty(),
            r.ids_unique(),
    {
        let r = Subscriptions { entries: Vec::new() };
        proof {
            r.lemma_view();
        }
        r
    }

    fn position_of_path(&self, p: &String) -> (r: Option<usize>)
        ensures
            match r {
                Some(i) => i < self.entries@.len() && self.entries@[i as int].0@ == p@,
                None => forall|k: int|
                    0 <= k < self.entries@.len() ==> self.entries@[k].0@ != p@,
            },
    {
        let mut i: usize = 0;
        while i < self.entries.len()
            invariant
                i <= self.entries.len(),
                forall|k: int| 0 <= k < i ==> self.entries@[k].0@ != p@,
            decreases self.entries.len() - i,
        {
            if self.entries[i].0 == *p {
                return Some(i);
            }
            i = i + 1;
        }
        None
    }

    fn position_of_id(&self, id: u64) -> (r: Option<usize>)
        ensures
            match r {
                Some(i) => i < self.entries@.len() && self.entries@[i as int].1 == id,
                None => forall|k: int| 0 <= k < self.entries@.len() ==> self.entries@[k].1 != id,
            },
    {
        let mut i: usize = 0;
        while i < self.entries.len()
            invariant
                i <= self.entries.len(),
                forall|k: int| 0 <= k < i ==> self.entries@[k].1 != id,
            decreases self.entries.len() - i,
        {
            if self.entries[i].1 == id {
                return Some(i);
            }
            i = i + 1;
        }
        None
    }

    /// The id of the subscription to `p`, if `p` is subscribed.
    pub fn id_of(&self, p: &String) -> (r: Option<u64>)
        ensures
            r == (if self@.contains_key(p@) {
                Some(self@[p@])
            } else {
                None::<u64>
            }),
            self.ids_unique(),
    {
        proof {
            use_type_invariant(self);
            self.lemma_view();
        }
        match self.position_of_path(p) {
            Some(i) => Some(self.entries[i].1),
            None => None,
        }
    }

    /// The path subscribed under `id`, if any.
    pub fn path_of(&self, id: u64) -> (r: Option<String>)
        ensures
            match r {
                Some(p) => self.path_with_id(id) == Some(p@) && self@.contains_key(p@)
                    && self@[p@] == id,
                None => self.path_with_id(id) is None,
            },
            self.ids_unique(),
    {
        proof {
            use_type_invariant(self);
            self.lemma_view();
        }
        match self.position_of_id(id) {
            Some(i) => {
                let p = self.entries[i].0.clone();
                proof {
                    let q = choose|q: Seq<char>| self@.contains_key(q) && self@[q] == id;
                    assert(self@[self.entries@[i as int].0@] == id);
                    if q != p@ {
                        assert(self@[q] != self@[p@]);
                    }
                }
                Some(p)
            },
            None => {
                proof {
                    if exists|q: Seq<char>| self@.contains_key(q) && self@[q] == id {
                        let q = choose|q: Seq<char>| self@.contains_key(q) && self@[q] == id;
                        let k = choose|k: int|
                            0 <= k < self.entries@.len() && self.entries@[k].0@ == q;
                        assert(self@[self.entries@[k].0@] == self.entries@[k].1);
                    }
                }
                None
            },
        }
    }

    /// Records the subscription `id` to `p`, unless `p` is subscribed
    /// already; tells whether it was recorded. The id must be new.
    pub fn insert(&mut self, p: String, id: u64) -> (r: bool)
        requires
            old(self).path_with_id(id) is None,
        ensures
            r == !old(self)@.contains_key(p@),
            final(self)@ == (if r {
                old(self)@.insert(p@, id)
            } else {
                old(self)@
            }),
            final(self).ids_unique(),
    {
        proof {
            use_type_invariant(&*self);
            self.lemma_view();
        }
        match self.position_of_path(&p) {
            Some(_) => false,
            None => {
                let ghost old_e = self.entries@;
                proof {
                    assert forall|k: int| 0 <= k < old_e.len() implies old_e[k].1 != id by {
                        assert(self@.contains_key(old_e[k].0@));
                        assert(self@[old_e[k].0@] == old_e[k].1);
                    }
                }
                let mut entries = Vec::new();
                std::mem::swap(&mut entries, &mut self.entries);
                entries.push((p, id));
                proof {
                    assert(entries@.drop_last() =~= old_e);
                    assert(entries_unique(entries@));
                }
                self.entries = entries;
                proof {
                    self.lemma_view();
                }
                true
            },
        }
    }

    fn remove_at(&mut self, i: usize) -> (r: (String, u64))
        requires
            i < old(self).entries@.len(),
        ensures
            r == old(self).entries@[i as int],
            final(self)@ == old(self)@.remove(r.0@),
            final(self).ids_unique(),
    {
        proof {
            use_type_invariant(&*self);
            self.lemma_view();
        }
        let ghost old_e = self.entries@;
        let mut entries = Vec::new();
        std::mem::swap(&mut entries, &mut self.entries);
        let r = entries.remove(i);
        proof {
            let n = entries@;
            assert(n =~= old_e.remove(i as int));
            assert forall|a: int, b: int| 0 <= a < b < n.len() implies n[a].0@ != n[b].0@ && n[a].1
                != n[b].1 by {
                let a2 = if a < i { a } else { a + 1 };
                let b2 = if b < i { b } else { b + 1 };
                assert(n[a] == old_e[a2]);
                assert(n[b] == old_e[b2]);
            }
        }
        self.entries = entries;
        proof {
            self.lemma_view();
            let n = self.entries@;
            assert forall|q: Seq<char>| #[trigger] self@.contains_key(q) <==> old(self)@.remove(r.0@).contains_key(q) by {
                if exists|k: int| 0 <= k < n.len() && n[k].0@ == q {
                    let k = choose|k: int| 0 <= k < n.len() && n[k].0@ == q;
                    let k2 = if k < i { k } else { k + 1 };
                    assert(n[k] == old_e[k2]);
                    assert(old(self)@.contains_key(old_e[k2].0@));
                    assert(k2 != i);
                    if k2 < i {
                        assert(old_e[k2].0@ != old_e[i as int].0@);
                    } else {
                        assert(old_e[i as int].0@ != old_e[k2].0@);
                    }
                }
                if old(self)@.contains_key(q) && q != r.0@ {
                    let k = choose|k: int| 0 <= k < old_e.len() && old_e[k].0@ == q;
                    assert(k != i);
                    let k2 = if k < i { k } else { k - 1 };
                    assert(n[k2] == old_e[k]);
                }
            }
            assert forall|q: Seq<char>| #[trigger] self@.contains_key(q) implies self@[q] == old(self)@[q] by {
                let k = choose|k: int| 0 <= k < n.len() && n[k].0@ == q;
                let k2 = if k < i { k } else { k + 1 };
                assert(n[k] == old_e[k2]);
                assert(self@[n[k].0@] == n[k].1);
                assert(old(self)@[old_e[k2].0@] == old_e[k2].1);
            }
            assert(self@ =~= old(self)@.remove(r.0@));
        }
        r
    }

    /// Drops the subscription to `p`; gives its id if there was one.
    pub fn remove_path(&mut self, p: &String) -> (r: Option<u64>)
        ensures
            r == (if old(self)@.contains_key(p@) {
                Some(old(self)@[p@])
            } else {
                None::<u64>
            }),
            final(self)@ == old(self)@.remove(p@),
            final(self).ids_unique(),
    {
        proof {
            use_type_invariant(&*self);
            self.lemma_view();
        }
        match self.position_of_path(p) {
            Some(i) => {
                let (_, id) = self.remove_at(i);
                Some(id)
            },
            None => {
                assert(old(self)@.remove(p@) =~= old(self)@);
                None
            },
        }
    }

    /// Drops the subscription with id `id`; gives its path if there was
    /// one.
    pub fn remove_id(&mut self, id: u64) -> (r: Option<String>)
        ensures
            match r {
                Some(p) => old(self).path_with_id(id) == Some(p@) && final(self)@ == old(self)@.remove(
                    p@,
                ),
                None => old(self).path_with_id(id) is None && final(self)@ == old(self)@,
            },
            final(self).ids_unique(),
    {
        match self.path_of(id) {
            Some(p) => {
                let removed = self.remove_path(&p);
                Some(p)
            },
            None => None,
        }
    }

    /// Ends a batch: drops the subscriptions to the paths of `drops` and
    /// gives the paths of `adds` that are not subscribed, each once, for
    /// the caller to subscribe to and record.
    pub fn end_batch(&mut self, drops: &Vec<String>, adds: &Vec<String>) -> (r: Vec<String>)
        ensures
            final(self)@ == old(self)@.remove_keys(view_set(drops@)),
            view_set(r@) == view_set(adds@).difference(final(self)@.dom()),
            crate::pathset::no_dup_views(r@),
            final(self).ids_unique(),
    {
        let mut i: usize = 0;
        proof {
            use_type_invariant(&*self);
            self.lemma_view();
            assert(old(self)@.remove_keys(view_set(drops@.take(0))) =~= old(self)@);
        }
        while i < drops.len()
            invariant
                i <= drops.len(),
                self@ == old(self)@.remove_keys(view_set(drops@.take(i as int))),
                self.ids_unique(),
            decreases drops.len() - i,
        {
            self.remove_path(&drops[i]);
            proof {
                assert(drops@.take(i + 1) =~= drops@.take(i as int).push(drops@[i as int]));
                crate::pathset::lemma_view_set_push(drops@.take(i as int), drops@[i as int]);
                assert(self@ =~= old(self)@.remove_keys(view_set(drops@.take(i + 1))));
            }
            i = i + 1;
        }
        proof {
            assert(drops@.take(drops.len() as int) =~= drops@);
        }
        let mut fresh = PathSet::new();
        let mut j: usize = 0;
        proof {
            assert(view_set(adds@.take(0)) =~= Set::<Seq<char>>::empty());
        }
        while j < adds.len()
            invariant
                j <= adds.len(),
                fresh@ == view_set(adds@.take(j as int)).difference(self@.dom()),
            decreases adds.len() - j,
        {
            let p = &adds[j];
            let known = self.id_of(p);
            if known.is_none() {
                fresh.insert(p.clone());
            }
            proof {
                assert(adds@.take(j + 1) =~= adds@.take(j as int).push(adds@[j as int]));
                crate::pathset::lemma_view_set_push(adds@.take(j as int), adds@[j as int]);
                assert(fresh@ =~= view_set(adds@.take(j + 1)).difference(self@.dom()));
            }
            j = j + 1;
        }
        proof {
            assert(adds@.take(adds.len() as int) =~= adds@);
        }
        fresh.to_vec()
    }
}

/// The id of a subscription leads back to its path: the path of the id
/// that a subscribed path has is that path.
pub proof fn lemma_id_leads_back(subs: Subscriptions, p: Seq<char>)
    requires
        subs.ids_unique(),
        subs@.contains_key(p),
    ensures
        subs.path_with_id(subs@[p]) == Some(p),
{
    let id = subs@[p];
    assert(subs@.contains_key(p) && subs@[p] == id);
    let q = choose|q: Seq<char>| subs@.contains_key(q) && subs@[q] == id;
    if q != p {
        assert(subs@[q] != subs@[p]);
    }
}

/// A batch brings the subscriptions to what was subscribed, less what it
/// drops, plus what it adds: the ends of the batch drop the dropped paths
/// and give the paths to subscribe to, and recording those gives exactly
/// that set of paths.
pub proof fn lemma_batch_result(
    before: Map<Seq<char>, u64>,
    drops: Set<Seq<char>>,
    adds: Set<Seq<char>>,
    fresh: Set<Seq<char>>,
    after: Map<Seq<char>, u64>,
)
    requires
        fresh == adds.difference(before.remove_keys(drops).dom()),
        after.dom() == before.remove_keys(drops).dom().union(fresh),
    ensures
        after.dom() == after_batch(before.dom(), drops, adds),
{
    assert(after.dom() =~= after_batch(before.dom(), drops, adds));
}

/// The state of a subscription, as the subscriber reports it.
#[derive(Debug, Clone, PartialEq, Eq)]
pub enum DvState {
    Unsubscribed,
    Subscribed,
    FatalError(String),
}

/// Whether a write may go to a subscription in state `s`: only to one that
/// is subscribed.
pub fn write_allowed(s: &DvState) -> (r: bool)
    ensures
        r == (*s is Subscribed),
{
    match s {
        DvState::Subscribed => true,
        _ => false,
    }
}

/// Where a write goes.
#[derive(Debug, Clone, Copy, PartialEq, Eq)]
pub enum WriteTarget {
    /// Nothing is subscribed at the path.
    Unknown,
    /// The subscription with this id.
    Subscription(u64),
}

/// Where a write to `p` goes.
pub fn write_target(subs: &Subscriptions, p: &String) -> (r: WriteTarget)
    ensures
        r == (if subs@.contains_key(p@) {
            WriteTarget::Subscription(subs@[p@])
        } else {
            WriteTarget::Unknown
        }),
{
    match subs.id_of(p) {
        Some(id) => WriteTarget::Subscription(id),
        None => WriteTarget::Unknown,
    }
}

/// What to report of a change of state of a subscription.
#[derive(Debug, Clone, PartialEq, Eq)]
pub enum StateReport {
    /// The subscription at the path (if it is known) is now unsubscribed.
    Unsubscribed(Option<String>),
    /// The subscription at the path (if it is known) is now subscribed.
    Subscribed(Option<String>),
    /// The subscription at the path died with this error; it was dropped.
    Dead(String, String),
    /// Nothing to report.
    Nothing,
}

/// Takes a change of state of subscription `id`: a subscription that died
/// is dropped, and the change is reported with the path it concerns.
pub fn state_change(subs: &mut Subscriptions, id: u64, s: DvState) -> (r: StateReport)
    ensures
        match s {
            DvState::Unsubscribed => final(subs)@ == old(subs)@ && (match r {
                StateReport::Unsubscribed(Some(p)) => old(subs).path_with_id(id) == Some(p@),
                StateReport::Unsubscribed(None) => old(subs).path_with_id(id) is None,
                _ => false,
            }),
            DvState::Subscribed => final(subs)@ == old(subs)@ && (match r {
                StateReport::Subscribed(Some(p)) => old(subs).path_with_id(id) == Some(p@),
                StateReport::Subscribed(None) => old(subs).path_with_id(id) is None,
                _ => false,
            }),
            DvState::FatalError(e) => match r {
                StateReport::Dead(p, e2) => old(subs).path_with_id(id) == Some(p@) && e2 == e
                    && final(subs)@ == old(subs)@.remove(p@),
                StateReport::Nothing => old(subs).path_with_id(id) is None && final(subs)@ == old(
                    subs,
                )@,
                _ => false,
            },
        },
        final(subs).ids_unique(),
{
    match s {
        DvState::Unsubscribed => StateReport::Unsubscribed(subs.path_of(id)),
        DvState::Subscribed => StateReport::Subscribed(subs.path_of(id)),
        DvState::FatalError(e) => match subs.remove_id(id) {
            Some(p) => StateReport::Dead(p, e),
            None => StateReport::Nothing,
        },
    }
}

/// `none`, the type name printed for a value without a type.
pub open spec fn none_name() -> Seq<char> {
    seq!['n', 'o', 'n', 'e']
}

/// The line printed for a value that arrived: the path, the name of the
/// value's type (`none` for a value without one) and the value's text,
/// separated by `|` and ended by a newline.
pub open spec fn out_line_spec(path: Seq<char>, typ: Option<Seq<char>>, value: Seq<char>) -> Seq<
    char,
> {
    let t = match typ {
        Some(t) => t,
        None => none_name(),
    };
    path + seq!['|'] + t + seq!['|'] + value + seq!['\n']
}

/// The line printed for a value that arrived at `path`.
pub fn out_line(path: &str, typ: Option<&str>, value: &str) -> (r: String)
    ensures
        r@ == out_line_spec(
            path@,
            match typ {
                Some(t) => Some(t@),
                None => None,
            },
            value@,
        ),
{
    proof {
        reveal_strlit("none");
    }
    assert("none"@ == none_name());
    let mut r = String::from_str(path);
    string_push(&mut r, '|');
    match typ {
        Some(t) => r.append(t),
        None => r.append("none"),
    }
    string_push(&mut r, '|');
    r.append(value);
    string_push(&mut r, '\n');
    r
}

/// The text printed for a value of the value-printing tool: the path with
/// each `|` escaped by a backslash, a `|`, and the value.
pub open spec fn value_text_spec(path: Seq<char>, value: Seq<char>) -> Seq<char> {
    escape_char(path, '|') + seq!['|'] + value
}

/// A printed line holds the path, a `|`, the name of the type (`none` when
/// the value has none), a `|`, the value's text and a newline, whatever the
/// parts are, the empty value included: the two separators and the newline
/// always stand at their places, and each part comes through unchanged.
pub proof fn lemma_out_line_fields(path: Seq<char>, typ: Option<Seq<char>>, value: Seq<char>)
    ensures
        ({
            let t = match typ {
                Some(t) => t,
                None => seq!['n', 'o', 'n', 'e'],
            };
            let l = out_line_spec(path, typ, value);
            &&& l.len() == path.len() + t.len() + value.len() + 3
            &&& l.take(path.len() as int) == path
            &&& l[path.len() as int] == '|'
            &&& l.subrange(path.len() as int + 1, path.len() as int + 1 + t.len() as int) == t
            &&& l[path.len() as int + 1 + t.len() as int] == '|'
            &&& l.subrange(path.len() as int + t.len() as int + 2, l.len() as int - 1) == value
            &&& l.last() == '\n'
        }),
{
    let t = match typ {
        Some(t) => t,
        None => seq!['n', 'o', 'n', 'e'],
    };
    let l = out_line_spec(path, typ, value);
    assert(l =~= path + seq!['|'] + t + seq!['|'] + value + seq!['\n']);
    assert(l.take(path.len() as int) =~= path);
    assert(l.subrange(path.len() as int + 1, path.len() as int + 1 + t.len() as int) =~= t);
    assert(l.subrange(path.len() as int + t.len() as int + 2, l.len() as int - 1) =~= value);
}

/// A printed value keeps the value's text as it is, `|` included: only the
/// path is escaped, each `|` in it getting a backslash in front; then comes
/// one `|` and the value. A path without `|` is printed as it is.
pub proof fn lemma_value_text_fields(path: Seq<char>, value: Seq<char>)
    ensures
        ({
            let l = value_text_spec(path, value);
            let e = escape_char(path, '|');
            &&& l.len() == e.len() + 1 + value.len()
            &&& l.take(e.len() as int) == e
            &&& l[e.len() as int] == '|'
            &&& l.skip(e.len() as int + 1) == value
        }),
        !path.contains('|') ==> value_text_spec(path, value) == path + seq!['|'] + value,
{
    let l = value_text_spec(path, value);
    let e = escape_char(path, '|');
    assert(l =~= e + seq!['|'] + value);
    assert(l.take(e.len() as int) =~= e);
    assert(l.skip(e.len() as int + 1) =~= value);
    if !path.contains('|') {
        lemma_escape_absent(path, '|');
    }
}

/// The text printed for a value of the value-printing tool.
pub fn value_text(path: &str, value: &str) -> (r: String)
    ensures
        r@ == value_text_spec(path@, value@),
{
    let mut r = escape(path, '|');
    string_push(&mut r, '|');
    r.append(value);
    r
}

} // verus!
