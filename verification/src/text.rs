//! Small operations on text, stated over the characters of a string.

use vstd::prelude::*;
use vstd::string::*;

verus! {

/// `p` is the beginning of `s`.
pub open spec fn starts_with(s: Seq<char>, p: Seq<char>) -> bool {
    p.len() <= s.len() && s.subrange(0, p.len() as int) == p
}

/// The position of the first `c` in `s`, if there is one.
pub open spec fn find_char(s: Seq<char>, c: char) -> Option<int>
    decreases s.len(),
{
    if s.len() == 0 {
        None
    } else if s[0] == c {
        Some(0)
    } else {
        match find_char(s.drop_first(), c) {
            Some(i) => Some(i + 1),
            None => None,
        }
    }
}

/// `find_char` gives the first position of `c`, or none when `c` does not
/// occur.
pub proof fn lemma_find_char(s: Seq<char>, c: char)
    ensures
        match find_char(s, c) {
            Some(i) => 0 <= i < s.len() && s[i] == c && forall|k: int| 0 <= k < i ==> s[k] != c,
            None => forall|k: int| 0 <= k < s.len() ==> s[k] != c,
        },
    decreases s.len(),
{
    if s.len() > 0 && s[0] != c {
        lemma_find_char(s.drop_first(), c);
        match find_char(s.drop_first(), c) {
            Some(i) => {
                assert forall|k: int| 0 <= k < i + 1 implies s[k] != c by {
                    if k > 0 {
                        assert(s[k] == s.drop_first()[k - 1]);
                    }
                }
            },
            None => {
                assert forall|k: int| 0 <= k < s.len() implies s[k] != c by {
                    if k > 0 {
                        assert(s[k] == s.drop_first()[k - 1]);
                    }
                }
            },
        }
    }
}

/// The characters of `s` with a backslash put before each `c`.
pub open spec fn escape_char(s: Seq<char>, c: char) -> Seq<char>
    decreases s.len(),
{
    if s.len() == 0 {
        Seq::empty()
    } else {
        let head = if s[0] == c {
            seq!['\\', c]
        } else {
            seq![s[0]]
        };
        head + escape_char(s.drop_first(), c)
    }
}

/// Escaping a string and then one more character escapes the string with
/// that character added.
pub proof fn lemma_escape_char_push(s: Seq<char>, x: char, c: char)
    ensures
        escape_char(s.push(x), c) == escape_char(s, c) + escape_char(seq![x], c),
    decreases s.len(),
{
    if s.len() == 0 {
        assert(s.push(x) =~= seq![x]);
        assert(escape_char(s, c) =~= Seq::<char>::empty());
        assert(Seq::<char>::empty() + escape_char(seq![x], c) =~= escape_char(seq![x], c));
    } else {
        assert(s.push(x).drop_first() =~= s.drop_first().push(x));
        lemma_escape_char_push(s.drop_first(), x, c);
        assert(escape_char(seq![x], c) =~= (if x == c {
            seq!['\\', c]
        } else {
            seq![x]
        }) + escape_char(Seq::<char>::empty(), c)) by {
            assert(seq![x].drop_first() =~= Seq::<char>::empty());
        }
        let head = if s[0] == c {
            seq!['\\', c]
        } else {
            seq![s[0]]
        };
        assert(escape_char(s.push(x), c) =~= head + escape_char(s.drop_first().push(x), c));
        assert(head + (escape_char(s.drop_first(), c) + escape_char(seq![x], c)) =~= (head
            + escape_char(s.drop_first(), c)) + escape_char(seq![x], c));
    }
}

/// Escaping one character: the escaped character gets a backslash in front
/// of it, any other character stays as it is.
pub proof fn lemma_escape_one(x: char, c: char)
    ensures
        escape_char(seq![x], c) == (if x == c {
            seq!['\\', c]
        } else {
            seq![x]
        }),
{
    assert(seq![x].drop_first() =~= Seq::<char>::empty());
    assert(escape_char(Seq::<char>::empty(), c) =~= Seq::<char>::empty());
    assert((if x == c {
        seq!['\\', c]
    } else {
        seq![x]
    }) + Seq::<char>::empty() =~= (if x == c {
        seq!['\\', c]
    } else {
        seq![x]
    }));
}

/// Escaping text piece by piece is escaping it whole.
pub proof fn lemma_escape_concat(a: Seq<char>, b: Seq<char>, c: char)
    ensures
        escape_char(a + b, c) == escape_char(a, c) + escape_char(b, c),
    decreases a.len(),
{
    if a.len() == 0 {
        assert(a + b =~= b);
        assert(escape_char(a, c) + escape_char(b, c) =~= escape_char(b, c));
    } else {
        assert((a + b).drop_first() =~= a.drop_first() + b);
        assert((a + b)[0] == a[0]);
        lemma_escape_concat(a.drop_first(), b, c);
        let head = if a[0] == c {
            seq!['\\', c]
        } else {
            seq![a[0]]
        };
        assert(head + (escape_char(a.drop_first(), c) + escape_char(b, c)) =~= (head + escape_char(
            a.drop_first(),
            c,
        )) + escape_char(b, c));
    }
}

/// Text without the escaped character is left as it is.
pub proof fn lemma_escape_absent(s: Seq<char>, c: char)
    requires
        !s.contains(c),
    ensures
        escape_char(s, c) == s,
    decreases s.len(),
{
    if s.len() > 0 {
        assert(!s.drop_first().contains(c)) by {
            if s.drop_first().contains(c) {
                let k = choose|k: int| 0 <= k < s.drop_first().len() && s.drop_first()[k] == c;
                assert(s[k + 1] == c);
            }
        }
        assert(s[0] != c) by {
            assert(s.contains(s[0]));
        }
        lemma_escape_absent(s.drop_first(), c);
        assert(seq![s[0]] + s.drop_first() =~= s);
    }
}

/// Whether `s` begins with `p`.
pub fn str_starts_with(s: &str, p: &str) -> (r: bool)
    ensures
        r == starts_with(s@, p@),
{
    let n = p.unicode_len();
    let m = s.unicode_len();
    if n > m {
        return false;
    }
    let mut i: usize = 0;
    while i < n
        invariant
            i <= n,
            n == p@.len(),
            m == s@.len(),
            n <= m,
            forall|k: int| 0 <= k < i ==> s@[k] == p@[k],
        decreases n - i,
    {
        if s.get_char(i) != p.get_char(i) {
            return false;
        }
        i = i + 1;
    }
    assert(s@.subrange(0, n as int) =~= p@);
    true
}

/// The position of the first `c` in `s`, counted in characters.
pub fn str_find_char(s: &str, c: char) -> (r: Option<usize>)
    ensures
        match r {
            Some(i) => find_char(s@, c) == Some(i as int),
            None => find_char(s@, c) is None,
        },
{
    proof {
        lemma_find_char(s@, c);
    }
    let n = s.unicode_len();
    let mut i: usize = 0;
    while i < n
        invariant
            i <= n,
            n == s@.len(),
            forall|k: int| 0 <= k < i ==> s@[k] != c,
            match find_char(s@, c) {
                Some(j) => 0 <= j < s@.len() && s@[j] == c && forall|k: int|
                    0 <= k < j ==> s@[k] != c,
                None => forall|k: int| 0 <= k < s@.len() ==> s@[k] != c,
            },
        decreases n - i,
    {
        if s.get_char(i) == c {
            return Some(i);
        }
        i = i + 1;
    }
    None
}

/// The characters of `s` from position `from` on, as a new string.
pub fn str_tail(s: &str, from: usize) -> (r: String)
    requires
        from <= s@.len(),
    ensures
        r@ == s@.subrange(from as int, s@.len() as int),
{
    let n = s.unicode_len();
    String::from_str(s.substring_char(from, n))
}

/// The characters of `s` from position `from` up to `to`, as a new string.
pub fn str_slice(s: &str, from: usize, to: usize) -> (r: String)
    requires
        from <= to <= s@.len(),
    ensures
        r@ == s@.subrange(from as int, to as int),
{
    String::from_str(s.substring_char(from, to))
}

/// Appends the character `c` to `s` (`String::push`).
#[verifier::external_body]
pub(crate) fn string_push(s: &mut String, c: char)
    ensures
        final(s)@ == old(s)@.push(c),
{
    s.push(c)
}

/// `s` with a backslash put before each `c`.
pub fn escape(s: &str, c: char) -> (r: String)
    ensures
        r@ == escape_char(s@, c),
{
    let n = s.unicode_len();
    let mut r = String::new();
    let mut i: usize = 0;
    while i < n
        invariant
            i <= n,
            n == s@.len(),
            r@ == escape_char(s@.subrange(0, i as int), c),
        decreases n - i,
    {
        let x = s.get_char(i);
        proof {
            lemma_escape_char_push(s@.subrange(0, i as int), x, c);
            assert(s@.subrange(0, i as int).push(x) =~= s@.subrange(0, i + 1));
            assert(escape_char(seq![x], c) =~= (if x == c {
                seq!['\\', c]
            } else {
                seq![x]
            })) by {
                assert(seq![x].drop_first() =~= Seq::<char>::empty());
                assert(escape_char(Seq::<char>::empty(), c) =~= Seq::<char>::empty());
            }
        }
        if x == c {
            string_push(&mut r, '\\');
            string_push(&mut r, c);
            assert(r@ == escape_char(s@.subrange(0, i as int), c) + seq!['\\', c]);
        } else {
            string_push(&mut r, x);
            assert(r@ == escape_char(s@.subrange(0, i as int), c) + seq![x]);
        }
        i = i + 1;
    }
    assert(s@.subrange(0, n as int) =~= s@);
    r
}

} // verus!
