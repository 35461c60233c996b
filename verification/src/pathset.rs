//! A set of paths, kept as a vector in which no path occurs twice.

use vstd::prelude::*;

verus! {

/// The views of a sequence of strings.
pub open spec fn views(s: Seq<String>) -> Seq<Seq<char>> {
    s.map_values(|x: String| x@)
}

/// No two strings of the sequence are equal.
pub open spec fn no_dup_views(s: Seq<String>) -> bool {
    forall|i: int, j: int| 0 <= i < j < s.len() ==> s[i]@ != s[j]@
}

/// The set of the strings of `s`.
pub open spec fn view_set(s: Seq<String>) -> Set<Seq<char>> {
    views(s).to_set()
}

/// A string is in the set of a sequence exactly when one of its elements
/// equals it.
pub proof fn lemma_view_set_contains(s: Seq<String>, x: Seq<char>)
    ensures
        view_set(s).contains(x) <==> exists|k: int| 0 <= k < s.len() && s[k]@ == x,
{
    if view_set(s).contains(x) {
        let k = choose|k: int| 0 <= k < views(s).len() && views(s)[k] == x;
        assert(s[k]@ == x);
    }
    if exists|k: int| 0 <= k < s.len() && s[k]@ == x {
        let k = choose|k: int| 0 <= k < s.len() && s[k]@ == x;
        assert(views(s)[k] == x);
    }
}

/// Adding a string at the end adds it to the set.
pub proof fn lemma_view_set_push(s: Seq<String>, x: String)
    ensures
        view_set(s.push(x)) == view_set(s).insert(x@),
{
    assert forall|y: Seq<char>| view_set(s.push(x)).contains(y) <==> view_set(s).insert(
        x@,
    ).contains(y) by {
        lemma_view_set_contains(s.push(x), y);
        lemma_view_set_contains(s, y);
        if exists|k: int| 0 <= k < s.len() && s[k]@ == y {
            let k = choose|k: int| 0 <= k < s.len() && s[k]@ == y;
            assert(s.push(x)[k]@ == y);
        }
        if y == x@ {
            assert(s.push(x)[s.len() as int]@ == y);
        }
        if exists|k: int| 0 <= k < s.push(x).len() && s.push(x)[k]@ == y {
            let k = choose|k: int| 0 <= k < s.push(x).len() && s.push(x)[k]@ == y;
            if k < s.len() {
                assert(s[k]@ == y);
            }
        }
    }
    assert(view_set(s.push(x)) =~= view_set(s).insert(x@));
}

/// Removing the element at `i` of a sequence without duplicates removes
/// its string from the set, and leaves no duplicates.
pub proof fn lemma_view_set_remove(s: Seq<String>, i: int)
    requires
        no_dup_views(s),
        0 <= i < s.len(),
    ensures
        view_set(s.remove(i)) == view_set(s).remove(s[i]@),
        no_dup_views(s.remove(i)),
{
    let r = s.remove(i);
    assert forall|y: Seq<char>| view_set(r).contains(y) <==> view_set(s).remove(s[i]@).contains(
        y,
    ) by {
        lemma_view_set_contains(r, y);
        lemma_view_set_contains(s, y);
        if exists|k: int| 0 <= k < r.len() && r[k]@ == y {
            let k = choose|k: int| 0 <= k < r.len() && r[k]@ == y;
            if k < i {
                assert(s[k]@ == y);
                assert(s[k]@ != s[i]@);
            } else {
                assert(s[k + 1]@ == y);
                assert(s[i]@ != s[k + 1]@);
            }
        }
        if exists|k: int| 0 <= k < s.len() && s[k]@ == y && y != s[i]@ {
            let k = choose|k: int| 0 <= k < s.len() && s[k]@ == y && y != s[i]@;
            if k < i {
                assert(r[k]@ == y);
            } else {
                assert(k != i);
                assert(r[k - 1]@ == y);
            }
        }
    }
    assert(view_set(r) =~= view_set(s).remove(s[i]@));
    assert forall|a: int, b: int| 0 <= a < b < r.len() implies r[a]@ != r[b]@ by {
        let a2 = if a < i {
            a
        } else {
            a + 1
        };
        let b2 = if b < i {
            b
        } else {
            b + 1
        };
        assert(r[a] == s[a2]);
        assert(r[b] == s[b2]);
    }
}

/// A sequence without duplicates has as many elements as its set.
pub proof fn lemma_view_set_len(s: Seq<String>)
    requires
        no_dup_views(s),
    ensures
        view_set(s).len() == s.len(),
{
    let v = views(s);
    assert(v.no_duplicates()) by {
        assert forall|i: int, j: int| 0 <= i < v.len() && 0 <= j < v.len() && i != j implies v[i]
            != v[j] by {
            if i < j {
                assert(s[i]@ != s[j]@);
            } else {
                assert(s[j]@ != s[i]@);
            }
        }
    }
    v.unique_seq_to_set();
}

/// A set of paths: each path is in it at most once.
pub struct PathSet {
    items: Vec<String>,
}

impl View for PathSet {
    type V = Set<Seq<char>>;

    closed spec fn view(&self) -> Set<Seq<char>> {
        view_set(self.items@)
    }
}

impl PathSet {
    #[verifier::type_invariant]
    spec fn wf(self) -> bool {
        no_dup_views(self.items@)
    }

    /// The empty set.
    pub fn new() -> (r: Self)
        ensures
            r@ == Set::<Seq<char>>::empty(),
    {
        let r = PathSet { items: Vec::new() };
        assert(view_set(r.items@) =~= Set::<Seq<char>>::empty());
        r
    }

    /// How many paths are in the set.
    pub fn len(&self) -> (r: usize)
        ensures
            r as nat == self@.len(),
            self@.finite(),
    {
        proof {
            use_type_invariant(self);
            lemma_view_set_len(self.items@);
        }
        self.items.len()
    }

    fn position(&self, p: &String) -> (r: Option<usize>)
        ensures
            match r {
                Some(i) => i < self.items@.len() && self.items@[i as int]@ == p@,
                None => !self@.contains(p@),
            },
    {
        let mut i: usize = 0;
        while i < self.items.len()
            invariant
                i <= self.items.len(),
                forall|k: int| 0 <= k < i ==> self.items@[k]@ != p@,
            decreases self.items.len() - i,
        {
            if self.items[i] == *p {
                return Some(i);
            }
            i = i + 1;
        }
        proof {
            lemma_view_set_contains(self.items@, p@);
        }
        None
    }

    /// Whether `p` is in the set.
    pub fn contains(&self, p: &String) -> (r: bool)
        ensures
            r == self@.contains(p@),
    {
        match self.position(p) {
            Some(i) => {
                proof {
                    lemma_view_set_contains(self.items@, p@);
                }
                true
            },
            None => false,
        }
    }

    /// Adds `p`; tells whether it was not in the set before.
    pub fn insert(&mut self, p: String) -> (r: bool)
        ensures
            final(self)@ == old(self)@.insert(p@),
            r == !old(self)@.contains(p@),
    {
        proof {
            use_type_invariant(&*self);
        }
        if self.contains(&p) {
            assert(old(self)@.insert(p@) =~= old(self)@);
            false
        } else {
            let ghost old_items = self.items@;
            let mut items = Vec::new();
            std::mem::swap(&mut items, &mut self.items);
            items.push(p);
            proof {
                lemma_view_set_push(old_items, p);
                assert forall|i: int, j: int| 0 <= i < j < items@.len() implies items@[i]@
                    != items@[j]@ by {
                    if j == old_items.len() {
                        lemma_view_set_contains(old_items, old_items[i]@);
                    }
                }
            }
            self.items = items;
            true
        }
    }

    /// Removes `p`; tells whether it was in the set.
    pub fn remove(&mut self, p: &String) -> (r: bool)
        ensures
            final(self)@ == old(self)@.remove(p@),
            r == old(self)@.contains(p@),
    {
        proof {
            use_type_invariant(&*self);
        }
        match self.position(p) {
            None => {
                assert(old(self)@.remove(p@) =~= old(self)@);
                false
            },
            Some(i) => {
                let ghost old_items = self.items@;
                let mut items = Vec::new();
                std::mem::swap(&mut items, &mut self.items);
                items.remove(i);
                proof {
                    lemma_view_set_remove(old_items, i as int);
                    lemma_view_set_contains(old_items, p@);
                }
                self.items = items;
                true
            },
        }
    }

    /// The paths of the set, each once.
    pub fn to_vec(&self) -> (r: Vec<String>)
        ensures
            view_set(r@) == self@,
            no_dup_views(r@),
    {
        proof {
            use_type_invariant(self);
        }
        let mut r: Vec<String> = Vec::new();
        let mut i: usize = 0;
        while i < self.items.len()
            invariant
                i <= self.items.len(),
                r@.len() == i,
                forall|k: int| 0 <= k < i ==> #[trigger] r@[k] == self.items@[k],
            decreases self.items.len() - i,
        {
            r.push(self.items[i].clone());
            i = i + 1;
        }
        assert(r@ =~= self.items@);
        r
    }

    /// Takes the paths out of the set, each once, and leaves it empty.
    pub fn drain(&mut self) -> (r: Vec<String>)
        ensures
            view_set(r@) == old(self)@,
            no_dup_views(r@),
            final(self)@ == Set::<Seq<char>>::empty(),
    {
        proof {
            use_type_invariant(&*self);
        }
        let mut r = Vec::new();
        std::mem::swap(&mut r, &mut self.items);
        assert(view_set(self.items@) =~= Set::<Seq<char>>::empty());
        r
    }
}

} // verus!
