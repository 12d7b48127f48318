//! A simple immutable, order-preserving string multimap, used for query
//! parameters, template captures and request headers.  Lookups return the
//! first entry with a matching key; `get_all` returns every match in order.

use crate::text::{lex_le, lex_le_strings};
use vstd::prelude::*;

verus! {

/// Entries of a multimap, as the sequence of key/value character pairs.
pub type Entries = Seq<(Seq<char>, Seq<char>)>;

/// The value of the first entry with key `k`, if any.
pub open spec fn spec_find(m: Entries, k: Seq<char>) -> Option<Seq<char>>
    decreases m.len(),
{
    if m.len() == 0 {
        None
    } else if m[0].0 == k {
        Some(m[0].1)
    } else {
        spec_find(m.drop_first(), k)
    }
}

/// True iff some entry has key `k`.
pub open spec fn spec_contains_key(m: Entries, k: Seq<char>) -> bool {
    spec_find(m, k) is Some
}

/// The values of every entry with key `k`, in order.
pub open spec fn spec_get_all(m: Entries, k: Seq<char>) -> Seq<Seq<char>>
    decreases m.len(),
{
    if m.len() == 0 {
        Seq::empty()
    } else {
        let rest = spec_get_all(m.drop_first(), k);
        if m[0].0 == k {
            seq![m[0].1] + rest
        } else {
            rest
        }
    }
}

/// The entries of a vector of string pairs, as character sequences.
pub open spec fn pairs_view(s: Seq<(String, String)>) -> Entries {
    s.map_values(|p: (String, String)| (p.0@, p.1@))
}

/// The views of a vector of strings.
pub open spec fn strs_view(s: Seq<String>) -> Seq<Seq<char>> {
    s.map_values(|v: String| v@)
}

/// `x` inserted into the (sorted) list `l` before the first entry that
/// is not below it.
pub open spec fn insert_sorted(x: Seq<char>, l: Seq<Seq<char>>) -> Seq<Seq<char>>
    decreases l.len(),
{
    if l.len() == 0 {
        seq![x]
    } else if lex_le(x, l[0]) {
        seq![x] + l
    } else {
        seq![l[0]] + insert_sorted(x, l.drop_first())
    }
}

/// The list sorted lexicographically, by repeated insertion.
pub open spec fn sort_strs(l: Seq<Seq<char>>) -> Seq<Seq<char>>
    decreases l.len(),
{
    if l.len() == 0 {
        Seq::empty()
    } else {
        insert_sorted(l.last(), sort_strs(l.drop_last()))
    }
}

proof fn lemma_insert_sorted_at(x: Seq<char>, l: Seq<Seq<char>>, idx: int)
    requires
        0 <= idx <= l.len(),
        forall|k: int| 0 <= k < idx ==> !lex_le(x, l[k]),
        idx == l.len() || lex_le(x, l[idx]),
    ensures
        insert_sorted(x, l) == l.take(idx) + seq![x] + l.skip(idx),
    decreases l.len(),
{
    if idx == 0 {
        if l.len() == 0 {
            assert(insert_sorted(x, l) =~= l.take(0) + seq![x] + l.skip(0));
        } else {
            assert(insert_sorted(x, l) =~= l.take(0) + seq![x] + l.skip(0));
        }
    } else {
        assert(!lex_le(x, l[0]));
        lemma_insert_sorted_at(x, l.drop_first(), idx - 1);
        assert(l.drop_first().take(idx - 1) =~= l.take(idx).drop_first());
        assert(l.drop_first().skip(idx - 1) =~= l.skip(idx));
        assert(insert_sorted(x, l) =~= l.take(idx) + seq![x] + l.skip(idx));
    }
}

/// Inserts `x` into the sorted list `l`, keeping it sorted.
fn insert_sorted_e(l: &mut Vec<String>, x: String)
    ensures
        strs_view(final(l)@) == insert_sorted(x@, strs_view(old(l)@)),
{
    let ghost lv = strs_view(l@);
    let mut idx: usize = 0;
    while idx < l.len() && !lex_le_strings(&x, &l[idx])
        invariant
            idx <= l@.len(),
            lv == strs_view(l@),
            lv.len() == l@.len(),
            forall|k: int| 0 <= k < idx ==> !lex_le(x@, lv[k]),
        decreases l@.len() - idx,
    {
        proof {
            assert(lv[idx as int] == l@[idx as int]@);
        }
        idx = idx + 1;
    }
    proof {
        if idx < l@.len() {
            assert(lv[idx as int] == l@[idx as int]@);
        }
        lemma_insert_sorted_at(x@, lv, idx as int);
    }
    l.insert(idx, x);
    proof {
        assert(strs_view(l@) =~= lv.take(idx as int) + seq![x@] + lv.skip(idx as int));
    }
}

/// The strings sorted lexicographically.
pub fn sort_strings(v: Vec<String>) -> (r: Vec<String>)
    ensures
        strs_view(r@) == sort_strs(strs_view(v@)),
{
    let ghost vv = strs_view(v@);
    let mut r: Vec<String> = Vec::new();
    let mut i: usize = 0;
    proof {
        assert(strs_view(r@) =~= sort_strs(vv.subrange(0, 0)));
    }
    while i < v.len()
        invariant
            i <= v@.len(),
            vv == strs_view(v@),
            vv.len() == v@.len(),
            strs_view(r@) == sort_strs(vv.subrange(0, i as int)),
        decreases v@.len() - i,
    {
        insert_sorted_e(&mut r, v[i].clone());
        proof {
            assert(vv.subrange(0, i + 1).drop_last() =~= vv.subrange(0, i as int));
            assert(vv.subrange(0, i + 1).last() == vv[i as int]);
            assert(vv[i as int] == v@[i as int]@);
        }
        i = i + 1;
    }
    proof {
        assert(vv.subrange(0, vv.len() as int) =~= vv);
    }
    r
}

/// True iff some entry of `v` equals `x`.
pub fn contains_string(v: &Vec<String>, x: &String) -> (r: bool)
    ensures
        r == strs_view(v@).contains(x@),
{
    let mut i: usize = 0;
    while i < v.len()
        invariant
            i <= v@.len(),
            forall|k: int| 0 <= k < i ==> strs_view(v@)[k] != x@,
        decreases v@.len() - i,
    {
        if v[i] == *x {
            proof {
                assert(strs_view(v@)[i as int] == x@);
            }
            return true;
        }
        proof {
            assert(strs_view(v@)[i as int] != x@);
        }
        i = i + 1;
    }
    proof {
        assert(!strs_view(v@).contains(x@)) by {
            if strs_view(v@).contains(x@) {
                let w = choose|w: int| 0 <= w < strs_view(v@).len() && strs_view(v@)[w] == x@;
            }
        }
    }
    false
}

/// A copy of a byte vector.
pub fn clone_bytes(v: &Vec<u8>) -> (r: Vec<u8>)
    ensures
        r@ == v@,
{
    let mut r: Vec<u8> = Vec::new();
    let mut i: usize = 0;
    while i < v.len()
        invariant
            i <= v@.len(),
            r@ == v@.subrange(0, i as int),
        decreases v@.len() - i,
    {
        r.push(v[i]);
        i = i + 1;
        proof {
            assert(r@ =~= v@.subrange(0, i as int));
        }
    }
    proof {
        assert(r@ =~= v@);
    }
    r
}

/// A copy of a vector of strings, character for character.
pub fn clone_strings(v: &Vec<String>) -> (r: Vec<String>)
    ensures
        r@.len() == v@.len(),
        strs_view(r@) == strs_view(v@),
{
    let mut r: Vec<String> = Vec::new();
    let mut i: usize = 0;
    while i < v.len()
        invariant
            i <= v@.len(),
            r@.len() == i,
            forall|k: int| 0 <= k < i ==> r@[k]@ == v@[k]@,
        decreases v@.len() - i,
    {
        r.push(v[i].clone());
        i = i + 1;
    }
    proof {
        assert(strs_view(r@) =~= strs_view(v@));
    }
    r
}

/// A copy of a vector of string pairs.
pub fn clone_pairs(v: &Vec<(String, String)>) -> (r: Vec<(String, String)>)
    ensures
        r@.len() == v@.len(),
        pairs_view(r@) == pairs_view(v@),
{
    let mut r: Vec<(String, String)> = Vec::new();
    let mut i: usize = 0;
    while i < v.len()
        invariant
            i <= v@.len(),
            r@.len() == i,
            forall|k: int| 0 <= k < i ==> r@[k].0@ == v@[k].0@ && r@[k].1@ == v@[k].1@,
        decreases v@.len() - i,
    {
        r.push((v[i].0.clone(), v[i].1.clone()));
        i = i + 1;
    }
    proof {
        assert(pairs_view(r@) =~= pairs_view(v@));
    }
    r
}

/// An immutable multimap of owned strings.  Entry order is the insertion
/// order, and duplicate keys are allowed.
pub struct IMap {
    pub entries: Vec<(String, String)>,
}

impl View for IMap {
    type V = Entries;

    open spec fn view(&self) -> Entries {
        pairs_view(self.entries@)
    }
}

impl IMap {
    /// The empty multimap.
    pub fn new() -> (r: IMap)
        ensures
            r@ == Seq::<(Seq<char>, Seq<char>)>::empty(),
    {
        let r = IMap { entries: Vec::new() };
        proof {
            assert(r@ =~= Seq::<(Seq<char>, Seq<char>)>::empty());
        }
        r
    }

    /// The number of entries.
    pub fn size(&self) -> (r: usize)
        ensures
            r == self@.len(),
    {
        self.entries.len()
    }

    /// Appends an entry; an existing entry with the same key is kept.
    pub fn push(&mut self, k: String, v: String)
        ensures
            final(self)@ == old(self)@.push((k@, v@)),
    {
        let ghost before = self@;
        self.entries.push((k, v));
        proof {
            assert(self@ =~= before.push((k@, v@)));
        }
    }

    /// True iff some entry has key `k`.
    pub fn contains_key(&self, k: &String) -> (r: bool)
        ensures
            r == spec_contains_key(self@, k@),
    {
        match self.find_idx(k) {
            Some(_) => true,
            None => false,
        }
    }

    /// The index of the first entry with key `k`.
    fn find_idx(&self, k: &String) -> (r: Option<usize>)
        ensures
            match r {
                Some(i) => i < self@.len() && self@[i as int].0 == k@ && forall|j: int|
                    0 <= j < i ==> self@[j].0 != k@,
                None => forall|j: int| 0 <= j < self@.len() ==> self@[j].0 != k@,
            },
            (r is Some) == spec_contains_key(self@, k@),
            r matches Some(i) ==> spec_find(self@, k@) == Some(self@[i as int].1),
    {
        let n: usize = self.entries.len();
        let mut i: usize = 0;
        let mut r: Option<usize> = None;
        while i < n
            invariant
                n == self@.len(),
                i <= n,
                r is None,
                forall|j: int| 0 <= j < i ==> self@[j].0 != k@,
            decreases n - i,
        {
            if self.entries[i].0 == *k {
                r = Some(i);
                proof {
                    assert(self@[i as int].0 == k@);
                    lemma_find_at(self@, k@, i as int);
                }
                return r;
            }
            proof {
                assert(self@[i as int].0 != k@);
            }
            i = i + 1;
        }
        proof {
            lemma_find_none(self@, k@);
        }
        None
    }

    /// The value of the first entry with key `k`; the key must be present.
    pub fn get(&self, k: &String) -> (r: &String)
        requires
            spec_contains_key(self@, k@),
        ensures
            Some(r@) == spec_find(self@, k@),
    {
        let i = self.find_idx(k).unwrap();
        &self.entries[i].1
    }

    /// The value of the first entry with key `k`, if any.
    pub fn find(&self, k: &String) -> (r: Option<&String>)
        ensures
            match r {
                Some(v) => spec_find(self@, k@) == Some(v@),
                None => spec_find(self@, k@) is None,
            },
    {
        match self.find_idx(k) {
            Some(i) => Some(&self.entries[i].1),
            None => None,
        }
    }

    /// The values of every entry with key `k`, in order.
    pub fn get_all(&self, k: &String) -> (r: Vec<String>)
        ensures
            strs_view(r@) == spec_get_all(self@, k@),
    {
        let n: usize = self.entries.len();
        let mut r: Vec<String> = Vec::new();
        let mut i: usize = 0;
        proof {
            assert(self@.skip(0) =~= self@);
            assert(r@.map_values(|v: String| v@) + spec_get_all(self@, k@) =~= spec_get_all(
                self@,
                k@,
            ));
        }
        while i < n
            invariant
                n == self@.len(),
                i <= n,
                r@.map_values(|v: String| v@) + spec_get_all(self@.skip(i as int), k@)
                    == spec_get_all(self@, k@),
            decreases n - i,
        {
            let ghost pre = r@.map_values(|v: String| v@);
            proof {
                assert(self@.skip(i as int).drop_first() =~= self@.skip(i + 1));
                assert(self@.skip(i as int)[0] == self@[i as int]);
            }
            if self.entries[i].0 == *k {
                r.push(self.entries[i].1.clone());
                proof {
                    assert(self@[i as int].0 == k@);
                    assert(spec_get_all(self@.skip(i as int), k@) == seq![self@[i as int].1]
                        + spec_get_all(self@.skip(i + 1), k@));
                    assert(r@.map_values(|v: String| v@) =~= pre.push(self@[i as int].1));
                    assert(pre.push(self@[i as int].1) + spec_get_all(self@.skip(i + 1), k@)
                        =~= pre + spec_get_all(self@.skip(i as int), k@));
                }
            } else {
                proof {
                    assert(self@[i as int].0 != k@);
                    assert(spec_get_all(self@.skip(i as int), k@) == spec_get_all(
                        self@.skip(i + 1),
                        k@,
                    ));
                }
            }
            i = i + 1;
        }
        proof {
            assert(self@.skip(n as int) =~= Seq::<(Seq<char>, Seq<char>)>::empty());
            assert(r@.map_values(|v: String| v@) + Seq::<Seq<char>>::empty() =~= r@.map_values(
                |v: String| v@,
            ));
        }
        r
    }

    /// Sets key `k` to `v`: replaces the value of the first entry with key
    /// `k`, or appends a new entry when the key is absent.
    pub fn set(&mut self, k: String, v: String)
        ensures
            final(self)@ == spec_set(old(self)@, k@, v@),
    {
        let ghost before = self@;
        match self.find_idx(&k) {
            Some(i) => {
                proof {
                    lemma_first_idx_at(before, k@, i as int);
                }
                self.entries[i] = (k, v);
                proof {
                    assert(self@ =~= before.update(i as int, (k@, v@)));
                }
            },
            None => {
                proof {
                    lemma_first_idx_none(before, k@);
                }
                self.entries.push((k, v));
                proof {
                    assert(self@ =~= before.push((k@, v@)));
                }
            },
        }
    }
}

/// `m` with key `k` set to `v`: the first entry with key `k` is replaced
/// in place, or a new entry is appended when the key is absent.
pub open spec fn spec_set(m: Entries, k: Seq<char>, v: Seq<char>) -> Entries {
    match spec_first_idx(m, k) {
        Some(i) => m.update(i as int, (k, v)),
        None => m.push((k, v)),
    }
}

/// The index of the first entry with key `k`, if any.
pub open spec fn spec_first_idx(m: Entries, k: Seq<char>) -> Option<nat>
    decreases m.len(),
{
    if m.len() == 0 {
        None
    } else if m[0].0 == k {
        Some(0)
    } else {
        match spec_first_idx(m.drop_first(), k) {
            Some(i) => Some(i + 1),
            None => None,
        }
    }
}

proof fn lemma_first_idx_bound(m: Entries, k: Seq<char>)
    ensures
        spec_first_idx(m, k) matches Some(i) ==> i < m.len() && m[i as int].0 == k,
    decreases m.len(),
{
    if m.len() > 0 && m[0].0 != k {
        lemma_first_idx_bound(m.drop_first(), k);
    }
}

/// What `spec_set` does to lookups and to the entry count: the set key
/// maps to the new value, every other key is untouched, and the count
/// grows by one exactly when the key was absent.
pub proof fn lemma_set_props(m: Entries, k: Seq<char>, v: Seq<char>)
    ensures
        spec_find(spec_set(m, k, v), k) == Some(v),
        forall|k2: Seq<char>|
            k2 != k ==> spec_find(spec_set(m, k, v), k2) == spec_find(m, k2),
        spec_set(m, k, v).len() == if spec_contains_key(m, k) {
            m.len()
        } else {
            m.len() + 1
        },
    decreases m.len(),
{
    let s = spec_set(m, k, v);
    if m.len() == 0 {
        assert(s == m.push((k, v)));
        assert(s[0] == (k, v));
        assert forall|k2: Seq<char>| k2 != k implies spec_find(s, k2) == spec_find(m, k2) by {
            assert(s.drop_first() =~= m);
        }
    } else if m[0].0 == k {
        assert(spec_first_idx(m, k) == Some(0nat));
        assert(s == m.update(0, (k, v)));
        assert(s[0] == (k, v));
        assert forall|k2: Seq<char>| k2 != k implies spec_find(s, k2) == spec_find(m, k2) by {
            assert(s.drop_first() =~= m.drop_first());
        }
    } else {
        lemma_set_props(m.drop_first(), k, v);
        lemma_first_idx_bound(m.drop_first(), k);
        let s1 = spec_set(m.drop_first(), k, v);
        match spec_first_idx(m.drop_first(), k) {
            Some(i) => {
                assert(spec_first_idx(m, k) == Some((i + 1) as nat));
                assert(s == m.update(i + 1 as int, (k, v)));
                assert(s.drop_first() =~= m.drop_first().update(i as int, (k, v)));
                assert(s.drop_first() =~= s1);
            },
            None => {
                assert(spec_first_idx(m, k) is None);
                assert(s == m.push((k, v)));
                assert(s.drop_first() =~= m.drop_first().push((k, v)));
                assert(s.drop_first() =~= s1);
            },
        }
        assert(s[0] == m[0]);
        assert(spec_find(s, k) == spec_find(s1, k));
        assert forall|k2: Seq<char>| k2 != k implies spec_find(s, k2) == spec_find(m, k2) by {
            if m[0].0 != k2 {
                assert(spec_find(s, k2) == spec_find(s1, k2));
                assert(spec_find(m, k2) == spec_find(m.drop_first(), k2));
            }
        }
    }
}

proof fn lemma_find_at(m: Entries, k: Seq<char>, i: int)
    requires
        0 <= i < m.len(),
        m[i].0 == k,
        forall|j: int| 0 <= j < i ==> m[j].0 != k,
    ensures
        spec_find(m, k) == Some(m[i].1),
    decreases m.len(),
{
    if i > 0 {
        lemma_find_at(m.drop_first(), k, i - 1);
    }
}

proof fn lemma_find_none(m: Entries, k: Seq<char>)
    requires
        forall|j: int| 0 <= j < m.len() ==> m[j].0 != k,
    ensures
        spec_find(m, k) is None,
    decreases m.len(),
{
    if m.len() > 0 {
        lemma_find_none(m.drop_first(), k);
    }
}

proof fn lemma_first_idx_at(m: Entries, k: Seq<char>, i: int)
    requires
        0 <= i < m.len(),
        m[i].0 == k,
        forall|j: int| 0 <= j < i ==> m[j].0 != k,
    ensures
        spec_first_idx(m, k) == Some(i as nat),
    decreases m.len(),
{
    if i > 0 {
        lemma_first_idx_at(m.drop_first(), k, i - 1);
    }
}

proof fn lemma_first_idx_none(m: Entries, k: Seq<char>)
    requires
        forall|j: int| 0 <= j < m.len() ==> m[j].0 != k,
    ensures
        spec_first_idx(m, k) is None,
    decreases m.len(),
{
    if m.len() > 0 {
        lemma_first_idx_none(m.drop_first(), k);
    }
}

} // verus!
