//! URI templates.  A template such as `/blueprint/{site}/{building}` or
//! `/csv/*path` is compiled into a sequence of segment matchers; request
//! paths are then matched against them, producing a map of captured names
//! plus a `fullpath` entry holding the whole path.

use crate::imap::{lemma_set_props, spec_contains_key, spec_find, spec_set, Entries, IMap};
use crate::text::{
    chars_string, eq_chars, join_from, join_seq, split_chars, split_ne, str_chars,
};
use vstd::prelude::*;

verus! {

/// One segment matcher of a compiled template.
#[derive(Debug, PartialEq, Eq)]
pub enum Component {
    /// Matches exactly this text.
    Literal(String),
    /// Matches any single path component, captured under the name.
    Variable(String),
    /// Matches zero or more remaining components, captured under the name.
    Trailer(String),
}

/// The mathematical model of a segment matcher.
pub enum Seg {
    Literal(Seq<char>),
    Variable(Seq<char>),
    Trailer(Seq<char>),
}

impl View for Component {
    type V = Seg;

    open spec fn view(&self) -> Seg {
        match self {
            Component::Literal(s) => Seg::Literal(s@),
            Component::Variable(s) => Seg::Variable(s@),
            Component::Trailer(s) => Seg::Trailer(s@),
        }
    }
}

/// The models of a sequence of matchers.
pub open spec fn comps_view(cs: Seq<Component>) -> Seq<Seg> {
    cs.map_values(|c: Component| c@)
}

/// How one non-empty template segment is classified: `{name}` is a
/// variable, anything else matches literally.
pub open spec fn classify(p: Seq<char>) -> Seg {
    if p.len() >= 2 && p[0] == '{' && p.last() == '}' {
        Seg::Variable(p.subrange(1, p.len() - 1))
    } else {
        Seg::Literal(p)
    }
}

/// The compiled form of a template string: non-empty `/`-separated
/// segments, classified; a final segment starting with `*` becomes a
/// trailer under the name that follows the `*`.
pub open spec fn spec_compile(t: Seq<char>) -> Seq<Seg> {
    let parts = split_ne(t, '/');
    let mapped = parts.map_values(|p: Seq<char>| classify(p));
    if parts.len() > 0 && parts.last().len() >= 1 && parts.last()[0] == '*' {
        mapped.drop_last().push(Seg::Trailer(parts.last().drop_first()))
    } else {
        mapped
    }
}

/// The matching walk: `i` indexes the path components and the matchers
/// in step; a trailer consumes the whole remainder.  `None` means no
/// match.
pub open spec fn walk(parts: Seq<Seq<char>>, comps: Seq<Seg>, i: nat, acc: Entries) -> Option<
    Entries,
>
    decreases comps.len() - i,
{
    if i >= comps.len() {
        if i == parts.len() {
            Some(acc)
        } else {
            None
        }
    } else if i == parts.len() {
        None
    } else {
        match comps[i as int] {
            Seg::Literal(s) => if parts[i as int] != s {
                None
            } else {
                walk(parts, comps, i + 1, acc)
            },
            Seg::Variable(s) => walk(parts, comps, i + 1, spec_set(acc, s, parts[i as int])),
            Seg::Trailer(s) => {
                let captured = spec_set(acc, s, join_seq(parts.skip(i as int), '/'));
                if parts.len() >= comps.len() {
                    Some(captured)
                } else {
                    None
                }
            },
        }
    }
}

/// The result of matching `path` against compiled `comps`: empty iff the
/// path does not match; on a match, one entry per captured name plus a
/// `fullpath` entry equal to the whole path.
pub open spec fn spec_match(path: Seq<char>, comps: Seq<Seg>) -> Entries {
    match walk(split_ne(path, '/'), comps, 0, Seq::empty()) {
        Some(acc) => spec_set(acc, "fullpath"@, path),
        None => Seq::empty(),
    }
}

/// The declarative matching relation of the template grammar: path
/// components and matchers are aligned pairwise; a literal requires equal
/// text, a variable any component, and a trailer at least enough
/// components to reach its own position.
pub open spec fn grammar_match(parts: Seq<Seq<char>>, comps: Seq<Seg>) -> bool
    decreases comps.len(),
{
    if comps.len() == 0 {
        parts.len() == 0
    } else if parts.len() == 0 {
        false
    } else {
        match comps[0] {
            Seg::Literal(s) => parts[0] == s && grammar_match(parts.drop_first(), comps.drop_first()),
            Seg::Variable(_) => grammar_match(parts.drop_first(), comps.drop_first()),
            Seg::Trailer(_) => parts.len() >= comps.len(),
        }
    }
}

/// The names captured by a sequence of matchers, in order.
pub open spec fn capture_names(comps: Seq<Seg>) -> Seq<Seq<char>>
    decreases comps.len(),
{
    if comps.len() == 0 {
        Seq::empty()
    } else {
        let rest = capture_names(comps.drop_first());
        match comps[0] {
            Seg::Literal(_) => rest,
            Seg::Variable(n) => seq![n] + rest,
            Seg::Trailer(n) => seq![n] + rest,
        }
    }
}

/// True iff no two entries of `s` are equal.
pub open spec fn distinct_seq(s: Seq<Seq<char>>) -> bool {
    forall|a: int, b: int| 0 <= a < b < s.len() ==> s[a] != s[b]
}

/// True iff a trailer matcher occurs only in the last position.
pub open spec fn trailer_last_only(comps: Seq<Seg>) -> bool {
    forall|j: int| 0 <= j < comps.len() - 1 ==> !(#[trigger] comps[j] is Trailer)
}

/// `compile` is deterministic — its result is a function of the template
/// string alone — and produces exactly one matcher per non-empty segment
/// of the template.
pub proof fn lemma_compile_entries(t: Seq<char>)
    ensures
        spec_compile(t).len() == split_ne(t, '/').len(),
{
}

/// A compiled template has its trailer, if any, only in last position.
pub proof fn lemma_compile_trailer_last(t: Seq<char>)
    ensures
        trailer_last_only(spec_compile(t)),
{
    let parts = split_ne(t, '/');
    let mapped = parts.map_values(|p: Seq<char>| classify(p));
    assert forall|j: int| 0 <= j < mapped.len() implies !(mapped[j] is Trailer) by {
        assert(mapped[j] == classify(parts[j]));
    }
    if parts.len() > 0 && parts.last().len() >= 1 && parts.last()[0] == '*' {
        let r = mapped.drop_last().push(Seg::Trailer(parts.last().drop_first()));
        assert forall|j: int| 0 <= j < r.len() - 1 implies !(r[j] is Trailer) by {
            assert(r[j] == mapped[j]);
        }
    }
}

proof fn lemma_walk_grammar(parts: Seq<Seq<char>>, comps: Seq<Seg>, i: nat, acc: Entries)
    requires
        i <= parts.len(),
        i <= comps.len(),
    ensures
        (walk(parts, comps, i, acc) is Some) == grammar_match(
            parts.skip(i as int),
            comps.skip(i as int),
        ),
    decreases comps.len() - i,
{
    let ps = parts.skip(i as int);
    let cs = comps.skip(i as int);
    if i >= comps.len() {
        assert(cs.len() == 0);
    } else if i == parts.len() {
        assert(ps.len() == 0 && cs.len() > 0);
    } else {
        assert(cs[0] == comps[i as int]);
        assert(ps[0] == parts[i as int]);
        assert(ps.drop_first() =~= parts.skip(i + 1 as int));
        assert(cs.drop_first() =~= comps.skip(i + 1 as int));
        match comps[i as int] {
            Seg::Literal(s) => {
                if parts[i as int] == s {
                    lemma_walk_grammar(parts, comps, i + 1, acc);
                }
            },
            Seg::Variable(s) => {
                lemma_walk_grammar(
                    parts,
                    comps,
                    i + 1,
                    spec_set(acc, s, parts[i as int]),
                );
            },
            Seg::Trailer(_) => {
                assert(ps.len() >= cs.len() <==> parts.len() >= comps.len());
            },
        }
    }
}

/// The matching law: `match(P, C)` is non-empty exactly when the
/// components of `P` match the matchers `C` under the template grammar.
pub proof fn lemma_match_iff_grammar(path: Seq<char>, comps: Seq<Seg>)
    ensures
        spec_match(path, comps).len() > 0 <==> grammar_match(split_ne(path, '/'), comps),
{
    let parts = split_ne(path, '/');
    let empty = Seq::<(Seq<char>, Seq<char>)>::empty();
    lemma_walk_grammar(parts, comps, 0, empty);
    assert(parts.skip(0) =~= parts);
    assert(comps.skip(0) =~= comps);
    if walk(parts, comps, 0, empty) is Some {
        let acc = walk(parts, comps, 0, empty)->Some_0;
        lemma_set_props(acc, "fullpath"@, path);
        assert(spec_contains_key(spec_set(acc, "fullpath"@, path), "fullpath"@));
        assert(spec_match(path, comps).len() > 0) by {
            if spec_set(acc, "fullpath"@, path).len() == 0 {
                assert(spec_find(spec_set(acc, "fullpath"@, path), "fullpath"@) is None);
            }
        }
    } else {
        assert(spec_match(path, comps) =~= Seq::<(Seq<char>, Seq<char>)>::empty());
    }
}

proof fn lemma_walk_entries(parts: Seq<Seq<char>>, comps: Seq<Seg>, i: nat, acc: Entries)
    requires
        i <= parts.len(),
        i <= comps.len(),
        walk(parts, comps, i, acc) is Some,
        trailer_last_only(comps),
        distinct_seq(capture_names(comps.skip(i as int))),
        forall|n: Seq<char>|
            capture_names(comps.skip(i as int)).contains(n) ==> !spec_contains_key(acc, n),
    ensures
        ({
            let out = walk(parts, comps, i, acc)->Some_0;
            let names = capture_names(comps.skip(i as int));
            &&& out.len() == acc.len() + names.len()
            &&& forall|k: Seq<char>|
                spec_contains_key(out, k) <==> spec_contains_key(acc, k) || names.contains(k)
            &&& forall|k: Seq<char>|
                !names.contains(k) ==> spec_find(out, k) == spec_find(acc, k)
        }),
    decreases comps.len() - i,
{
    let out = walk(parts, comps, i, acc)->Some_0;
    let cs = comps.skip(i as int);
    let names = capture_names(cs);
    if i >= comps.len() {
        assert(cs.len() == 0);
        assert(names.len() == 0);
        assert(out == acc);
        assert(forall|k: Seq<char>| !names.contains(k));
    } else {
        assert(i < parts.len());
        assert(cs[0] == comps[i as int]);
        assert(cs.drop_first() =~= comps.skip(i + 1 as int));
        match comps[i as int] {
            Seg::Literal(_) => {
                assert(names == capture_names(comps.skip(i + 1 as int)));
                lemma_walk_entries(parts, comps, i + 1, acc);
            },
            Seg::Variable(n) => {
                let acc1 = spec_set(acc, n, parts[i as int]);
                let rest = capture_names(comps.skip(i + 1 as int));
                assert(names == seq![n] + rest);
                assert(names[0] == n);
                assert(names.contains(n));
                lemma_set_props(acc, n, parts[i as int]);
                assert(!spec_contains_key(acc, n));
                assert(acc1.len() == acc.len() + 1);
                assert forall|m: Seq<char>| rest.contains(m) implies !spec_contains_key(
                    acc1,
                    m,
                ) by {
                    let w = choose|w: int| 0 <= w < rest.len() && rest[w] == m;
                    assert(names[w + 1] == m);
                    assert(names.contains(m));
                    assert(!spec_contains_key(acc, m));
                    assert(m != n);
                    assert(spec_find(acc1, m) == spec_find(acc, m));
                }
                assert(distinct_seq(rest)) by {
                    assert forall|a: int, b: int| 0 <= a < b < rest.len() implies rest[a]
                        != rest[b] by {
                        assert(names[a + 1] == rest[a]);
                        assert(names[b + 1] == rest[b]);
                    }
                }
                lemma_walk_entries(parts, comps, i + 1, acc1);
                assert forall|k: Seq<char>|
                    spec_contains_key(out, k) <==> spec_contains_key(acc, k) || names.contains(
                        k,
                    ) by {
                    if names.contains(k) {
                        let w = choose|w: int| 0 <= w < names.len() && names[w] == k;
                        if w == 0 {
                            assert(k == n);
                            assert(spec_contains_key(acc1, k));
                        } else {
                            assert(rest[w - 1] == k);
                            assert(rest.contains(k));
                        }
                    }
                    if spec_contains_key(out, k) {
                        if spec_contains_key(acc1, k) && !spec_contains_key(acc, k) {
                            assert(k == n);
                        }
                        if !spec_contains_key(acc1, k) {
                            assert(rest.contains(k));
                            let w = choose|w: int| 0 <= w < rest.len() && rest[w] == k;
                            assert(names[w + 1] == k);
                        }
                    }
                }
                assert forall|k: Seq<char>| !names.contains(k) implies spec_find(out, k)
                    == spec_find(acc, k) by {
                    assert(!rest.contains(k)) by {
                        if rest.contains(k) {
                            let w = choose|w: int| 0 <= w < rest.len() && rest[w] == k;
                            assert(names[w + 1] == k);
                        }
                    }
                    assert(k != n);
                }
            },
            Seg::Trailer(n) => {
                assert(i == comps.len() - 1) by {
                    if i < comps.len() - 1 {
                        assert(comps[i as int] is Trailer);
                    }
                }
                let captured = spec_set(acc, n, join_seq(parts.skip(i as int), '/'));
                assert(out == captured);
                assert(cs.drop_first().len() == 0);
                assert(capture_names(cs.drop_first()).len() == 0);
                assert(names =~= seq![n]);
                assert(names[0] == n);
                assert(names.contains(n));
                lemma_set_props(acc, n, join_seq(parts.skip(i as int), '/'));
                assert(out.len() == acc.len() + 1);
                assert forall|k: Seq<char>|
                    spec_contains_key(out, k) <==> spec_contains_key(acc, k) || names.contains(
                        k,
                    ) by {
                    if spec_contains_key(out, k) && !spec_contains_key(acc, k) {
                        assert(k == n);
                    }
                }
            },
        }
    }
}

/// The capture law: a non-empty match of `P` against distinct capture
/// names (none of them `fullpath`) holds exactly one entry per variable
/// or trailer, plus a `fullpath` entry equal to `P`.
pub proof fn lemma_match_entries(path: Seq<char>, comps: Seq<Seg>)
    requires
        trailer_last_only(comps),
        distinct_seq(capture_names(comps)),
        !capture_names(comps).contains("fullpath"@),
        spec_match(path, comps).len() > 0,
    ensures
        spec_match(path, comps).len() == capture_names(comps).len() + 1,
        spec_find(spec_match(path, comps), "fullpath"@) == Some(path),
        forall|n: Seq<char>|
            capture_names(comps).contains(n) ==> spec_contains_key(spec_match(path, comps), n),
{
    let parts = split_ne(path, '/');
    let empty = Seq::<(Seq<char>, Seq<char>)>::empty();
    assert(walk(parts, comps, 0, empty) is Some) by {
        if walk(parts, comps, 0, empty) is None {
            assert(spec_match(path, comps) =~= Seq::<(Seq<char>, Seq<char>)>::empty());
        }
    }
    let acc = walk(parts, comps, 0, empty)->Some_0;
    assert(comps.skip(0) =~= comps);
    assert forall|n: Seq<char>|
        capture_names(comps).contains(n) implies !spec_contains_key(empty, n) by {}
    lemma_walk_entries(parts, comps, 0, empty);
    assert(acc.len() == capture_names(comps).len());
    lemma_set_props(acc, "fullpath"@, path);
    assert(!spec_contains_key(acc, "fullpath"@));
    assert(spec_match(path, comps) == spec_set(acc, "fullpath"@, path));
}

/// Compiles a template string into its sequence of segment matchers.
#[verifier::loop_isolation(false)]
pub fn compile(template: &str) -> (r: Vec<Component>)
    ensures
        comps_view(r@) == spec_compile(template@),
{
    let cs = str_chars(template);
    let parts = split_chars(&cs, '/');
    let ghost pv = parts.deep_view();
    let n: usize = parts.len();
    proof {
        assert(pv.len() == parts@.len());
    }
    let mut r: Vec<Component> = Vec::new();
    let mut i: usize = 0;
    while i < n
        invariant
            n == parts@.len(),
            pv == parts.deep_view(),
            pv.len() == n,
            i <= n,
            comps_view(r@) == pv.subrange(0, i as int).map_values(|p: Seq<char>| classify(p)),
        decreases n - i,
    {
        let ghost before = comps_view(r@);
        let p = &parts[i];
        let pn: usize = p.len();
        proof {
            assert(pv[i as int] == parts@[i as int]@);
        }
        if pn >= 2 && p[0] == '{' && p[pn - 1] == '}' {
            let mut name: Vec<char> = Vec::new();
            let mut k: usize = 1;
            while k < pn - 1
                invariant
                    pn == p@.len(),
                    pn >= 2,
                    1 <= k <= pn - 1,
                    name@ == p@.subrange(1, k as int),
                decreases pn - k,
            {
                name.push(p[k]);
                k = k + 1;
                proof {
                    assert(name@ =~= p@.subrange(1, k as int));
                }
            }
            r.push(Component::Variable(chars_string(&name)));
        } else {
            r.push(Component::Literal(chars_string(p)));
        }
        i = i + 1;
        proof {
            assert(comps_view(r@) =~= before.push(classify(pv[i - 1])));
            assert(comps_view(r@) =~= pv.subrange(0, i as int).map_values(
                |p: Seq<char>| classify(p),
            ));
        }
    }
    proof {
        assert(pv.subrange(0, n as int) =~= pv);
    }
    if n > 0 {
        let last = &parts[n - 1];
        if last.len() >= 1 && last[0] == '*' {
            let mut name: Vec<char> = Vec::new();
            let mut k: usize = 1;
            while k < last.len()
                invariant
                    1 <= k <= last@.len(),
                    name@ == last@.subrange(1, k as int),
                decreases last@.len() - k,
            {
                name.push(last[k]);
                k = k + 1;
                proof {
                    assert(name@ =~= last@.subrange(1, k as int));
                }
            }
            proof {
                assert(name@ =~= pv.last().drop_first());
            }
            let ghost before = comps_view(r@);
            r.pop();
            r.push(Component::Trailer(chars_string(&name)));
            proof {
                assert(comps_view(r@) =~= before.drop_last().push(Seg::Trailer(pv.last().drop_first())));
                assert(before.drop_last() =~= pv.map_values(|p: Seq<char>| classify(p)).drop_last());
            }
        }
    }
    proof {
        assert(comps_view(r@) =~= spec_compile(template@));
    }
    r
}

/// Matches `path` against the compiled `components`.  The result is empty
/// iff the path does not match; on a match it holds every captured name
/// plus `fullpath`.
#[verifier::loop_isolation(false)]
pub fn match_template(path: &str, components: &Vec<Component>) -> (r: IMap)
    ensures
        r@ == spec_match(path@, comps_view(components@)),
{
    let cs = str_chars(path);
    let parts = split_chars(&cs, '/');
    let ghost pv = parts.deep_view();
    let ghost comps = comps_view(components@);
    let n_p: usize = parts.len();
    let n_c: usize = components.len();
    proof {
        assert(pv.len() == parts@.len());
    }
    let mut acc = IMap::new();
    let mut i: usize = 0;
    while i < n_c
        invariant
            n_p == pv.len(),
            pv == parts.deep_view(),
            n_c == comps.len(),
            comps == comps_view(components@),
            i <= n_c,
            i <= n_p,
            walk(pv, comps, i as nat, acc@) == walk(
                pv,
                comps,
                0,
                Seq::<(Seq<char>, Seq<char>)>::empty(),
            ),
        decreases n_c - i,
    {
        if i == n_p {
            proof {
                assert(walk(pv, comps, i as nat, acc@) is None);
            }
            return IMap::new();
        }
        proof {
            assert(pv[i as int] == parts@[i as int]@);
            assert(comps[i as int] == components@[i as int]@);
        }
        let ghost acc0 = acc@;
        match &components[i] {
            Component::Literal(s) => {
                let sc = str_chars(s.as_str());
                if !eq_chars(&parts[i], &sc) {
                    proof {
                        assert(comps[i as int] matches Seg::Literal(t) && pv[i as int] != t);
                        assert(walk(pv, comps, i as nat, acc@) is None);
                    }
                    return IMap::new();
                }
                proof {
                    assert(comps[i as int] matches Seg::Literal(t) && pv[i as int] == t);
                    assert(walk(pv, comps, i as nat, acc@) == walk(pv, comps, (i + 1) as nat, acc@));
                }
                i = i + 1;
            },
            Component::Variable(s) => {
                let v = chars_string(&parts[i]);
                acc.set(s.clone(), v);
                proof {
                    assert(comps[i as int] matches Seg::Variable(t) && t == s@);
                    assert(acc@ == spec_set(acc0, s@, pv[i as int]));
                    assert(walk(pv, comps, i as nat, acc0) == walk(pv, comps, (i + 1) as nat, acc@));
                }
                i = i + 1;
            },
            Component::Trailer(s) => {
                let tail = join_from(&parts, i, '/');
                let v = chars_string(&tail);
                acc.set(s.clone(), v);
                proof {
                    assert(comps[i as int] matches Seg::Trailer(t) && t == s@);
                    assert(acc@ == spec_set(acc0, s@, join_seq(pv.skip(i as int), '/')));
                }
                if n_p >= n_c {
                    proof {
                        assert(walk(pv, comps, i as nat, acc0) == Some(acc@));
                    }
                    let ghost acc1 = acc@;
                    acc.set(String::from_str("fullpath"), path.to_owned());
                    proof {
                        assert(acc@ == spec_set(acc1, "fullpath"@, path@));
                        assert(acc@ == spec_match(path@, comps));
                    }
                    return acc;
                } else {
                    proof {
                        assert(walk(pv, comps, i as nat, acc0) is None);
                    }
                    return IMap::new();
                }
            },
        }
    }
    if i != n_p {
        proof {
            assert(walk(pv, comps, i as nat, acc@) is None);
        }
        return IMap::new();
    }
    proof {
        assert(walk(pv, comps, i as nat, acc@) == Some(acc@));
    }
    let ghost acc1 = acc@;
    acc.set(String::from_str("fullpath"), path.to_owned());
    proof {
        assert(acc@ == spec_set(acc1, "fullpath"@, path@));
    }
    acc
}

} // verus!
