//! Character-level string helpers shared by the parser, the URI-template
//! matcher and the response builder.  Executable code works on `Vec<char>`
//! and converts to `String` at the edges; every function is specified
//! against the `Seq<char>` view.

use vstd::prelude::*;

verus! {

/// Relies on String::push: appends one character to the string.
#[verifier::external_body]
pub(crate) fn push_char(s: &mut String, c: char)
    ensures
        final(s)@ == old(s)@.push(c),
{
    s.push(c);
}

/// The characters of `s`, in order.
pub fn str_chars(s: &str) -> (r: Vec<char>)
    ensures
        r@ == s@,
{
    let n: usize = s.unicode_len();
    let mut r: Vec<char> = Vec::new();
    let mut i: usize = 0;
    while i < n
        invariant
            n == s@.len(),
            i <= n,
            r@ == s@.subrange(0, i as int),
        decreases n - i,
    {
        r.push(s.get_char(i));
        i = i + 1;
        proof {
            assert(r@ =~= s@.subrange(0, i as int));
        }
    }
    proof {
        assert(r@ =~= s@);
    }
    r
}

/// A `String` holding exactly the characters of `v`.
pub fn chars_string(v: &Vec<char>) -> (r: String)
    ensures
        r@ == v@,
{
    let mut r = String::new();
    let mut i: usize = 0;
    while i < v.len()
        invariant
            i <= v@.len(),
            r@ == v@.subrange(0, i as int),
        decreases v@.len() - i,
    {
        push_char(&mut r, v[i]);
        i = i + 1;
        proof {
            assert(r@ =~= v@.subrange(0, i as int));
        }
    }
    proof {
        assert(r@ =~= v@);
    }
    r
}

/// The characters of `s` between `a` and `b`.
pub fn copy_range(s: &Vec<char>, a: usize, b: usize) -> (r: Vec<char>)
    requires
        a <= b <= s@.len(),
    ensures
        r@ == s@.subrange(a as int, b as int),
{
    let mut r: Vec<char> = Vec::new();
    let mut i: usize = a;
    while i < b
        invariant
            a <= i <= b <= s@.len(),
            r@ == s@.subrange(a as int, i as int),
        decreases b - i,
    {
        r.push(s[i]);
        i = i + 1;
        proof {
            assert(r@ =~= s@.subrange(a as int, i as int));
        }
    }
    r
}

/// Appends the characters of `src` to `dst`.
pub fn append_chars(dst: &mut Vec<char>, src: &Vec<char>)
    ensures
        final(dst)@ == old(dst)@ + src@,
{
    let ghost base = dst@;
    let mut i: usize = 0;
    while i < src.len()
        invariant
            i <= src@.len(),
            dst@ == base + src@.subrange(0, i as int),
        decreases src@.len() - i,
    {
        dst.push(src[i]);
        i = i + 1;
        proof {
            assert(dst@ =~= base + src@.subrange(0, i as int));
        }
    }
    proof {
        assert(base + src@.subrange(0, src@.len() as int) =~= base + src@);
    }
}

/// Space or horizontal tab: the whitespace accepted inside header values.
pub open spec fn is_ws(c: char) -> bool {
    c == ' ' || c == '\t'
}

/// ASCII lower-casing of one character.
pub open spec fn spec_lower(c: char) -> char {
    if 'A' <= c && c <= 'Z' {
        ((c as u8) + 32) as char
    } else {
        c
    }
}

/// ASCII lower-casing of a character sequence.
pub open spec fn lower_seq(s: Seq<char>) -> Seq<char> {
    s.map_values(|c: char| spec_lower(c))
}

pub fn lower_char(c: char) -> (r: char)
    ensures
        r == spec_lower(c),
{
    if 'A' <= c && c <= 'Z' {
        ((c as u8) + 32) as char
    } else {
        c
    }
}

/// ASCII lower-casing of a character vector.
pub fn lower_chars(s: &Vec<char>) -> (r: Vec<char>)
    ensures
        r@ == lower_seq(s@),
{
    let mut r: Vec<char> = Vec::new();
    let mut i: usize = 0;
    while i < s.len()
        invariant
            i <= s@.len(),
            r@ == lower_seq(s@.subrange(0, i as int)),
        decreases s@.len() - i,
    {
        r.push(lower_char(s[i]));
        i = i + 1;
        proof {
            assert(r@ =~= lower_seq(s@.subrange(0, i as int)));
        }
    }
    proof {
        assert(s@.subrange(0, s@.len() as int) =~= s@);
    }
    r
}

/// True iff the two vectors hold the same characters.
pub fn eq_chars(a: &Vec<char>, b: &Vec<char>) -> (r: bool)
    ensures
        r == (a@ == b@),
{
    if a.len() != b.len() {
        return false;
    }
    let mut i: usize = 0;
    while i < a.len()
        invariant
            a@.len() == b@.len(),
            i <= a@.len(),
            forall|k: int| 0 <= k < i ==> a@[k] == b@[k],
        decreases a@.len() - i,
    {
        if a[i] != b[i] {
            return false;
        }
        i = i + 1;
    }
    proof {
        assert(a@ =~= b@);
    }
    true
}

/// True iff `p` is a prefix of `s`.
pub fn starts_with(s: &Vec<char>, p: &Vec<char>) -> (r: bool)
    ensures
        r == p@.is_prefix_of(s@),
{
    if p.len() > s.len() {
        return false;
    }
    let mut i: usize = 0;
    while i < p.len()
        invariant
            p@.len() <= s@.len(),
            i <= p@.len(),
            forall|k: int| 0 <= k < i ==> s@[k] == p@[k],
        decreases p@.len() - i,
    {
        if s[i] != p[i] {
            proof {
                assert(s@.subrange(0, p@.len() as int)[i as int] != p@[i as int]);
            }
            return false;
        }
        i = i + 1;
    }
    proof {
        assert(s@.subrange(0, p@.len() as int) =~= p@);
    }
    true
}

/// The first index of `c` in `s` at or after `from`, if any.
pub fn find_char(s: &Vec<char>, c: char, from: usize) -> (r: Option<usize>)
    ensures
        match r {
            Some(i) => from <= i < s@.len() && s@[i as int] == c && forall|k: int|
                from <= k < i ==> s@[k] != c,
            None => forall|k: int| from <= k < s@.len() ==> s@[k] != c,
        },
{
    let mut i: usize = from;
    while i < s.len()
        invariant
            from <= i,
            forall|k: int| from <= k < i ==> s@[k] != c,
        decreases s@.len() - i,
    {
        if s[i] == c {
            return Some(i);
        }
        i = i + 1;
    }
    None
}

/// The index of the first occurrence of `c` in `s`, or -1.
pub open spec fn spec_find_char(s: Seq<char>, c: char) -> int
    decreases s.len(),
{
    if s.len() == 0 {
        -1
    } else if s[0] == c {
        0
    } else {
        let r = spec_find_char(s.drop_first(), c);
        if r < 0 {
            -1
        } else {
            r + 1
        }
    }
}

pub proof fn lemma_find_char_at(s: Seq<char>, c: char, i: int)
    requires
        0 <= i < s.len(),
        s[i] == c,
        forall|k: int| 0 <= k < i ==> s[k] != c,
    ensures
        spec_find_char(s, c) == i,
    decreases s.len(),
{
    if i > 0 {
        lemma_find_char_at(s.drop_first(), c, i - 1);
    }
}

pub proof fn lemma_find_char_none(s: Seq<char>, c: char)
    requires
        forall|k: int| 0 <= k < s.len() ==> s[k] != c,
    ensures
        spec_find_char(s, c) == -1,
    decreases s.len(),
{
    if s.len() > 0 {
        lemma_find_char_none(s.drop_first(), c);
    }
}

/// The index of the last occurrence of `c` in `s`, or -1.
pub open spec fn spec_rfind(s: Seq<char>, c: char) -> int
    decreases s.len(),
{
    if s.len() == 0 {
        -1
    } else if s.last() == c {
        s.len() - 1
    } else {
        spec_rfind(s.drop_last(), c)
    }
}

pub proof fn lemma_rfind(s: Seq<char>, c: char)
    ensures
        -1 <= spec_rfind(s, c) < s.len(),
        spec_rfind(s, c) >= 0 ==> s[spec_rfind(s, c)] == c,
        forall|k: int| spec_rfind(s, c) < k < s.len() ==> s[k] != c,
    decreases s.len(),
{
    if s.len() > 0 && s.last() != c {
        lemma_rfind(s.drop_last(), c);
        assert forall|k: int| spec_rfind(s, c) < k < s.len() implies s[k] != c by {
            if k < s.len() - 1 {
                assert(s.drop_last()[k] != c);
            }
        }
    }
}

/// The index of the last occurrence of `c` in `s`, if any.
pub fn rfind_char(s: &Vec<char>, c: char) -> (r: Option<usize>)
    ensures
        match r {
            Some(i) => spec_rfind(s@, c) == i,
            None => spec_rfind(s@, c) == -1,
        },
{
    let mut i: usize = s.len();
    while i > 0
        invariant
            i <= s@.len(),
            forall|k: int| i <= k < s@.len() ==> s@[k] != c,
        decreases i,
    {
        i = i - 1;
        if s[i] == c {
            proof {
                lemma_rfind(s@, c);
                assert(spec_rfind(s@, c) == i) by {
                    if spec_rfind(s@, c) < i {
                        assert(s@[i as int] != c);
                    }
                    if spec_rfind(s@, c) > i {
                        assert(s@[spec_rfind(s@, c)] != c);
                    }
                }
            }
            return Some(i);
        }
    }
    proof {
        lemma_rfind(s@, c);
        if spec_rfind(s@, c) >= 0 {
            assert(s@[spec_rfind(s@, c)] != c);
        }
    }
    None
}

/// Length of the run of whitespace at the start of `s`.
pub open spec fn ws_prefix(s: Seq<char>) -> nat
    decreases s.len(),
{
    if s.len() == 0 || !is_ws(s[0]) {
        0
    } else {
        1 + ws_prefix(s.drop_first())
    }
}

/// Length of the run of whitespace at the end of `s`.
pub open spec fn ws_suffix(s: Seq<char>) -> nat
    decreases s.len(),
{
    if s.len() == 0 || !is_ws(s.last()) {
        0
    } else {
        1 + ws_suffix(s.drop_last())
    }
}

/// `s` with leading and trailing whitespace removed.
pub open spec fn spec_trim(s: Seq<char>) -> Seq<char> {
    if ws_prefix(s) == s.len() {
        Seq::empty()
    } else {
        s.subrange(ws_prefix(s) as int, s.len() - ws_suffix(s))
    }
}

pub proof fn lemma_ws_prefix_char(s: Seq<char>, x: int)
    requires
        0 <= x <= s.len(),
        forall|k: int| 0 <= k < x ==> is_ws(s[k]),
        x == s.len() || !is_ws(s[x]),
    ensures
        ws_prefix(s) == x,
    decreases s.len(),
{
    if s.len() == 0 {
    } else if x == 0 {
    } else {
        assert(is_ws(s[0]));
        lemma_ws_prefix_char(s.drop_first(), x - 1);
    }
}

pub proof fn lemma_ws_suffix_char(s: Seq<char>, x: int)
    requires
        0 <= x <= s.len(),
        forall|k: int| s.len() - x <= k < s.len() ==> is_ws(s[k]),
        x == s.len() || !is_ws(s[s.len() - x - 1]),
    ensures
        ws_suffix(s) == x,
    decreases s.len(),
{
    if s.len() == 0 {
    } else if x == 0 {
    } else {
        assert(is_ws(s.last()));
        lemma_ws_suffix_char(s.drop_last(), x - 1);
    }
}

/// `s` with surrounding spaces and tabs removed.
pub fn trim_chars(s: &Vec<char>) -> (r: Vec<char>)
    ensures
        r@ == spec_trim(s@),
{
    let n: usize = s.len();
    let mut a: usize = 0;
    while a < n && (s[a] == ' ' || s[a] == '\t')
        invariant
            n == s@.len(),
            a <= n,
            forall|k: int| 0 <= k < a ==> is_ws(s@[k]),
        decreases n - a,
    {
        a = a + 1;
    }
    proof {
        lemma_ws_prefix_char(s@, a as int);
    }
    if a == n {
        proof {
            assert(Seq::<char>::empty() =~= Seq::<char>::empty());
        }
        return Vec::new();
    }
    let mut b: usize = n;
    while b > a && (s[b - 1] == ' ' || s[b - 1] == '\t')
        invariant
            n == s@.len(),
            a <= b <= n,
            forall|k: int| b <= k < n ==> is_ws(s@[k]),
        decreases b,
    {
        b = b - 1;
    }
    proof {
        assert(!is_ws(s@[a as int]));
        if b == a {
            assert(!is_ws(s@[b as int]));
        }
        lemma_ws_suffix_char(s@, n - b);
    }
    let mut r: Vec<char> = Vec::new();
    let mut i: usize = a;
    while i < b
        invariant
            a <= i <= b <= s@.len(),
            r@ == s@.subrange(a as int, i as int),
        decreases b - i,
    {
        r.push(s[i]);
        i = i + 1;
        proof {
            assert(r@ =~= s@.subrange(a as int, i as int));
        }
    }
    r
}

/// Length of the run of non-separator characters at the start of `s`.
pub open spec fn word_len(s: Seq<char>, sep: char) -> nat
    decreases s.len(),
{
    if s.len() == 0 || s[0] == sep {
        0
    } else {
        1 + word_len(s.drop_first(), sep)
    }
}

pub proof fn lemma_word_len_le(s: Seq<char>, sep: char)
    ensures
        word_len(s, sep) <= s.len(),
        s.len() > 0 && s[0] != sep ==> word_len(s, sep) >= 1,
    decreases s.len(),
{
    if s.len() > 0 && s[0] != sep {
        lemma_word_len_le(s.drop_first(), sep);
    }
}

pub proof fn lemma_word_len_char(s: Seq<char>, sep: char, x: int)
    requires
        0 <= x <= s.len(),
        forall|k: int| 0 <= k < x ==> s[k] != sep,
        x == s.len() || s[x] == sep,
    ensures
        word_len(s, sep) == x,
    decreases s.len(),
{
    if s.len() == 0 {
    } else if x == 0 {
    } else {
        lemma_word_len_char(s.drop_first(), sep, x - 1);
    }
}

/// The non-empty words of `s`, split on `sep`.
pub open spec fn split_ne(s: Seq<char>, sep: char) -> Seq<Seq<char>>
    decreases s.len(),
    via split_ne_decreases
{
    if s.len() == 0 {
        Seq::empty()
    } else if s[0] == sep {
        split_ne(s.drop_first(), sep)
    } else {
        seq![s.take(word_len(s, sep) as int)] + split_ne(s.skip(word_len(s, sep) as int), sep)
    }
}

#[via_fn]
proof fn split_ne_decreases(s: Seq<char>, sep: char) {
    lemma_word_len_le(s, sep);
}

/// The words of `s@`, split on `sep`, dropping empty words.
pub fn split_chars(s: &Vec<char>, sep: char) -> (r: Vec<Vec<char>>)
    ensures
        r.deep_view() == split_ne(s@, sep),
{
    let n: usize = s.len();
    let mut r: Vec<Vec<char>> = Vec::new();
    let mut i: usize = 0;
    proof {
        assert(s@.skip(0) =~= s@);
    }
    while i < n
        invariant
            n == s@.len(),
            i <= n,
            r.deep_view() + split_ne(s@.skip(i as int), sep) == split_ne(s@, sep),
        decreases n - i,
    {
        if s[i] == sep {
            proof {
                assert(s@.skip(i as int).drop_first() =~= s@.skip(i + 1));
            }
            i = i + 1;
        } else {
            let start: usize = i;
            let mut j: usize = i;
            while j < n && s[j] != sep
                invariant
                    n == s@.len(),
                    start <= j <= n,
                    forall|k: int| start <= k < j ==> s@[k] != sep,
                decreases n - j,
            {
                j = j + 1;
            }
            let mut w: Vec<char> = Vec::new();
            let mut k: usize = start;
            while k < j
                invariant
                    start <= k <= j <= s@.len(),
                    w@ == s@.subrange(start as int, k as int),
                decreases j - k,
            {
                w.push(s[k]);
                k = k + 1;
                proof {
                    assert(w@ =~= s@.subrange(start as int, k as int));
                }
            }
            let ghost dv0 = r.deep_view();
            proof {
                let suf = s@.skip(start as int);
                lemma_word_len_char(suf, sep, j - start);
                assert(suf.take(j - start) =~= s@.subrange(start as int, j as int));
                assert(suf.skip(j - start) =~= s@.skip(j as int));
                assert(split_ne(suf, sep) == seq![w@] + split_ne(s@.skip(j as int), sep));
                assert((dv0.push(w@)) + split_ne(s@.skip(j as int), sep) =~= dv0 + split_ne(
                    suf,
                    sep,
                ));
            }
            r.push(w);
            proof {
                assert(r.deep_view() =~~= dv0.push(w@));
            }
            i = j;
        }
    }
    proof {
        assert(s@.skip(n as int) =~= Seq::<char>::empty());
        assert(r.deep_view() + Seq::<Seq<char>>::empty() =~= r.deep_view());
    }
    r
}

/// The words joined by `sep`.
pub open spec fn join_seq(parts: Seq<Seq<char>>, sep: char) -> Seq<char>
    decreases parts.len(),
{
    if parts.len() == 0 {
        Seq::empty()
    } else if parts.len() == 1 {
        parts[0]
    } else {
        parts[0] + seq![sep] + join_seq(parts.drop_first(), sep)
    }
}

pub proof fn lemma_join_push(parts: Seq<Seq<char>>, p: Seq<char>, sep: char)
    ensures
        join_seq(parts.push(p), sep) == if parts.len() == 0 {
            p
        } else {
            join_seq(parts, sep) + seq![sep] + p
        },
    decreases parts.len(),
{
    if parts.len() == 0 {
        assert(join_seq(parts.push(p), sep) == parts.push(p)[0]);
    } else {
        assert(parts.push(p).drop_first() =~= parts.drop_first().push(p));
        lemma_join_push(parts.drop_first(), p, sep);
        if parts.len() == 1 {
            assert(join_seq(parts.push(p), sep) =~= join_seq(parts, sep) + seq![sep] + p);
        } else {
            assert(join_seq(parts.push(p), sep) =~= join_seq(parts, sep) + seq![sep] + p);
        }
    }
}

/// Joins `parts[from..]` with `sep` between the words.
pub fn join_from(parts: &Vec<Vec<char>>, from: usize, sep: char) -> (r: Vec<char>)
    requires
        from <= parts@.len(),
    ensures
        r@ == join_seq(parts.deep_view().skip(from as int), sep),
{
    let mut r: Vec<char> = Vec::new();
    let mut i: usize = from;
    while i < parts.len()
        invariant
            from <= i <= parts@.len(),
            parts.deep_view().len() == parts@.len(),
            r@ == join_seq(parts.deep_view().subrange(from as int, i as int), sep),
        decreases parts@.len() - i,
    {
        if i > from {
            r.push(sep);
        }
        let mut k: usize = 0;
        let ghost base = r@;
        while k < parts[i].len()
            invariant
                i < parts@.len(),
                k <= parts@[i as int]@.len(),
                parts.deep_view().len() == parts@.len(),
                parts.deep_view()[i as int] == parts@[i as int]@,
                r@ == base + parts@[i as int]@.subrange(0, k as int),
            decreases parts@[i as int]@.len() - k,
        {
            let c = parts[i][k];
            r.push(c);
            k = k + 1;
            proof {
                assert(r@ =~= base + parts@[i as int]@.subrange(0, k as int));
            }
        }
        proof {
            let dv = parts.deep_view();
            let pre = dv.subrange(from as int, i as int);
            lemma_join_push(pre, dv[i as int], sep);
            assert(pre.push(dv[i as int]) =~= dv.subrange(from as int, i + 1));
            assert(parts@[i as int]@.subrange(0, parts@[i as int]@.len() as int) =~= dv[i as int]);
            if i > from {
                assert(r@ =~= join_seq(pre, sep) + seq![sep] + dv[i as int]);
            } else {
                assert(r@ =~= dv[i as int]);
            }
        }
        i = i + 1;
    }
    proof {
        assert(parts.deep_view().subrange(from as int, parts.deep_view().len() as int)
            =~= parts.deep_view().skip(from as int));
    }
    r
}

/// Lexicographic order on character sequences, by code point.
pub open spec fn lex_le(a: Seq<char>, b: Seq<char>) -> bool
    decreases a.len(),
{
    if a.len() == 0 {
        true
    } else if b.len() == 0 {
        false
    } else if a[0] != b[0] {
        a[0] < b[0]
    } else {
        lex_le(a.drop_first(), b.drop_first())
    }
}

/// Compares two strings lexicographically.
#[verifier::loop_isolation(false)]
pub fn lex_le_strings(a: &String, b: &String) -> (r: bool)
    ensures
        r == lex_le(a@, b@),
{
    let av = str_chars(a.as_str());
    let bv = str_chars(b.as_str());
    let mut i: usize = 0;
    proof {
        assert(av@.skip(0) =~= a@);
        assert(bv@.skip(0) =~= b@);
    }
    while i < av.len() && i < bv.len()
        invariant
            i <= av@.len(),
            i <= bv@.len(),
            forall|k: int| 0 <= k < i ==> av@[k] == bv@[k],
            lex_le(a@, b@) == lex_le(av@.skip(i as int), bv@.skip(i as int)),
        decreases av@.len() - i,
    {
        proof {
            assert(av@.skip(i as int)[0] == av@[i as int]);
            assert(bv@.skip(i as int)[0] == bv@[i as int]);
            assert(av@.skip(i as int).drop_first() =~= av@.skip(i + 1));
            assert(bv@.skip(i as int).drop_first() =~= bv@.skip(i + 1));
        }
        if av[i] < bv[i] {
            return true;
        }
        if av[i] > bv[i] {
            return false;
        }
        i = i + 1;
    }
    proof {
        if i >= av@.len() {
            assert(av@.skip(i as int).len() == 0);
        } else {
            assert(bv@.skip(i as int).len() == 0);
            assert(av@.skip(i as int).len() > 0);
        }
    }
    i >= av.len()
}

/// The words joined by a separator string.
pub open spec fn join_with(parts: Seq<Seq<char>>, sep: Seq<char>) -> Seq<char>
    decreases parts.len(),
{
    if parts.len() == 0 {
        Seq::empty()
    } else if parts.len() == 1 {
        parts[0]
    } else {
        parts[0] + sep + join_with(parts.drop_first(), sep)
    }
}

pub proof fn lemma_join_with_push(parts: Seq<Seq<char>>, p: Seq<char>, sep: Seq<char>)
    ensures
        join_with(parts.push(p), sep) == if parts.len() == 0 {
            p
        } else {
            join_with(parts, sep) + sep + p
        },
    decreases parts.len(),
{
    if parts.len() == 0 {
        assert(join_with(parts.push(p), sep) == parts.push(p)[0]);
    } else {
        assert(parts.push(p).drop_first() =~= parts.drop_first().push(p));
        lemma_join_with_push(parts.drop_first(), p, sep);
        if parts.len() == 1 {
            assert(join_with(parts.push(p), sep) =~= join_with(parts, sep) + sep + p);
        } else {
            assert(join_with(parts.push(p), sep) =~= join_with(parts, sep) + sep + p);
        }
    }
}

/// Joins strings with a separator between them.
#[verifier::loop_isolation(false)]
pub fn join_strings(parts: &Vec<String>, sep: &str) -> (r: String)
    ensures
        r@ == join_with(parts@.map_values(|v: String| v@), sep@),
{
    let ghost pv = parts@.map_values(|v: String| v@);
    let mut r = String::new();
    let mut i: usize = 0;
    proof {
        assert(pv.subrange(0, 0) =~= Seq::<Seq<char>>::empty());
    }
    while i < parts.len()
        invariant
            i <= parts@.len(),
            pv.len() == parts@.len(),
            r@ == join_with(pv.subrange(0, i as int), sep@),
        decreases parts@.len() - i,
    {
        if i > 0 {
            r.append(sep);
        }
        r.append(parts[i].as_str());
        proof {
            let pre = pv.subrange(0, i as int);
            lemma_join_with_push(pre, pv[i as int], sep@);
            assert(pre.push(pv[i as int]) =~= pv.subrange(0, i + 1));
        }
        i = i + 1;
    }
    proof {
        assert(pv.subrange(0, pv.len() as int) =~= pv);
    }
    r
}

pub proof fn lemma_find_char_props(s: Seq<char>, c: char)
    ensures
        -1 <= spec_find_char(s, c) < s.len(),
        spec_find_char(s, c) >= 0 ==> s[spec_find_char(s, c)] == c,
    decreases s.len(),
{
    if s.len() > 0 && s[0] != c {
        lemma_find_char_props(s.drop_first(), c);
    }
}

/// The pieces of `s` split on every occurrence of `sep`; empty pieces
/// are kept, and a string without separators is one piece.
pub open spec fn split_all(s: Seq<char>, sep: char) -> Seq<Seq<char>>
    decreases s.len(),
    via split_all_decreases
{
    let k = spec_find_char(s, sep);
    if k < 0 {
        seq![s]
    } else {
        seq![s.take(k)] + split_all(s.skip(k + 1), sep)
    }
}

#[via_fn]
proof fn split_all_decreases(s: Seq<char>, sep: char) {
    lemma_find_char_props(s, sep);
}

/// Splits `s` on every occurrence of `sep`, keeping empty pieces.
#[verifier::loop_isolation(false)]
pub fn split_all_chars(s: &Vec<char>, sep: char) -> (r: Vec<Vec<char>>)
    ensures
        r.deep_view() == split_all(s@, sep),
{
    let n: usize = s.len();
    let mut r: Vec<Vec<char>> = Vec::new();
    let mut from: usize = 0;
    proof {
        assert(s@.skip(0) =~= s@);
    }
    loop
        invariant
            from <= n == s@.len(),
            r.deep_view() + split_all(s@.skip(from as int), sep) == split_all(s@, sep),
        decreases n + 1 - from,
    {
        let ghost pre = r.deep_view();
        let ghost suf = s@.skip(from as int);
        match find_char(s, sep, from) {
            Some(k) => {
                proof {
                    assert forall|w: int| 0 <= w < k - from implies suf[w] != sep by {
                        assert(suf[w] == s@[from + w]);
                    }
                    assert(suf[k - from] == s@[k as int]);
                    lemma_find_char_at(suf, sep, k - from);
                    assert(suf.take(k - from) =~= s@.subrange(from as int, k as int));
                    assert(suf.skip(k - from + 1) =~= s@.skip(k + 1));
                }
                let piece = copy_range(s, from, k);
                r.push(piece);
                proof {
                    assert(r.deep_view() =~~= pre.push(s@.subrange(from as int, k as int)));
                    assert(r.deep_view() + split_all(s@.skip(k + 1), sep) =~~= pre + split_all(
                        suf,
                        sep,
                    ));
                }
                from = k + 1;
            },
            None => {
                proof {
                    assert forall|w: int| 0 <= w < suf.len() implies suf[w] != sep by {
                        assert(suf[w] == s@[from + w]);
                    }
                    lemma_find_char_none(suf, sep);
                    assert(suf.take(suf.len() as int) =~= s@.subrange(from as int, n as int));
                }
                let piece = copy_range(s, from, n);
                r.push(piece);
                proof {
                    assert(split_all(suf, sep) =~= seq![suf]);
                    assert(suf =~= s@.subrange(from as int, n as int));
                    assert(r.deep_view() =~~= pre.push(suf));
                    assert(r.deep_view() =~~= pre + split_all(suf, sep));
                }
                return r;
            },
        }
    }
}

/// The decimal digit character for `d` (`d < 10`).
pub open spec fn dec_digit(d: nat) -> char {
    ((48 + d) as u8) as char
}

/// The decimal rendering of `n`, most significant digit first.
pub open spec fn dec_str(n: nat) -> Seq<char>
    decreases n,
{
    if n < 10 {
        seq![dec_digit(n)]
    } else {
        dec_str(n / 10).push(dec_digit(n % 10))
    }
}

/// The decimal rendering of `n`.
pub fn usize_dec_chars(n: usize) -> (r: Vec<char>)
    ensures
        r@ == dec_str(n as nat),
    decreases n,
{
    if n < 10 {
        let d: u8 = (n as u8) + 48;
        let mut r: Vec<char> = Vec::new();
        r.push(d as char);
        proof {
            assert(r@ =~= dec_str(n as nat));
        }
        r
    } else {
        let mut r = usize_dec_chars(n / 10);
        let d: u8 = ((n % 10) as u8) + 48;
        r.push(d as char);
        r
    }
}

/// The upper-case hexadecimal digit character for `d` (`d < 16`).
pub open spec fn hex_digit(d: nat) -> char {
    if d < 10 {
        ((48 + d) as u8) as char
    } else {
        ((55 + d) as u8) as char
    }
}

/// The upper-case hexadecimal rendering of `n`, as `%X` prints it.
pub open spec fn hex_str(n: nat) -> Seq<char>
    decreases n,
{
    if n < 16 {
        seq![hex_digit(n)]
    } else {
        hex_str(n / 16).push(hex_digit(n % 16))
    }
}

/// The upper-case hexadecimal rendering of `n`.
pub fn usize_hex_chars(n: usize) -> (r: Vec<char>)
    ensures
        r@ == hex_str(n as nat),
    decreases n,
{
    if n < 16 {
        let d: u8 = if n < 10 {
            (n as u8) + 48
        } else {
            (n as u8) + 55
        };
        let mut r: Vec<char> = Vec::new();
        r.push(d as char);
        proof {
            assert(r@ =~= hex_str(n as nat));
        }
        r
    } else {
        let mut r = usize_hex_chars(n / 16);
        let m: usize = n % 16;
        let d: u8 = if m < 10 {
            (m as u8) + 48
        } else {
            (m as u8) + 55
        };
        r.push(d as char);
        r
    }
}

pub proof fn lemma_dec_str_digits(n: nat)
    ensures
        dec_str(n).len() >= 1,
        forall|k: int| 0 <= k < dec_str(n).len() ==> is_digit(#[trigger] dec_str(n)[k]),
    decreases n,
{
    if n < 10 {
        assert(dec_str(n) == seq![dec_digit(n)]);
        assert(dec_str(n)[0] == dec_digit(n));
        assert(is_digit(dec_digit(n)));
    } else {
        lemma_dec_str_digits(n / 10);
        assert(dec_str(n) == dec_str(n / 10).push(dec_digit(n % 10)));
        assert forall|k: int| 0 <= k < dec_str(n).len() implies is_digit(
            #[trigger] dec_str(n)[k],
        ) by {
            if k < dec_str(n / 10).len() {
                assert(dec_str(n)[k] == dec_str(n / 10)[k]);
            } else {
                assert(dec_str(n)[k] == dec_digit(n % 10));
                assert(is_digit(dec_digit((n % 10) as nat)));
            }
        }
    }
}

pub proof fn lemma_dec_val_dec_str(n: nat)
    ensures
        dec_val(dec_str(n)) == n,
    decreases n,
{
    if n < 10 {
        assert(dec_str(n) == seq![dec_digit(n)]);
        assert(dec_str(n).drop_last() =~= Seq::<char>::empty());
        assert(dec_val(Seq::<char>::empty()) == 0);
        assert(dec_str(n).last() == dec_digit(n));
        assert(dec_digit(n) as int - 48 == n);
    } else {
        lemma_dec_val_dec_str(n / 10);
        assert(dec_str(n) == dec_str(n / 10).push(dec_digit(n % 10)));
        assert(dec_str(n).drop_last() =~= dec_str(n / 10));
        assert(dec_str(n).last() == dec_digit(n % 10));
        assert(dec_digit((n % 10) as nat) as int - 48 == n % 10);
    }
}

/// True iff `c` is a decimal digit.
pub open spec fn is_digit(c: char) -> bool {
    '0' <= c && c <= '9'
}

/// True iff every character of `s` is a decimal digit.
pub open spec fn all_digits(s: Seq<char>) -> bool {
    forall|k: int| 0 <= k < s.len() ==> is_digit(s[k])
}

/// The number denoted by the digit string `s`.
pub open spec fn dec_val(s: Seq<char>) -> nat
    decreases s.len(),
{
    if s.len() == 0 {
        0
    } else {
        (dec_val(s.drop_last()) * 10 + (s.last() as int - 48)) as nat
    }
}

pub proof fn lemma_dec_val_take_le(s: Seq<char>, i: int)
    requires
        0 <= i <= s.len(),
        all_digits(s),
    ensures
        dec_val(s.take(i)) <= dec_val(s),
    decreases s.len() - i,
{
    if i < s.len() {
        assert(s.take(i + 1).drop_last() =~= s.take(i));
        assert(is_digit(s[i]));
        assert(s.take(i + 1).last() == s[i]);
        assert(dec_val(s.take(i + 1)) == dec_val(s.take(i)) * 10 + (s[i] as int - 48));
        lemma_dec_val_take_le(s, i + 1);
        if i + 1 == s.len() {
            assert(s.take(i + 1) =~= s);
        }
    } else {
        assert(s.take(i) =~= s);
    }
}

/// Parses `s` as a non-negative decimal number.  Returns `None` when `s` is
/// empty, holds a non-digit, or denotes a value above `usize::MAX`.
pub fn parse_usize(s: &Vec<char>) -> (r: Option<usize>)
    ensures
        match r {
            Some(v) => s@.len() > 0 && all_digits(s@) && v as nat == dec_val(s@),
            None => s@.len() == 0 || !all_digits(s@) || dec_val(s@) > usize::MAX,
        },
{
    let n: usize = s.len();
    if n == 0 {
        return None;
    }
    let mut val: usize = 0;
    let mut i: usize = 0;
    while i < n
        invariant
            n == s@.len(),
            i <= n,
            all_digits(s@.take(i as int)),
            val as nat == dec_val(s@.take(i as int)),
        decreases n - i,
    {
        let c = s[i];
        if c < '0' || c > '9' {
            return None;
        }
        let d: u8 = (c as u8) - 48;
        proof {
            assert(s@.take(i + 1).drop_last() =~= s@.take(i as int));
            if all_digits(s@) {
                lemma_dec_val_take_le(s@, i + 1);
            }
        }
        if val > (usize::MAX - (d as usize)) / 10 {
            proof {
                assert(val as nat * 10 + d as nat > usize::MAX) by (nonlinear_arith)
                    requires
                        val as nat > (usize::MAX as nat - d as nat) / 10,
                        d as nat <= 9,
                ;
            }
            return None;
        }
        val = val * 10 + (d as usize);
        i = i + 1;
    }
    proof {
        assert(s@.take(n as int) =~= s@);
    }
    Some(val)
}

} // verus!
