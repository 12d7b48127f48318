//! The HTTP/1.1 request parser: a pure function from the header block (a
//! request line, folded headers, a terminating empty line) to a structured
//! request, or an error carrying a one-based line and column.  Header
//! names are lower-cased, values trimmed and unfolded, and the target is
//! percent-decoded.

use crate::imap::pairs_view;
use crate::text::{
    all_digits, append_chars, chars_string, copy_range, dec_str, dec_val, is_digit, is_ws,
    lemma_dec_str_digits, lemma_dec_val_dec_str, lower_chars, lower_seq, parse_usize, spec_trim,
    str_chars, trim_chars, usize_dec_chars,
};
use vstd::prelude::*;

verus! {

/// A parsed request.  The body is filled in separately by the caller once
/// the declared content length has been read.
pub struct HttpRequest {
    pub method: String,
    pub major_version: u32,
    pub minor_version: u32,
    pub url: String,
    pub headers: Vec<(String, String)>,
    pub body: String,
}

/// The mathematical model of a parsed request.
pub struct ReqData {
    pub method: Seq<char>,
    pub major: nat,
    pub minor: nat,
    pub url: Seq<char>,
    pub headers: Seq<(Seq<char>, Seq<char>)>,
    pub body: Seq<char>,
}

/// A parse failure: what was expected, and the character position.
pub struct ErrData {
    pub expected: Seq<char>,
    pub pos: int,
}

impl View for HttpRequest {
    type V = ReqData;

    open spec fn view(&self) -> ReqData {
        ReqData {
            method: self.method@,
            major: self.major_version as nat,
            minor: self.minor_version as nat,
            url: self.url@,
            headers: pairs_view(self.headers@),
            body: self.body@,
        }
    }
}

/// The first position at or after `i` where `pred` fails or the input
/// ends.
pub open spec fn scan(s: Seq<char>, i: int, pred: spec_fn(char) -> bool) -> int
    decreases s.len() - i,
    when 0 <= i <= s.len()
{
    if i >= s.len() || !pred(s[i]) {
        i
    } else {
        scan(s, i + 1, pred)
    }
}

pub proof fn lemma_scan(s: Seq<char>, i: int, pred: spec_fn(char) -> bool)
    requires
        0 <= i <= s.len(),
    ensures
        i <= scan(s, i, pred) <= s.len(),
        forall|k: int| i <= k < scan(s, i, pred) ==> pred(s[k]),
        scan(s, i, pred) < s.len() ==> !pred(s[scan(s, i, pred)]),
    decreases s.len() - i,
{
    if i < s.len() && pred(s[i]) {
        lemma_scan(s, i + 1, pred);
    }
}

pub proof fn lemma_scan_is(s: Seq<char>, i: int, pred: spec_fn(char) -> bool, j: int)
    requires
        0 <= i <= j <= s.len(),
        forall|k: int| i <= k < j ==> pred(s[k]),
        j == s.len() || !pred(s[j]),
    ensures
        scan(s, i, pred) == j,
    decreases s.len() - i,
{
    if i < s.len() && pred(s[i]) {
        lemma_scan_is(s, i + 1, pred, j);
    }
}

/// First character of a method token: a letter or underscore.
pub open spec fn ident_start(c: char) -> bool {
    ('a' <= c && c <= 'z') || ('A' <= c && c <= 'Z') || c == '_'
}

/// Later characters of a method token: letters, digits, underscore.
pub open spec fn ident_rest(c: char) -> bool {
    ident_start(c) || is_digit(c)
}

/// True iff `c` is a hexadecimal digit.
pub open spec fn spec_is_hex(c: char) -> bool {
    ('a' <= c && c <= 'f') || ('A' <= c && c <= 'F') || ('0' <= c && c <= '9')
}

/// The value of the hexadecimal digit `c`.
pub open spec fn spec_hex_val(c: char) -> nat {
    if 'a' <= c && c <= 'f' {
        (c as nat - 'a' as nat + 10) as nat
    } else if 'A' <= c && c <= 'F' {
        (c as nat - 'A' as nat + 10) as nat
    } else {
        (c as int - '0' as int) as nat
    }
}

/// Percent-decoding of a target: `%` followed by one or two hex digits
/// yields the denoted byte; an unmatched `%` is kept literally.
pub open spec fn spec_decode(s: Seq<char>) -> Seq<char>
    decreases s.len(),
{
    if s.len() == 0 {
        Seq::empty()
    } else if s.len() >= 2 && s[0] == '%' && spec_is_hex(s[1]) {
        if s.len() >= 3 && spec_is_hex(s[2]) {
            seq![(((spec_hex_val(s[1]) * 16 + spec_hex_val(s[2])) as u8) as char)] + spec_decode(
                s.skip(3),
            )
        } else {
            seq![((spec_hex_val(s[1]) as u8) as char)] + spec_decode(s.skip(2))
        }
    } else {
        seq![s[0]] + spec_decode(s.skip(1))
    }
}

/// Characters allowed after the first character of a method token.
pub open spec fn ident_pred() -> spec_fn(char) -> bool {
    |c: char| ident_rest(c)
}

/// Spaces and tabs.
pub open spec fn ws_pred() -> spec_fn(char) -> bool {
    |c: char| is_ws(c)
}

/// Characters allowed in a target: anything but a space.
pub open spec fn nonspace_pred() -> spec_fn(char) -> bool {
    |c: char| c != ' '
}

/// Decimal digits.
pub open spec fn digit_pred() -> spec_fn(char) -> bool {
    |c: char| is_digit(c)
}

/// Characters allowed in a header name: anything but a colon.
pub open spec fn noncolon_pred() -> spec_fn(char) -> bool {
    |c: char| c != ':'
}

/// Characters allowed in a header value: anything but CR or LF.
pub open spec fn line_pred() -> spec_fn(char) -> bool {
    |c: char| c != '\r' && c != '\n'
}

/// How many characters of `lit` match `s` at `i`, counting from `k`.
pub open spec fn prefix_len(s: Seq<char>, i: int, lit: Seq<char>, k: int) -> int
    decreases lit.len() - k,
    when 0 <= k <= lit.len()
{
    if k >= lit.len() || i + k >= s.len() || s[i + k] != lit[k] {
        k
    } else {
        prefix_len(s, i, lit, k + 1)
    }
}

proof fn lemma_prefix_len_is_from(s: Seq<char>, i: int, lit: Seq<char>, k: int, j: int)
    requires
        0 <= k <= j <= lit.len(),
        0 <= i,
        i + j <= s.len(),
        s.subrange(i + k, i + j) == lit.subrange(k, j),
        j == lit.len() || i + j == s.len() || s[i + j] != lit[j],
    ensures
        prefix_len(s, i, lit, k) == j,
    decreases j - k,
{
    if k < j {
        assert(s[i + k] == lit[k]) by {
            vstd::seq::axiom_seq_subrange_index::<char>(s, i + k, i + j, 0);
            vstd::seq::axiom_seq_subrange_index::<char>(lit, k, j, 0);
        }
        assert(s.subrange(i + k + 1, i + j) =~= lit.subrange(k + 1, j)) by {
            assert forall|w: int| 0 <= w < j - k - 1 implies #[trigger] s.subrange(
                i + k + 1,
                i + j,
            )[w] == lit.subrange(k + 1, j)[w] by {
                vstd::seq::axiom_seq_subrange_index::<char>(s, i + k, i + j, w + 1);
                vstd::seq::axiom_seq_subrange_index::<char>(lit, k, j, w + 1);
                vstd::seq::axiom_seq_subrange_index::<char>(s, i + k + 1, i + j, w);
                vstd::seq::axiom_seq_subrange_index::<char>(lit, k + 1, j, w);
            }
        }
        lemma_prefix_len_is_from(s, i, lit, k + 1, j);
    }
}

/// The match length of `lit` against `s` at `i` is `j` exactly when the
/// first `j` characters agree and the next one (if any) does not.
pub proof fn lemma_prefix_len_is(s: Seq<char>, i: int, lit: Seq<char>, j: int)
    requires
        0 <= j <= lit.len(),
        0 <= i,
        i + j <= s.len(),
        s.subrange(i, i + j) == lit.subrange(0, j),
        j == lit.len() || i + j == s.len() || s[i + j] != lit[j],
    ensures
        prefix_len(s, i, lit, 0) == j,
{
    lemma_prefix_len_is_from(s, i, lit, 0, j);
}

/// True iff `s` holds CR LF at position `i`.
pub open spec fn has_crnl(s: Seq<char>, i: int) -> bool {
    i + 2 <= s.len() && s[i] == '\r' && s[i + 1] == '\n'
}

/// The folded continuation lines of a header value, starting at `i`: each
/// is CR LF, one space or tab, then at least one line character, and
/// contributes a single space plus its trimmed text.  Returns the
/// assembled continuation text and the position after the last one.
pub open spec fn conts(s: Seq<char>, i: int) -> (Seq<char>, int)
    decreases s.len() - i,
    when 0 <= i <= s.len()
    via conts_decreases
{
    if has_crnl(s, i) && i + 2 < s.len() && is_ws(s[i + 2]) && scan(s, i + 3, line_pred()) > i
        + 3 {
        let ve = scan(s, i + 3, line_pred());
        let rest = conts(s, ve);
        (seq![' '] + spec_trim(s.subrange(i + 3, ve)) + rest.0, rest.1)
    } else {
        (Seq::empty(), i)
    }
}

#[via_fn]
proof fn conts_decreases(s: Seq<char>, i: int) {
    if has_crnl(s, i) && i + 2 < s.len() && is_ws(s[i + 2]) {
        lemma_scan(s, i + 3, line_pred());
    }
}

pub proof fn lemma_conts_bounds(s: Seq<char>, i: int)
    requires
        0 <= i <= s.len(),
    ensures
        i <= conts(s, i).1 <= s.len(),
    decreases s.len() - i,
{
    if has_crnl(s, i) && i + 2 < s.len() && is_ws(s[i + 2]) && scan(s, i + 3, line_pred()) > i
        + 3 {
        lemma_scan(s, i + 3, line_pred());
        lemma_conts_bounds(s, scan(s, i + 3, line_pred()));
    }
}

/// One header: a non-empty run of non-colon characters, a colon, a
/// non-empty value, any folded continuations, then CR LF.  The name is
/// lower-cased; the value is trimmed and joined with its continuations.
pub open spec fn try_header(s: Seq<char>, i: int) -> Option<(Seq<char>, Seq<char>, int)> {
    let n_end = scan(s, i, noncolon_pred());
    if n_end == i || n_end >= s.len() {
        None
    } else {
        let v_end = scan(s, n_end + 1, line_pred());
        if v_end == n_end + 1 {
            None
        } else {
            let c = conts(s, v_end);
            if has_crnl(s, c.1) {
                Some(
                    (
                        lower_seq(s.subrange(i, n_end)),
                        spec_trim(s.subrange(n_end + 1, v_end)) + c.0,
                        c.1 + 2,
                    ),
                )
            } else {
                None
            }
        }
    }
}

pub proof fn lemma_try_header(s: Seq<char>, i: int)
    requires
        0 <= i <= s.len(),
    ensures
        try_header(s, i) matches Some(h) ==> i < h.2 <= s.len(),
{
    lemma_scan(s, i, noncolon_pred());
    let n_end = scan(s, i, noncolon_pred());
    if i < n_end < s.len() {
        lemma_scan(s, n_end + 1, line_pred());
        let v_end = scan(s, n_end + 1, line_pred());
        if v_end > n_end + 1 {
            lemma_conts_bounds(s, v_end);
        }
    }
}

/// Every header from position `i`, greedily, and the position after the
/// last one.
pub open spec fn parse_headers(s: Seq<char>, i: int) -> (Seq<(Seq<char>, Seq<char>)>, int)
    decreases s.len() - i,
    when 0 <= i <= s.len()
    via parse_headers_decreases
{
    match try_header(s, i) {
        Some(h) => {
            let rest = parse_headers(s, h.2);
            (seq![(h.0, h.1)] + rest.0, rest.1)
        },
        None => (Seq::empty(), i),
    }
}

#[via_fn]
proof fn parse_headers_decreases(s: Seq<char>, i: int) {
    lemma_try_header(s, i);
}

/// The parse of a whole request header block: request line, headers,
/// terminating empty line.  Anything after the empty line is ignored.
pub open spec fn spec_parse(s: Seq<char>) -> Result<ReqData, ErrData> {
    let m_end = scan(s, 0, ident_pred());
    if m_end == 0 || (s.len() > 0 && !ident_start(s[0])) {
        Err(ErrData { expected: "identifier"@, pos: 0 })
    } else {
        let i1 = scan(s, m_end, ws_pred());
        let u_end = scan(s, i1, nonspace_pred());
        if u_end == i1 {
            Err(ErrData { expected: "url"@, pos: i1 })
        } else {
            let i2 = scan(s, u_end, ws_pred());
            let p = prefix_len(s, i2, "HTTP/"@, 0);
            if p < 5 {
                Err(ErrData { expected: "'HTTP/'"@, pos: i2 + p })
            } else {
                let i3 = i2 + 5;
                let d1 = scan(s, i3, digit_pred());
                if d1 == i3 || dec_val(s.subrange(i3, d1)) > u32::MAX {
                    Err(ErrData { expected: "decimal number"@, pos: i3 })
                } else if !(d1 < s.len() && s[d1] == '.') {
                    Err(ErrData { expected: "'.'"@, pos: d1 })
                } else {
                    let i4 = d1 + 1;
                    let d2 = scan(s, i4, digit_pred());
                    if d2 == i4 || dec_val(s.subrange(i4, d2)) > u32::MAX {
                        Err(ErrData { expected: "decimal number"@, pos: i4 })
                    } else {
                        let q = prefix_len(s, d2, "\r\n"@, 0);
                        if q < 2 {
                            Err(ErrData { expected: "end of line"@, pos: d2 + q })
                        } else {
                            let h = parse_headers(s, d2 + 2);
                            let q2 = prefix_len(s, h.1, "\r\n"@, 0);
                            if q2 < 2 {
                                Err(ErrData { expected: "end of line"@, pos: h.1 + q2 })
                            } else {
                                Ok(
                                    ReqData {
                                        method: s.subrange(0, m_end),
                                        major: dec_val(s.subrange(i3, d1)),
                                        minor: dec_val(s.subrange(i4, d2)),
                                        url: spec_decode(s.subrange(i1, u_end)),
                                        headers: h.0,
                                        body: Seq::empty(),
                                    },
                                )
                            }
                        }
                    }
                }
            }
        }
    }
}

/// The index of the last LF before `pos`, or -1.
pub open spec fn last_nl(s: Seq<char>, pos: int) -> int
    decreases pos,
    when 0 <= pos <= s.len()
{
    if pos <= 0 {
        -1
    } else if s[pos - 1] == '\n' {
        pos - 1
    } else {
        last_nl(s, pos - 1)
    }
}

/// The number of LF characters before `pos`.
pub open spec fn count_nl(s: Seq<char>, pos: int) -> nat
    decreases pos,
    when 0 <= pos <= s.len()
{
    if pos <= 0 {
        0
    } else {
        count_nl(s, pos - 1) + if s[pos - 1] == '\n' {
            1nat
        } else {
            0nat
        }
    }
}

/// The one-based line of character position `pos`.
pub open spec fn line_of(s: Seq<char>, pos: int) -> nat {
    count_nl(s, pos) + 1
}

/// The one-based column of character position `pos`.
pub open spec fn col_of(s: Seq<char>, pos: int) -> int {
    pos - last_nl(s, pos)
}

/// The message reported for a parse failure.
pub open spec fn spec_err_string(s: Seq<char>, e: ErrData) -> Seq<char> {
    "Expected "@ + e.expected + " on line "@ + dec_str(line_of(s, e.pos)) + " col "@ + dec_str(
        col_of(s, e.pos) as nat,
    )
}

fn scan_ident_e(s: &Vec<char>, i: usize) -> (r: usize)
    requires
        i <= s@.len(),
    ensures
        r == scan(s@, i as int, ident_pred()),
        i <= r <= s@.len(),
{
    let n: usize = s.len();
    let mut j: usize = i;
    while j < n && (('a' <= s[j] && s[j] <= 'z') || ('A' <= s[j] && s[j] <= 'Z') || s[j] == '_'
        || ('0' <= s[j] && s[j] <= '9'))
        invariant
            i <= j <= n == s@.len(),
            forall|k: int| i <= k < j ==> ident_pred()(s@[k]),
        decreases n - j,
    {
        j = j + 1;
    }
    proof {
        lemma_scan_is(s@, i as int, ident_pred(), j as int);
    }
    j
}

fn scan_ws_e(s: &Vec<char>, i: usize) -> (r: usize)
    requires
        i <= s@.len(),
    ensures
        r == scan(s@, i as int, ws_pred()),
        i <= r <= s@.len(),
{
    let n: usize = s.len();
    let mut j: usize = i;
    while j < n && (s[j] == ' ' || s[j] == '\t')
        invariant
            i <= j <= n == s@.len(),
            forall|k: int| i <= k < j ==> ws_pred()(s@[k]),
        decreases n - j,
    {
        j = j + 1;
    }
    proof {
        lemma_scan_is(s@, i as int, ws_pred(), j as int);
    }
    j
}

fn scan_nonspace_e(s: &Vec<char>, i: usize) -> (r: usize)
    requires
        i <= s@.len(),
    ensures
        r == scan(s@, i as int, nonspace_pred()),
        i <= r <= s@.len(),
{
    let n: usize = s.len();
    let mut j: usize = i;
    while j < n && s[j] != ' '
        invariant
            i <= j <= n == s@.len(),
            forall|k: int| i <= k < j ==> nonspace_pred()(s@[k]),
        decreases n - j,
    {
        j = j + 1;
    }
    proof {
        lemma_scan_is(s@, i as int, nonspace_pred(), j as int);
    }
    j
}

fn scan_digits_e(s: &Vec<char>, i: usize) -> (r: usize)
    requires
        i <= s@.len(),
    ensures
        r == scan(s@, i as int, digit_pred()),
        i <= r <= s@.len(),
        forall|k: int| i <= k < r ==> is_digit(s@[k]),
{
    let n: usize = s.len();
    let mut j: usize = i;
    while j < n && '0' <= s[j] && s[j] <= '9'
        invariant
            i <= j <= n == s@.len(),
            forall|k: int| i <= k < j ==> digit_pred()(s@[k]),
            forall|k: int| i <= k < j ==> is_digit(s@[k]),
        decreases n - j,
    {
        j = j + 1;
    }
    proof {
        lemma_scan_is(s@, i as int, digit_pred(), j as int);
    }
    j
}

fn scan_noncolon_e(s: &Vec<char>, i: usize) -> (r: usize)
    requires
        i <= s@.len(),
    ensures
        r == scan(s@, i as int, noncolon_pred()),
        i <= r <= s@.len(),
{
    let n: usize = s.len();
    let mut j: usize = i;
    while j < n && s[j] != ':'
        invariant
            i <= j <= n == s@.len(),
            forall|k: int| i <= k < j ==> noncolon_pred()(s@[k]),
        decreases n - j,
    {
        j = j + 1;
    }
    proof {
        lemma_scan_is(s@, i as int, noncolon_pred(), j as int);
    }
    j
}

fn scan_line_e(s: &Vec<char>, i: usize) -> (r: usize)
    requires
        i <= s@.len(),
    ensures
        r == scan(s@, i as int, line_pred()),
        i <= r <= s@.len(),
{
    let n: usize = s.len();
    let mut j: usize = i;
    while j < n && s[j] != '\r' && s[j] != '\n'
        invariant
            i <= j <= n == s@.len(),
            forall|k: int| i <= k < j ==> line_pred()(s@[k]),
        decreases n - j,
    {
        j = j + 1;
    }
    proof {
        lemma_scan_is(s@, i as int, line_pred(), j as int);
    }
    j
}

fn crnl_at(s: &Vec<char>, i: usize) -> (r: bool)
    requires
        i <= s@.len(),
    ensures
        r == has_crnl(s@, i as int),
{
    s.len() >= 2 && i <= s.len() - 2 && s[i] == '\r' && s[i + 1] == '\n'
}

/// True iff `octet` is a hexadecimal digit.
pub fn is_hex(octet: char) -> (r: bool)
    ensures
        r == spec_is_hex(octet),
{
    ('a' <= octet && octet <= 'f') || ('A' <= octet && octet <= 'F') || ('0' <= octet && octet
        <= '9')
}

/// The value of the hexadecimal digit `octet`.
pub fn to_int(octet: char) -> (r: u8)
    requires
        spec_is_hex(octet),
    ensures
        r as nat == spec_hex_val(octet),
        r < 16,
{
    if 'a' <= octet && octet <= 'f' {
        (octet as u8) - ('a' as u8) + 10
    } else if 'A' <= octet && octet <= 'F' {
        (octet as u8) - ('A' as u8) + 10
    } else {
        (octet as u8) - ('0' as u8)
    }
}

/// Percent-decodes a target.
#[verifier::loop_isolation(false)]
pub fn decode(url: &Vec<char>) -> (r: Vec<char>)
    ensures
        r@ == spec_decode(url@),
{
    let n: usize = url.len();
    let mut r: Vec<char> = Vec::new();
    let mut i: usize = 0;
    proof {
        assert(url@.skip(0) =~= url@);
    }
    while i < n
        invariant
            i <= n,
            r@ + spec_decode(url@.skip(i as int)) == spec_decode(url@),
        decreases n - i,
    {
        let ghost suf = url@.skip(i as int);
        proof {
            assert(suf[0] == url@[i as int]);
            if suf.len() >= 2 {
                assert(suf[1] == url@[i + 1]);
            }
            if suf.len() >= 3 {
                assert(suf[2] == url@[i + 2]);
            }
        }
        if i + 1 < n && url[i] == '%' && is_hex(url[i + 1]) {
            if i + 2 < n && is_hex(url[i + 2]) {
                let c: u8 = to_int(url[i + 1]) * 16 + to_int(url[i + 2]);
                r.push(c as char);
                proof {
                    assert(suf.skip(3) =~= url@.skip(i + 3));
                    assert(r@ =~= (r@.drop_last()).push((((spec_hex_val(suf[1]) * 16
                        + spec_hex_val(suf[2])) as u8) as char)));
                    assert(r@ + spec_decode(url@.skip(i + 3)) =~= spec_decode(url@));
                }
                i = i + 3;
            } else {
                let c: u8 = to_int(url[i + 1]);
                r.push(c as char);
                proof {
                    assert(suf.skip(2) =~= url@.skip(i + 2));
                    assert(r@ + spec_decode(url@.skip(i + 2)) =~= spec_decode(url@));
                }
                i = i + 2;
            }
        } else {
            r.push(url[i]);
            proof {
                assert(suf.skip(1) =~= url@.skip(i + 1));
                assert(r@ + spec_decode(url@.skip(i + 1)) =~= spec_decode(url@));
            }
            i = i + 1;
        }
    }
    proof {
        assert(url@.skip(n as int) =~= Seq::<char>::empty());
        assert(r@ + Seq::<char>::empty() =~= r@);
    }
    r
}

/// How many characters of `lit` match `s` at `i`.
#[verifier::loop_isolation(false)]
fn match_lit(s: &Vec<char>, i: usize, lit: &Vec<char>) -> (p: usize)
    requires
        i <= s@.len(),
    ensures
        p <= lit@.len(),
        i + p <= s@.len(),
        p == prefix_len(s@, i as int, lit@, 0),
{
    let n: usize = s.len();
    let mut p: usize = 0;
    while p < lit.len() && i + p < n && s[i + p] == lit[p]
        invariant
            p <= lit@.len(),
            i + p <= s@.len(),
            forall|k: int| 0 <= k < p ==> i + k < s@.len() && s@[i + k] == lit@[k],
        decreases lit@.len() - p,
    {
        p = p + 1;
    }
    proof {
        assert(s@.subrange(i as int, i + p) =~= lit@.subrange(0, p as int)) by {
            assert forall|w: int| 0 <= w < p implies #[trigger] s@.subrange(i as int, i + p)[w]
                == lit@.subrange(0, p as int)[w] by {
                vstd::seq::axiom_seq_subrange_index::<char>(s@, i as int, i + p, w);
                vstd::seq::axiom_seq_subrange_index::<char>(lit@, 0, p as int, w);
            }
        }
        lemma_prefix_len_is(s@, i as int, lit@, p as int);
    }
    p
}

/// The folded continuations of a header value, and the position after
/// them.
#[verifier::loop_isolation(false)]
fn conts_e(s: &Vec<char>, i: usize) -> (r: (Vec<char>, usize))
    requires
        i <= s@.len(),
    ensures
        r.0@ == conts(s@, i as int).0,
        r.1 == conts(s@, i as int).1,
        i <= r.1 <= s@.len(),
{
    let n: usize = s.len();
    let mut acc: Vec<char> = Vec::new();
    let mut p: usize = i;
    loop
        invariant
            i <= p <= s@.len(),
            acc@ + conts(s@, p as int).0 == conts(s@, i as int).0,
            conts(s@, p as int).1 == conts(s@, i as int).1,
        decreases s@.len() - p,
    {
        if !(crnl_at(s, p) && n - p > 2 && (s[p + 2] == ' ' || s[p + 2] == '\t')) {
            break;
        }
        let ve = scan_line_e(s, p + 3);
        if ve == p + 3 {
            break;
        }
        let piece = trim_chars(&copy_range(s, p + 3, ve));
        let ghost acc0 = acc@;
        acc.push(' ');
        append_chars(&mut acc, &piece);
        proof {
            assert(conts(s@, p as int).0 == seq![' '] + spec_trim(s@.subrange(p + 3, ve as int))
                + conts(s@, ve as int).0);
            assert(acc@ =~= acc0 + (seq![' '] + spec_trim(s@.subrange(p + 3, ve as int))));
            assert(acc@ + conts(s@, ve as int).0 =~= acc0 + conts(s@, p as int).0);
        }
        p = ve;
    }
    proof {
        assert(conts(s@, p as int).0 =~= Seq::<char>::empty());
        assert(acc@ + Seq::<char>::empty() =~= acc@);
    }
    (acc, p)
}

/// One header at position `i`, if the input holds one.
#[verifier::loop_isolation(false)]
fn try_header_e(s: &Vec<char>, i: usize) -> (r: Option<(String, String, usize)>)
    requires
        i <= s@.len(),
    ensures
        match r {
            Some(h) => try_header(s@, i as int) == Some((h.0@, h.1@, h.2 as int)) && i < h.2
                <= s@.len(),
            None => try_header(s@, i as int) is None,
        },
{
    let n_end = scan_noncolon_e(s, i);
    if n_end == i || n_end >= s.len() {
        return None;
    }
    let v_end = scan_line_e(s, n_end + 1);
    if v_end == n_end + 1 {
        return None;
    }
    let c = conts_e(s, v_end);
    if !crnl_at(s, c.1) {
        return None;
    }
    let name = lower_chars(&copy_range(s, i, n_end));
    let mut value = trim_chars(&copy_range(s, n_end + 1, v_end));
    append_chars(&mut value, &c.0);
    Some((chars_string(&name), chars_string(&value), c.1 + 2))
}

/// Every header from position `i`, and the position after the last one.
#[verifier::loop_isolation(false)]
fn parse_headers_e(s: &Vec<char>, i: usize) -> (r: (Vec<(String, String)>, usize))
    requires
        i <= s@.len(),
    ensures
        pairs_view(r.0@) == parse_headers(s@, i as int).0,
        r.1 == parse_headers(s@, i as int).1,
        i <= r.1 <= s@.len(),
{
    let mut hs: Vec<(String, String)> = Vec::new();
    let mut p: usize = i;
    loop
        invariant
            i <= p <= s@.len(),
            pairs_view(hs@) + parse_headers(s@, p as int).0 == parse_headers(s@, i as int).0,
            parse_headers(s@, p as int).1 == parse_headers(s@, i as int).1,
        decreases s@.len() - p,
    {
        let ghost hv0 = pairs_view(hs@);
        match try_header_e(s, p) {
            Some(h) => {
                proof {
                    assert(parse_headers(s@, p as int).0 == seq![(h.0@, h.1@)] + parse_headers(
                        s@,
                        h.2 as int,
                    ).0);
                }
                let next = h.2;
                hs.push((h.0, h.1));
                proof {
                    assert(pairs_view(hs@) =~= hv0.push((hs@.last().0@, hs@.last().1@)));
                    assert(pairs_view(hs@) + parse_headers(s@, next as int).0 =~= hv0
                        + parse_headers(s@, p as int).0);
                }
                p = next;
            },
            None => {
                break;
            },
        }
    }
    proof {
        assert(parse_headers(s@, p as int).0 =~= Seq::<(Seq<char>, Seq<char>)>::empty());
        assert(pairs_view(hs@) + Seq::<(Seq<char>, Seq<char>)>::empty() =~= pairs_view(hs@));
    }
    (hs, p)
}

/// The denoted value of the digit run `s[a..b]`, when it fits a `u32`.
fn parse_version_num(s: &Vec<char>, a: usize, b: usize) -> (r: Option<u32>)
    requires
        a < b <= s@.len(),
        forall|k: int| a <= k < b ==> is_digit(s@[k]),
    ensures
        match r {
            Some(v) => v as nat == dec_val(s@.subrange(a as int, b as int)) && dec_val(
                s@.subrange(a as int, b as int),
            ) <= u32::MAX,
            None => dec_val(s@.subrange(a as int, b as int)) > u32::MAX,
        },
{
    let d = copy_range(s, a, b);
    proof {
        assert(all_digits(d@));
    }
    match parse_usize(&d) {
        Some(v) => {
            if v <= u32::MAX as usize {
                Some(v as u32)
            } else {
                None
            }
        },
        None => None,
    }
}

proof fn lemma_count_nl_le(s: Seq<char>, pos: int)
    requires
        0 <= pos <= s.len(),
    ensures
        count_nl(s, pos) <= pos,
        -1 <= last_nl(s, pos) < pos,
    decreases pos,
{
    if pos > 0 {
        lemma_count_nl_le(s, pos - 1);
    }
}

/// The one-based line and column of character position `pos`.
#[verifier::loop_isolation(false)]
fn line_col(s: &Vec<char>, pos: usize) -> (r: (usize, usize))
    requires
        pos <= s@.len(),
        s@.len() < usize::MAX,
    ensures
        r.0 == line_of(s@, pos as int),
        r.1 == col_of(s@, pos as int),
{
    let mut cnt: usize = 0;
    let mut nl_plus1: usize = 0;
    let mut k: usize = 0;
    while k < pos
        invariant
            k <= pos,
            cnt <= k,
            cnt == count_nl(s@, k as int),
            nl_plus1 == last_nl(s@, k as int) + 1,
        decreases pos - k,
    {
        if s[k] == '\n' {
            cnt = cnt + 1;
            nl_plus1 = k + 1;
        }
        k = k + 1;
    }
    proof {
        lemma_count_nl_le(s@, pos as int);
    }
    (cnt + 1, pos - nl_plus1 + 1)
}

/// The message reported for a parse failure: what was expected, and
/// where.
fn make_err(s: &Vec<char>, expected: &str, pos: usize) -> (r: String)
    requires
        pos <= s@.len(),
        s@.len() < usize::MAX,
    ensures
        r@ == spec_err_string(s@, ErrData { expected: expected@, pos: pos as int }),
{
    let lc = line_col(s, pos);
    let line_s = chars_string(&usize_dec_chars(lc.0));
    let col_s = chars_string(&usize_dec_chars(lc.1));
    let mut m = String::new();
    m.append("Expected ");
    m.append(expected);
    m.append(" on line ");
    m.append(line_s.as_str());
    m.append(" col ");
    m.append(col_s.as_str());
    proof {
        assert(lc.1 as nat == col_of(s@, pos as int) as nat);
    }
    m
}

/// Parses a request header block.  On failure the message names what was
/// expected and the one-based line and column of the failure.
pub fn parse_request(request: &str) -> (r: Result<HttpRequest, String>)
    requires
        request@.len() < usize::MAX,
    ensures
        match r {
            Ok(req) => spec_parse(request@) matches Ok(d) && req@ == d,
            Err(e) => spec_parse(request@) matches Err(d) && e@ == spec_err_string(request@, d),
        },
{
    let s = str_chars(request);
    let n: usize = s.len();
    let m_end = scan_ident_e(&s, 0);
    if m_end == 0 || !(('a' <= s[0] && s[0] <= 'z') || ('A' <= s[0] && s[0] <= 'Z') || s[0]
        == '_') {
        return Err(make_err(&s, "identifier", 0));
    }
    let i1 = scan_ws_e(&s, m_end);
    let u_end = scan_nonspace_e(&s, i1);
    if u_end == i1 {
        return Err(make_err(&s, "url", i1));
    }
    let i2 = scan_ws_e(&s, u_end);
    let http_lit = str_chars("HTTP/");
    let p = match_lit(&s, i2, &http_lit);
    if p < 5 {
        proof {
            reveal_strlit("HTTP/");
        }
        return Err(make_err(&s, "'HTTP/'", i2 + p));
    }
    proof {
        reveal_strlit("HTTP/");
    }
    let i3 = i2 + 5;
    let d1 = scan_digits_e(&s, i3);
    if d1 == i3 {
        return Err(make_err(&s, "decimal number", i3));
    }
    let major = match parse_version_num(&s, i3, d1) {
        Some(v) => v,
        None => {
            return Err(make_err(&s, "decimal number", i3));
        },
    };
    if !(d1 < n && s[d1] == '.') {
        return Err(make_err(&s, "'.'", d1));
    }
    let i4 = d1 + 1;
    let d2 = scan_digits_e(&s, i4);
    if d2 == i4 {
        return Err(make_err(&s, "decimal number", i4));
    }
    let minor = match parse_version_num(&s, i4, d2) {
        Some(v) => v,
        None => {
            return Err(make_err(&s, "decimal number", i4));
        },
    };
    let crnl_lit = str_chars("\r\n");
    let q = match_lit(&s, d2, &crnl_lit);
    if q < 2 {
        proof {
            reveal_strlit("\r\n");
        }
        return Err(make_err(&s, "end of line", d2 + q));
    }
    proof {
        reveal_strlit("\r\n");
    }
    let hp = parse_headers_e(&s, d2 + 2);
    let q2 = match_lit(&s, hp.1, &crnl_lit);
    if q2 < 2 {
        return Err(make_err(&s, "end of line", hp.1 + q2));
    }
    let method = chars_string(&copy_range(&s, 0, m_end));
    let url = chars_string(&decode(&copy_range(&s, i1, u_end)));
    let req = HttpRequest {
        method,
        major_version: major,
        minor_version: minor,
        url,
        headers: hp.0,
        body: String::new(),
    };
    proof {
        let d = spec_parse(request@)->Ok_0;
        assert(req@.headers == d.headers);
        assert(req@ == d);
    }
    Ok(req)
}

/// The serialized header lines: `name:value` terminated by CR LF.
pub open spec fn render_header_block(hs: Seq<(Seq<char>, Seq<char>)>) -> Seq<char>
    decreases hs.len(),
{
    if hs.len() == 0 {
        Seq::empty()
    } else {
        hs[0].0 + ":"@ + hs[0].1 + "\r\n"@ + render_header_block(hs.drop_first())
    }
}

/// A whole serialized request: request line, header lines, blank line.
pub open spec fn render_request(
    method: Seq<char>,
    major: nat,
    minor: nat,
    url: Seq<char>,
    hs: Seq<(Seq<char>, Seq<char>)>,
) -> Seq<char> {
    method + " "@ + url + " HTTP/"@ + dec_str(major) + "."@ + dec_str(minor) + "\r\n"@
        + render_header_block(hs) + "\r\n"@
}

/// A method the parser accepts: an identifier.
pub open spec fn wf_method(m: Seq<char>) -> bool {
    m.len() >= 1 && ident_start(m[0]) && forall|k: int| 0 <= k < m.len() ==> ident_rest(
        #[trigger] m[k],
    )
}

/// A target that survives the trip: no whitespace and no line breaks.
pub open spec fn wf_url(u: Seq<char>) -> bool {
    u.len() >= 1 && forall|k: int|
        0 <= k < u.len() ==> #[trigger] u[k] != ' ' && u[k] != '\t' && u[k] != '\r' && u[k]
            != '\n'
}

/// A header that survives the trip: a non-empty colon-free name already
/// lower-cased and not starting with whitespace, and a non-empty trimmed
/// single-line value.
pub open spec fn wf_header(n: Seq<char>, v: Seq<char>) -> bool {
    &&& n.len() >= 1
    &&& !is_ws(n[0])
    &&& lower_seq(n) == n
    &&& forall|k: int| 0 <= k < n.len() ==> #[trigger] n[k] != ':' && n[k] != '\r' && n[k] != '\n'
    &&& v.len() >= 1
    &&& spec_trim(v) == v
    &&& forall|k: int| 0 <= k < v.len() ==> #[trigger] v[k] != '\r' && v[k] != '\n'
}

pub open spec fn wf_headers(hs: Seq<(Seq<char>, Seq<char>)>) -> bool {
    forall|i: int| 0 <= i < hs.len() ==> wf_header((#[trigger] hs[i]).0, hs[i].1)
}

proof fn lemma_subrange_chars(s: Seq<char>, i: int, t: Seq<char>)
    requires
        0 <= i,
        i + t.len() <= s.len(),
        s.subrange(i, i + t.len()) == t,
    ensures
        forall|w: int| 0 <= w < t.len() ==> s[i + w] == #[trigger] t[w],
{
    assert forall|w: int| 0 <= w < t.len() implies s[i + w] == #[trigger] t[w] by {
        vstd::seq::axiom_seq_subrange_index::<char>(s, i, i + t.len(), w);
    }
}

proof fn lemma_chars_subrange(s: Seq<char>, i: int, t: Seq<char>)
    requires
        0 <= i,
        i + t.len() <= s.len(),
        forall|w: int| 0 <= w < t.len() ==> s[i + w] == #[trigger] t[w],
    ensures
        s.subrange(i, i + t.len()) == t,
{
    assert(s.subrange(i, i + t.len()) =~= t) by {
        assert forall|w: int| 0 <= w < t.len() implies #[trigger] s.subrange(i, i + t.len())[w]
            == t[w] by {
            vstd::seq::axiom_seq_subrange_index::<char>(s, i, i + t.len(), w);
        }
    }
}

proof fn lemma_parse_headers_render(s: Seq<char>, i: int, hs: Seq<(Seq<char>, Seq<char>)>)
    requires
        0 <= i,
        i + render_header_block(hs).len() + 2 == s.len(),
        s.subrange(i, i + render_header_block(hs).len()) == render_header_block(hs),
        s[s.len() - 2] == '\r',
        s[s.len() - 1] == '\n',
        wf_headers(hs),
    ensures
        parse_headers(s, i) == (hs, i + render_header_block(hs).len()),
    decreases hs.len(),
{
    reveal_strlit(":");
    reveal_strlit("\r\n");
    let rhb = render_header_block(hs);
    lemma_subrange_chars(s, i, rhb);
    if hs.len() == 0 {
        assert(rhb.len() == 0);
        assert(i + 2 == s.len());
        assert(s[i] == '\r' && s[i + 1] == '\n');
        lemma_scan_is(s, i, noncolon_pred(), s.len() as int);
        assert(try_header(s, i) is None);
        assert(parse_headers(s, i) == (Seq::<(Seq<char>, Seq<char>)>::empty(), i));
        assert(hs =~= Seq::<(Seq<char>, Seq<char>)>::empty());
    } else {
        let n = hs[0].0;
        let v = hs[0].1;
        assert(wf_header(n, v));
        let nl = n.len() as int;
        let vl = v.len() as int;
        let line = nl + 1 + vl + 2;
        let rest = render_header_block(hs.drop_first());
        assert(rhb == n + ":"@ + v + "\r\n"@ + rest);
        assert(rhb.len() == line + rest.len());
        // The characters of this header line.
        assert forall|w: int| 0 <= w < nl implies s[i + w] == #[trigger] n[w] by {
            assert(rhb[w] == n[w]);
        }
        assert(s[i + nl] == ':') by {
            assert(rhb[nl] == ":"@[0]);
        }
        assert forall|w: int| 0 <= w < vl implies s[i + nl + 1 + w] == #[trigger] v[w] by {
            assert(rhb[nl + 1 + w] == v[w]);
        }
        assert(s[i + nl + 1 + vl] == '\r') by {
            assert(rhb[nl + 1 + vl] == "\r\n"@[0]);
        }
        assert(s[i + nl + 1 + vl + 1] == '\n') by {
            assert(rhb[nl + 1 + vl + 1] == "\r\n"@[1]);
        }
        // The name scan stops at the colon.
        assert forall|k: int| i <= k < i + nl implies noncolon_pred()(s[k]) by {
            assert(s[k] == n[k - i]);
        }
        lemma_scan_is(s, i, noncolon_pred(), i + nl);
        let n_end = i + nl;
        // The value scan stops at the carriage return.
        assert forall|k: int| n_end + 1 <= k < n_end + 1 + vl implies line_pred()(s[k]) by {
            assert(s[k] == v[k - n_end - 1]);
        }
        lemma_scan_is(s, n_end + 1, line_pred(), n_end + 1 + vl);
        let v_end = n_end + 1 + vl;
        // No folded continuation follows: the next character after the
        // CR LF is a header name start or the final CR, never whitespace.
        assert(has_crnl(s, v_end));
        assert(v_end + 2 < s.len() ==> !is_ws(s[v_end + 2])) by {
            if v_end + 2 < s.len() {
                if hs.drop_first().len() == 0 {
                    assert(rest.len() == 0);
                    assert(v_end + 2 == i + rhb.len());
                    assert(s[v_end + 2] == '\r');
                } else {
                    let n2 = hs.drop_first()[0].0;
                    assert(wf_header(n2, hs.drop_first()[0].1)) by {
                        assert(hs.drop_first()[0] == hs[1]);
                    }
                    assert(rest == n2 + ":"@ + hs.drop_first()[0].1 + "\r\n"@
                        + render_header_block(hs.drop_first().drop_first()));
                    assert(rhb[line] == n2[0]);
                    assert(s[v_end + 2] == n2[0]);
                    assert(!is_ws(n2[0]));
                }
            }
        }
        assert(conts(s, v_end) == (Seq::<char>::empty(), v_end));
        assert(try_header(s, i) == Some(
            (
                lower_seq(s.subrange(i, n_end)),
                spec_trim(s.subrange(n_end + 1, v_end)) + Seq::<char>::empty(),
                v_end + 2,
            ),
        ));
        lemma_chars_subrange(s, i, n);
        assert(s.subrange(i, n_end) == n);
        lemma_chars_subrange(s, n_end + 1, v);
        assert(s.subrange(n_end + 1, v_end) == v);
        assert(spec_trim(v) + Seq::<char>::empty() =~= v);
        assert(try_header(s, i) == Some((n, v, v_end + 2)));
        // The rest of the block parses by induction.
        assert(s.subrange(i + line, i + line + rest.len()) == rest) by {
            assert forall|w: int| 0 <= w < rest.len() implies s[i + line + w] == #[trigger] rest[w]
                by {
                assert(rhb[line + w] == rest[w]);
            }
            lemma_chars_subrange(s, i + line, rest);
        }
        lemma_parse_headers_render(s, i + line, hs.drop_first());
        assert(parse_headers(s, i) == (
            seq![(n, v)] + hs.drop_first(),
            i + line + rest.len(),
        ));
        assert(seq![(n, v)] + hs.drop_first() =~= hs);
    }
}

/// The round-trip law: serializing a well-formed request and parsing it
/// back preserves the method, both version numbers, the (fully decoded)
/// target, the lower-cased names and trimmed values of every header, and
/// the (empty) body.
#[verifier::rlimit(80)]
pub proof fn lemma_parse_render_round_trip(
    method: Seq<char>,
    major: nat,
    minor: nat,
    url: Seq<char>,
    hs: Seq<(Seq<char>, Seq<char>)>,
)
    requires
        wf_method(method),
        wf_url(url),
        spec_decode(url) == url,
        major <= u32::MAX,
        minor <= u32::MAX,
        wf_headers(hs),
    ensures
        spec_parse(render_request(method, major, minor, url, hs)) == Ok::<ReqData, ErrData>(
            ReqData { method, major, minor, url, headers: hs, body: Seq::empty() },
        ),
{
    reveal_strlit(" ");
    reveal_strlit(" HTTP/");
    reveal_strlit("HTTP/");
    reveal_strlit(".");
    reveal_strlit("\r\n");
    let s = render_request(method, major, minor, url, hs);
    let m = method.len() as int;
    let u = url.len() as int;
    let d1s = dec_str(major);
    let d2s = dec_str(minor);
    lemma_dec_str_digits(major);
    lemma_dec_str_digits(minor);
    lemma_dec_val_dec_str(major);
    lemma_dec_val_dec_str(minor);
    let d1l = d1s.len() as int;
    let d2l = d2s.len() as int;
    let rhb = render_header_block(hs);
    let hl = rhb.len() as int;
    assert("HTTP/"@.subrange(0, 5) =~= "HTTP/"@);
    assert("\r\n"@.subrange(0, 2) =~= "\r\n"@);
    assert(s.len() == m + 1 + u + 6 + d1l + 1 + d2l + 2 + hl + 2);
    // The characters of each region of the serialized request.
    assert forall|k: int| 0 <= k < m implies s[k] == #[trigger] method[k] by {}
    assert(s[m] == ' ');
    assert forall|k: int| 0 <= k < u implies s[m + 1 + k] == #[trigger] url[k] by {}
    assert(s[m + 1 + u] == ' ');
    assert(s[m + 2 + u] == 'H');
    assert(s[m + 3 + u] == 'T');
    assert(s[m + 4 + u] == 'T');
    assert(s[m + 5 + u] == 'P');
    assert(s[m + 6 + u] == '/');
    let i3 = m + 7 + u;
    assert forall|k: int| 0 <= k < d1l implies s[i3 + k] == #[trigger] d1s[k] by {}
    assert(s[i3 + d1l] == '.');
    let i4 = i3 + d1l + 1;
    assert forall|k: int| 0 <= k < d2l implies s[i4 + k] == #[trigger] d2s[k] by {}
    let d2e = i4 + d2l;
    assert(s[d2e] == '\r');
    assert(s[d2e + 1] == '\n');
    let h0 = d2e + 2;
    assert forall|k: int| 0 <= k < hl implies s[h0 + k] == #[trigger] rhb[k] by {}
    assert(s[h0 + hl] == '\r');
    assert(s[h0 + hl + 1] == '\n');
    // The request-line scans land on the separators.
    assert forall|k: int| 0 <= k < m implies ident_pred()(s[k]) by {
        assert(s[k] == method[k]);
    }
    assert(!ident_rest(' ') && !is_digit(' '));
    lemma_scan_is(s, 0, ident_pred(), m);
    assert(ident_start(s[0]));
    assert(!is_ws(url[0]));
    lemma_scan_is(s, m, ws_pred(), m + 1);
    assert forall|k: int| m + 1 <= k < m + 1 + u implies nonspace_pred()(s[k]) by {
        assert(s[k] == url[k - m - 1]);
    }
    lemma_scan_is(s, m + 1, nonspace_pred(), m + 1 + u);
    lemma_scan_is(s, m + 1 + u, ws_pred(), m + 2 + u);
    let i2 = m + 2 + u;
    assert(s.subrange(i2, i2 + 5) == "HTTP/"@) by {
        assert forall|w: int| 0 <= w < 5 implies s[i2 + w] == #[trigger] ("HTTP/"@)[w] by {}
        lemma_chars_subrange(s, i2, "HTTP/"@);
    }
    lemma_prefix_len_is(s, i2, "HTTP/"@, 5);
    assert forall|k: int| i3 <= k < i3 + d1l implies digit_pred()(s[k]) by {
        assert(s[k] == d1s[k - i3]);
    }
    assert(!is_digit('.'));
    lemma_scan_is(s, i3, digit_pred(), i3 + d1l);
    assert(s.subrange(i3, i3 + d1l) == d1s) by {
        lemma_chars_subrange(s, i3, d1s);
    }
    assert forall|k: int| i4 <= k < i4 + d2l implies digit_pred()(s[k]) by {
        assert(s[k] == d2s[k - i4]);
    }
    assert(!is_digit('\r'));
    lemma_scan_is(s, i4, digit_pred(), i4 + d2l);
    assert(s.subrange(i4, i4 + d2l) == d2s) by {
        lemma_chars_subrange(s, i4, d2s);
    }
    assert(s.subrange(d2e, d2e + 2) == "\r\n"@) by {
        assert forall|w: int| 0 <= w < 2 implies s[d2e + w] == #[trigger] ("\r\n"@)[w] by {}
        lemma_chars_subrange(s, d2e, "\r\n"@);
    }
    lemma_prefix_len_is(s, d2e, "\r\n"@, 2);
    // The header block parses to exactly the given headers.
    assert(s.subrange(h0, h0 + hl) == rhb) by {
        lemma_chars_subrange(s, h0, rhb);
    }
    lemma_parse_headers_render(s, h0, hs);
    assert(s.subrange(h0 + hl, h0 + hl + 2) == "\r\n"@) by {
        assert forall|w: int| 0 <= w < 2 implies s[h0 + hl + w] == #[trigger] ("\r\n"@)[w] by {}
        lemma_chars_subrange(s, h0 + hl, "\r\n"@);
    }
    lemma_prefix_len_is(s, h0 + hl, "\r\n"@, 2);
    // The parsed fields are the serialized ones.
    assert(s.subrange(0, m) == method) by {
        lemma_chars_subrange(s, 0, method);
    }
    assert(s.subrange(m + 1, m + 1 + u) == url) by {
        lemma_chars_subrange(s, m + 1, url);
    }
    assert(spec_parse(s) == Ok::<ReqData, ErrData>(
        ReqData { method, major, minor, url, headers: hs, body: Seq::empty() },
    ));
}

} // verus!
