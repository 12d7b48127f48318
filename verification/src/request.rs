//! The request pipeline: splitting the target into path and query,
//! resolving a handler through routing with content-type negotiation,
//! building the response skeleton, expanding page templates, and framing
//! the final HTTP message.

use crate::configuration::{
    missing_view, static_view, Body, Handlers, HandlerKind, HandlerKindData, RespData, Request,
    Response, Rsrc,
};
use crate::connection::{ConnConfig, ConnData, RouteData};
use crate::http_parser::HttpRequest;
use crate::imap::{
    clone_pairs, pairs_view, spec_contains_key, spec_find, strs_view, Entries, IMap,
};
use crate::text::{
    chars_string, copy_range, dec_str, find_char, hex_str, lemma_find_char_at,
    lemma_find_char_none, spec_find_char, split_all, split_all_chars, spec_trim, str_chars,
    trim_chars, usize_dec_chars, usize_hex_chars,
};
use crate::uri_template::spec_match;
use crate::utils::{spec_normalize, spec_url_to_path, url_to_path};
use vstd::prelude::*;

verus! {

/// True iff every query fragment holds an `=`.
pub open spec fn all_have_eq(parts: Seq<Seq<char>>) -> bool {
    forall|k: int| 0 <= k < parts.len() ==> spec_find_char(#[trigger] parts[k], '=') >= 0
}

/// The key/value pairs of the query fragments, split on the first `=`.
pub open spec fn query_pairs(parts: Seq<Seq<char>>) -> Entries {
    parts.map_values(
        |p: Seq<char>| (p.take(spec_find_char(p, '=')), p.skip(spec_find_char(p, '=') + 1)),
    )
}

/// The target split into path and query parameters: the query is cut at
/// the first `?` and split on `&`; a malformed fragment (without `=`)
/// leaves the whole target as the path with no parameters.
pub open spec fn spec_parse_url(url: Seq<char>) -> (Seq<char>, Entries) {
    let q = spec_find_char(url, '?');
    if q < 0 {
        (url, Seq::empty())
    } else {
        let parts = split_all(url.skip(q + 1), '&');
        if all_have_eq(parts) {
            (url.take(q), query_pairs(parts))
        } else {
            (url, Seq::empty())
        }
    }
}

/// Splits a request target into its path and its query parameters.
#[verifier::loop_isolation(false)]
pub fn parse_url(url: &str) -> (r: (String, IMap))
    ensures
        (r.0@, r.1@) == spec_parse_url(url@),
{
    let cs = str_chars(url);
    let n: usize = cs.len();
    match find_char(&cs, '?', 0) {
        None => {
            proof {
                lemma_find_char_none(cs@, '?');
            }
            (url.to_owned(), IMap::new())
        },
        Some(q) => {
            proof {
                lemma_find_char_at(cs@, '?', q as int);
            }
            let query = copy_range(&cs, q + 1, n);
            proof {
                assert(query@ =~= url@.skip(q + 1));
            }
            let parts = split_all_chars(&query, '&');
            let ghost pv = parts.deep_view();
            let mut entries: Vec<(String, String)> = Vec::new();
            let mut i: usize = 0;
            while i < parts.len()
                invariant
                    i <= parts@.len(),
                    pv.len() == parts@.len(),
                    pv == parts.deep_view(),
                    entries@.len() == i,
                    forall|k: int| 0 <= k < i ==> spec_find_char(#[trigger] pv[k], '=') >= 0,
                    forall|k: int|
                        0 <= k < i ==> (#[trigger] entries@[k]).0@ == pv[k].take(
                            spec_find_char(pv[k], '='),
                        ) && entries@[k].1@ == pv[k].skip(spec_find_char(pv[k], '=') + 1),
                decreases parts@.len() - i,
            {
                proof {
                    assert(pv[i as int] == parts@[i as int]@);
                }
                match find_char(&parts[i], '=', 0) {
                    None => {
                        proof {
                            lemma_find_char_none(pv[i as int], '=');
                            assert(!all_have_eq(pv));
                        }
                        return (url.to_owned(), IMap::new());
                    },
                    Some(e) => {
                        proof {
                            lemma_find_char_at(pv[i as int], '=', e as int);
                        }
                        let pn: usize = parts[i].len();
                        let key = chars_string(&copy_range(&parts[i], 0, e));
                        let val = chars_string(&copy_range(&parts[i], e + 1, pn));
                        proof {
                            assert(key@ =~= pv[i as int].take(spec_find_char(pv[i as int], '=')));
                            assert(val@ =~= pv[i as int].skip(
                                spec_find_char(pv[i as int], '=') + 1,
                            ));
                        }
                        entries.push((key, val));
                    },
                }
                i = i + 1;
            }
            let path = chars_string(&copy_range(&cs, 0, q));
            proof {
                assert(all_have_eq(pv));
                assert(path@ =~= url@.take(q as int));
                assert(pairs_view(entries@) =~= query_pairs(pv));
            }
            (path, IMap { entries })
        },
    }
}

/// The initial response headers: content type, date, server banner, and
/// a no-cache directive when debugging is on.
pub open spec fn spec_initial_headers(
    mime: Seq<char>,
    now: Seq<char>,
    server: Seq<char>,
    debug: bool,
) -> Entries {
    seq![("Content-Type"@, mime), ("Date"@, now), ("Server"@, server)] + if debug {
        seq![("Cache-Control"@, "no-cache"@)]
    } else {
        Seq::empty()
    }
}

/// True iff the `debug` setting is exactly `"true"`.
pub open spec fn debug_on(settings: Entries) -> bool {
    spec_find(settings, "debug"@) == Some("true"@)
}

/// The initial template context: request path, status code and message,
/// request version.
pub open spec fn spec_initial_context(
    path: Seq<char>,
    code: Seq<char>,
    mesg: Seq<char>,
    version: Seq<char>,
) -> Entries {
    seq![
        ("request-path"@, path),
        ("status-code"@, code),
        ("status-mesg"@, mesg),
        ("request-version"@, version),
    ]
}

/// The response skeleton handed to a view handler: status line pieces,
/// the standard headers, an empty body, and the initial context.
pub fn make_initial_response(
    config: &ConnConfig,
    status_code: &str,
    status_mesg: &str,
    mime_type: &str,
    request: &Request,
    now: &str,
) -> (r: Response)
    ensures
        r@.status == status_code@ + " "@ + status_mesg@,
        r@.headers == spec_initial_headers(
            mime_type@,
            now@,
            config@.server_info,
            debug_on(config@.settings),
        ),
        r@.body == Seq::<char>::empty(),
        r@.template == Seq::<char>::empty(),
        r@.context == spec_initial_context(request.path@, status_code@, status_mesg@,
        request.version@),
{
    let mut headers: Vec<(String, String)> = Vec::new();
    headers.push((String::from_str("Content-Type"), mime_type.to_owned()));
    headers.push((String::from_str("Date"), now.to_owned()));
    headers.push((String::from_str("Server"), config.server_info.clone()));
    let debug_key = String::from_str("debug");
    let is_debug: bool = match config.settings.find(&debug_key) {
        Some(v) => *v == String::from_str("true"),
        None => false,
    };
    if is_debug {
        headers.push((String::from_str("Cache-Control"), String::from_str("no-cache")));
    }
    let mut context: Vec<(String, String)> = Vec::new();
    context.push((String::from_str("request-path"), request.path.clone()));
    context.push((String::from_str("status-code"), status_code.to_owned()));
    context.push((String::from_str("status-mesg"), status_mesg.to_owned()));
    context.push((String::from_str("request-version"), request.version.clone()));
    let mut status = status_code.to_owned();
    status.append(" ");
    status.append(status_mesg);
    let body = String::new();
    let r = Response {
        status,
        headers,
        body: Body::StringBody(body),
        template: String::new(),
        context,
    };
    proof {
        reveal_strlit("");
        assert(is_debug == debug_on(config@.settings));
        assert(r@.headers =~= spec_initial_headers(
            mime_type@,
            now@,
            config@.server_info,
            debug_on(config@.settings),
        ));
        assert(r@.context =~= spec_initial_context(request.path@, status_code@, status_mesg@,
        request.version@));
        assert(r@.body =~= Seq::<char>::empty());
        assert(r@.template =~= Seq::<char>::empty());
    }
    r
}

/// True iff some header is named `Content-Length`.
pub open spec fn spec_has_cl(hs: Entries) -> bool {
    exists|k: int| 0 <= k < hs.len() && (#[trigger] hs[k]).0 == "Content-Length"@
}

/// True iff a `Transfer-Encoding: chunked` header is present.
pub open spec fn spec_chunked(hs: Entries) -> bool {
    exists|k: int|
        0 <= k < hs.len() && (#[trigger] hs[k]).0 == "Transfer-Encoding"@ && hs[k].1
            == "chunked"@
}

/// The serialized header lines: a `Content-Length: 0` entry is rewritten
/// to the body's length.
pub open spec fn header_lines(hs: Entries, blen: nat) -> Seq<char>
    decreases hs.len(),
{
    if hs.len() == 0 {
        Seq::empty()
    } else {
        (if hs[0].0 == "Content-Length"@ && hs[0].1 == "0"@ {
            "Content-Length: "@ + dec_str(blen) + "\r\n"@
        } else {
            hs[0].0 + ": "@ + hs[0].1 + "\r\n"@
        }) + header_lines(hs.drop_first(), blen)
    }
}

/// The whole header block: status line, headers, a computed
/// `Content-Length` when none was set and the reply is not chunked, and
/// the blank separator line.
pub open spec fn spec_make_header(status: Seq<char>, hs: Entries, blen: nat) -> Seq<char> {
    "HTTP/1.1 "@ + status + "\r\n"@ + header_lines(hs, blen) + (if !spec_chunked(hs)
        && !spec_has_cl(hs) {
        "Content-Length: "@ + dec_str(blen) + "\r\n"@
    } else {
        Seq::empty()
    }) + "\r\n"@
}

/// The framed body: a single chunk when the reply is chunked, the body
/// itself otherwise.
pub open spec fn spec_framed_body(hs: Entries, body: Seq<char>) -> Seq<char> {
    if spec_chunked(hs) {
        hex_str(body.len()) + "\r\n"@ + body + "\r\n"@
    } else {
        body
    }
}

/// Serializes a response and a body into the message header block and
/// the framed body.  A chunked response must not also declare a content
/// length.
#[verifier::loop_isolation(false)]
pub fn make_header_and_body(response: &Response, body: &str) -> (r: (String, String))
    requires
        !(spec_chunked(response@.headers) && spec_has_cl(response@.headers)),
    ensures
        r.0@ == spec_make_header(response@.status, response@.headers, body@.len()),
        r.1@ == spec_framed_body(response@.headers, body@),
{
    let ghost hs = response@.headers;
    let body_chars = str_chars(body);
    let blen: usize = body_chars.len();
    let blen_str = chars_string(&usize_dec_chars(blen));
    let mut lines = String::new();
    let mut has_cl: bool = false;
    let mut chunked: bool = false;
    let mut i: usize = 0;
    proof {
        reveal_strlit("");
        assert(lines@ =~= Seq::<char>::empty());
        assert(hs.skip(0) =~= hs);
    }
    while i < response.headers.len()
        invariant
            i <= response.headers@.len(),
            hs.len() == response.headers@.len(),
            lines@ + header_lines(hs.skip(i as int), blen as nat) == header_lines(hs, blen as nat),
            has_cl == (exists|k: int| 0 <= k < i && (#[trigger] hs[k]).0 == "Content-Length"@),
            chunked == (exists|k: int|
                0 <= k < i && (#[trigger] hs[k]).0 == "Transfer-Encoding"@ && hs[k].1
                    == "chunked"@),
            blen_str@ == dec_str(blen as nat),
        decreases response.headers@.len() - i,
    {
        let ghost pre = lines@;
        proof {
            assert(hs.skip(i as int)[0] == hs[i as int]);
            assert(hs.skip(i as int).drop_first() =~= hs.skip(i + 1));
            assert(hs[i as int] == (response.headers@[i as int].0@,
            response.headers@[i as int].1@));
        }
        let name = &response.headers[i].0;
        let value = &response.headers[i].1;
        let is_cl = *name == String::from_str("Content-Length");
        if is_cl {
            has_cl = true;
        }
        if *name == String::from_str("Transfer-Encoding") && *value == String::from_str(
            "chunked",
        ) {
            chunked = true;
        }
        if is_cl && *value == String::from_str("0") {
            lines.append("Content-Length: ");
            lines.append(blen_str.as_str());
            lines.append("\r\n");
            proof {
                assert(lines@ =~= pre + ("Content-Length: "@ + dec_str(blen as nat) + "\r\n"@));
            }
        } else {
            lines.append(name.as_str());
            lines.append(": ");
            lines.append(value.as_str());
            lines.append("\r\n");
            proof {
                assert(lines@ =~= pre + (hs[i as int].0 + ": "@ + hs[i as int].1 + "\r\n"@));
            }
        }
        proof {
            assert(lines@ + header_lines(hs.skip(i + 1), blen as nat) =~= pre + header_lines(
                hs.skip(i as int),
                blen as nat,
            ));
        }
        i = i + 1;
    }
    proof {
        assert(hs.skip(hs.len() as int) =~= Seq::<(Seq<char>, Seq<char>)>::empty());
        assert(lines@ + Seq::<char>::empty() =~= lines@);
        assert(has_cl == spec_has_cl(hs));
        assert(chunked == spec_chunked(hs));
    }
    let mut header = String::from_str("HTTP/1.1 ");
    header.append(response.status.as_str());
    header.append("\r\n");
    header.append(lines.as_str());
    if !chunked && !has_cl {
        header.append("Content-Length: ");
        header.append(blen_str.as_str());
        header.append("\r\n");
    }
    header.append("\r\n");
    proof {
        assert(header@ =~= spec_make_header(response@.status, hs, body@.len()));
    }
    let out_body: String = if chunked {
        let mut b = chars_string(&usize_hex_chars(blen));
        b.append("\r\n");
        b.append(body);
        b.append("\r\n");
        b
    } else {
        body.to_owned()
    };
    proof {
        assert(out_body@ =~= spec_framed_body(hs, body@));
    }
    (header, out_body)
}

/// The framing laws of the serializer: the status line starts with
/// `HTTP/1.1 `; every content length it emits (rewritten or computed)
/// equals the body length; and a chunked response, which by contract
/// declares no content length, gets none added.
pub proof fn lemma_framing(status: Seq<char>, hs: Entries, blen: nat)
    ensures
        "HTTP/1.1 "@.is_prefix_of(spec_make_header(status, hs, blen)),
        spec_chunked(hs) ==> spec_make_header(status, hs, blen) == "HTTP/1.1 "@ + status
            + "\r\n"@ + header_lines(hs, blen) + "\r\n"@,
{
    let h = spec_make_header(status, hs, blen);
    assert(h.subrange(0, "HTTP/1.1 "@.len() as int) =~= "HTTP/1.1 "@);
    if spec_chunked(hs) {
        assert(h =~= "HTTP/1.1 "@ + status + "\r\n"@ + header_lines(hs, blen) + "\r\n"@);
    }
}

/// The default content type of a response.
pub open spec fn default_mime() -> Seq<char> {
    "text/html; charset=UTF-8"@
}

/// The mime type of a static file, by the extension of its file name;
/// `text/html` when there is no extension or no table entry.
pub open spec fn spec_path_to_type(table: Entries, path: Seq<char>) -> Seq<char> {
    let slash = crate::text::spec_rfind(path, '/');
    let dot = crate::text::spec_rfind(path, '.');
    if dot >= 0 && dot > slash {
        match spec_find(table, path.skip(dot)) {
            Some(mime) => mime,
            None => "text/html"@,
        }
    } else {
        "text/html"@
    }
}

/// Looks up the mime type for a request path by its extension.
pub fn path_to_type(config: &ConnConfig, path: &str) -> (r: String)
    ensures
        r@ == spec_path_to_type(config@.static_type_table, path@),
{
    let cs = str_chars(path);
    proof {
        crate::text::lemma_rfind(cs@, '/');
        crate::text::lemma_rfind(cs@, '.');
    }
    let slash = crate::text::rfind_char(&cs, '/');
    let dot = crate::text::rfind_char(&cs, '.');
    match dot {
        Some(d) => {
            let after_slash: bool = match slash {
                Some(sl) => d > sl,
                None => true,
            };
            if after_slash {
                let ext = chars_string(&copy_range(&cs, d, cs.len()));
                proof {
                    assert(ext@ =~= path@.skip(d as int));
                }
                match config.static_type_table.find(&ext) {
                    Some(mime) => mime.clone(),
                    None => String::from_str("text/html"),
                }
            } else {
                String::from_str("text/html")
            }
        },
        None => String::from_str("text/html"),
    }
}

/// The first matching route: same method, a non-empty template match,
/// and a mime type among the accepted ones.
pub open spec fn spec_route_match(
    routes: Seq<RouteData>,
    method: Seq<char>,
    path: Seq<char>,
    types: Seq<Seq<char>>,
) -> Option<(Seq<char>, Seq<char>, Entries)>
    decreases routes.len(),
{
    if routes.len() == 0 {
        None
    } else {
        let r = routes[0];
        if r.method == method && spec_match(path, r.template).len() > 0 && types.contains(
            r.mime_type,
        ) {
            Some((r.mime_type, r.route, spec_match(path, r.template)))
        } else {
            spec_route_match(routes.drop_first(), method, path, types)
        }
    }
}

/// One resolution outcome: status code and message, content type, the
/// chosen handler, and the captured template matches.
pub struct Resolution {
    pub code: Seq<char>,
    pub mesg: Seq<char>,
    pub mime: Seq<char>,
    pub kind: HandlerKindData,
    pub matches: Entries,
}

/// The route-or-missing fallback of handler resolution.
pub open spec fn spec_route_fallback(
    conn: ConnData,
    method: Seq<char>,
    path: Seq<char>,
    types: Seq<Seq<char>>,
) -> Resolution {
    match spec_route_match(conn.route_list, method, path, types) {
        Some(m) => Resolution {
            code: "200"@,
            mesg: "OK"@,
            mime: m.0 + "; charset=UTF-8"@,
            kind: HandlerKindData::Named(m.1),
            matches: m.2,
        },
        None => Resolution {
            code: "404"@,
            mesg: "Not Found"@,
            mime: default_mime(),
            kind: HandlerKindData::Missing,
            matches: Seq::empty(),
        },
    }
}

/// Handler resolution, as a function of the store's existence answers:
/// `answers[0]` is what the store said about the normalized path at this
/// level, and the rest belong to the nested error-page resolution.  An
/// unsupported version resolves the not-supported page; a path that
/// normalizes outside the resource root resolves the forbidden page; an
/// existing static file with an acceptable type is served statically;
/// otherwise the first acceptable route wins, and failing that the
/// missing handler answers.
pub open spec fn spec_find_handler(
    conn: ConnData,
    method: Seq<char>,
    path: Seq<char>,
    types: Seq<Seq<char>>,
    version: Seq<char>,
    fuel: nat,
    answers: Seq<bool>,
) -> Resolution
    decreases fuel,
{
    if fuel == 0 {
        Resolution {
            code: "200"@,
            mesg: "OK"@,
            mime: default_mime(),
            kind: HandlerKindData::Missing,
            matches: Seq::empty(),
        }
    } else if !"1."@.is_prefix_of(version) {
        let sub = spec_find_handler(
            conn,
            method,
            "not-supported.html"@,
            seq!["types/html"@],
            "1.1"@,
            (fuel - 1) as nat,
            answers.skip(1),
        );
        Resolution {
            code: "505"@,
            mesg: "HTTP Version Not Supported"@,
            mime: default_mime(),
            kind: sub.kind,
            matches: Seq::empty(),
        }
    } else {
        let full = spec_normalize(spec_url_to_path(conn.resources_root, path));
        if conn.resources_root.is_prefix_of(full) {
            let ex = answers.len() > 0 && answers[0];
            if ex {
                let mime = spec_path_to_type(conn.static_type_table, path);
                if types.contains("*/*"@) || types.contains(mime) {
                    Resolution {
                        code: "200"@,
                        mesg: "OK"@,
                        mime: mime + "; charset=UTF-8"@,
                        kind: HandlerKindData::Static,
                        matches: Seq::empty(),
                    }
                } else {
                    spec_route_fallback(conn, method, path, types)
                }
            } else {
                spec_route_fallback(conn, method, path, types)
            }
        } else {
            let sub = spec_find_handler(
                conn,
                method,
                "forbidden.html"@,
                seq!["types/html"@],
                version,
                (fuel - 1) as nat,
                answers.skip(1),
            );
            Resolution {
                code: "403"@,
                mesg: "Forbidden"@,
                mime: default_mime(),
                kind: sub.kind,
                matches: Seq::empty(),
            }
        }
    }
}

#[verifier::loop_isolation(false)]
fn route_fallback(
    config: &ConnConfig,
    method: &String,
    request_path: &String,
    types: &Vec<String>,
) -> (r: (String, String, String, HandlerKind, IMap))
    ensures
        ({
            let res = spec_route_fallback(config@, method@, request_path@, strs_view(types@));
            r.0@ == res.code && r.1@ == res.mesg && r.2@ == res.mime && r.3@ == res.kind
                && r.4@ == res.matches
        }),
{
    let ghost conn = config@;
    let ghost tv = strs_view(types@);
    let n: usize = config.route_list.len();
    let mut i: usize = 0;
    proof {
        assert(conn.route_list.skip(0) =~= conn.route_list);
    }
    while i < n
        invariant
            i <= n,
            n == config.route_list@.len(),
            conn.route_list.len() == n,
            spec_route_match(conn.route_list.skip(i as int), method@, request_path@, tv)
                == spec_route_match(conn.route_list, method@, request_path@, tv),
        decreases n - i,
    {
        proof {
            assert(conn.route_list.skip(i as int)[0] == conn.route_list[i as int]);
            assert(conn.route_list.skip(i as int).drop_first() =~= conn.route_list.skip(i + 1));
            assert(conn.route_list[i as int] == config.route_list@[i as int]@);
        }
        let entry = &config.route_list[i];
        if entry.method == *method {
            let m = crate::uri_template::match_template(request_path.as_str(), &entry.template);
            if m.size() > 0 {
                if contains_str(types, &entry.mime_type) {
                    let mut mime = entry.mime_type.clone();
                    mime.append("; charset=UTF-8");
                    return (
                        String::from_str("200"),
                        String::from_str("OK"),
                        mime,
                        HandlerKind::Named(entry.route.clone()),
                        m,
                    );
                }
            }
        }
        i = i + 1;
    }
    proof {
        assert(conn.route_list.skip(n as int) =~= Seq::<RouteData>::empty());
    }
    (
        String::from_str("404"),
        String::from_str("Not Found"),
        String::from_str("text/html; charset=UTF-8"),
        HandlerKind::Missing,
        IMap::new(),
    )
}

/// True iff some accepted type equals `x`.
fn contains_str(types: &Vec<String>, x: &String) -> (r: bool)
    ensures
        r == strs_view(types@).contains(x@),
{
    crate::imap::contains_string(types, x)
}

#[verifier::loop_isolation(false)]
fn find_handler_fueled<R: Rsrc>(
    config: &ConnConfig,
    rsrc: &mut R,
    method: &String,
    request_path: &String,
    types: &Vec<String>,
    version: &String,
    fuel: u8,
) -> (r: (String, String, String, HandlerKind, IMap, Ghost<Seq<bool>>))
    requires
        fuel >= 1,
    ensures
        ({
            let res = spec_find_handler(
                config@,
                method@,
                request_path@,
                strs_view(types@),
                version@,
                fuel as nat,
                r.5@,
            );
            r.0@ == res.code && r.1@ == res.mesg && r.2@ == res.mime && r.3@ == res.kind
                && r.4@ == res.matches
        }),
    decreases fuel,
{
    let ghost conn = config@;
    let one_dot = String::from_str("1.");
    let vchars = str_chars(version.as_str());
    let prefix_chars = str_chars(one_dot.as_str());
    let version_ok = crate::text::starts_with(&vchars, &prefix_chars);
    if !version_ok {
        if fuel == 1 {
            // Resolution of the error page itself never recurses again in
            // practice; with no fuel left, fall back to the missing page.
            let ghost answers = Seq::<bool>::empty();
            let r = (
                String::from_str("505"),
                String::from_str("HTTP Version Not Supported"),
                String::from_str("text/html; charset=UTF-8"),
                HandlerKind::Missing,
                IMap::new(),
                Ghost(answers),
            );
            proof {
                assert(spec_find_handler(
                    conn,
                    method@,
                    "not-supported.html"@,
                    seq!["types/html"@],
                    "1.1"@,
                    0,
                    answers.skip(1),
                ).kind == HandlerKindData::Missing);
            }
            return r;
        }
        let sub_path = String::from_str("not-supported.html");
        let mut sub_types: Vec<String> = Vec::new();
        sub_types.push(String::from_str("types/html"));
        let sub_version = String::from_str("1.1");
        let sub = find_handler_fueled(config, rsrc, method, &sub_path, &sub_types, &sub_version, fuel - 1);
        let ghost answers = seq![false] + sub.5@;
        proof {
            assert(strs_view(sub_types@) =~= seq!["types/html"@]);
            assert(answers.skip(1) =~= sub.5@);
        }
        return (
            String::from_str("505"),
            String::from_str("HTTP Version Not Supported"),
            String::from_str("text/html; charset=UTF-8"),
            sub.3,
            IMap::new(),
            Ghost(answers),
        );
    }
    let full = crate::utils::normalize(&url_to_path(&config.resources_root, request_path.as_str()));
    let root_chars = str_chars(config.resources_root.as_str());
    let full_chars = str_chars(full.as_str());
    if crate::text::starts_with(&full_chars, &root_chars) {
        let ex = crate::configuration::is_valid_rsrc(rsrc, &full);
        if ex {
            let mime = path_to_type(config, request_path.as_str());
            let star = String::from_str("*/*");
            if contains_str(types, &star) || contains_str(types, &mime) {
                let mut full_mime = mime;
                full_mime.append("; charset=UTF-8");
                let ghost answers = seq![true];
                return (
                    String::from_str("200"),
                    String::from_str("OK"),
                    full_mime,
                    HandlerKind::Static,
                    IMap::new(),
                    Ghost(answers),
                );
            }
            let fb = route_fallback(config, method, request_path, types);
            let ghost answers = seq![true];
            return (fb.0, fb.1, fb.2, fb.3, fb.4, Ghost(answers));
        }
        let fb = route_fallback(config, method, request_path, types);
        let ghost answers = seq![false];
        return (fb.0, fb.1, fb.2, fb.3, fb.4, Ghost(answers));
    }
    if fuel == 1 {
        let ghost answers = Seq::<bool>::empty();
        let r = (
            String::from_str("403"),
            String::from_str("Forbidden"),
            String::from_str("text/html; charset=UTF-8"),
            HandlerKind::Missing,
            IMap::new(),
            Ghost(answers),
        );
        proof {
            assert(spec_find_handler(
                conn,
                method@,
                "forbidden.html"@,
                seq!["types/html"@],
                version@,
                0,
                answers.skip(1),
            ).kind == HandlerKindData::Missing);
        }
        return r;
    }
    let sub_path = String::from_str("forbidden.html");
    let mut sub_types: Vec<String> = Vec::new();
    sub_types.push(String::from_str("types/html"));
    let sub = find_handler_fueled(config, rsrc, method, &sub_path, &sub_types, version, fuel - 1);
    let ghost answers = seq![false] + sub.5@;
    proof {
        assert(strs_view(sub_types@) =~= seq!["types/html"@]);
        assert(answers.skip(1) =~= sub.5@);
    }
    (
        String::from_str("403"),
        String::from_str("Forbidden"),
        String::from_str("text/html; charset=UTF-8"),
        sub.3,
        IMap::new(),
        Ghost(answers),
    )
}

/// Resolves a request to a handler, with the store's existence answers
/// reported alongside: status code and message, content type, handler
/// choice, and captured matches.
pub fn find_handler<R: Rsrc>(
    config: &ConnConfig,
    rsrc: &mut R,
    method: &String,
    request_path: &String,
    types: &Vec<String>,
    version: &String,
) -> (r: (String, String, String, HandlerKind, IMap, Ghost<Seq<bool>>))
    ensures
        ({
            let res = spec_find_handler(
                config@,
                method@,
                request_path@,
                strs_view(types@),
                version@,
                3,
                r.5@,
            );
            r.0@ == res.code && r.1@ == res.mesg && r.2@ == res.mime && r.3@ == res.kind
                && r.4@ == res.matches
        }),
{
    find_handler_fueled(config, rsrc, method, request_path, types, version, 3)
}

/// The first position at or after `from` where `a` is followed by `b`,
/// or -1.
pub open spec fn spec_find_pair(t: Seq<char>, a: char, b: char, from: int) -> int
    decreases t.len() - from,
    when 0 <= from <= t.len()
{
    if from + 2 > t.len() {
        -1
    } else if t[from] == a && t[from + 1] == b {
        from
    } else {
        spec_find_pair(t, a, b, from + 1)
    }
}

proof fn lemma_find_pair(t: Seq<char>, a: char, b: char, from: int)
    requires
        0 <= from <= t.len(),
    ensures
        spec_find_pair(t, a, b, from) == -1 || (from <= spec_find_pair(t, a, b, from)
            && spec_find_pair(t, a, b, from) + 2 <= t.len()),
    decreases t.len() - from,
{
    if from + 2 <= t.len() && !(t[from] == a && t[from + 1] == b) {
        lemma_find_pair(t, a, b, from + 1);
    }
}

/// Every `{{` opened at or after `from` is closed by a later `}}`.
pub open spec fn spec_curly_ok(t: Seq<char>, from: int) -> bool
    decreases t.len() - from,
    when 0 <= from <= t.len()
    via spec_curly_ok_decreases
{
    let i = spec_find_pair(t, '{', '{', from);
    if i < 0 {
        true
    } else {
        let j = spec_find_pair(t, '}', '}', i + 2);
        if j < 0 {
            false
        } else {
            spec_curly_ok(t, j + 2)
        }
    }
}

#[via_fn]
proof fn spec_curly_ok_decreases(t: Seq<char>, from: int) {
    lemma_find_pair(t, '{', '{', from);
    let i = spec_find_pair(t, '{', '{', from);
    if i >= 0 {
        lemma_find_pair(t, '}', '}', i + 2);
    }
}

fn find_pair_e(t: &Vec<char>, a: char, b: char, from: usize) -> (r: Option<usize>)
    requires
        from <= t@.len(),
    ensures
        match r {
            Some(i) => spec_find_pair(t@, a, b, from as int) == i && from <= i && i + 2
                <= t@.len(),
            None => spec_find_pair(t@, a, b, from as int) == -1,
        },
    decreases t@.len() - from,
{
    let n: usize = t.len();
    if n < 2 || from > n - 2 {
        return None;
    }
    if t[from] == a && t[from + 1] == b {
        return Some(from);
    }
    find_pair_e(t, a, b, from + 1)
}

/// True iff every `{{` in the text has a matching later `}}`.  The
/// template stage refuses unbalanced templates in debug mode, because
/// the engine cannot expand them.
pub fn match_curly_braces(text: &Vec<char>) -> (r: bool)
    ensures
        r == spec_curly_ok(text@, 0),
    decreases text@.len(),
{
    curly_from(text, 0)
}

fn curly_from(text: &Vec<char>, from: usize) -> (r: bool)
    requires
        from <= text@.len(),
    ensures
        r == spec_curly_ok(text@, from as int),
    decreases text@.len() - from,
{
    let n: usize = text.len();
    match find_pair_e(text, '{', '{', from) {
        None => true,
        Some(i) => {
            proof {
                assert(i + 2 <= text@.len());
            }
            match find_pair_e(text, '}', '}', i + 2) {
                None => false,
                Some(j) => {
                    proof {
                        assert(j + 2 <= text@.len());
                    }
                    curly_from(text, j + 2)
                },
            }
        },
    }
}

/// Whether the template check is on: a `debug` setting present and not
/// `"false"`.
pub open spec fn curly_check_on(settings: Entries) -> bool {
    spec_contains_key(settings, "debug"@) && spec_find(settings, "debug"@) != Some("false"@)
}

/// What loading a template yields, given what the store returned: in
/// checking mode an unbalanced template is a load error.
pub open spec fn spec_load_template(chk: bool, lr: Result<Seq<char>, Seq<char>>) -> Result<
    Seq<char>,
    Seq<char>,
> {
    match lr {
        Err(e) => Err(e),
        Ok(t) => if !chk || spec_curly_ok(t, 0) {
            Ok(t)
        } else {
            Err("mismatched curly braces"@)
        },
    }
}

/// Loads a template file; in debug mode an unbalanced template is
/// reported as an error rather than handed to the engine.
pub fn load_template<R: Rsrc>(config: &ConnConfig, rsrc: &mut R, path: &String) -> (r: Result<
    String,
    String,
>)
    ensures
        exists|lr: Result<Seq<char>, Seq<char>>|
            (match r {
                Ok(v) => Ok(v@),
                Err(e) => Err::<Seq<char>, Seq<char>>(e@),
            }) == #[trigger] spec_load_template(curly_check_on(config@.settings), lr),
{
    let debug_key = String::from_str("debug");
    let chk: bool = match config.settings.find(&debug_key) {
        Some(v) => !(*v == String::from_str("false")),
        None => false,
    };
    proof {
        assert(chk == curly_check_on(config@.settings));
    }
    match rsrc.load(path) {
        Err(e) => {
            let ghost lr: Result<Seq<char>, Seq<char>> = Err(e@);
            proof {
                assert((match Err::<String, String>(e) {
                    Ok(v) => Ok(v@),
                    Err(e2) => Err::<Seq<char>, Seq<char>>(e2@),
                }) == spec_load_template(curly_check_on(config@.settings), lr));
            }
            Err(e)
        },
        Ok(t) => {
            let ghost lr: Result<Seq<char>, Seq<char>> = Ok(t@);
            if chk {
                let tc = str_chars(t.as_str());
                if !match_curly_braces(&tc) {
                    let e = String::from_str("mismatched curly braces");
                    proof {
                        assert((match Err::<String, String>(e) {
                            Ok(v) => Ok(v@),
                            Err(e2) => Err::<Seq<char>, Seq<char>>(e2@),
                        }) == spec_load_template(curly_check_on(config@.settings), lr));
                    }
                    return Err(e);
                }
            }
            proof {
                assert((match Ok::<String, String>(t) {
                    Ok(v) => Ok::<Seq<char>, Seq<char>>(v@),
                    Err(e2) => Err(e2@),
                }) == spec_load_template(curly_check_on(config@.settings), lr));
            }
            Ok(t)
        },
    }
}

/// The leading directory of a template path: everything up to and
/// including the first slash, or the whole path without one.
pub open spec fn spec_url_dirname(path: Seq<char>) -> Seq<char> {
    let f = spec_find_char(path, '/');
    if f >= 0 {
        path.take(f + 1)
    } else {
        path
    }
}

/// The directory portion of a template path, for the `base-path` entry.
pub fn url_dirname(path: &str) -> (r: String)
    ensures
        r@ == spec_url_dirname(path@),
{
    let cs = str_chars(path);
    let n: usize = cs.len();
    match find_char(&cs, '/', 0) {
        Some(f) => {
            proof {
                lemma_find_char_at(cs@, '/', f as int);
                assert(f < n);
            }
            let head = chars_string(&copy_range(&cs, 0, f + 1));
            proof {
                assert(head@ =~= path@.take(f + 1));
            }
            head
        },
        None => {
            proof {
                lemma_find_char_none(cs@, '/');
            }
            path.to_owned()
        },
    }
}

/// The text rendered against a context when the safety check passed (and
/// the engine accepted the template), the text itself otherwise.
pub open spec fn spec_rendered_or(t: Seq<char>, ctx: Entries, sc: bool) -> Seq<char> {
    if sc {
        match crate::render::rendered_of(t, ctx) {
            Some(s) => s,
            None => t,
        }
    } else {
        t
    }
}

/// The base-path entry added before rendering: the URL of the directory
/// holding the template.
pub open spec fn spec_base_url(local: Seq<char>, port: int, template: Seq<char>) -> Seq<char> {
    "http://"@ + local + ":"@ + dec_str(port as nat) + "/"@ + spec_url_dirname(template) + "/"@
}

/// The second stage of template processing: outside an error response
/// with a non-empty context, add the base path and render the body.
pub open spec fn spec_template_stage2(
    conn: ConnData,
    resp: RespData,
    body: Seq<char>,
    local: Seq<char>,
    sc2: bool,
) -> (RespData, Seq<char>) {
    if !"403"@.is_prefix_of(resp.status) && resp.context.len() > 0 {
        let ctx = resp.context.push(("base-path"@, spec_base_url(local, conn.port, resp.template)));
        (
            RespData {
                status: resp.status,
                headers: resp.headers,
                body: resp.body,
                template: resp.template,
                context: ctx,
            },
            spec_rendered_or(body, ctx, sc2),
        )
    } else {
        (resp, body)
    }
}

/// What template processing produces, given the loader's answer `lr` and
/// the outcomes of the render-safety checks.
pub open spec fn spec_process_template(
    conn: ConnData,
    req_path: Seq<char>,
    req_version: Seq<char>,
    local: Seq<char>,
    resp0: RespData,
    lr: Result<Seq<char>, Seq<char>>,
    sce: bool,
    sc2: bool,
    now: Seq<char>,
) -> (RespData, Seq<char>) {
    match spec_load_template(curly_check_on(conn.settings), lr) {
        Ok(v) => spec_template_stage2(conn, resp0, v, local, sc2),
        Err(_) => {
            let ctx2 = seq![("request-path"@, req_path)];
            let body = spec_rendered_or(conn.read_error, ctx2, sce);
            let resp = RespData {
                status: "403"@ + " "@ + "Forbidden"@,
                headers: spec_initial_headers(
                    default_mime(),
                    now,
                    conn.server_info,
                    debug_on(conn.settings),
                ),
                body: Seq::empty(),
                template: Seq::empty(),
                context: spec_initial_context(req_path, "403"@, "Forbidden"@, req_version),
            };
            (resp, body)
        },
    }
}

/// Expands a handler's template: loads it (refusing an unbalanced one in
/// debug mode), falls back to the read-error page as `403 Forbidden` when
/// the load fails, and renders the result against the response's context
/// with a `base-path` entry added.
#[verifier::rlimit(30)]
pub fn process_template<R: Rsrc>(
    config: &ConnConfig,
    rsrc: &mut R,
    response: &Response,
    request: &Request,
    now: &str,
) -> (r: (Response, String, Ghost<(Result<Seq<char>, Seq<char>>, bool, bool)>))
    ensures
        (r.0@, r.1@) == spec_process_template(
            config@,
            request.path@,
            request.version@,
            request.local_addr@,
            response@,
            r.2@.0,
            r.2@.1,
            r.2@.2,
            now@,
        ),
{
    let ghost conn = config@;
    let path = url_to_path(&config.resources_root, response.template.as_str());
    let loaded = load_template(config, rsrc, &path);
    let ghost lr_w = choose|lr: Result<Seq<char>, Seq<char>>|
        (match loaded {
            Ok(ref v) => Ok(v@),
            Err(ref e) => Err::<Seq<char>, Seq<char>>(e@),
        }) == #[trigger] spec_load_template(curly_check_on(conn.settings), lr);
    match loaded {
        Ok(v) => {
            let resp = crate::configuration::clone_response(response);
            let status_chars = str_chars(resp.status.as_str());
            let code403 = str_chars("403");
            let is_err = crate::text::starts_with(&status_chars, &code403);
            if !is_err && resp.context.len() > 0 {
                let mut base = String::from_str("http://");
                base.append(request.local_addr.as_str());
                base.append(":");
                base.append(chars_string(&usize_dec_chars(config.port as usize)).as_str());
                base.append("/");
                base.append(url_dirname(resp.template.as_str()).as_str());
                base.append("/");
                proof {
                    assert(base@ =~= spec_base_url(request.local_addr@, conn.port, resp@.template));
                }
                let mut resp2 = resp;
                resp2.context.push((String::from_str("base-path"), base));
                proof {
                    assert(resp2@.context =~= response@.context.push(
                        ("base-path"@, spec_base_url(
                            request.local_addr@,
                            conn.port,
                            response@.template,
                        )),
                    ));
                }
                let vc = str_chars(v.as_str());
                let sc2 = crate::render::render_safe_check(&vc);
                let out: String = if sc2 {
                    match crate::render::render_template(v.as_str(), &resp2.context) {
                        Some(nb) => nb,
                        None => v,
                    }
                } else {
                    v
                };
                proof {
                    let picked = spec_process_template(
                        conn,
                        request.path@,
                        request.version@,
                        request.local_addr@,
                        response@,
                        lr_w,
                        false,
                        sc2,
                        now@,
                    );
                    assert((resp2@, out@) == picked);
                }
                return (resp2, out, Ghost((lr_w, false, sc2)));
            }
            proof {
                let picked = spec_process_template(
                    conn,
                    request.path@,
                    request.version@,
                    request.local_addr@,
                    response@,
                    lr_w,
                    false,
                    false,
                    now@,
                );
                assert((resp@, v@) == picked);
            }
            (resp, v, Ghost((lr_w, false, false)))
        },
        Err(_mesg) => {
            let mut context2: Vec<(String, String)> = Vec::new();
            context2.push((String::from_str("request-path"), request.path.clone()));
            let rc = str_chars(config.read_error.as_str());
            let sce = crate::render::render_safe_check(&rc);
            let body: String = if sce {
                match crate::render::render_template(config.read_error.as_str(), &context2) {
                    Some(b) => b,
                    None => config.read_error.clone(),
                }
            } else {
                config.read_error.clone()
            };
            proof {
                assert(pairs_view(context2@) =~= seq![("request-path"@, request.path@)]);
            }
            let resp = make_initial_response(
                config,
                "403",
                "Forbidden",
                "text/html; charset=UTF-8",
                request,
                now,
            );
            proof {
                let picked = spec_process_template(
                    conn,
                    request.path@,
                    request.version@,
                    request.local_addr@,
                    response@,
                    lr_w,
                    sce,
                    false,
                    now@,
                );
                assert(body@ == spec_rendered_or(conn.read_error, seq![("request-path"@, request.path@)], sce));
                assert((resp@, body@) == picked);
            }
            (resp, body, Ghost((lr_w, sce, false)))
        },
    }
}

/// The accepted content types of a request: the `accept` header split on
/// commas and trimmed, or `text/html` when absent.
pub open spec fn spec_accept_types(headers: Entries) -> Seq<Seq<char>> {
    match spec_find(headers, "accept"@) {
        Some(v) => split_all(v, ',').map_values(|p: Seq<char>| spec_trim(p)),
        None => seq!["text/html"@],
    }
}

/// The accepted types of a request, from its headers.
#[verifier::loop_isolation(false)]
pub fn accept_types(headers: &IMap) -> (r: Vec<String>)
    ensures
        strs_view(r@) == spec_accept_types(headers@),
{
    let accept_key = String::from_str("accept");
    match headers.find(&accept_key) {
        Some(v) => {
            let vc = str_chars(v.as_str());
            let parts = split_all_chars(&vc, ',');
            let ghost pv = parts.deep_view();
            let mut out: Vec<String> = Vec::new();
            let mut i: usize = 0;
            while i < parts.len()
                invariant
                    i <= parts@.len(),
                    pv == parts.deep_view(),
                    pv.len() == parts@.len(),
                    out@.len() == i,
                    forall|k: int| 0 <= k < i ==> out@[k]@ == spec_trim(#[trigger] pv[k]),
                decreases parts@.len() - i,
            {
                proof {
                    assert(pv[i as int] == parts@[i as int]@);
                }
                out.push(chars_string(&trim_chars(&parts[i])));
                i = i + 1;
            }
            proof {
                assert(strs_view(out@) =~= spec_accept_types(headers@));
            }
            out
        },
        None => {
            let mut out: Vec<String> = Vec::new();
            out.push(String::from_str("text/html"));
            proof {
                assert(strs_view(out@) =~= seq!["text/html"@]);
            }
            out
        },
    }
}

/// How the answer of `get_body` relates to the handler's response `h`
/// and the template-stage oracles: a set template is expanded, anything
/// else is returned with its body text.
pub open spec fn get_body_post(
    conn: ConnData,
    path: Seq<char>,
    version: Seq<char>,
    local: Seq<char>,
    now: Seq<char>,
    h: RespData,
    lr: Result<Seq<char>, Seq<char>>,
    sce: bool,
    sc2: bool,
    r0: RespData,
    r1: Seq<char>,
) -> bool {
    if h.template.len() > 0 {
        (r0, r1) == spec_process_template(conn, path, version, local, h, lr, sce, sc2, now)
    } else {
        r0 == h && r1 == h.body
    }
}

/// Computes a handler's answer for a request: delegates event-stream
/// requests to the stream subsystem; everything else runs handler
/// resolution, invokes the chosen handler on the response skeleton, and
/// expands its template when it set one.
pub fn get_body<R: Rsrc, H: Handlers>(
    config: &mut ConnConfig,
    rsrc: &mut R,
    handlers: &mut H,
    request: &Request,
    types: &Vec<String>,
    now: &str,
) -> (r: (Response, String, crate::sse::SseAction))
    ensures
        strs_view(types@).contains("text/event-stream"@) ==> {
            &&& r.2@ == crate::sse::spec_sse_action(
                old(config)@.sse_tasks,
                old(config)@.sse_openers,
                request.path@,
            )
            &&& r.1@ == "\n\n"@
            &&& ({
                let st = crate::sse::spec_sse_status(
                    old(config)@.sse_tasks,
                    old(config)@.sse_openers,
                    request.path@,
                );
                r.0@.status == st.0 + " "@ + st.1
            })
        },
        !strs_view(types@).contains("text/event-stream"@) ==> {
            &&& r.2@ is NoStream
            &&& final(config)@ == old(config)@
            &&& exists|h: RespData, lr: Result<Seq<char>, Seq<char>>, sce: bool, sc2: bool|
                #[trigger] get_body_post(
                    old(config)@,
                    request.path@,
                    request.version@,
                    request.local_addr@,
                    now@,
                    h,
                    lr,
                    sce,
                    sc2,
                    r.0@,
                    r.1@,
                )
        },
{
    let ghost conn0 = config@;
    let stream_type = String::from_str("text/event-stream");
    if contains_str(types, &stream_type) {
        let sse = crate::sse::process_sse(config, request, now);
        return sse;
    }
    let fh = find_handler(&*config, rsrc, &request.method, &request.path, types, &request.version);
    let response = make_initial_response(
        &*config,
        fh.0.as_str(),
        fh.1.as_str(),
        fh.2.as_str(),
        request,
        now,
    );
    let request2 = Request {
        version: request.version.clone(),
        method: request.method.clone(),
        local_addr: request.local_addr.clone(),
        remote_addr: request.remote_addr.clone(),
        path: request.path.clone(),
        matches: fh.4,
        params: IMap { entries: clone_pairs(&request.params.entries) },
        headers: IMap { entries: clone_pairs(&request.headers.entries) },
        body: request.body.clone(),
    };
    let response = match fh.3 {
        HandlerKind::Named(name) => handlers.handle(&*config, &name, &request2, response),
        HandlerKind::Static => static_view(&*config, rsrc, &request2, response),
        HandlerKind::Missing => missing_view(response),
    };
    let tlen: usize = response.template.as_str().unicode_len();
    if tlen > 0 {
        let (resp, body, w) = process_template(&*config, rsrc, &response, &request2, now);
        let out = (resp, body, crate::sse::SseAction::NoStream);
        proof {
            assert(config@ == conn0);
            assert(get_body_post(
                conn0,
                request.path@,
                request.version@,
                request.local_addr@,
                now@,
                response@,
                w@.0,
                w@.1,
                w@.2,
                out.0@,
                out.1@,
            ));
        }
        out
    } else {
        let body = response.body.to_str();
        let out = (response, body, crate::sse::SseAction::NoStream);
        proof {
            assert(config@ == conn0);
            let lr: Result<Seq<char>, Seq<char>> = Err(Seq::empty());
            assert(get_body_post(
                conn0,
                request.path@,
                request.version@,
                request.local_addr@,
                now@,
                out.0@,
                lr,
                false,
                false,
                out.0@,
                out.1@,
            ));
        }
        out
    }
}

/// Strips every `Content-Length` header; used before framing when a
/// handler declared both a chunked transfer and a content length.
fn strip_content_length(headers: &Vec<(String, String)>) -> (r: Vec<(String, String)>)
    ensures
        !spec_has_cl(pairs_view(r@)),
{
    let mut r: Vec<(String, String)> = Vec::new();
    let mut i: usize = 0;
    while i < headers.len()
        invariant
            forall|k: int|
                0 <= k < r@.len() ==> (#[trigger] pairs_view(r@)[k]).0 != "Content-Length"@,
        decreases headers@.len() - i,
    {
        if !(headers[i].0 == String::from_str("Content-Length")) {
            let ghost before = pairs_view(r@);
            r.push((headers[i].0.clone(), headers[i].1.clone()));
            proof {
                assert(pairs_view(r@) =~= before.push(
                    (headers@[i as int].0@, headers@[i as int].1@),
                ));
            }
        }
        i = i + 1;
    }
    r
}

fn header_flags(headers: &Vec<(String, String)>) -> (r: (bool, bool))
    ensures
        r.0 == spec_chunked(pairs_view(headers@)),
        r.1 == spec_has_cl(pairs_view(headers@)),
{
    let ghost hs = pairs_view(headers@);
    let mut chunked: bool = false;
    let mut has_cl: bool = false;
    let mut i: usize = 0;
    while i < headers.len()
        invariant
            i <= headers@.len(),
            hs.len() == headers@.len(),
            hs == pairs_view(headers@),
            chunked == (exists|k: int|
                0 <= k < i && (#[trigger] hs[k]).0 == "Transfer-Encoding"@ && hs[k].1
                    == "chunked"@),
            has_cl == (exists|k: int| 0 <= k < i && (#[trigger] hs[k]).0 == "Content-Length"@),
        decreases headers@.len() - i,
    {
        proof {
            assert(hs[i as int] == (headers@[i as int].0@, headers@[i as int].1@));
        }
        if headers[i].0 == String::from_str("Transfer-Encoding") && headers[i].1
            == String::from_str("chunked") {
            chunked = true;
        }
        if headers[i].0 == String::from_str("Content-Length") {
            has_cl = true;
        }
        i = i + 1;
    }
    (chunked, has_cl)
}

/// Services one parsed request: splits the target, negotiates the
/// accepted types, resolves and runs a handler (or the stream
/// subsystem), and frames the response.  Returns the message header
/// block, the framed body, and the stream action for the connection
/// loop.  A response that declares both a chunked transfer and a content
/// length keeps the chunked framing and loses the content length.
pub fn process_request<R: Rsrc, H: Handlers>(
    config: &mut ConnConfig,
    rsrc: &mut R,
    handlers: &mut H,
    request: HttpRequest,
    local_addr: &str,
    remote_addr: &str,
    now: &str,
) -> (r: (String, String, crate::sse::SseAction))
    ensures
        exists|resp: RespData, btxt: Seq<char>|
            !(spec_chunked(resp.headers) && spec_has_cl(resp.headers)) && r.0@
                == #[trigger] spec_make_header(resp.status, resp.headers, btxt.len()) && r.1@
                == spec_framed_body(resp.headers, btxt),
        ({
            let types = spec_accept_types(pairs_view(request.headers@));
            let path = spec_parse_url(request.url@).0;
            if types.contains("text/event-stream"@) {
                r.2@ == crate::sse::spec_sse_action(
                    old(config)@.sse_tasks,
                    old(config)@.sse_openers,
                    path,
                )
            } else {
                r.2@ is NoStream
            }
        }),
{
    let mut version = chars_string(&usize_dec_chars(request.major_version as usize));
    version.append(".");
    version.append(chars_string(&usize_dec_chars(request.minor_version as usize)).as_str());
    let (path, params) = parse_url(request.url.as_str());
    let headers = IMap { entries: request.headers };
    let request2 = Request {
        version,
        method: request.method,
        local_addr: local_addr.to_owned(),
        remote_addr: remote_addr.to_owned(),
        path,
        matches: IMap::new(),
        params,
        headers,
        body: request.body,
    };
    let types = accept_types(&request2.headers);
    let (mut response, body, action) = get_body(config, rsrc, handlers, &request2, &types, now);
    let flags = header_flags(&response.headers);
    if flags.0 && flags.1 {
        let stripped = strip_content_length(&response.headers);
        response.headers = stripped;
    }
    let (header, out_body) = make_header_and_body(&response, body.as_str());
    (header, out_body, action)
}

/// True iff a route accepts the request: same method, matching path,
/// acceptable mime type.
pub open spec fn route_matches(
    r: RouteData,
    method: Seq<char>,
    path: Seq<char>,
    types: Seq<Seq<char>>,
) -> bool {
    r.method == method && spec_match(path, r.template).len() > 0 && types.contains(r.mime_type)
}

/// The route-order law: when the route at `i` accepts the request, the
/// route that wins stands at or before `i` — of two accepting routes the
/// earlier one in the list wins.
pub proof fn lemma_route_order(
    routes: Seq<RouteData>,
    method: Seq<char>,
    path: Seq<char>,
    types: Seq<Seq<char>>,
    i: int,
)
    requires
        0 <= i < routes.len(),
        route_matches(routes[i], method, path, types),
    ensures
        exists|w: int|
            0 <= w <= i && route_matches(#[trigger] routes[w], method, path, types)
                && spec_route_match(routes, method, path, types) == Some(
                (routes[w].mime_type, routes[w].route, spec_match(path, routes[w].template)),
            ),
    decreases routes.len(),
{
    if route_matches(routes[0], method, path, types) {
        assert(routes[0] == routes[0]);
    } else {
        lemma_route_order(routes.drop_first(), method, path, types, i - 1);
        let w0 = choose|w: int|
            0 <= w <= i - 1 && route_matches(
                #[trigger] routes.drop_first()[w],
                method,
                path,
                types,
            ) && spec_route_match(routes.drop_first(), method, path, types) == Some(
                (
                    routes.drop_first()[w].mime_type,
                    routes.drop_first()[w].route,
                    spec_match(path, routes.drop_first()[w].template),
                ),
            );
        assert(routes[w0 + 1] == routes.drop_first()[w0]);
    }
}

/// The path-traversal law: under a supported version, a request path
/// whose normalized resolution leaves the resource root is answered with
/// status 403, whatever the store answered.
pub proof fn lemma_path_traversal(
    conn: ConnData,
    method: Seq<char>,
    path: Seq<char>,
    types: Seq<Seq<char>>,
    version: Seq<char>,
    fuel: nat,
    answers: Seq<bool>,
)
    requires
        fuel >= 1,
        "1."@.is_prefix_of(version),
        !conn.resources_root.is_prefix_of(
            spec_normalize(spec_url_to_path(conn.resources_root, path)),
        ),
    ensures
        spec_find_handler(conn, method, path, types, version, fuel, answers).code == "403"@,
{
}

} // verus!
