//! Types and functions used to configure the server: the immutable
//! `Config`, per-exchange `Request` and `Response` values, compiled
//! `Route`s, and the default view handlers.  File access and user view
//! handlers enter through the `Rsrc` and `Handlers` interfaces so that
//! everything else stays pure.

use crate::connection::ConnConfig;
use crate::imap::{pairs_view, spec_find, Entries, IMap};
use crate::text::{rfind_char, spec_rfind, str_chars};
use vstd::prelude::*;

verus! {

/// Configuration for the web server, immutable after startup.
///
/// * `hosts` are the addresses the server binds to.
/// * `port` is the TCP port it listens on.
/// * `server_info` is included in each response's `Server` header.
/// * `resources_root` is the directory files are loaded from.
/// * `routes` maps methods and URI templates to route names; a template
///   may carry a `<mime/type>` suffix for non-HTML routes.
/// * `views` lists the route names that the user's handlers serve.
/// * `sse` lists the request paths that have event-stream openers.
/// * `static_types` maps file extensions (with the period) to mime types.
/// * `read_error` is the page sent when a file fails to load; it must
///   mention `{{request-path}}`.
/// * `settings` are free-form key/value pairs; `debug` set to `"true"`
///   enables the no-cache header and template validation.
pub struct Config {
    pub hosts: Vec<String>,
    pub port: u16,
    pub server_info: String,
    pub resources_root: String,
    pub routes: Vec<(String, String, String)>,
    pub views: Vec<String>,
    pub sse: Vec<String>,
    pub static_types: Vec<(String, String)>,
    pub read_error: String,
    pub settings: Vec<(String, String)>,
}

/// The mathematical model of a configuration.
pub struct ConfigData {
    pub hosts: Seq<Seq<char>>,
    pub port: int,
    pub server_info: Seq<char>,
    pub resources_root: Seq<char>,
    pub routes: Seq<(Seq<char>, Seq<char>, Seq<char>)>,
    pub views: Seq<Seq<char>>,
    pub sse: Seq<Seq<char>>,
    pub static_types: Entries,
    pub read_error: Seq<char>,
    pub settings: Entries,
}

impl View for Config {
    type V = ConfigData;

    open spec fn view(&self) -> ConfigData {
        ConfigData {
            hosts: crate::imap::strs_view(self.hosts@),
            port: self.port as int,
            server_info: self.server_info@,
            resources_root: self.resources_root@,
            routes: crate::connection::triples_view(self.routes@),
            views: crate::imap::strs_view(self.views@),
            sse: crate::imap::strs_view(self.sse@),
            static_types: pairs_view(self.static_types@),
            read_error: self.read_error@,
            settings: pairs_view(self.settings@),
        }
    }
}

/// Information about one incoming request, passed to view handlers.
/// Header names are lower-cased; `path` carries no query string; the
/// query parameters keep duplicate keys.
pub struct Request {
    pub version: String,
    pub method: String,
    pub local_addr: String,
    pub remote_addr: String,
    pub path: String,
    pub matches: IMap,
    pub params: IMap,
    pub headers: IMap,
    pub body: String,
}

/// The part of a response after the headers.
pub enum Body {
    StringBody(String),
    BinaryBody(Vec<u8>),
    CompoundBody(Vec<Box<Body>>),
}

/// Returned by view handlers and turned into an HTTP response message.
/// If `template` is non-empty, `body` must be empty and the template is
/// rendered against `context`.
pub struct Response {
    pub status: String,
    pub headers: Vec<(String, String)>,
    pub body: Body,
    pub template: String,
    pub context: Vec<(String, String)>,
}

/// The mathematical model of a response: the body is modelled by its
/// text.
pub struct RespData {
    pub status: Seq<char>,
    pub headers: Entries,
    pub body: Seq<char>,
    pub template: Seq<char>,
    pub context: Entries,
}

impl View for Response {
    type V = RespData;

    open spec fn view(&self) -> RespData {
        RespData {
            status: self.status@,
            headers: pairs_view(self.headers@),
            body: spec_body_str(self.body),
            template: self.template@,
            context: pairs_view(self.context@),
        }
    }
}

/// One compiled route.
pub struct Route {
    pub method: String,
    pub template: Vec<crate::uri_template::Component>,
    pub mime_type: String,
    pub route: String,
}

/// The resource store under `resources_root`: loading a file's text,
/// and the existence checks that validation and routing need.  The
/// server is verified for every behaviour of these operations.
pub trait Rsrc {
    fn load(&mut self, path: &String) -> Result<String, String>;

    fn has_path(&mut self, path: &String) -> bool;

    fn is_dir(&mut self, path: &String) -> bool;
}

/// True iff `path` points at a file (not a directory) under the store.
pub fn is_valid_rsrc<R: Rsrc>(rsrc: &mut R, path: &String) -> bool {
    rsrc.has_path(path) && !rsrc.is_dir(path)
}

/// The user's view handlers, dispatched by route name.  A handler takes
/// the response skeleton and returns the response to send.
pub trait Handlers {
    fn handle(
        &mut self,
        config: &ConnConfig,
        name: &String,
        request: &Request,
        response: Response,
    ) -> Response;
}

/// How a request is to be answered: by a named user view, by the static
/// file handler, or by the missing-page handler.
pub enum HandlerKind {
    Named(String),
    Static,
    Missing,
}

/// The model of a handler choice.
pub enum HandlerKindData {
    Named(Seq<char>),
    Static,
    Missing,
}

impl View for HandlerKind {
    type V = HandlerKindData;

    open spec fn view(&self) -> HandlerKindData {
        match self {
            HandlerKind::Named(s) => HandlerKindData::Named(s@),
            HandlerKind::Static => HandlerKindData::Static,
            HandlerKind::Missing => HandlerKindData::Missing,
        }
    }
}

/// The text of a body: compound bodies concatenated in order, binary
/// data summarised.
pub open spec fn spec_body_str(b: Body) -> Seq<char>
    decreases b,
{
    match b {
        Body::StringBody(t) => t@,
        Body::BinaryBody(_) => "<binary data>"@,
        Body::CompoundBody(parts) => spec_bodies_str(parts@),
    }
}

/// The concatenated text of a sequence of bodies.
pub open spec fn spec_bodies_str(parts: Seq<Box<Body>>) -> Seq<char>
    decreases parts,
{
    if parts.len() == 0 {
        Seq::empty()
    } else {
        spec_body_str(*parts[0]) + spec_bodies_str(parts.drop_first())
    }
}

/// The nesting depth of a body.
pub open spec fn body_height(b: Body) -> nat
    decreases b,
{
    match b {
        Body::StringBody(_) => 0,
        Body::BinaryBody(_) => 0,
        Body::CompoundBody(parts) => 1 + bodies_height(parts@),
    }
}

/// The greatest nesting depth among a sequence of bodies.
pub open spec fn bodies_height(parts: Seq<Box<Body>>) -> nat
    decreases parts,
{
    if parts.len() == 0 {
        0
    } else {
        let h0 = body_height(*parts[0]);
        let h1 = bodies_height(parts.drop_first());
        if h0 >= h1 {
            h0
        } else {
            h1
        }
    }
}

proof fn lemma_bodies_height(parts: Seq<Box<Body>>, i: int)
    requires
        0 <= i < parts.len(),
    ensures
        body_height(*parts[i]) <= bodies_height(parts),
    decreases parts.len(),
{
    if i > 0 {
        lemma_bodies_height(parts.drop_first(), i - 1);
    }
}

impl Body {
    /// The text of this body.
    #[verifier::loop_isolation(false)]
    pub fn to_str(&self) -> (r: String)
        ensures
            r@ == spec_body_str(*self),
        decreases body_height(*self),
    {
        match self {
            Body::StringBody(t) => t.clone(),
            Body::BinaryBody(_) => {
                // Binary data can be huge and is not useful to print.
                String::from_str("<binary data>")
            },
            Body::CompoundBody(parts) => {
                let mut r = String::new();
                let mut i: usize = 0;
                proof {
                    assert(parts@.skip(0) =~= parts@);
                }
                while i < parts.len()
                    invariant
                        i <= parts@.len(),
                        r@ + spec_bodies_str(parts@.skip(i as int)) == spec_bodies_str(parts@),
                    decreases parts@.len() - i,
                {
                    let ghost r0 = r@;
                    proof {
                        lemma_bodies_height(parts@, i as int);
                        assert(body_height(*self) == 1 + bodies_height(parts@));
                    }
                    let piece = parts[i].to_str();
                    r.append(piece.as_str());
                    proof {
                        assert(parts@.skip(i as int).drop_first() =~= parts@.skip(i + 1));
                        assert(parts@.skip(i as int)[0] == parts@[i as int]);
                        assert(r@ + spec_bodies_str(parts@.skip(i + 1)) =~= r0 + spec_bodies_str(
                            parts@.skip(i as int),
                        ));
                    }
                    i = i + 1;
                }
                proof {
                    assert(spec_bodies_str(parts@.skip(parts@.len() as int)) =~= Seq::<
                        char,
                    >::empty());
                    assert(r@ + Seq::<char>::empty() =~= r@);
                }
                r
            },
        }
    }
}

proof fn lemma_bodies_str_push(l: Seq<Box<Body>>, x: Box<Body>)
    ensures
        spec_bodies_str(l.push(x)) == spec_bodies_str(l) + spec_body_str(*x),
    decreases l.len(),
{
    if l.len() == 0 {
        assert(l.push(x)[0] == x);
        assert(l.push(x).drop_first() =~= Seq::<Box<Body>>::empty());
        assert(spec_bodies_str(l.push(x)) == spec_body_str(*l.push(x)[0]) + spec_bodies_str(
            l.push(x).drop_first(),
        ));
        assert(spec_bodies_str(Seq::<Box<Body>>::empty()) =~= Seq::<char>::empty());
        assert(spec_bodies_str(l) =~= Seq::<char>::empty());
        assert(spec_bodies_str(l.push(x)) =~= spec_bodies_str(l) + spec_body_str(*x));
    } else {
        assert(l.push(x)[0] == l[0]);
        assert(l.push(x).drop_first() =~= l.drop_first().push(x));
        lemma_bodies_str_push(l.drop_first(), x);
        assert(spec_bodies_str(l.push(x)) =~= spec_bodies_str(l) + spec_body_str(*x));
    }
}

/// A copy of a body with the same text.
pub fn clone_body(b: &Body) -> (r: Body)
    ensures
        spec_body_str(r) == spec_body_str(*b),
    decreases body_height(*b),
{
    match b {
        Body::StringBody(t) => Body::StringBody(t.clone()),
        Body::BinaryBody(d) => Body::BinaryBody(crate::imap::clone_bytes(d)),
        Body::CompoundBody(parts) => {
            let mut out: Vec<Box<Body>> = Vec::new();
            let mut i: usize = 0;
            proof {
                assert(parts@.skip(0) =~= parts@);
                assert(spec_bodies_str(out@) + spec_bodies_str(parts@) =~= spec_bodies_str(
                    parts@,
                ));
            }
            while i < parts.len()
                invariant
                    i <= parts@.len(),
                    *b matches Body::CompoundBody(p) && p@ == parts@,
                    spec_bodies_str(out@) + spec_bodies_str(parts@.skip(i as int))
                        == spec_bodies_str(parts@),
                decreases parts@.len() - i,
            {
                let ghost o0 = out@;
                proof {
                    lemma_bodies_height(parts@, i as int);
                    assert(body_height(*b) == 1 + bodies_height(parts@));
                    assert(parts@.skip(i as int)[0] == parts@[i as int]);
                    assert(parts@.skip(i as int).drop_first() =~= parts@.skip(i + 1));
                }
                let c = clone_body(&parts[i]);
                let boxed = Box::new(c);
                proof {
                    lemma_bodies_str_push(o0, boxed);
                }
                out.push(boxed);
                proof {
                    assert(out@ == o0.push(out@.last()));
                    assert(spec_bodies_str(out@) =~= spec_bodies_str(o0) + spec_body_str(
                        *parts@[i as int],
                    ));
                    assert(spec_bodies_str(out@) + spec_bodies_str(parts@.skip(i + 1))
                        =~= spec_bodies_str(o0) + spec_bodies_str(parts@.skip(i as int)));
                }
                i = i + 1;
            }
            proof {
                assert(spec_bodies_str(parts@.skip(parts@.len() as int)) =~= Seq::<char>::empty());
                assert(spec_bodies_str(out@) + Seq::<char>::empty() =~= spec_bodies_str(out@));
            }
            Body::CompoundBody(out)
        },
    }
}

/// A copy of a response with the same model.
pub fn clone_response(r: &Response) -> (c: Response)
    ensures
        c@ == r@,
{
    let c = Response {
        status: r.status.clone(),
        headers: crate::imap::clone_pairs(&r.headers),
        body: clone_body(&r.body),
        template: r.template.clone(),
        context: crate::imap::clone_pairs(&r.context),
    };
    c
}

/// The default extension table: audio, image, text and video types.
pub open spec fn default_static_types() -> Entries {
    seq![
        (".m4a"@, "audio/mp4"@),
        (".m4b"@, "audio/mp4"@),
        (".mp3"@, "audio/mpeg"@),
        (".wav"@, "audio/vnd.wave"@),
        (".gif"@, "image/gif"@),
        (".jpeg"@, "image/jpeg"@),
        (".jpg"@, "image/jpeg"@),
        (".png"@, "image/png"@),
        (".tiff"@, "image/tiff"@),
        (".css"@, "text/css"@),
        (".csv"@, "text/csv"@),
        (".html"@, "text/html"@),
        (".htm"@, "text/html"@),
        (".txt"@, "text/plain"@),
        (".text"@, "text/plain"@),
        (".xml"@, "text/xml"@),
        (".js"@, "text/javascript"@),
        (".mp4"@, "video/mp4"@),
        (".mov"@, "video/quicktime"@),
        (".mpg"@, "video/mpeg"@),
        (".mpeg"@, "video/mpeg"@),
        (".qt"@, "video/quicktime"@),
    ]
}

/// The default read-error page.
pub open spec fn default_read_error() -> Seq<char> {
    "<!DOCTYPE html>\n<meta charset=utf-8>\n\n<title>Error 403 (Forbidden)!</title>\n\n<p>Could not read URL {{request-path}}.</p>"@
}

/// A configuration with the port, extension table and read-error page
/// set to their defaults and everything else empty.
pub fn initialize_config() -> (r: Config)
    ensures
        r.hosts@.len() == 1 && r.hosts@[0]@ == ""@,
        r.port == 80,
        r.server_info@ == ""@,
        r.resources_root@ == ""@,
        r.routes@.len() == 0,
        r.views@.len() == 0,
        r.sse@.len() == 0,
        pairs_view(r.static_types@) == default_static_types(),
        r.read_error@ == default_read_error(),
        r.settings@.len() == 0,
{
    let mut hosts: Vec<String> = Vec::new();
    hosts.push(String::new());
    let static_types: Vec<(String, String)> = vec![
        (String::from_str(".m4a"), String::from_str("audio/mp4")),
        (String::from_str(".m4b"), String::from_str("audio/mp4")),
        (String::from_str(".mp3"), String::from_str("audio/mpeg")),
        (String::from_str(".wav"), String::from_str("audio/vnd.wave")),
        (String::from_str(".gif"), String::from_str("image/gif")),
        (String::from_str(".jpeg"), String::from_str("image/jpeg")),
        (String::from_str(".jpg"), String::from_str("image/jpeg")),
        (String::from_str(".png"), String::from_str("image/png")),
        (String::from_str(".tiff"), String::from_str("image/tiff")),
        (String::from_str(".css"), String::from_str("text/css")),
        (String::from_str(".csv"), String::from_str("text/csv")),
        (String::from_str(".html"), String::from_str("text/html")),
        (String::from_str(".htm"), String::from_str("text/html")),
        (String::from_str(".txt"), String::from_str("text/plain")),
        (String::from_str(".text"), String::from_str("text/plain")),
        (String::from_str(".xml"), String::from_str("text/xml")),
        (String::from_str(".js"), String::from_str("text/javascript")),
        (String::from_str(".mp4"), String::from_str("video/mp4")),
        (String::from_str(".mov"), String::from_str("video/quicktime")),
        (String::from_str(".mpg"), String::from_str("video/mpeg")),
        (String::from_str(".mpeg"), String::from_str("video/mpeg")),
        (String::from_str(".qt"), String::from_str("video/quicktime")),
    ];
    let server_info = String::new();
    let resources_root = String::new();
    proof {
        reveal_strlit("");
        assert(hosts@[0]@ =~= ""@);
        assert(server_info@ =~= ""@);
        assert(resources_root@ =~= ""@);
        assert(pairs_view(static_types@) =~= default_static_types());
    }
    Config {
        hosts,
        port: 80,
        server_info,
        resources_root,
        routes: Vec::new(),
        views: Vec::new(),
        sse: Vec::new(),
        static_types,
        read_error: String::from_str(
            "<!DOCTYPE html>\n<meta charset=utf-8>\n\n<title>Error 403 (Forbidden)!</title>\n\n<p>Could not read URL {{request-path}}.</p>",
        ),
        settings: Vec::new(),
    }
}

/// True iff the extension of `path` maps to a `text/` mime type in the
/// table: such files are treated as page templates.
pub open spec fn spec_is_text_file(table: Entries, path: Seq<char>) -> bool {
    let dot = spec_rfind(path, '.');
    if dot < 0 {
        false
    } else {
        match spec_find(table, path.skip(dot)) {
            Some(mime) => "text/"@.is_prefix_of(mime),
            None => false,
        }
    }
}

/// True iff `path` names a file that the static handler treats as a
/// template, by its extension's mime type.
pub fn is_text_file(config: &ConnConfig, path: &str) -> (r: bool)
    ensures
        r == spec_is_text_file(config.static_type_table@, path@),
{
    let cs = str_chars(path);
    proof {
        crate::text::lemma_rfind(cs@, '.');
    }
    match rfind_char(&cs, '.') {
        Some(dot) => {
            let ext = chars_to_string_from(&cs, dot);
            match config.static_type_table.find(&ext) {
                Some(mime) => {
                    let mc = str_chars(mime.as_str());
                    let pre = str_chars("text/");
                    crate::text::starts_with(&mc, &pre)
                },
                None => false,
            }
        },
        None => false,
    }
}

/// The characters of `s` from `from` on, as a `String`.
fn chars_to_string_from(s: &Vec<char>, from: usize) -> (r: String)
    requires
        from <= s@.len(),
    ensures
        r@ == s@.skip(from as int),
{
    let sub = crate::text::copy_range(s, from, s.len());
    proof {
        assert(s@.subrange(from as int, s@.len() as int) =~= s@.skip(from as int));
    }
    crate::text::chars_string(&sub)
}

/// The default handler for URLs that match nothing: the not-found page
/// at the resource root.
pub fn missing_view(response: Response) -> (r: Response)
    ensures
        r.status == response.status,
        r.headers == response.headers,
        r.body == response.body,
        r.template@ == "not-found.html"@,
        r.context == response.context,
{
    Response { template: String::from_str("not-found.html"), ..response }
}

/// What the static handler produces, given what the loader returned.
pub open spec fn spec_static_view(
    table: Entries,
    loaded: Result<Seq<char>, Seq<char>>,
    path: Seq<char>,
    response: Response,
) -> (Seq<char>, Seq<char>, Entries) {
    if spec_is_text_file(table, path) {
        (""@, path, Seq::empty())
    } else {
        match loaded {
            Ok(contents) => (contents, ""@, Seq::empty()),
            Err(_) => (spec_body_str(response.body), "not-found.html"@, pairs_view(
                response.context@,
            )),
        }
    }
}

/// The default static-file handler.  Files whose mime type is textual
/// are treated as templates; others are loaded and returned verbatim; a
/// load failure falls back to the not-found page.
pub fn static_view<R: Rsrc>(
    config: &ConnConfig,
    rsrc: &mut R,
    request: &Request,
    response: Response,
) -> (r: Response)
    ensures
        r.status == response.status,
        r.headers == response.headers,
        exists|loaded: Result<Seq<char>, Seq<char>>|
            (#[trigger] spec_static_view(
                config.static_type_table@,
                loaded,
                request.path@,
                response,
            )) == (spec_body_str(r.body), r.template@, pairs_view(r.context@)),
{
    let ghost resp0 = response;
    if is_text_file(config, request.path.as_str()) {
        let empty_body = String::new();
        let r = Response {
            body: Body::StringBody(empty_body),
            template: request.path.clone(),
            context: Vec::new(),
            ..response
        };
        proof {
            reveal_strlit("");
            let loaded: Result<Seq<char>, Seq<char>> = Ok(""@);
            assert(spec_body_str(r.body) =~= ""@);
            assert(pairs_view(r.context@) =~= Seq::<(Seq<char>, Seq<char>)>::empty());
            assert(spec_static_view(config.static_type_table@, loaded, request.path@, resp0) == (
                spec_body_str(r.body),
                r.template@,
                pairs_view(r.context@),
            ));
        }
        r
    } else {
        let full = crate::utils::url_to_path(&config.resources_root, request.path.as_str());
        match rsrc.load(&full) {
            Ok(contents) => {
                let ghost loaded: Result<Seq<char>, Seq<char>> = Ok(contents@);
                let empty_tpl = String::new();
                let r = Response {
                    body: Body::StringBody(contents),
                    template: empty_tpl,
                    context: Vec::new(),
                    ..response
                };
                proof {
                    reveal_strlit("");
                    assert(r.template@ =~= ""@);
                    assert(pairs_view(r.context@) =~= Seq::<(Seq<char>, Seq<char>)>::empty());
                    assert(spec_static_view(config.static_type_table@, loaded, request.path@, resp0)
                        == (spec_body_str(r.body), r.template@, pairs_view(r.context@)));
                }
                r
            },
            Err(e) => {
                let ghost loaded: Result<Seq<char>, Seq<char>> = Err(e@);
                let r = Response { template: String::from_str("not-found.html"), ..response };
                proof {
                    assert(spec_static_view(config.static_type_table@, loaded, request.path@, resp0)
                        == (spec_body_str(r.body), r.template@, pairs_view(r.context@)));
                }
                r
            },
        }
    }
}

} // verus!
