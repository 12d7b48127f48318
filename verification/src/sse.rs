//! Server-sent events: the per-connection decision logic of the event
//! stream subsystem.  A producer task serves one path for one
//! connection; this module decides when one is opened, refreshed or
//! closed, and builds the stream responses.  The channels themselves
//! belong to the surrounding connection loop.

use crate::connection::ConnConfig;
use crate::configuration::{Body, Request, Response};
use crate::imap::strs_view;
use crate::request::{debug_on, make_initial_response, spec_initial_headers};
use vstd::prelude::*;

verus! {

/// The events a connection sends to one of its producer tasks.
///
/// A refresh is sent when the client reconnects to a path whose producer
/// is already running; a close is sent when the connection shuts down.
pub enum ControlEvent {
    RefreshEvent,
    CloseEvent,
}

/// What the connection loop must do after an event-stream request: poke
/// a running producer, start a new one for the path, or nothing (the
/// path has no opener).
pub enum SseAction {
    Refresh(String),
    Open(String),
    NoStream,
}

/// The model of a stream action.
pub enum SseActionData {
    Refresh(Seq<char>),
    Open(Seq<char>),
    NoStream,
}

impl View for SseAction {
    type V = SseActionData;

    open spec fn view(&self) -> SseActionData {
        match self {
            SseAction::Refresh(p) => SseActionData::Refresh(p@),
            SseAction::Open(p) => SseActionData::Open(p@),
            SseAction::NoStream => SseActionData::NoStream,
        }
    }
}

/// The action for an event-stream request: refresh a running producer,
/// open a new one when an opener is registered for the path, otherwise
/// nothing.
pub open spec fn spec_sse_action(
    tasks: Seq<Seq<char>>,
    openers: Seq<Seq<char>>,
    path: Seq<char>,
) -> SseActionData {
    if tasks.contains(path) {
        SseActionData::Refresh(path)
    } else if openers.contains(path) {
        SseActionData::Open(path)
    } else {
        SseActionData::NoStream
    }
}

/// The status line pieces and content type of a stream response: `404`
/// only when the path has no producer and no opener.
pub open spec fn spec_sse_status(
    tasks: Seq<Seq<char>>,
    openers: Seq<Seq<char>>,
    path: Seq<char>,
) -> (Seq<char>, Seq<char>, Seq<char>) {
    if tasks.contains(path) || openers.contains(path) {
        ("200"@, "OK"@, "text/event-stream; charset=utf-8"@)
    } else {
        ("404"@, "Not Found"@, "text/event-stream"@)
    }
}

/// Answers a request whose accepted types include `text/event-stream`:
/// decides the stream action, registers a newly opened path, and builds
/// the stream response (chunked, uncached, with a blank flushing event
/// as its body).
pub fn process_sse(config: &mut ConnConfig, request: &Request, now: &str) -> (r: (
    Response,
    String,
    SseAction,
))
    ensures
        r.2@ == spec_sse_action(
            old(config)@.sse_tasks,
            old(config)@.sse_openers,
            request.path@,
        ),
        final(config)@.sse_tasks == (if (r.2@ matches SseActionData::Open(_)) {
            old(config)@.sse_tasks.push(request.path@)
        } else {
            old(config)@.sse_tasks
        }),
        final(config)@.sse_openers == old(config)@.sse_openers,
        final(config)@.route_list == old(config)@.route_list,
        final(config)@.settings == old(config)@.settings,
        final(config)@.static_type_table == old(config)@.static_type_table,
        final(config)@.resources_root == old(config)@.resources_root,
        final(config)@.server_info == old(config)@.server_info,
        final(config)@.read_error == old(config)@.read_error,
        final(config)@.port == old(config)@.port,
        final(config)@.views == old(config)@.views,
        ({
            let st = spec_sse_status(
                old(config)@.sse_tasks,
                old(config)@.sse_openers,
                request.path@,
            );
            r.0@.status == st.0 + " "@ + st.1 && r.0@.headers == spec_initial_headers(
                st.2,
                now@,
                old(config)@.server_info,
                debug_on(old(config)@.settings),
            ) + seq![("Transfer-Encoding"@, "chunked"@), ("Cache-Control"@, "no-cache"@)]
        }),
        r.1@ == "\n\n"@,
{
    let ghost tasks0 = config@.sse_tasks;
    let ghost openers0 = config@.sse_openers;
    let running = crate::imap::contains_string(&config.sse_tasks, &request.path);
    let mut action = SseAction::NoStream;
    let mut code = "404";
    let mut mesg = "Not Found";
    let mut mime = "text/event-stream";
    if running {
        action = SseAction::Refresh(request.path.clone());
        code = "200";
        mesg = "OK";
        mime = "text/event-stream; charset=utf-8";
    } else {
        if open_sse(config, request) {
            action = SseAction::Open(request.path.clone());
            code = "200";
            mesg = "OK";
            mime = "text/event-stream; charset=utf-8";
        }
    }
    let mut response = make_initial_response(config, code, mesg, mime, request, now);
    let ghost h0 = response@.headers;
    response.headers.push((String::from_str("Transfer-Encoding"), String::from_str("chunked")));
    response.headers.push((String::from_str("Cache-Control"), String::from_str("no-cache")));
    proof {
        assert(response@.headers =~= h0 + seq![
            ("Transfer-Encoding"@, "chunked"@),
            ("Cache-Control"@, "no-cache"@),
        ]);
    }
    (response, String::from_str("\n\n"), action)
}

/// Registers a producer for the request's path when an opener exists for
/// it; reports whether one was registered.
pub fn open_sse(config: &mut ConnConfig, request: &Request) -> (r: bool)
    ensures
        r == old(config)@.sse_openers.contains(request.path@),
        final(config)@.sse_tasks == (if r {
            old(config)@.sse_tasks.push(request.path@)
        } else {
            old(config)@.sse_tasks
        }),
        final(config)@.sse_openers == old(config)@.sse_openers,
        final(config)@.route_list == old(config)@.route_list,
        final(config)@.settings == old(config)@.settings,
        final(config)@.static_type_table == old(config)@.static_type_table,
        final(config)@.resources_root == old(config)@.resources_root,
        final(config)@.server_info == old(config)@.server_info,
        final(config)@.read_error == old(config)@.read_error,
        final(config)@.port == old(config)@.port,
        final(config)@.views == old(config)@.views,
        final(config)@.hosts == old(config)@.hosts,
{
    let ghost tasks0 = strs_view(config.sse_tasks@);
    if crate::imap::contains_string(&config.sse_openers, &request.path) {
        config.sse_tasks.push(request.path.clone());
        proof {
            assert(strs_view(config.sse_tasks@) =~= tasks0.push(request.path@));
        }
        true
    } else {
        false
    }
}

/// Ends every producer of the connection: empties the task table and
/// hands back the paths whose producers must be sent a close event.
pub fn close_sses(config: &mut ConnConfig) -> (r: Vec<String>)
    ensures
        strs_view(r@) == old(config)@.sse_tasks,
        final(config)@.sse_tasks == Seq::<Seq<char>>::empty(),
        final(config)@.sse_openers == old(config)@.sse_openers,
{
    let mut out: Vec<String> = Vec::new();
    std::mem::swap(&mut out, &mut config.sse_tasks);
    proof {
        assert(strs_view(config.sse_tasks@) =~= Seq::<Seq<char>>::empty());
    }
    out
}

/// The standing response for data pushed by a producer: chunked,
/// uncached, typed as an event stream.
pub fn make_response(config: &ConnConfig, now: &str) -> (r: Response)
    ensures
        r@.status == "200 OK"@,
        r@.headers == seq![
            ("Cache-Control"@, "no-cache"@),
            ("Content-Type"@, "text/event-stream; charset=utf-8"@),
            ("Date"@, now@),
            ("Server"@, config@.server_info),
            ("Transfer-Encoding"@, "chunked"@),
        ],
        r@.body == Seq::<char>::empty(),
        r@.template == Seq::<char>::empty(),
        r@.context == Seq::<(Seq<char>, Seq<char>)>::empty(),
{
    let mut headers: Vec<(String, String)> = Vec::new();
    headers.push((String::from_str("Cache-Control"), String::from_str("no-cache")));
    headers.push((
        String::from_str("Content-Type"),
        String::from_str("text/event-stream; charset=utf-8"),
    ));
    headers.push((String::from_str("Date"), now.to_owned()));
    headers.push((String::from_str("Server"), config.server_info.clone()));
    headers.push((String::from_str("Transfer-Encoding"), String::from_str("chunked")));
    let r = Response {
        status: String::from_str("200 OK"),
        headers,
        body: Body::StringBody(String::new()),
        template: String::new(),
        context: Vec::new(),
    };
    proof {
        reveal_strlit("");
        assert(r@.headers =~= seq![
            ("Cache-Control"@, "no-cache"@),
            ("Content-Type"@, "text/event-stream; charset=utf-8"@),
            ("Date"@, now@),
            ("Server"@, config@.server_info),
            ("Transfer-Encoding"@, "chunked"@),
        ]);
        assert(r@.body =~= Seq::<char>::empty());
        assert(r@.template =~= Seq::<char>::empty());
        assert(r@.context =~= Seq::<(Seq<char>, Seq<char>)>::empty());
    }
    r
}

} // verus!
