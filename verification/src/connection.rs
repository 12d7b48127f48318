//! The per-connection view of the configuration, its derivation from
//! `Config`, and configuration validation.

use crate::configuration::{Config, Route, Rsrc};
use crate::imap::{
    clone_pairs, clone_strings, contains_string, pairs_view, sort_strings, sort_strs, strs_view,
    Entries, IMap,
};
use crate::text::{
    chars_string, copy_range, find_char, join_strings, join_with, lemma_find_char_at,
    lemma_find_char_none, spec_find_char, str_chars,
};
use crate::uri_template::{comps_view, spec_compile, Seg};
use vstd::prelude::*;

verus! {

/// The per-connection projection of `Config`: routes compiled, lookup
/// tables materialized, and the table of running event-stream producers
/// attached.
pub struct ConnConfig {
    pub hosts: Vec<String>,
    pub port: u16,
    pub server_info: String,
    pub resources_root: String,
    pub route_list: Vec<Route>,
    pub views: Vec<String>,
    pub sse_openers: Vec<String>,
    pub static_type_table: IMap,
    pub read_error: String,
    pub settings: IMap,
    pub sse_tasks: Vec<String>,
}

/// The mathematical model of a per-connection configuration.
pub struct ConnData {
    pub hosts: Seq<Seq<char>>,
    pub port: int,
    pub server_info: Seq<char>,
    pub resources_root: Seq<char>,
    pub route_list: Seq<RouteData>,
    pub views: Seq<Seq<char>>,
    pub sse_openers: Seq<Seq<char>>,
    pub static_type_table: Entries,
    pub read_error: Seq<char>,
    pub settings: Entries,
    pub sse_tasks: Seq<Seq<char>>,
}

impl View for ConnConfig {
    type V = ConnData;

    open spec fn view(&self) -> ConnData {
        ConnData {
            hosts: strs_view(self.hosts@),
            port: self.port as int,
            server_info: self.server_info@,
            resources_root: self.resources_root@,
            route_list: routes_view(self.route_list@),
            views: strs_view(self.views@),
            sse_openers: strs_view(self.sse_openers@),
            static_type_table: self.static_type_table@,
            read_error: self.read_error@,
            settings: self.settings@,
            sse_tasks: strs_view(self.sse_tasks@),
        }
    }
}

/// The model of a compiled route.
pub struct RouteData {
    pub method: Seq<char>,
    pub template: Seq<Seg>,
    pub mime_type: Seq<char>,
    pub route: Seq<char>,
}

impl View for Route {
    type V = RouteData;

    open spec fn view(&self) -> RouteData {
        RouteData {
            method: self.method@,
            template: comps_view(self.template@),
            mime_type: self.mime_type@,
            route: self.route@,
        }
    }
}

/// The models of a sequence of routes.
pub open spec fn routes_view(rs: Seq<Route>) -> Seq<RouteData> {
    rs.map_values(|r: Route| r@)
}

/// The views of route triples `(method, template, name)`.
pub open spec fn triples_view(ts: Seq<(String, String, String)>) -> Seq<
    (Seq<char>, Seq<char>, Seq<char>),
> {
    ts.map_values(|t: (String, String, String)| (t.0@, t.1@, t.2@))
}

/// A template string split into the template proper and its mime type:
/// a `<mime/type>` suffix overrides the default `text/html`.
pub open spec fn spec_split_mime(t: Seq<char>) -> (Seq<char>, Seq<char>) {
    let lt = spec_find_char(t, '<');
    if lt >= 0 && t.len() > 0 && t.last() == '>' && lt < t.len() - 1 {
        (t.take(lt), t.subrange(lt + 1, t.len() - 1))
    } else {
        (t, "text/html"@)
    }
}

/// The compiled routes of the raw route triples.
pub open spec fn spec_conn_routes(ts: Seq<(Seq<char>, Seq<char>, Seq<char>)>) -> Seq<RouteData> {
    ts.map_values(
        |t: (Seq<char>, Seq<char>, Seq<char>)|
            RouteData {
                method: t.0,
                template: spec_compile(spec_split_mime(t.1).0),
                mime_type: spec_split_mime(t.1).1,
                route: t.2,
            },
    )
}

/// Derives the per-connection view of a configuration: compiles each
/// route template (honouring a mime suffix), materializes the lookup
/// tables, and starts with no event-stream producers.
#[verifier::loop_isolation(false)]
pub fn config_to_conn(config: &Config) -> (r: ConnConfig)
    ensures
        strs_view(r.hosts@) == strs_view(config.hosts@),
        r.port == config.port,
        r.server_info@ == config.server_info@,
        r.resources_root@ == config.resources_root@,
        routes_view(r.route_list@) == spec_conn_routes(triples_view(config.routes@)),
        strs_view(r.views@) == strs_view(config.views@),
        strs_view(r.sse_openers@) == strs_view(config.sse@),
        r.static_type_table@ == pairs_view(config.static_types@),
        r.read_error@ == config.read_error@,
        r.settings@ == pairs_view(config.settings@),
        r.sse_tasks@.len() == 0,
{
    let ghost tv = triples_view(config.routes@);
    let mut route_list: Vec<Route> = Vec::new();
    let mut i: usize = 0;
    proof {
        assert(routes_view(route_list@) =~= spec_conn_routes(tv.subrange(0, 0)));
    }
    while i < config.routes.len()
        invariant
            i <= config.routes@.len(),
            tv.len() == config.routes@.len(),
            routes_view(route_list@) == spec_conn_routes(tv.subrange(0, i as int)),
        decreases config.routes@.len() - i,
    {
        let ghost pre = routes_view(route_list@);
        let method = config.routes[i].0.clone();
        let name = config.routes[i].2.clone();
        let tc = str_chars(config.routes[i].1.as_str());
        let n: usize = tc.len();
        let mut tpl_part: String = config.routes[i].1.clone();
        let mut mime: String = String::from_str("text/html");
        match find_char(&tc, '<', 0) {
            Some(lt) => {
                proof {
                    lemma_find_char_at(tc@, '<', lt as int);
                }
                if n > 0 && tc[n - 1] == '>' && lt < n - 1 {
                    tpl_part = chars_string(&copy_range(&tc, 0, lt));
                    mime = chars_string(&copy_range(&tc, lt + 1, n - 1));
                    proof {
                        assert(tpl_part@ =~= spec_split_mime(tv[i as int].1).0);
                        assert(mime@ =~= spec_split_mime(tv[i as int].1).1);
                    }
                }
            },
            None => {
                proof {
                    lemma_find_char_none(tc@, '<');
                }
            },
        }
        let compiled = crate::uri_template::compile(tpl_part.as_str());
        let route = Route { method, template: compiled, mime_type: mime, route: name };
        route_list.push(route);
        proof {
            assert(tv[i as int] == (config.routes@[i as int].0@, config.routes@[i as int].1@,
            config.routes@[i as int].2@));
            assert(routes_view(route_list@) =~~= pre.push(route_list@.last()@));
            assert(routes_view(route_list@) =~~= spec_conn_routes(tv.subrange(0, i + 1)));
        }
        i = i + 1;
    }
    proof {
        assert(tv.subrange(0, tv.len() as int) =~= tv);
    }
    let table_entries = clone_pairs(&config.static_types);
    let settings_entries = clone_pairs(&config.settings);
    ConnConfig {
        hosts: clone_strings(&config.hosts),
        port: config.port,
        server_info: config.server_info.clone(),
        resources_root: config.resources_root.clone(),
        route_list,
        views: clone_strings(&config.views),
        sse_openers: clone_strings(&config.sse),
        static_type_table: IMap { entries: table_entries },
        read_error: config.read_error.clone(),
        settings: IMap { entries: settings_entries },
        sse_tasks: Vec::new(),
    }
}

/// True iff the end of `buffer` is the CR LF CR LF that terminates a
/// request's header block.
pub fn found_headers(buffer: &Vec<u8>) -> (r: bool)
    ensures
        r == (buffer@.len() >= 4 && buffer@[buffer@.len() - 4] == 0x0d && buffer@[buffer@.len()
            - 3] == 0x0a && buffer@[buffer@.len() - 2] == 0x0d && buffer@[buffer@.len() - 1]
            == 0x0a),
{
    let len = buffer.len();
    if len < 4 {
        false
    } else {
        buffer[len - 4] == 0x0d && buffer[len - 3] == 0x0a && buffer[len - 2] == 0x0d && buffer[len
            - 1] == 0x0a
    }
}

/// One "Host is empty." entry for each empty host address.
pub open spec fn host_errors(hosts: Seq<Seq<char>>) -> Seq<Seq<char>>
    decreases hosts.len(),
{
    if hosts.len() == 0 {
        Seq::empty()
    } else {
        host_errors(hosts.drop_last()) + if hosts.last().len() == 0 {
            seq!["Host is empty."@]
        } else {
            Seq::empty()
        }
    }
}

/// The required error pages that the existence answers say are absent.
pub open spec fn missing_files(fex: Seq<bool>) -> Seq<Seq<char>> {
    (if !fex[0] {
        seq!["forbidden.html"@]
    } else {
        Seq::empty()
    }) + (if !fex[1] {
        seq!["home.html"@]
    } else {
        Seq::empty()
    }) + (if !fex[2] {
        seq!["not-found.html"@]
    } else {
        Seq::empty()
    }) + (if !fex[3] {
        seq!["not-supported.html"@]
    } else {
        Seq::empty()
    })
}

/// The route names of the raw route triples.
pub open spec fn route_names(ts: Seq<(Seq<char>, Seq<char>, Seq<char>)>) -> Seq<Seq<char>> {
    ts.map_values(|t: (Seq<char>, Seq<char>, Seq<char>)| t.2)
}

/// The names of routes that no view serves, in route order.
pub open spec fn routes_without_views(
    ts: Seq<(Seq<char>, Seq<char>, Seq<char>)>,
    views: Seq<Seq<char>>,
) -> Seq<Seq<char>>
    decreases ts.len(),
{
    if ts.len() == 0 {
        Seq::empty()
    } else {
        routes_without_views(ts.drop_last(), views) + if !views.contains(ts.last().2) {
            seq![ts.last().2]
        } else {
            Seq::empty()
        }
    }
}

/// The view names that no route uses, in view order.
pub open spec fn views_without_routes(views: Seq<Seq<char>>, names: Seq<Seq<char>>) -> Seq<
    Seq<char>,
>
    decreases views.len(),
{
    if views.len() == 0 {
        Seq::empty()
    } else {
        views_without_routes(views.drop_last(), names) + if !names.contains(views.last()) {
            seq![views.last()]
        } else {
            Seq::empty()
        }
    }
}

/// Every validation error of a configuration, in report order, given the
/// answers of the resource store: whether the root is a directory, and
/// which of the four required pages exist.
pub open spec fn validate_errors(c: crate::configuration::ConfigData, isdir: bool, fex: Seq<bool>) -> Seq<Seq<char>> {
    validate_base_errors(c, isdir, fex) + (if sort_strs(routes_without_views(c.routes, c.views)).len() > 0 {
        seq![("No views for the following routes: "@ + join_with(
            sort_strs(routes_without_views(c.routes, c.views)),
            ", "@,
        ))]
    } else {
        Seq::empty()
    }) + (if sort_strs(views_without_routes(c.views, route_names(c.routes))).len() > 0 {
        seq![("No routes for the following views: "@ + join_with(
            sort_strs(views_without_routes(c.views, route_names(c.routes))),
            ", "@,
        ))]
    } else {
        Seq::empty()
    })
}

/// The single validation message of a configuration: every error joined
/// by spaces, so an empty result means a valid configuration.
pub open spec fn spec_validate(
    c: crate::configuration::ConfigData,
    isdir: bool,
    fex: Seq<bool>,
) -> Seq<char> {
    join_with(validate_errors(c, isdir, fex), " "@)
}

/// The first seven kinds of validation error, in report order.
pub open spec fn validate_base_errors(
    c: crate::configuration::ConfigData,
    isdir: bool,
    fex: Seq<bool>,
) -> Seq<Seq<char>> {
    (if c.hosts.len() == 0 {
        seq!["Hosts is empty."@]
    } else {
        Seq::empty()
    }) + host_errors(c.hosts) + (if c.port < 1024 && c.port != 80 {
        seq!["Port should be 80 or 1024 or above."@]
    } else {
        Seq::empty()
    }) + (if c.server_info.len() == 0 {
        seq!["server_info is empty."@]
    } else {
        Seq::empty()
    }) + (if c.resources_root.len() == 0 {
        seq!["resources_root is empty."@]
    } else if !isdir {
        seq!["resources_root is not a directory."@]
    } else {
        Seq::empty()
    }) + (if missing_files(fex).len() > 0 {
        seq![("Missing required files: "@ + join_with(missing_files(fex), ", "@))]
    } else {
        Seq::empty()
    }) + (if c.read_error.len() == 0 {
        seq!["read_error is empty."@]
    } else {
        Seq::empty()
    })
}

#[verifier::loop_isolation(false)]
#[verifier::rlimit(60)]
fn base_errors<R: Rsrc>(config: &Config, rsrc: &mut R) -> (r: (
    Vec<String>,
    Ghost<(bool, Seq<bool>)>,
))
    ensures
        (r.1@.1).len() == 4,
        strs_view(r.0@) == validate_base_errors(config@, r.1@.0, r.1@.1),
{
    let mut errors: Vec<String> = Vec::new();
    let ghost cfg = config@;
    if config.hosts.len() == 0 {
        errors.push(String::from_str("Hosts is empty."));
    }
    let ghost piece1 = if cfg.hosts.len() == 0 {
        seq!["Hosts is empty."@]
    } else {
        Seq::<Seq<char>>::empty()
    };
    proof {
        assert(strs_view(errors@) =~= piece1);
    }
    let mut i: usize = 0;
    while i < config.hosts.len()
        invariant
            i <= config.hosts@.len(),
            strs_view(errors@) == piece1 + host_errors(cfg.hosts.subrange(0, i as int)),
        decreases config.hosts@.len() - i,
    {
        let ghost pre = strs_view(errors@);
        proof {
            assert(cfg.hosts.subrange(0, i + 1).drop_last() =~= cfg.hosts.subrange(0, i as int));
            assert(cfg.hosts.subrange(0, i + 1).last() == cfg.hosts[i as int]);
            assert(cfg.hosts[i as int] == config.hosts@[i as int]@);
        }
        if config.hosts[i].as_str().unicode_len() == 0 {
            errors.push(String::from_str("Host is empty."));
            proof {
                assert(strs_view(errors@) =~= pre.push("Host is empty."@));
                assert(strs_view(errors@) =~= piece1 + host_errors(cfg.hosts.subrange(0, i + 1)));
            }
        } else {
            proof {
                assert(strs_view(errors@) =~= piece1 + host_errors(cfg.hosts.subrange(0, i + 1)));
            }
        }
        i = i + 1;
    }
    proof {
        assert(cfg.hosts.subrange(0, cfg.hosts.len() as int) =~= cfg.hosts);
    }
    let ghost acc2 = piece1 + host_errors(cfg.hosts);
    if config.port < 1024 && config.port != 80 {
        errors.push(String::from_str("Port should be 80 or 1024 or above."));
    }
    let ghost acc3 = acc2 + if cfg.port < 1024 && cfg.port != 80 {
        seq!["Port should be 80 or 1024 or above."@]
    } else {
        Seq::<Seq<char>>::empty()
    };
    proof {
        assert(strs_view(errors@) =~= acc3);
    }
    if config.server_info.as_str().unicode_len() == 0 {
        errors.push(String::from_str("server_info is empty."));
    }
    let ghost acc4 = acc3 + if cfg.server_info.len() == 0 {
        seq!["server_info is empty."@]
    } else {
        Seq::<Seq<char>>::empty()
    };
    proof {
        assert(strs_view(errors@) =~= acc4);
    }
    let mut isdir: bool = false;
    if config.resources_root.as_str().unicode_len() == 0 {
        errors.push(String::from_str("resources_root is empty."));
    } else {
        isdir = rsrc.is_dir(&config.resources_root);
        if !isdir {
            errors.push(String::from_str("resources_root is not a directory."));
        }
    }
    let ghost acc5 = acc4 + if cfg.resources_root.len() == 0 {
        seq!["resources_root is empty."@]
    } else if !isdir {
        seq!["resources_root is not a directory."@]
    } else {
        Seq::<Seq<char>>::empty()
    };
    proof {
        assert(strs_view(errors@) =~= acc5);
    }
    let mut missing: Vec<String> = Vec::new();
    let name0 = String::from_str("forbidden.html");
    let name1 = String::from_str("home.html");
    let name2 = String::from_str("not-found.html");
    let name3 = String::from_str("not-supported.html");
    let f0 = rsrc.has_path(&crate::utils::url_to_path(&config.resources_root, name0.as_str()));
    if !f0 {
        missing.push(name0);
    }
    let f1 = rsrc.has_path(&crate::utils::url_to_path(&config.resources_root, name1.as_str()));
    if !f1 {
        missing.push(name1);
    }
    let f2 = rsrc.has_path(&crate::utils::url_to_path(&config.resources_root, name2.as_str()));
    if !f2 {
        missing.push(name2);
    }
    let f3 = rsrc.has_path(&crate::utils::url_to_path(&config.resources_root, name3.as_str()));
    if !f3 {
        missing.push(name3);
    }
    let ghost fex = seq![f0, f1, f2, f3];
    proof {
        assert(strs_view(missing@) =~= missing_files(fex));
    }
    if missing.len() > 0 {
        let mut msg = String::from_str("Missing required files: ");
        msg.append(join_strings(&missing, ", ").as_str());
        proof {
            assert(missing@.map_values(|v: String| v@) =~= strs_view(missing@));
        }
        errors.push(msg);
    }
    let ghost acc6 = acc5 + if missing_files(fex).len() > 0 {
        seq![("Missing required files: "@ + join_with(missing_files(fex), ", "@))]
    } else {
        Seq::<Seq<char>>::empty()
    };
    proof {
        assert(strs_view(errors@) =~= acc6);
    }
    if config.read_error.as_str().unicode_len() == 0 {
        errors.push(String::from_str("read_error is empty."));
    }
    proof {
        assert(strs_view(errors@) =~= validate_base_errors(cfg, isdir, fex));
    }
    (errors, Ghost((isdir, fex)))
}

#[verifier::loop_isolation(false)]
fn missing_route_list(config: &Config) -> (r: Vec<String>)
    ensures
        strs_view(r@) == sort_strs(routes_without_views(config@.routes, config@.views)),
{
    let ghost cfg = config@;
    let mut missing_routes: Vec<String> = Vec::new();
    let mut j: usize = 0;
    proof {
        assert(strs_view(missing_routes@) =~= routes_without_views(
            cfg.routes.subrange(0, 0),
            cfg.views,
        ));
    }
    while j < config.routes.len()
        invariant
            j <= config.routes@.len(),
            strs_view(missing_routes@) == routes_without_views(
                cfg.routes.subrange(0, j as int),
                cfg.views,
            ),
        decreases config.routes@.len() - j,
    {
        let ghost pre = strs_view(missing_routes@);
        proof {
            assert(cfg.routes.subrange(0, j + 1).drop_last() =~= cfg.routes.subrange(0, j as int));
            assert(cfg.routes.subrange(0, j + 1).last() == cfg.routes[j as int]);
            assert(cfg.routes[j as int].2 == config.routes@[j as int].2@);
        }
        if !contains_string(&config.views, &config.routes[j].2) {
            missing_routes.push(config.routes[j].2.clone());
            proof {
                assert(strs_view(missing_routes@) =~= pre.push(cfg.routes[j as int].2));
            }
        }
        proof {
            assert(strs_view(missing_routes@) =~= routes_without_views(
                cfg.routes.subrange(0, j + 1),
                cfg.views,
            ));
        }
        j = j + 1;
    }
    proof {
        assert(cfg.routes.subrange(0, cfg.routes.len() as int) =~= cfg.routes);
    }
    sort_strings(missing_routes)
}

#[verifier::loop_isolation(false)]
fn missing_view_list(config: &Config) -> (r: Vec<String>)
    ensures
        strs_view(r@) == sort_strs(views_without_routes(config@.views, route_names(config@.routes))),
{
    let ghost cfg = config@;
    let mut names: Vec<String> = Vec::new();
    let mut k: usize = 0;
    while k < config.routes.len()
        invariant
            k <= config.routes@.len(),
            names@.len() == k,
            forall|w: int| 0 <= w < k ==> names@[w]@ == cfg.routes[w].2,
        decreases config.routes@.len() - k,
    {
        names.push(config.routes[k].2.clone());
        k = k + 1;
    }
    proof {
        assert(strs_view(names@) =~= route_names(cfg.routes));
    }
    let mut missing_views: Vec<String> = Vec::new();
    let mut m: usize = 0;
    proof {
        assert(strs_view(missing_views@) =~= views_without_routes(
            cfg.views.subrange(0, 0),
            route_names(cfg.routes),
        ));
    }
    while m < config.views.len()
        invariant
            m <= config.views@.len(),
            strs_view(names@) == route_names(cfg.routes),
            strs_view(missing_views@) == views_without_routes(
                cfg.views.subrange(0, m as int),
                route_names(cfg.routes),
            ),
        decreases config.views@.len() - m,
    {
        let ghost pre = strs_view(missing_views@);
        proof {
            assert(cfg.views.subrange(0, m + 1).drop_last() =~= cfg.views.subrange(0, m as int));
            assert(cfg.views.subrange(0, m + 1).last() == cfg.views[m as int]);
            assert(cfg.views[m as int] == config.views@[m as int]@);
        }
        if !contains_string(&names, &config.views[m]) {
            missing_views.push(config.views[m].clone());
            proof {
                assert(strs_view(missing_views@) =~= pre.push(cfg.views[m as int]));
            }
        }
        proof {
            assert(strs_view(missing_views@) =~= views_without_routes(
                cfg.views.subrange(0, m + 1),
                route_names(cfg.routes),
            ));
        }
        m = m + 1;
    }
    proof {
        assert(cfg.views.subrange(0, cfg.views.len() as int) =~= cfg.views);
    }
    sort_strings(missing_views)
}

/// Checks a configuration and reports every problem in one string; the
/// empty string means the configuration is valid.  The missing-route and
/// missing-view lists are sorted so that the message is deterministic.
#[verifier::rlimit(60)]
pub fn validate_config<R: Rsrc>(config: &Config, rsrc: &mut R) -> (r: String)
    ensures
        exists|isdir: bool, fex: Seq<bool>|
            fex.len() == 4 && r@ == #[trigger] spec_validate(config@, isdir, fex),
{
    let ghost cfg = config@;
    let (mut errors, oracle) = base_errors(config, rsrc);
    let ghost isdir = oracle@.0;
    let ghost fex = oracle@.1;
    let missing_routes = missing_route_list(config);
    if missing_routes.len() > 0 {
        let mut msg = String::from_str("No views for the following routes: ");
        msg.append(join_strings(&missing_routes, ", ").as_str());
        proof {
            assert(missing_routes@.map_values(|v: String| v@) =~= strs_view(missing_routes@));
        }
        errors.push(msg);
    }
    let missing_views = missing_view_list(config);
    if missing_views.len() > 0 {
        let mut msg = String::from_str("No routes for the following views: ");
        msg.append(join_strings(&missing_views, ", ").as_str());
        proof {
            assert(missing_views@.map_values(|v: String| v@) =~= strs_view(missing_views@));
        }
        errors.push(msg);
    }
    proof {
        assert(strs_view(errors@) =~= validate_errors(cfg, isdir, fex));
    }
    let r = join_strings(&errors, " ");
    proof {
        assert(errors@.map_values(|v: String| v@) =~= strs_view(errors@));
        assert(r@ == spec_validate(cfg, isdir, fex));
    }
    r
}

} // verus!
