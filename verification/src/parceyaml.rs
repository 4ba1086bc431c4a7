//! Turning a parsed upstreams file into the proxy's `Configuration`, and
//! finishing the main settings after they were read.
use crate::structs::{
    inner_auth_of, lookup, AppConfig, Config, Configuration, Extraparams, ExtraparamsView, HeaderTable, HostConfig,
    InnerAuth, InnerMap, InnerMapView, PathConfig, UpstreamTable,
};
use crate::text::{
    ascii_lowercase, eq_ascii_lowercase, parse_u16, parse_u16_str, split_once, split_once_str,
    str_eq, to_uppercase_str, trim, trim_str, unicode_uppercase,
};
use std::sync::Arc;
use vstd::prelude::*;

verus! {

broadcast use vstd::string::group_string_axioms;

// ---------------------------------------------------------------------------
// Headers
// ---------------------------------------------------------------------------

/// The `(name, value)` pairs of header lines written `name:value`: each line
/// is split at its first ':'; lines without one are left out. Name and value
/// are trimmed where `trim_key` and `trim_value` say so.
pub open spec fn header_pairs(lines: Seq<Seq<char>>, trim_key: bool, trim_value: bool) -> Seq<
    (Seq<char>, Seq<char>),
>
    decreases lines.len(),
{
    if lines.len() == 0 {
        Seq::empty()
    } else {
        let rest = header_pairs(lines.drop_last(), trim_key, trim_value);
        match split_once(lines.last(), ':') {
            Some(parts) => rest.push(
                (
                    if trim_key {
                        trim(parts.0)
                    } else {
                        parts.0
                    },
                    if trim_value {
                        trim(parts.1)
                    } else {
                        parts.1
                    },
                ),
            ),
            None => rest,
        }
    }
}

/// `header_pairs` of an optional list; no list gives no pairs.
pub open spec fn optional_header_pairs(
    lines: Option<Seq<Seq<char>>>,
    trim_key: bool,
    trim_value: bool,
) -> Seq<(Seq<char>, Seq<char>)> {
    match lines {
        Some(l) => header_pairs(l, trim_key, trim_value),
        None => Seq::empty(),
    }
}

/// Appends to `out` the header pairs of `lines` (see `header_pairs`).
pub fn push_header_pairs(
    lines: &Vec<String>,
    trim_key: bool,
    trim_value: bool,
    out: &mut Vec<(String, String)>,
)
    ensures
        final(out).deep_view() == old(out).deep_view() + header_pairs(
            lines.deep_view(),
            trim_key,
            trim_value,
        ),
{
    let ghost start = out.deep_view();
    let n = lines.len();
    let mut i: usize = 0;
    while i < n
        invariant
            n == lines@.len(),
            i <= n,
            out.deep_view() == start + header_pairs(
                lines.deep_view().take(i as int),
                trim_key,
                trim_value,
            ),
        decreases n - i,
    {
        let ghost ls = lines.deep_view().take(i + 1);
        assert(ls.drop_last() =~= lines.deep_view().take(i as int));
        assert(ls.last() == lines[i as int]@);
        match split_once_str(lines[i].as_str(), ':') {
            Some(parts) => {
                let key: &str = if trim_key {
                    trim_str(parts.0)
                } else {
                    parts.0
                };
                let value: &str = if trim_value {
                    trim_str(parts.1)
                } else {
                    parts.1
                };
                let pair = (key.to_string(), value.to_string());
                assert(pair.deep_view() == (key@, value@));
                assert(split_once(ls.last(), ':') == Some((parts.0@, parts.1@)));
                let ghost before = out.deep_view();
                out.push(pair);
                assert(out.deep_view() =~= before.push((key@, value@)));
                assert(header_pairs(ls, trim_key, trim_value) == header_pairs(
                    lines.deep_view().take(i as int),
                    trim_key,
                    trim_value,
                ).push((key@, value@)));
                assert(out.deep_view() =~= start + header_pairs(ls, trim_key, trim_value));
            },
            None => {
                assert(out.deep_view() =~= start + header_pairs(ls, trim_key, trim_value));
            },
        }
        i = i + 1;
    }
    assert(lines.deep_view().take(n as int) =~= lines.deep_view());
}

/// Appends to `hl` the headers of a path: each `name:value` line split at
/// its first ':', name and value trimmed; lines without ':' are skipped.
pub fn build_headers(
    path_config: &Option<Vec<String>>,
    _config: &Configuration,
    hl: &mut Vec<(String, String)>,
)
    ensures
        final(hl).deep_view() == old(hl).deep_view() + optional_header_pairs(
            path_config.deep_view(),
            true,
            true,
        ),
{
    match path_config {
        Some(headers) => push_header_pairs(headers, true, true, hl),
        None => {
            assert(hl.deep_view() =~= hl.deep_view() + Seq::<(Seq<char>, Seq<char>)>::empty());
        },
    }
}

// ---------------------------------------------------------------------------
// Backends
// ---------------------------------------------------------------------------

/// The backend that a server entry `address:port` of a path declares, with
/// the path's settings; `None` where the entry has no ':' or its port is
/// not a 16-bit number.
pub open spec fn backend_of(server: Seq<char>, pc: PathConfig) -> Option<InnerMapView> {
    match split_once(server, ':') {
        Some(parts) => match parse_u16(parts.1) {
            Some(port) => Some(
                InnerMapView {
                    address: parts.0,
                    port: port,
                    is_ssl: false,
                    is_http2: false,
                    to_https: match pc.to_https {
                        Some(b) => b,
                        None => false,
                    },
                    rate_limit: pc.rate_limit,
                    healthcheck: pc.healthcheck,
                    redirect_to: pc.redirect_to.deep_view(),
                    authorization: pc.authorization.deep_view(),
                },
            ),
            None => None,
        },
        None => None,
    }
}

/// The backends of the server entries `servers`, in order; entries that
/// declare none are left out.
pub open spec fn backends_of(servers: Seq<Seq<char>>, pc: PathConfig) -> Seq<InnerMapView>
    decreases servers.len(),
{
    if servers.len() == 0 {
        Seq::empty()
    } else {
        let rest = backends_of(servers.drop_last(), pc);
        match backend_of(servers.last(), pc) {
            Some(b) => rest.push(b),
            None => rest,
        }
    }
}

/// Every backend built for a path redirects its clients to HTTPS exactly
/// when the path sets `to_https` to true (a path that leaves it unset never
/// redirects), is plain HTTP/1, and carries the path's rate limit and
/// health-check setting.
pub proof fn law_backends_follow_path_settings(servers: Seq<Seq<char>>, pc: PathConfig)
    ensures
        forall|i: int|
            0 <= i < backends_of(servers, pc).len() ==> {
                &&& (#[trigger] backends_of(servers, pc)[i]).to_https == (pc.to_https == Some(true))
                &&& !backends_of(servers, pc)[i].is_ssl
                &&& !backends_of(servers, pc)[i].is_http2
                &&& backends_of(servers, pc)[i].rate_limit == pc.rate_limit
                &&& backends_of(servers, pc)[i].healthcheck == pc.healthcheck
            },
    decreases servers.len(),
{
    if servers.len() > 0 {
        law_backends_follow_path_settings(servers.drop_last(), pc);
    }
}

/// The backends of a path (see `backends_of`).
pub fn path_backends(pc: &PathConfig) -> (r: Vec<InnerMap>)
    ensures
        r.deep_view() == backends_of(pc.servers.deep_view(), *pc),
{
    let mut out: Vec<InnerMap> = Vec::new();
    let n = pc.servers.len();
    let mut i: usize = 0;
    while i < n
        invariant
            n == pc.servers@.len(),
            i <= n,
            out.deep_view() == backends_of(pc.servers.deep_view().take(i as int), *pc),
        decreases n - i,
    {
        let ghost ss = pc.servers.deep_view().take(i + 1);
        assert(ss.drop_last() =~= pc.servers.deep_view().take(i as int));
        assert(ss.last() == pc.servers[i as int]@);
        match split_once_str(pc.servers[i].as_str(), ':') {
            Some(parts) => match parse_u16_str(parts.1) {
                Some(port) => {
                    let authorization: Option<Arc<InnerAuth>> = match &pc.authorization {
                        Some(pa) => Some(Arc::new(inner_auth_of(pa))),
                        None => None,
                    };
                    let redirect_to: Option<String> = match &pc.redirect_to {
                        Some(www) => Some(www.clone()),
                        None => None,
                    };
                    let to_https = match pc.to_https {
                        Some(b) => b,
                        None => false,
                    };
                    out.push(
                        InnerMap {
                            address: parts.0.to_string(),
                            port,
                            is_ssl: false,
                            is_http2: false,
                            to_https,
                            rate_limit: pc.rate_limit,
                            healthcheck: pc.healthcheck,
                            redirect_to,
                            authorization,
                        },
                    );
                },
                None => {},
            },
            None => {},
        }
        proof {
            assert(out.deep_view() =~= backends_of(ss, *pc));
        }
        i = i + 1;
    }
    assert(pc.servers.deep_view().take(n as int) =~= pc.servers.deep_view());
    out
}

// ---------------------------------------------------------------------------
// Tables
// ---------------------------------------------------------------------------

/// Path, then the backends of that path.
pub open spec fn path_table_of(paths: Seq<(String, PathConfig)>) -> Seq<
    (Seq<char>, Seq<InnerMapView>),
> {
    paths.map_values(
        |e: (String, PathConfig)| (e.0@, backends_of(e.1.servers.deep_view(), e.1)),
    )
}

/// Host, then path, then the backends of that path.
pub open spec fn host_table_of(hosts: Seq<(String, HostConfig)>) -> Seq<
    (Seq<char>, Seq<(Seq<char>, Seq<InnerMapView>)>),
> {
    hosts.map_values(|e: (String, HostConfig)| (e.0@, path_table_of(e.1.paths@)))
}

/// The header lines of a path: those sent to clients or those sent to
/// servers.
pub open spec fn path_header_lines(pc: PathConfig, client: bool) -> Option<Seq<Seq<char>>> {
    if client {
        pc.client_headers.deep_view()
    } else {
        pc.server_headers.deep_view()
    }
}

/// Path, then its headers of one side, trimmed.
pub open spec fn path_header_table_of(paths: Seq<(String, PathConfig)>, client: bool) -> Seq<
    (Seq<char>, Seq<(Seq<char>, Seq<char>)>),
> {
    paths.map_values(
        |e: (String, PathConfig)|
            (e.0@, optional_header_pairs(path_header_lines(e.1, client), true, true)),
    )
}

/// Host, then path, then headers of one side.
pub open spec fn host_header_table_of(hosts: Seq<(String, HostConfig)>, client: bool) -> Seq<
    (Seq<char>, Seq<(Seq<char>, Seq<(Seq<char>, Seq<char>)>)>),
> {
    hosts.map_values(
        |e: (String, HostConfig)| (e.0@, path_header_table_of(e.1.paths@, client)),
    )
}

/// The path table of one host (see `path_table_of`).
pub fn path_table(paths: &Vec<(String, PathConfig)>) -> (r: Vec<(String, Vec<InnerMap>)>)
    ensures
        r.deep_view() == path_table_of(paths@),
{
    let mut out: Vec<(String, Vec<InnerMap>)> = Vec::new();
    let n = paths.len();
    let mut i: usize = 0;
    while i < n
        invariant
            n == paths@.len(),
            i <= n,
            out.deep_view() == path_table_of(paths@.take(i as int)),
        decreases n - i,
    {
        let backends = path_backends(&paths[i].1);
        let ghost before = out.deep_view();
        out.push((paths[i].0.clone(), backends));
        proof {
            assert(out.deep_view() =~= before.push(
                (paths@[i as int].0@, backends_of(paths@[i as int].1.servers.deep_view(), paths@[i as int].1)),
            ));
            assert(paths@.take(i + 1).drop_last() =~= paths@.take(i as int));
            assert(out.deep_view() =~= path_table_of(paths@.take(i + 1)));
        }
        i = i + 1;
    }
    assert(paths@.take(n as int) =~= paths@);
    out
}

/// The header table of one host, for one side (see `path_header_table_of`).
pub fn path_header_table(paths: &Vec<(String, PathConfig)>, client: bool) -> (r: Vec<
    (String, Vec<(String, String)>),
>)
    ensures
        r.deep_view() == path_header_table_of(paths@, client),
{
    let mut out: Vec<(String, Vec<(String, String)>)> = Vec::new();
    let n = paths.len();
    let mut i: usize = 0;
    let empty = Configuration::default();
    while i < n
        invariant
            n == paths@.len(),
            i <= n,
            out.deep_view() == path_header_table_of(paths@.take(i as int), client),
        decreases n - i,
    {
        let pc = &paths[i].1;
        let mut hl: Vec<(String, String)> = Vec::new();
        if client {
            build_headers(&pc.client_headers, &empty, &mut hl);
        } else {
            build_headers(&pc.server_headers, &empty, &mut hl);
        }
        assert(hl.deep_view() =~= optional_header_pairs(path_header_lines(*pc, client), true, true));
        let ghost before = out.deep_view();
        out.push((paths[i].0.clone(), hl));
        proof {
            assert(out.deep_view() =~= before.push(
                (paths@[i as int].0@, optional_header_pairs(path_header_lines(*pc, client), true, true)),
            ));
            assert(paths@.take(i + 1).drop_last() =~= paths@.take(i as int));
            assert(out.deep_view() =~= path_header_table_of(paths@.take(i + 1), client));
        }
        i = i + 1;
    }
    assert(paths@.take(n as int) =~= paths@);
    out
}

/// Adds to `config` what a file-provided upstreams section declares: the
/// backends of every host and path, and their client and server headers.
/// Without an upstreams section nothing changes, the first-load state
/// (`first_run`) included. With one, the first load is over afterwards,
/// and the result says whether the table just stored is to be replaced by
/// what the health check of it returns: on every load but the first.
pub fn populate_file_upstreams(config: &mut Configuration, parsed: &Config, first_run: &mut bool) -> (check: bool)
    ensures
        parsed.upstreams is None ==> *final(first_run) == *old(first_run) && !check,
        parsed.upstreams is Some ==> !*final(first_run) && check == !*old(first_run),
        match parsed.upstreams {
            Some(hosts) => {
                &&& final(config).upstreams.deep_view() == host_table_of(hosts@)
                &&& final(config).client_headers.deep_view() == old(config).client_headers.deep_view()
                    + host_header_table_of(hosts@, true)
                &&& final(config).server_headers.deep_view() == old(config).server_headers.deep_view()
                    + host_header_table_of(hosts@, false)
            },
            None => {
                &&& final(config).upstreams.deep_view() == old(config).upstreams.deep_view()
                &&& final(config).client_headers.deep_view() == old(config).client_headers.deep_view()
                &&& final(config).server_headers.deep_view() == old(config).server_headers.deep_view()
            },
        },
        final(config).consul == old(config).consul,
        final(config).kubernetes == old(config).kubernetes,
        final(config).typecfg == old(config).typecfg,
        final(config).extraparams == old(config).extraparams,
{
    match &parsed.upstreams {
        Some(hosts) => {
            let mut table: UpstreamTable = Vec::new();
            let n = hosts.len();
            let mut i: usize = 0;
            while i < n
                invariant
                    n == hosts@.len(),
                    i <= n,
                    table.deep_view() == host_table_of(hosts@.take(i as int)),
                    config.client_headers.deep_view() == old(config).client_headers.deep_view()
                        + host_header_table_of(hosts@.take(i as int), true),
                    config.server_headers.deep_view() == old(config).server_headers.deep_view()
                        + host_header_table_of(hosts@.take(i as int), false),
                    config.upstreams == old(config).upstreams,
                    config.consul == old(config).consul,
                    config.kubernetes == old(config).kubernetes,
                    config.typecfg == old(config).typecfg,
                    config.extraparams == old(config).extraparams,
                decreases n - i,
            {
                let hostname = &hosts[i].0;
                let paths = &hosts[i].1.paths;
                let client = path_header_table(paths, true);
                let server = path_header_table(paths, false);
                let backends = path_table(paths);
                let ghost e = hosts@[i as int];
                let ghost c0 = config.client_headers.deep_view();
                let ghost s0 = config.server_headers.deep_view();
                let ghost t0 = table.deep_view();
                config.client_headers.push((hostname.clone(), client));
                config.server_headers.push((hostname.clone(), server));
                table.push((hostname.clone(), backends));
                proof {
                    assert(hosts@.take(i + 1).drop_last() =~= hosts@.take(i as int));
                    assert(config.client_headers.deep_view() =~= c0.push(
                        (e.0@, path_header_table_of(e.1.paths@, true)),
                    ));
                    assert(config.server_headers.deep_view() =~= s0.push(
                        (e.0@, path_header_table_of(e.1.paths@, false)),
                    ));
                    assert(table.deep_view() =~= t0.push((e.0@, path_table_of(e.1.paths@))));
                    assert(host_header_table_of(hosts@.take(i + 1), true) =~= host_header_table_of(
                        hosts@.take(i as int),
                        true,
                    ).push((e.0@, path_header_table_of(e.1.paths@, true))));
                    assert(host_header_table_of(hosts@.take(i + 1), false) =~= host_header_table_of(
                        hosts@.take(i as int),
                        false,
                    ).push((e.0@, path_header_table_of(e.1.paths@, false))));
                    assert(config.client_headers.deep_view() =~= old(config).client_headers.deep_view()
                        + host_header_table_of(hosts@.take(i + 1), true));
                    assert(config.server_headers.deep_view() =~= old(config).server_headers.deep_view()
                        + host_header_table_of(hosts@.take(i + 1), false));
                    assert(table.deep_view() =~= host_table_of(hosts@.take(i + 1)));
                }
                i = i + 1;
            }
            assert(hosts@.take(n as int) =~= hosts@);
            config.upstreams = table;
            let check = !*first_run;
            *first_run = false;
            check
        },
        None => false,
    }
}

// ---------------------------------------------------------------------------
// Global headers and settings
// ---------------------------------------------------------------------------

/// The headers that every client response carries: the file's
/// `client_headers`, split at ':' and taken as written.
pub open spec fn global_client_headers(parsed: Config) -> Seq<(Seq<char>, Seq<char>)> {
    optional_header_pairs(parsed.client_headers.deep_view(), false, false)
}

/// The headers that every upstream request carries: the file's
/// `server_headers`, split at ':', the value trimmed.
pub open spec fn global_server_headers(parsed: Config) -> Seq<(Seq<char>, Seq<char>)> {
    optional_header_pairs(parsed.server_headers.deep_view(), false, true)
}

/// Registers the file's global headers under the keys
/// `GLOBAL_CLIENT_HEADERS` and `GLOBAL_SERVER_HEADERS` (path "/"), and
/// copies its global settings into `config.extraparams`; the authorization
/// is replaced only where the file gives one.
pub fn populate_headers_and_auth(config: &mut Configuration, parsed: &Config)
    ensures
        final(config).client_headers.deep_view() == old(config).client_headers.deep_view().push(
            ("GLOBAL_CLIENT_HEADERS"@, seq![("/"@, global_client_headers(*parsed))]),
        ),
        final(config).server_headers.deep_view() == old(config).server_headers.deep_view().push(
            ("GLOBAL_SERVER_HEADERS"@, seq![("/"@, global_server_headers(*parsed))]),
        ),
        final(config).extraparams.to_https == parsed.to_https,
        final(config).extraparams.sticky_sessions == parsed.sticky_sessions,
        final(config).extraparams.rate_limit == parsed.rate_limit,
        final(config).extraparams.authentication.deep_view() == match parsed.authorization {
            Some(a) => Some(a.deep_view()),
            None => old(config).extraparams.authentication.deep_view(),
        },
        final(config).upstreams == old(config).upstreams,
        final(config).consul == old(config).consul,
        final(config).kubernetes == old(config).kubernetes,
        final(config).typecfg == old(config).typecfg,
{
    let mut ch: Vec<(String, String)> = Vec::new();
    match &parsed.client_headers {
        Some(headers) => push_header_pairs(headers, false, false, &mut ch),
        None => {},
    }
    assert(ch.deep_view() =~= global_client_headers(*parsed));
    let mut client_paths: Vec<(String, Vec<(String, String)>)> = Vec::new();
    client_paths.push(("/".to_string(), ch));
    assert(client_paths.deep_view() =~= seq![("/"@, global_client_headers(*parsed))]);
    let ghost c0 = config.client_headers.deep_view();
    config.client_headers.push(("GLOBAL_CLIENT_HEADERS".to_string(), client_paths));
    assert(config.client_headers.deep_view() =~= c0.push(
        ("GLOBAL_CLIENT_HEADERS"@, seq![("/"@, global_client_headers(*parsed))]),
    ));

    let mut sh: Vec<(String, String)> = Vec::new();
    match &parsed.server_headers {
        Some(headers) => push_header_pairs(headers, false, true, &mut sh),
        None => {},
    }
    assert(sh.deep_view() =~= global_server_headers(*parsed));
    let mut server_paths: Vec<(String, Vec<(String, String)>)> = Vec::new();
    server_paths.push(("/".to_string(), sh));
    assert(server_paths.deep_view() =~= seq![("/"@, global_server_headers(*parsed))]);
    let ghost s0 = config.server_headers.deep_view();
    config.server_headers.push(("GLOBAL_SERVER_HEADERS".to_string(), server_paths));
    assert(config.server_headers.deep_view() =~= s0.push(
        ("GLOBAL_SERVER_HEADERS"@, seq![("/"@, global_server_headers(*parsed))]),
    ));

    config.extraparams.to_https = parsed.to_https;
    config.extraparams.sticky_sessions = parsed.sticky_sessions;
    config.extraparams.rate_limit = parsed.rate_limit;
    match &parsed.authorization {
        Some(pa) => {
            config.extraparams.authentication = Some(Arc::new(inner_auth_of(pa)));
        },
        None => {},
    }
}

// ---------------------------------------------------------------------------
// The whole configuration
// ---------------------------------------------------------------------------

/// The error of the first extra upstreams file that failed to parse.
pub open spec fn first_error(extra: Seq<Result<Vec<(String, HostConfig)>, String>>) -> Option<
    String,
>
    decreases extra.len(),
{
    if extra.len() == 0 {
        None
    } else {
        match extra[0] {
            Err(e) => Some(e),
            Ok(_) => first_error(extra.drop_first()),
        }
    }
}

/// All hosts of the extra upstreams files that parsed, file after file.
pub open spec fn extra_hosts(extra: Seq<Result<Vec<(String, HostConfig)>, String>>) -> Seq<
    (String, HostConfig),
>
    decreases extra.len(),
{
    if extra.len() == 0 {
        Seq::empty()
    } else {
        let rest = extra_hosts(extra.drop_last());
        match extra.last() {
            Ok(hosts) => rest + hosts@,
            Err(_) => rest,
        }
    }
}

/// Whether the file names a provider that the proxy knows.
pub open spec fn known_provider(provider: Seq<char>) -> bool {
    provider == "file"@ || provider == "consul"@ || provider == "kubernetes"@
}

proof fn lemma_first_error_skip(extra: Seq<Result<Vec<(String, HostConfig)>, String>>, i: int)
    requires
        0 <= i <= extra.len(),
        forall|j: int| 0 <= j < i ==> (#[trigger] extra[j]) is Ok,
    ensures
        first_error(extra) == first_error(extra.skip(i)),
    decreases i,
{
    if i > 0 {
        assert(extra.drop_first().skip(i - 1) =~= extra.skip(i));
        lemma_first_error_skip(extra.drop_first(), i - 1);
    } else {
        assert(extra.skip(0) =~= extra);
    }
}

/// Where an upstreams text comes from.
pub enum UpstreamSource {
    /// A file, named by the text given.
    FilePath,
    /// The text given itself (the body of an API request).
    Content,
}

/// The source that a load request names: "filepath" or "content"; `None`
/// for any other word.
pub fn upstream_source(kind: &str) -> (r: Option<UpstreamSource>)
    ensures
        kind@ == "filepath"@ ==> r matches Some(UpstreamSource::FilePath),
        kind@ == "content"@ ==> r matches Some(UpstreamSource::Content),
        kind@ != "filepath"@ && kind@ != "content"@ ==> r is None,
{
    proof {
        reveal_strlit("filepath");
        reveal_strlit("content");
        assert("filepath"@.len() == 8);
        assert("content"@.len() == 7);
    }
    if str_eq(kind, "filepath") {
        Some(UpstreamSource::FilePath)
    } else if str_eq(kind, "content") {
        Some(UpstreamSource::Content)
    } else {
        None
    }
}

/// The configuration that an upstreams file gives, `parsed`, together with
/// the extra upstreams files read beside it, `extra`, each parsed or the
/// error of parsing it, in the order they are read.
///
/// The extra files count only where `parsed` has an upstreams section; then
/// the first that failed makes the result `(None, its error)`, and the hosts
/// of the others are added after those of `parsed` (a later host replaces
/// an earlier one of the same name). Otherwise the result is `None` with
/// "Unknown provider" for a provider other than file, consul or kubernetes;
/// for consul or kubernetes, a configuration where that section is present;
/// for file, always a configuration; the message is then "Ok".
///
/// The file provider's upstreams section, where no extra file failed, ends
/// the first load (`first_run`, see `populate_file_upstreams`); the third
/// part of the result then says whether the upstream table is to be
/// replaced by what the health check of it returns.
pub fn configuration_from_parsed(
    parsed: Config,
    extra: Vec<Result<Vec<(String, HostConfig)>, String>>,
    first_run: &mut bool,
) -> (r: (Option<Configuration>, String, bool))
    ensures
        ({
            let has_hosts = parsed.upstreams is Some;
            let loads = has_hosts && first_error(extra@) is None && parsed.provider@ == "file"@;
            &&& loads ==> !*final(first_run) && r.2 == !*old(first_run)
            &&& !loads ==> *final(first_run) == *old(first_run) && !r.2
        }),
        ({
            let has_hosts = parsed.upstreams is Some;
            let failed = has_hosts && first_error(extra@) is Some;
            let hosts: Option<Seq<(String, HostConfig)>> = match parsed.upstreams {
                Some(h) => Some(h@ + extra_hosts(extra@)),
                None => None,
            };
            let p = parsed.provider@;
            &&& failed ==> r.0 is None && first_error(extra@) === Some(r.1)
            &&& !failed ==> (r.0 is Some <==> (p == "file"@ || (p == "consul"@ && parsed.consul is Some)
                || (p == "kubernetes"@ && parsed.kubernetes is Some)))
            &&& !failed ==> r.1@ == if known_provider(p) {
                "Ok"@
            } else {
                "Unknown provider"@
            }
            &&& r.0 matches Some(c) ==> {
                &&& c.typecfg@ == p
                &&& c.extraparams.to_https == parsed.to_https
                &&& c.extraparams.sticky_sessions == parsed.sticky_sessions
                &&& c.extraparams.rate_limit == parsed.rate_limit
                &&& c.extraparams.authentication.deep_view() == match parsed.authorization {
                    Some(a) => Some(a.deep_view()),
                    None => None,
                }
                &&& c.consul === if p == "consul"@ {
                    parsed.consul
                } else {
                    None
                }
                &&& c.kubernetes === if p == "kubernetes"@ {
                    parsed.kubernetes
                } else {
                    None
                }
                &&& c.upstreams.deep_view() == match hosts {
                    Some(h) => if p == "file"@ {
                        host_table_of(h)
                    } else {
                        Seq::empty()
                    },
                    None => Seq::empty(),
                }
                &&& c.client_headers.deep_view() == seq![
                    ("GLOBAL_CLIENT_HEADERS"@, seq![("/"@, global_client_headers(parsed))]),
                ] + match hosts {
                    Some(h) => if p == "file"@ {
                        host_header_table_of(h, true)
                    } else {
                        Seq::empty()
                    },
                    None => Seq::empty(),
                }
                &&& c.server_headers.deep_view() == seq![
                    ("GLOBAL_SERVER_HEADERS"@, seq![("/"@, global_server_headers(parsed))]),
                ] + match hosts {
                    Some(h) => if p == "file"@ {
                        host_header_table_of(h, false)
                    } else {
                        Seq::empty()
                    },
                    None => Seq::empty(),
                }
            }
        }),
{
    proof {
        reveal_strlit("file");
        reveal_strlit("consul");
        reveal_strlit("kubernetes");
        assert("file"@.len() == 4);
        assert("consul"@.len() == 6);
        assert("kubernetes"@.len() == 10);
    }
    let ghost parsed0 = parsed;
    let ghost extra0 = extra@;
    let mut cfg = parsed;
    let is_file = str_eq(cfg.provider.as_str(), "file");
    let is_consul = str_eq(cfg.provider.as_str(), "consul");
    let is_kubernetes = str_eq(cfg.provider.as_str(), "kubernetes");
    let mut rest = extra;
    let has_hosts = cfg.upstreams.is_some();
    if has_hosts {
        let mut hosts = cfg.upstreams.take().unwrap();
        let ghost hosts0 = hosts@;
        let n = rest.len();
        let mut i: usize = 0;
        #[verifier::loop_isolation(false)]
        while i < n
            invariant
                n == extra0.len(),
                i <= n,
                rest@ == extra0.skip(i as int),
                forall|j: int| 0 <= j < i ==> (#[trigger] extra0[j]) is Ok,
                hosts@ == hosts0 + extra_hosts(extra0.take(i as int)),
            decreases n - i,
        {
            let item = rest.remove(0);
            assert(item == extra0[i as int]);
            match item {
                Ok(more) => {
                    let mut more = more;
                    hosts.append(&mut more);
                    proof {
                        assert(extra0.take(i + 1).drop_last() =~= extra0.take(i as int));
                        assert(hosts@ =~= hosts0 + extra_hosts(extra0.take(i + 1)));
                    }
                },
                Err(e) => {
                    proof {
                        lemma_first_error_skip(extra0, i as int);
                        assert(extra0.skip(i as int)[0] == extra0[i as int]);
                    }
                    return (None, e, false);
                },
            }
            assert(rest@ =~= extra0.skip(i + 1));
            i = i + 1;
        }
        proof {
            lemma_first_error_skip(extra0, n as int);
            assert(extra0.take(n as int) =~= extra0);
        }
        cfg.upstreams = Some(hosts);
    }
    let mut toreturn = Configuration::default();
    populate_headers_and_auth(&mut toreturn, &cfg);
    toreturn.typecfg = cfg.provider.clone();
    if is_file {
        let check = populate_file_upstreams(&mut toreturn, &cfg, first_run);
        proof {
            assert(toreturn.client_headers.deep_view() =~= seq![
                ("GLOBAL_CLIENT_HEADERS"@, seq![("/"@, global_client_headers(parsed0))]),
            ] + match cfg.upstreams {
                Some(h) => host_header_table_of(h@, true),
                None => Seq::empty(),
            });
            assert(toreturn.server_headers.deep_view() =~= seq![
                ("GLOBAL_SERVER_HEADERS"@, seq![("/"@, global_server_headers(parsed0))]),
            ] + match cfg.upstreams {
                Some(h) => host_header_table_of(h@, false),
                None => Seq::empty(),
            });
            assert(toreturn.upstreams.deep_view() =~= match cfg.upstreams {
                Some(h) => host_table_of(h@),
                None => Seq::empty(),
            });
        }
        (Some(toreturn), "Ok".to_string(), check)
    } else {
        proof {
            assert(toreturn.client_headers.deep_view() =~= seq![
                ("GLOBAL_CLIENT_HEADERS"@, seq![("/"@, global_client_headers(parsed0))]),
            ] + Seq::empty());
            assert(toreturn.server_headers.deep_view() =~= seq![
                ("GLOBAL_SERVER_HEADERS"@, seq![("/"@, global_server_headers(parsed0))]),
            ] + Seq::empty());
        }
        if is_consul {
            let present = cfg.consul.is_some();
            toreturn.consul = cfg.consul;
            if present {
                (Some(toreturn), "Ok".to_string(), false)
            } else {
                (None, "Ok".to_string(), false)
            }
        } else if is_kubernetes {
            let present = cfg.kubernetes.is_some();
            toreturn.kubernetes = cfg.kubernetes;
            if present {
                (Some(toreturn), "Ok".to_string(), false)
            } else {
                (None, "Ok".to_string(), false)
            }
        } else {
            (None, "Unknown provider".to_string(), false)
        }
    }
}

// ---------------------------------------------------------------------------
// Main settings
// ---------------------------------------------------------------------------

/// The TLS grade that a setting selects: "high" or "unsafe" where the
/// setting says so in any ASCII case, "medium" otherwise and where unset.
pub open spec fn tls_grade(what: Option<Seq<char>>) -> Seq<char> {
    match what {
        Some(g) => if ascii_lowercase(g) == "high"@ {
            "high"@
        } else if ascii_lowercase(g) == "unsafe"@ {
            "unsafe"@
        } else {
            "medium"@
        },
        None => "medium"@,
    }
}

/// The TLS grade to run with (see `tls_grade`); always set.
pub fn parce_tls_grades(what: Option<String>) -> (r: Option<String>)
    ensures
        r matches Some(g) && g@ == tls_grade(what.deep_view()),
{
    match what {
        Some(g) => {
            if eq_ascii_lowercase(g.as_str(), "high") {
                Some("high".to_string())
            } else if eq_ascii_lowercase(g.as_str(), "medium") {
                proof {
                    reveal_strlit("medium");
                    reveal_strlit("high");
                    reveal_strlit("unsafe");
                    assert("medium"@.len() == 6);
                    assert("unsafe"@.len() == 6);
                    assert("medium"@[0] != "unsafe"@[0]);
                }
                Some("medium".to_string())
            } else if eq_ascii_lowercase(g.as_str(), "unsafe") {
                Some("unsafe".to_string())
            } else {
                Some("medium".to_string())
            }
        },
        None => Some("medium".to_string()),
    }
}

/// Whether the logger knows `level`: info, error, warn, debug, trace, off.
pub open spec fn known_log_level(level: Seq<char>) -> bool {
    ||| level == "info"@
    ||| level == "error"@
    ||| level == "warn"@
    ||| level == "debug"@
    ||| level == "trace"@
    ||| level == "off"@
}

/// The log filter for a configured level, and whether the level was known:
/// a known level stands for itself, any other gives "info".
pub fn log_level_filter(level: &str) -> (r: (String, bool))
    ensures
        r.1 == known_log_level(level@),
        r.0@ == if known_log_level(level@) {
            level@
        } else {
            "info"@
        },
{
    if str_eq(level, "info") || str_eq(level, "error") || str_eq(level, "warn") || str_eq(
        level,
        "debug",
    ) || str_eq(level, "trace") || str_eq(level, "off") {
        (level.to_string(), true)
    } else {
        ("info".to_string(), false)
    }
}

/// The main settings as the proxy runs on them, from those as read: the
/// health-check method in upper case; the local server taken from the
/// configuration address `ip:port` where its port parses; the TLS and
/// plain proxy ports taken from the part of their addresses after the
/// first ':'; the TLS grade settled (see `tls_grade`). Every other setting
/// is kept.
pub fn finish_main_config(cfo: AppConfig) -> (r: AppConfig)
    ensures
        r.hc_method@ == unicode_uppercase(cfo.hc_method@),
        r.local_server.deep_view() == match split_once(cfo.config_address@, ':') {
            Some(parts) => match parse_u16(parts.1) {
                Some(port) => Some((parts.0, port)),
                None => cfo.local_server.deep_view(),
            },
            None => cfo.local_server.deep_view(),
        },
        r.proxy_port_tls.deep_view() == match cfo.proxy_address_tls {
            Some(a) => match split_once(a@, ':') {
                Some(parts) => Some(parts.1),
                None => cfo.proxy_port_tls.deep_view(),
            },
            None => cfo.proxy_port_tls.deep_view(),
        },
        r.proxy_port.deep_view() == match split_once(cfo.proxy_address_http@, ':') {
            Some(parts) => Some(parts.1),
            None => cfo.proxy_port.deep_view(),
        },
        r.proxy_tls_grade.deep_view() == Some(tls_grade(cfo.proxy_tls_grade.deep_view())),
        r.hc_interval == cfo.hc_interval,
        r.upstreams_conf == cfo.upstreams_conf,
        r.log_level == cfo.log_level,
        r.master_key == cfo.master_key,
        r.config_address == cfo.config_address,
        r.proxy_address_http == cfo.proxy_address_http,
        r.config_api_enabled == cfo.config_api_enabled,
        r.config_tls_address == cfo.config_tls_address,
        r.config_tls_certificate == cfo.config_tls_certificate,
        r.config_tls_key_file == cfo.config_tls_key_file,
        r.proxy_address_tls == cfo.proxy_address_tls,
        r.proxy_configs == cfo.proxy_configs,
        r.file_server_address == cfo.file_server_address,
        r.file_server_folder == cfo.file_server_folder,
        r.runuser == cfo.runuser,
        r.rungroup == cfo.rungroup,
{
    let mut cfo = cfo;
    cfo.hc_method = to_uppercase_str(cfo.hc_method.as_str());
    match split_once_str(cfo.config_address.as_str(), ':') {
        Some(parts) => match parse_u16_str(parts.1) {
            Some(port) => {
                cfo.local_server = Some((parts.0.to_string(), port));
            },
            None => {},
        },
        None => {},
    }
    match &cfo.proxy_address_tls {
        Some(tls) => match split_once_str(tls.as_str(), ':') {
            Some(parts) => {
                cfo.proxy_port_tls = Some(parts.1.to_string());
            },
            None => {},
        },
        None => {},
    }
    match split_once_str(cfo.proxy_address_http.as_str(), ':') {
        Some(parts) => {
            cfo.proxy_port = Some(parts.1.to_string());
        },
        None => {},
    }
    let grade = cfo.proxy_tls_grade.take();
    cfo.proxy_tls_grade = parce_tls_grades(grade);
    cfo
}

// ---------------------------------------------------------------------------
// Laws
// ---------------------------------------------------------------------------

/// Settling a TLS grade that is already settled changes nothing.
pub proof fn law_tls_grade_settled(what: Option<Seq<char>>)
    ensures
        tls_grade(Some(tls_grade(what))) == tls_grade(what),
{
    reveal_strlit("high");
    reveal_strlit("medium");
    reveal_strlit("unsafe");
    assert(ascii_lowercase("high"@) =~= "high"@);
    assert(ascii_lowercase("unsafe"@) =~= "unsafe"@);
    assert(ascii_lowercase("medium"@) =~= "medium"@);
    assert("medium"@ != "high"@) by {
        assert("medium"@.len() != "high"@.len());
    }
    assert("medium"@ != "unsafe"@) by {
        assert("medium"@[0] != "unsafe"@[0]);
    }
    assert("high"@ != "unsafe"@) by {
        assert("high"@.len() != "unsafe"@.len());
    }
}

proof fn lemma_lookup_concat<K, V>(a: Seq<(K, V)>, b: Seq<(K, V)>, key: K)
    ensures
        lookup(a + b, key) == match lookup(b, key) {
            Some(v) => Some(v),
            None => lookup(a, key),
        },
    decreases b.len(),
{
    if b.len() == 0 {
        assert(a + b =~= a);
    } else {
        assert((a + b).drop_last() =~= a + b.drop_last());
        assert((a + b).last() == b.last());
        lemma_lookup_concat(a, b.drop_last(), key);
    }
}

/// Hosts read later replace hosts of the same name read earlier: in the
/// upstream table of `earlier` followed by `later`, a host has the paths
/// and backends that `later` gives it, and those of `earlier` only where
/// `later` does not name it.
pub proof fn law_later_hosts_replace_earlier(
    earlier: Seq<(String, HostConfig)>,
    later: Seq<(String, HostConfig)>,
    host: Seq<char>,
)
    ensures
        lookup(host_table_of(earlier + later), host) == match lookup(host_table_of(later), host) {
            Some(paths) => Some(paths),
            None => lookup(host_table_of(earlier), host),
        },
{
    assert(host_table_of(earlier + later) =~= host_table_of(earlier) + host_table_of(later));
    lemma_lookup_concat(host_table_of(earlier), host_table_of(later), host);
}

} // verus!
