//! What the proxy serves from: the upstream tables (as declared, and as the
//! health check leaves them), the header tables and the global settings;
//! how a configuration received from discovery replaces them; and the
//! liveness of every declared backend.
use crate::structs::{lookup, Configuration, Extraparams, HeaderTable, InnerAuth, InnerMap, InnerMapView, UpstreamTable};
use crate::text::str_eq;
use std::sync::Arc;
use vstd::prelude::*;

verus! {

broadcast use vstd::string::group_string_axioms;

/// The upstream table as its view: host, then path, then backends.
pub type UpstreamTableView = Seq<(Seq<char>, Seq<(Seq<char>, Seq<InnerMapView>)>)>;

/// The header table as its view: key, then path, then `(name, value)`.
pub type HeaderTableView = Seq<(Seq<char>, Seq<(Seq<char>, Seq<(Seq<char>, Seq<char>)>)>)>;

/// The entry of `pairs` under `key` (the last one, see `lookup`).
pub fn find_entry<'a, T: DeepView>(pairs: &'a Vec<(String, T)>, key: &str) -> (r: Option<&'a T>)
    ensures
        match r {
            Some(v) => lookup(pairs.deep_view(), key@) == Some(v.deep_view()),
            None => lookup(pairs.deep_view(), key@) is None,
        },
{
    let n = pairs.len();
    let mut j: usize = n;
    assert(pairs.deep_view().take(n as int) =~= pairs.deep_view());
    while j > 0
        invariant
            n == pairs@.len(),
            j <= n,
            lookup(pairs.deep_view(), key@) == lookup(pairs.deep_view().take(j as int), key@),
        decreases j,
    {
        let ghost t = pairs.deep_view().take(j as int);
        assert(t.last() == pairs.deep_view()[j - 1]);
        assert(t.drop_last() =~= pairs.deep_view().take(j - 1));
        if str_eq(pairs[j - 1].0.as_str(), key) {
            return Some(&pairs[j - 1].1);
        }
        j = j - 1;
    }
    None
}

/// A copy of a backend.
pub fn copy_backend(b: &InnerMap) -> (r: InnerMap)
    ensures
        r.deep_view() == b.deep_view(),
{
    let redirect_to: Option<String> = match &b.redirect_to {
        Some(w) => Some(w.clone()),
        None => None,
    };
    let authorization: Option<Arc<InnerAuth>> = match &b.authorization {
        Some(a) => Some(
            Arc::new(InnerAuth { auth_type: a.auth_type.clone(), auth_cred: a.auth_cred.clone() }),
        ),
        None => None,
    };
    InnerMap {
        address: b.address.clone(),
        port: b.port,
        is_ssl: b.is_ssl,
        is_http2: b.is_http2,
        to_https: b.to_https,
        rate_limit: b.rate_limit,
        healthcheck: b.healthcheck,
        redirect_to,
        authorization,
    }
}

/// A copy of the backends of a path.
pub fn copy_backends(bs: &Vec<InnerMap>) -> (r: Vec<InnerMap>)
    ensures
        r.deep_view() == bs.deep_view(),
{
    let mut out: Vec<InnerMap> = Vec::new();
    let n = bs.len();
    let mut i: usize = 0;
    while i < n
        invariant
            n == bs@.len(),
            i <= n,
            out.deep_view() == bs.deep_view().take(i as int),
        decreases n - i,
    {
        let ghost before = out.deep_view();
        let b = copy_backend(&bs[i]);
        out.push(b);
        assert(out.deep_view() =~= before.push(b.deep_view()));
        assert(out.deep_view() =~= bs.deep_view().take(i + 1));
        i = i + 1;
    }
    assert(bs.deep_view().take(n as int) =~= bs.deep_view());
    out
}

/// A copy of the paths of a host.
pub fn copy_paths(paths: &Vec<(String, Vec<InnerMap>)>) -> (r: Vec<(String, Vec<InnerMap>)>)
    ensures
        r.deep_view() == paths.deep_view(),
{
    let mut out: Vec<(String, Vec<InnerMap>)> = Vec::new();
    let n = paths.len();
    let mut i: usize = 0;
    while i < n
        invariant
            n == paths@.len(),
            i <= n,
            out.deep_view() == paths.deep_view().take(i as int),
        decreases n - i,
    {
        let ghost before = out.deep_view();
        let e = (paths[i].0.clone(), copy_backends(&paths[i].1));
        out.push(e);
        assert(out.deep_view() =~= before.push(e.deep_view()));
        assert(out.deep_view() =~= paths.deep_view().take(i + 1));
        i = i + 1;
    }
    assert(paths.deep_view().take(n as int) =~= paths.deep_view());
    out
}

/// A copy of an upstream table.
pub fn copy_upstreams(table: &UpstreamTable) -> (r: UpstreamTable)
    ensures
        r.deep_view() == table.deep_view(),
{
    let mut out: UpstreamTable = Vec::new();
    let n = table.len();
    let mut i: usize = 0;
    while i < n
        invariant
            n == table@.len(),
            i <= n,
            out.deep_view() == table.deep_view().take(i as int),
        decreases n - i,
    {
        let ghost before = out.deep_view();
        let e = (table[i].0.clone(), copy_paths(&table[i].1));
        out.push(e);
        assert(out.deep_view() =~= before.push(e.deep_view()));
        assert(out.deep_view() =~= table.deep_view().take(i + 1));
        i = i + 1;
    }
    assert(table.deep_view().take(n as int) =~= table.deep_view());
    out
}

/// Whether `key` is the host of an entry of `table`.
pub open spec fn has_host<V>(table: Seq<(Seq<char>, V)>, key: Seq<char>) -> bool {
    exists|i: int| 0 <= i < table.len() && (#[trigger] table[i]).0 == key
}

/// The header table that a configuration's `headers` give once every host
/// of its upstream table has an entry: the entries of `headers` as they
/// are, and an empty one for each upstream host that has none.
pub open spec fn with_host_entries(headers: HeaderTableView, upstreams: UpstreamTableView, key: Seq<
    char,
>) -> Option<Seq<(Seq<char>, Seq<(Seq<char>, Seq<char>)>)>> {
    match lookup(headers, key) {
        Some(v) => Some(v),
        None => if has_host(upstreams, key) {
            Some(Seq::empty())
        } else {
            None
        },
    }
}

/// `headers` with an empty entry added for each host of `upstreams` that
/// has none (see `with_host_entries`).
pub fn add_host_entries(headers: HeaderTable, upstreams: &UpstreamTable) -> (r: HeaderTable)
    ensures
        forall|k: Seq<char>|
            #![trigger lookup(r.deep_view(), k)]
            lookup(r.deep_view(), k) == with_host_entries(
                headers.deep_view(),
                upstreams.deep_view(),
                k,
            ),
{
    let ghost base = headers.deep_view();
    let ghost ups = upstreams.deep_view();
    let mut out = headers;
    let n = upstreams.len();
    let mut i: usize = 0;
    while i < n
        invariant
            n == ups.len(),
            ups == upstreams.deep_view(),
            i <= n,
            forall|k: Seq<char>|
                #![trigger lookup(out.deep_view(), k)]
                lookup(out.deep_view(), k) == match lookup(base, k) {
                    Some(v) => Some(v),
                    None => if has_host(ups.take(i as int), k) {
                        Some(Seq::empty())
                    } else {
                        None
                    },
                },
        decreases n - i,
    {
        let host = &upstreams[i].0;
        let ghost h = host@;
        assert(ups[i as int].0 == h);
        let ghost before = out.deep_view();
        let present = find_entry(&out, host.as_str()).is_some();
        if !present {
            let empty: Vec<(String, Vec<(String, String)>)> = Vec::new();
            assert(empty.deep_view() =~= Seq::<(Seq<char>, Seq<(Seq<char>, Seq<char>)>)>::empty());
            let e = (host.clone(), empty);
            out.push(e);
            assert(out.deep_view() =~= before.push(e.deep_view()));
            assert(out.deep_view().drop_last() =~= before);
            assert(out.deep_view().last() == (h, Seq::<(Seq<char>, Seq<(Seq<char>, Seq<char>)>)>::empty()));
        }
        assert(ups.take(i + 1)[i as int] == ups[i as int]);
        assert(has_host(ups.take(i + 1), h));
        assert forall|k: Seq<char>|
            #![trigger lookup(out.deep_view(), k)]
            lookup(out.deep_view(), k) == match lookup(base, k) {
                Some(v) => Some(v),
                None => if has_host(ups.take(i + 1), k) {
                    Some(Seq::empty())
                } else {
                    None
                },
            } by {
            if present {
                assert(out.deep_view() == before);
            } else {
                if k != h {
                    assert(lookup(out.deep_view(), k) == lookup(before, k));
                } else {
                    assert(lookup(before, h) is None);
                }
            }
            if k != h {
                if has_host(ups.take(i + 1), k) {
                    let j = choose|j: int|
                        0 <= j < ups.take(i + 1).len() && (#[trigger] ups.take(i + 1)[j]).0 == k;
                    assert(j != i);
                    assert(ups.take(i as int)[j] == ups.take(i + 1)[j]);
                }
                if has_host(ups.take(i as int), k) {
                    let j = choose|j: int|
                        0 <= j < ups.take(i as int).len() && (#[trigger] ups.take(i as int)[j]).0 == k;
                    assert(ups.take(i as int)[j] == ups.take(i + 1)[j]);
                }
            }
        }
        i = i + 1;
    }
    assert(ups.take(n as int) =~= ups);
    out
}

/// What the proxy serves from.
pub struct ProxyState {
    /// Every backend declared, by host and path.
    pub full_upstreams: UpstreamTable,
    /// The backends in service, by host and path.
    pub current_upstreams: UpstreamTable,
    /// The headers sent to clients, by host (or global key) and path.
    pub client_headers: HeaderTable,
    /// The headers sent to upstreams, by host (or global key) and path.
    pub server_headers: HeaderTable,
    /// The global settings.
    pub extraparams: Extraparams,
}

impl ProxyState {
    /// No upstreams, no headers, the default settings.
    pub fn new() -> (r: Self)
        ensures
            r.full_upstreams@.len() == 0,
            r.current_upstreams@.len() == 0,
            r.client_headers@.len() == 0,
            r.server_headers@.len() == 0,
            r.extraparams.to_https is None,
            !r.extraparams.sticky_sessions,
            r.extraparams.authentication is None,
            r.extraparams.rate_limit is None,
    {
        ProxyState {
            full_upstreams: Vec::new(),
            current_upstreams: Vec::new(),
            client_headers: Vec::new(),
            server_headers: Vec::new(),
            extraparams: Extraparams::default(),
        }
    }
}

/// Header lists by path, as views.
pub type PathHeadersView = Seq<(Seq<char>, Seq<(Seq<char>, Seq<char>)>)>;

/// The header lists by path `m` with `global` merged in: for each path of
/// `global` in turn, that path's list becomes its list so far (none where
/// it has none) followed by the list `global` gives it.
pub open spec fn merge_paths(m: PathHeadersView, global: PathHeadersView) -> PathHeadersView
    decreases global.len(),
{
    if global.len() == 0 {
        m
    } else {
        let before = merge_paths(m, global.drop_last());
        let p = global.last().0;
        let hs = global.last().1;
        before.push(
            (
                p,
                match lookup(before, p) {
                    Some(v) => v + hs,
                    None => hs,
                },
            ),
        )
    }
}

/// The header table that a header table of a configuration gives once every
/// upstream host has an entry (see `with_host_entries`) and the entry under
/// `global_key` is merged into every entry, itself included.
pub open spec fn merged_headers(
    headers: HeaderTableView,
    upstreams: UpstreamTableView,
    global_key: Seq<char>,
    key: Seq<char>,
) -> Option<PathHeadersView> {
    match with_host_entries(headers, upstreams, key) {
        Some(m) => Some(
            match with_host_entries(headers, upstreams, global_key) {
                Some(g) => merge_paths(m, g),
                None => m,
            },
        ),
        None => None,
    }
}

/// A copy of a header list.
pub fn copy_header_list(hs: &Vec<(String, String)>) -> (r: Vec<(String, String)>)
    ensures
        r.deep_view() == hs.deep_view(),
{
    let mut out: Vec<(String, String)> = Vec::new();
    let n = hs.len();
    let mut i: usize = 0;
    while i < n
        invariant
            n == hs@.len(),
            i <= n,
            out.deep_view() == hs.deep_view().take(i as int),
        decreases n - i,
    {
        let ghost before = out.deep_view();
        let e = (hs[i].0.clone(), hs[i].1.clone());
        out.push(e);
        assert(out.deep_view() =~= before.push(e.deep_view()));
        assert(out.deep_view() =~= hs.deep_view().take(i + 1));
        i = i + 1;
    }
    assert(hs.deep_view().take(n as int) =~= hs.deep_view());
    out
}

/// A copy of header lists by path.
pub fn copy_path_headers(m: &Vec<(String, Vec<(String, String)>)>) -> (r: Vec<
    (String, Vec<(String, String)>),
>)
    ensures
        r.deep_view() == m.deep_view(),
{
    let mut out: Vec<(String, Vec<(String, String)>)> = Vec::new();
    let n = m.len();
    let mut i: usize = 0;
    while i < n
        invariant
            n == m@.len(),
            i <= n,
            out.deep_view() == m.deep_view().take(i as int),
        decreases n - i,
    {
        let ghost before = out.deep_view();
        let e = (m[i].0.clone(), copy_header_list(&m[i].1));
        out.push(e);
        assert(out.deep_view() =~= before.push(e.deep_view()));
        assert(out.deep_view() =~= m.deep_view().take(i + 1));
        i = i + 1;
    }
    assert(m.deep_view().take(n as int) =~= m.deep_view());
    out
}

/// Merges `global` into the header lists by path `m` (see `merge_paths`).
pub fn merge_global_headers(m: Vec<(String, Vec<(String, String)>)>, global: &Vec<(String, Vec<(String, String)>)>) -> (r: Vec<
    (String, Vec<(String, String)>),
>)
    ensures
        r.deep_view() == merge_paths(m.deep_view(), global.deep_view()),
{
    let ghost start = m.deep_view();
    let mut out = m;
    let n = global.len();
    let mut j: usize = 0;
    assert(global.deep_view().take(0) =~= Seq::<(Seq<char>, Seq<(Seq<char>, Seq<char>)>)>::empty());
    while j < n
        invariant
            n == global@.len(),
            j <= n,
            out.deep_view() == merge_paths(start, global.deep_view().take(j as int)),
        decreases n - j,
    {
        let p = &global[j].0;
        let mut list: Vec<(String, String)> = match find_entry(&out, p.as_str()) {
            Some(v) => copy_header_list(v),
            None => Vec::new(),
        };
        let ghost first = list.deep_view();
        let extra = copy_header_list(&global[j].1);
        let mut k: usize = 0;
        while k < extra.len()
            invariant
                k <= extra@.len(),
                list.deep_view() == first + extra.deep_view().take(k as int),
            decreases extra@.len() - k,
        {
            let ghost before = list.deep_view();
            let e = (extra[k].0.clone(), extra[k].1.clone());
            list.push(e);
            assert(list.deep_view() =~= before.push(e.deep_view()));
            assert(list.deep_view() =~= first + extra.deep_view().take(k + 1));
            k = k + 1;
        }
        assert(extra.deep_view().take(extra@.len() as int) =~= extra.deep_view());
        let ghost before = out.deep_view();
        let e = (p.clone(), list);
        out.push(e);
        proof {
            let g = global.deep_view();
            assert(g.take(j + 1).drop_last() =~= g.take(j as int));
            assert(g.take(j + 1).last() == g[j as int]);
            assert(first == match lookup(before, p@) {
                Some(v) => v,
                None => Seq::<(Seq<char>, Seq<char>)>::empty(),
            });
            assert(first + extra.deep_view() =~= match lookup(before, p@) {
                Some(v) => v + g[j as int].1,
                None => g[j as int].1,
            });
            assert(out.deep_view() =~= before.push(e.deep_view()));
        }
        j = j + 1;
    }
    assert(global.deep_view().take(n as int) =~= global.deep_view());
    out
}

proof fn lemma_lookup_map_values(t: HeaderTableView, g: PathHeadersView, key: Seq<char>)
    ensures
        lookup(t.map_values(|e: (Seq<char>, PathHeadersView)| (e.0, merge_paths(e.1, g))), key)
            == match lookup(t, key) {
            Some(m) => Some(merge_paths(m, g)),
            None => None,
        },
    decreases t.len(),
{
    let f = |e: (Seq<char>, PathHeadersView)| (e.0, merge_paths(e.1, g));
    if t.len() > 0 {
        assert(t.map_values(f).drop_last() =~= t.drop_last().map_values(f));
        lemma_lookup_map_values(t.drop_last(), g, key);
    }
}

/// Merges `global` into every entry of a header table.
pub fn merge_into_table(table: HeaderTable, global: &Vec<(String, Vec<(String, String)>)>) -> (r: HeaderTable)
    ensures
        forall|k: Seq<char>|
            #![trigger lookup(r.deep_view(), k)]
            lookup(r.deep_view(), k) == match lookup(table.deep_view(), k) {
                Some(m) => Some(merge_paths(m, global.deep_view())),
                None => None,
            },
{
    let ghost g = global.deep_view();
    let ghost f = |e: (Seq<char>, PathHeadersView)| (e.0, merge_paths(e.1, g));
    let mut out: HeaderTable = Vec::new();
    let n = table.len();
    let mut i: usize = 0;
    while i < n
        invariant
            n == table@.len(),
            i <= n,
            g == global.deep_view(),
            f == (|e: (Seq<char>, PathHeadersView)| (e.0, merge_paths(e.1, g))),
            out.deep_view() == table.deep_view().take(i as int).map_values(f),
        decreases n - i,
    {
        let ghost before = out.deep_view();
        let e = (table[i].0.clone(), merge_global_headers(copy_path_headers(&table[i].1), global));
        out.push(e);
        assert(out.deep_view() =~= before.push(e.deep_view()));
        assert(out.deep_view() =~= table.deep_view().take(i + 1).map_values(f));
        i = i + 1;
    }
    assert(table.deep_view().take(n as int) =~= table.deep_view());
    proof {
        assert forall|k: Seq<char>| #![trigger lookup(out.deep_view(), k)]
            lookup(out.deep_view(), k) == match lookup(table.deep_view(), k) {
                Some(m) => Some(merge_paths(m, g)),
                None => None,
            } by {
            lemma_lookup_map_values(table.deep_view(), g, k);
        }
    }
    out
}

/// A header table of a configuration as the proxy keeps it: every upstream
/// host given an entry, and the entry under `global_key` merged into every
/// entry (see `merged_headers`).
pub fn keep_headers(headers: HeaderTable, upstreams: &UpstreamTable, global_key: &str) -> (r: HeaderTable)
    ensures
        forall|k: Seq<char>|
            #![trigger lookup(r.deep_view(), k)]
            lookup(r.deep_view(), k) == merged_headers(
                headers.deep_view(),
                upstreams.deep_view(),
                global_key@,
                k,
            ),
{
    let ghost h = headers.deep_view();
    let with_entries = add_host_entries(headers, upstreams);
    let global = match find_entry(&with_entries, global_key) {
        Some(g) => Some(copy_path_headers(g)),
        None => None,
    };
    match global {
        Some(g) => {
            let r = merge_into_table(with_entries, &g);
            assert(lookup(with_entries.deep_view(), global_key@) == Some(g.deep_view()));
            r
        },
        None => {
            assert(lookup(with_entries.deep_view(), global_key@) is None);
            with_entries
        },
    }
}

/// Takes a configuration received from discovery into `state`: both
/// upstream tables become its upstream table, the global settings become
/// its settings, and the header tables become its header tables as the
/// proxy keeps them (see `merged_headers`): with an entry for every
/// upstream host, and the global client headers (key
/// `GLOBAL_CLIENT_HEADERS`), or server headers (`GLOBAL_SERVER_HEADERS`),
/// merged into every entry.
pub fn apply_configuration(state: &mut ProxyState, config: Configuration)
    ensures
        final(state).full_upstreams.deep_view() == config.upstreams.deep_view(),
        final(state).current_upstreams.deep_view() == config.upstreams.deep_view(),
        final(state).extraparams == config.extraparams,
        forall|k: Seq<char>|
            #![trigger lookup(final(state).client_headers.deep_view(), k)]
            lookup(final(state).client_headers.deep_view(), k) == merged_headers(
                config.client_headers.deep_view(),
                config.upstreams.deep_view(),
                "GLOBAL_CLIENT_HEADERS"@,
                k,
            ),
        forall|k: Seq<char>|
            #![trigger lookup(final(state).server_headers.deep_view(), k)]
            lookup(final(state).server_headers.deep_view(), k) == merged_headers(
                config.server_headers.deep_view(),
                config.upstreams.deep_view(),
                "GLOBAL_SERVER_HEADERS"@,
                k,
            ),
{
    let Configuration { upstreams, client_headers, server_headers, extraparams, .. } = config;
    let full = copy_upstreams(&upstreams);
    let client = keep_headers(client_headers, &upstreams, "GLOBAL_CLIENT_HEADERS");
    let server = keep_headers(server_headers, &upstreams, "GLOBAL_SERVER_HEADERS");
    state.full_upstreams = full;
    state.current_upstreams = upstreams;
    state.client_headers = client;
    state.server_headers = server;
    state.extraparams = extraparams;
}

/// Whether `current` has a backend at `address:port` for `host` and `path`.
pub open spec fn in_service(
    current: UpstreamTableView,
    host: Seq<char>,
    path: Seq<char>,
    address: Seq<char>,
    port: u16,
) -> bool {
    match lookup(current, host) {
        Some(paths) => match lookup(paths, path) {
            Some(bs) => exists|i: int|
                0 <= i < bs.len() && (#[trigger] bs[i]).address == address && bs[i].port == port,
            None => false,
        },
        None => false,
    }
}

/// Each backend of a path, by address and port, and whether it is in
/// service (see `in_service`).
pub open spec fn backend_liveness(
    backends: Seq<InnerMapView>,
    current: UpstreamTableView,
    host: Seq<char>,
    path: Seq<char>,
) -> Seq<(Seq<char>, u16, bool)> {
    backends.map_values(
        |b: InnerMapView| (b.address, b.port, in_service(current, host, path, b.address, b.port)),
    )
}

/// Each path of a host with the liveness of its backends.
pub open spec fn path_liveness(
    paths: Seq<(Seq<char>, Seq<InnerMapView>)>,
    current: UpstreamTableView,
    host: Seq<char>,
) -> Seq<(Seq<char>, Seq<(Seq<char>, u16, bool)>)> {
    paths.map_values(
        |p: (Seq<char>, Seq<InnerMapView>)| (p.0, backend_liveness(p.1, current, host, p.0)),
    )
}

/// Each host of `full`, each of its paths, and each declared backend with
/// whether `current` has it in service.
pub open spec fn liveness_of(full: UpstreamTableView, current: UpstreamTableView) -> Seq<
    (Seq<char>, Seq<(Seq<char>, Seq<(Seq<char>, u16, bool)>)>),
> {
    full.map_values(
        |h: (Seq<char>, Seq<(Seq<char>, Seq<InnerMapView>)>)| (h.0, path_liveness(h.1, current, h.0)),
    )
}

/// Host, then path, then `(address, port, in service)` of each backend.
pub type LivenessTable = Vec<(String, Vec<(String, Vec<(String, u16, bool)>)>)>;

/// The backends that `current` has in service for `host` and `path`.
pub fn served_backends<'a>(current: &'a UpstreamTable, host: &str, path: &str) -> (r: Option<
    &'a Vec<InnerMap>,
>)
    ensures
        match r {
            Some(bs) => lookup(current.deep_view(), host@) matches Some(paths) && lookup(paths, path@)
                == Some(bs.deep_view()),
            None => match lookup(current.deep_view(), host@) {
                Some(paths) => lookup(paths, path@) is None,
                None => true,
            },
        },
{
    match find_entry(current, host) {
        Some(paths) => find_entry(paths, path),
        None => None,
    }
}

/// Whether `backends` has one at `address:port`.
pub fn has_backend(backends: &Vec<InnerMap>, address: &str, port: u16) -> (r: bool)
    ensures
        r == exists|i: int|
            0 <= i < backends.deep_view().len() && (#[trigger] backends.deep_view()[i]).address
                == address@ && backends.deep_view()[i].port == port,
{
    let n = backends.len();
    let mut i: usize = 0;
    while i < n
        invariant
            n == backends@.len(),
            i <= n,
            forall|k: int|
                0 <= k < i ==> !((#[trigger] backends.deep_view()[k]).address == address@
                    && backends.deep_view()[k].port == port),
        decreases n - i,
    {
        if backends[i].port == port && str_eq(backends[i].address.as_str(), address) {
            assert(backends.deep_view()[i as int].address == address@);
            return true;
        }
        i = i + 1;
    }
    false
}

/// The liveness of the backends of one path (see `backend_liveness`).
pub fn path_backend_liveness(
    backends: &Vec<InnerMap>,
    current: &UpstreamTable,
    host: &str,
    path: &str,
) -> (r: Vec<(String, u16, bool)>)
    ensures
        r.deep_view() == backend_liveness(backends.deep_view(), current.deep_view(), host@, path@),
{
    let served = served_backends(current, host, path);
    let mut out: Vec<(String, u16, bool)> = Vec::new();
    let n = backends.len();
    let mut i: usize = 0;
    while i < n
        invariant
            n == backends@.len(),
            i <= n,
            served matches Some(bs) ==> lookup(current.deep_view(), host@) matches Some(paths)
                && lookup(paths, path@) == Some(bs.deep_view()),
            served is None ==> match lookup(current.deep_view(), host@) {
                Some(paths) => lookup(paths, path@) is None,
                None => true,
            },
            out.deep_view() == backend_liveness(
                backends.deep_view().take(i as int),
                current.deep_view(),
                host@,
                path@,
            ),
        decreases n - i,
    {
        let b = &backends[i];
        let alive = match served {
            Some(bs) => has_backend(bs, b.address.as_str(), b.port),
            None => false,
        };
        assert(alive == in_service(current.deep_view(), host@, path@, b.address@, b.port));
        let ghost before = out.deep_view();
        let e = (b.address.clone(), b.port, alive);
        out.push(e);
        assert(out.deep_view() =~= before.push(e.deep_view()));
        assert(backends.deep_view().take(i + 1) =~= backends.deep_view().take(i as int).push(
            b.deep_view(),
        ));
        assert(out.deep_view() =~= backend_liveness(
            backends.deep_view().take(i + 1),
            current.deep_view(),
            host@,
            path@,
        ));
        i = i + 1;
    }
    assert(backends.deep_view().take(n as int) =~= backends.deep_view());
    out
}

/// The liveness of the paths of one host (see `path_liveness`).
pub fn host_path_liveness(
    paths: &Vec<(String, Vec<InnerMap>)>,
    current: &UpstreamTable,
    host: &str,
) -> (r: Vec<(String, Vec<(String, u16, bool)>)>)
    ensures
        r.deep_view() == path_liveness(paths.deep_view(), current.deep_view(), host@),
{
    let mut out: Vec<(String, Vec<(String, u16, bool)>)> = Vec::new();
    let n = paths.len();
    let mut i: usize = 0;
    while i < n
        invariant
            n == paths@.len(),
            i <= n,
            out.deep_view() == path_liveness(
                paths.deep_view().take(i as int),
                current.deep_view(),
                host@,
            ),
        decreases n - i,
    {
        let p = &paths[i];
        let ghost before = out.deep_view();
        let e = (p.0.clone(), path_backend_liveness(&p.1, current, host, p.0.as_str()));
        out.push(e);
        assert(out.deep_view() =~= before.push(e.deep_view()));
        assert(paths.deep_view().take(i + 1) =~= paths.deep_view().take(i as int).push(
            paths.deep_view()[i as int],
        ));
        assert(out.deep_view() =~= path_liveness(
            paths.deep_view().take(i + 1),
            current.deep_view(),
            host@,
        ));
        i = i + 1;
    }
    assert(paths.deep_view().take(n as int) =~= paths.deep_view());
    out
}

/// Every declared backend of `full`, by host and path, with whether
/// `current` has it in service (see `liveness_of`).
pub fn upstreams_liveness(full: &UpstreamTable, current: &UpstreamTable) -> (r: LivenessTable)
    ensures
        r.deep_view() == liveness_of(full.deep_view(), current.deep_view()),
{
    let mut out: LivenessTable = Vec::new();
    let n = full.len();
    let mut i: usize = 0;
    while i < n
        invariant
            n == full@.len(),
            i <= n,
            out.deep_view() == liveness_of(full.deep_view().take(i as int), current.deep_view()),
        decreases n - i,
    {
        let h = &full[i];
        let ghost before = out.deep_view();
        let e = (h.0.clone(), host_path_liveness(&h.1, current, h.0.as_str()));
        out.push(e);
        assert(out.deep_view() =~= before.push(e.deep_view()));
        assert(full.deep_view().take(i + 1) =~= full.deep_view().take(i as int).push(
            full.deep_view()[i as int],
        ));
        assert(out.deep_view() =~= liveness_of(full.deep_view().take(i + 1), current.deep_view()));
        i = i + 1;
    }
    assert(full.deep_view().take(n as int) =~= full.deep_view());
    out
}

/// Whether no two entries of a pair list share a key, as in a map.
pub open spec fn distinct_keys<V>(s: Seq<(Seq<char>, V)>) -> bool {
    forall|i: int, j: int| 0 <= i < j < s.len() ==> (#[trigger] s[i]).0 != (#[trigger] s[j]).0
}

/// Whether an upstream table is keyed as a map: hosts once, and within a
/// host each path once.
pub open spec fn keyed_as_map(t: UpstreamTableView) -> bool {
    &&& distinct_keys(t)
    &&& forall|h: int| 0 <= h < t.len() ==> distinct_keys(#[trigger] t[h].1)
}

proof fn lemma_lookup_distinct<V>(s: Seq<(Seq<char>, V)>, i: int)
    requires
        distinct_keys(s),
        0 <= i < s.len(),
    ensures
        lookup(s, s[i].0) == Some(s[i].1),
    decreases s.len(),
{
    if i != s.len() - 1 {
        let t = s.drop_last();
        assert(s[i] == t[i]);
        assert(s.last() == s[s.len() - 1]);
        assert forall|a: int, b: int| 0 <= a < b < t.len() implies (#[trigger] t[a]).0 != (#[trigger] t[b]).0 by {
            assert(t[a] == s[a] && t[b] == s[b]);
        }
        lemma_lookup_distinct(t, i);
    }
}

/// Right after a configuration is taken into the state, every backend it
/// declares is reported in service: the liveness of a table against
/// itself marks each backend live, where the table is keyed as a map.
pub proof fn law_applied_backends_all_live(t: UpstreamTableView)
    requires
        keyed_as_map(t),
    ensures
        forall|h: int, p: int, b: int|
            0 <= h < t.len() && 0 <= p < t[h].1.len() && 0 <= b < t[h].1[p].1.len() ==> (
            #[trigger] liveness_of(t, t)[h].1[p].1[b]).2,
{
    assert forall|h: int, p: int, b: int|
        0 <= h < t.len() && 0 <= p < t[h].1.len() && 0 <= b < t[h].1[p].1.len() implies (
        #[trigger] liveness_of(t, t)[h].1[p].1[b]).2 by {
        lemma_lookup_distinct(t, h);
        lemma_lookup_distinct(t[h].1, p);
        let bs = t[h].1[p].1;
        assert(bs[b].address == bs[b].address && bs[b].port == bs[b].port);
        assert(in_service(t, t[h].0, t[h].1[p].0, bs[b].address, bs[b].port));
    }
}

/// Each declared backend appears in the liveness report under its host and
/// path with its own address and port, and is reported live exactly when the
/// table in service has, under the same host and path (the last entries of
/// that host and that path), a backend with both that address and that port.
pub proof fn law_live_needs_address_and_port(
    full: UpstreamTableView,
    current: UpstreamTableView,
    h: int,
    p: int,
    b: int,
)
    requires
        0 <= h < full.len(),
        0 <= p < full[h].1.len(),
        0 <= b < full[h].1[p].1.len(),
    ensures
        ({
            let entry = liveness_of(full, current)[h].1[p].1[b];
            let declared = full[h].1[p].1[b];
            &&& liveness_of(full, current).len() == full.len()
            &&& liveness_of(full, current)[h].0 == full[h].0
            &&& liveness_of(full, current)[h].1.len() == full[h].1.len()
            &&& liveness_of(full, current)[h].1[p].0 == full[h].1[p].0
            &&& liveness_of(full, current)[h].1[p].1.len() == full[h].1[p].1.len()
            &&& entry.0 == declared.address
            &&& entry.1 == declared.port
            &&& entry.2 == match lookup(current, full[h].0) {
                Some(paths) => match lookup(paths, full[h].1[p].0) {
                    Some(serving) => exists|i: int|
                        0 <= i < serving.len() && (#[trigger] serving[i]).address == declared.address
                            && serving[i].port == declared.port,
                    None => false,
                },
                None => false,
            }
        }),
{
}

} // verus!
