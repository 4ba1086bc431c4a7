use proxy_gateway::parceyaml::configuration_from_parsed;
use proxy_gateway::state::{
    add_host_entries, apply_configuration, copy_upstreams, find_entry, keep_headers, upstreams_liveness,
    ProxyState,
};
use proxy_gateway::structs::{
    Config, Configuration, Extraparams, HeaderTable, HostConfig, InnerAuth, InnerMap, PathConfig, UpstreamTable,
};
use std::sync::Arc;

fn backend(address: &str, port: u16) -> InnerMap {
    InnerMap { address: address.to_string(), port, ..InnerMap::new() }
}

fn table(entries: Vec<(&str, Vec<(&str, Vec<InnerMap>)>)>) -> UpstreamTable {
    entries
        .into_iter()
        .map(|(h, ps)| (h.to_string(), ps.into_iter().map(|(p, bs)| (p.to_string(), bs)).collect()))
        .collect()
}

fn headers(entries: Vec<(&str, Vec<(&str, Vec<(&str, &str)>)>)>) -> HeaderTable {
    entries
        .into_iter()
        .map(|(k, ps)| {
            (
                k.to_string(),
                ps.into_iter()
                    .map(|(p, hs)| (p.to_string(), hs.into_iter().map(|(n, v)| (n.to_string(), v.to_string())).collect()))
                    .collect(),
            )
        })
        .collect()
}

fn lookup<'a, V>(pairs: &'a [(String, V)], key: &str) -> Option<&'a V> {
    pairs.iter().rev().find(|(k, _)| k == key).map(|(_, v)| v)
}

#[test]
fn find_entry_takes_the_last_of_a_key() {
    let pairs = vec![("a".to_string(), 1u8), ("b".to_string(), 2u8), ("a".to_string(), 3u8)];
    assert_eq!(find_entry(&pairs, "a"), Some(&3));
    assert_eq!(find_entry(&pairs, "b"), Some(&2));
    assert_eq!(find_entry(&pairs, "c"), None);
}

#[test]
fn copies_keep_every_backend_field() {
    let mut b = backend("10.0.0.1", 8080);
    b.redirect_to = Some("https://x".to_string());
    b.authorization = Some(Arc::new(InnerAuth { auth_type: "basic".to_string(), auth_cred: "u:p".to_string() }));
    b.rate_limit = Some(5);
    let t = table(vec![("h", vec![("/", vec![b, backend("10.0.0.2", 81)])])]);
    assert_eq!(copy_upstreams(&t), t);
}

#[test]
fn every_upstream_host_gets_a_header_entry() {
    let ups = table(vec![("a.test", vec![]), ("b.test", vec![])]);
    let hs = headers(vec![("a.test", vec![("/", vec![("X-A", "1")])]), ("GLOBAL_CLIENT_HEADERS", vec![])]);
    let out = add_host_entries(hs, &ups);
    assert_eq!(lookup(&out, "a.test").unwrap().len(), 1);
    assert_eq!(lookup(&out, "b.test").unwrap().len(), 0);
    assert!(lookup(&out, "GLOBAL_CLIENT_HEADERS").is_some());
    assert!(lookup(&out, "c.test").is_none());
}

#[test]
fn a_received_configuration_replaces_the_state() {
    let mut state = ProxyState::new();
    let config = Configuration {
        upstreams: table(vec![("a.test", vec![("/", vec![backend("10.0.0.1", 80)])])]),
        client_headers: headers(vec![("GLOBAL_CLIENT_HEADERS", vec![("/", vec![("X-C", "c")])])]),
        server_headers: headers(vec![("a.test", vec![("/api", vec![("X-S", "s")])])]),
        consul: None,
        kubernetes: None,
        typecfg: "file".to_string(),
        extraparams: Extraparams { to_https: Some(true), sticky_sessions: true, authentication: None, rate_limit: Some(7) },
    };
    let expected = config.upstreams.clone();
    apply_configuration(&mut state, config);
    assert_eq!(state.full_upstreams, expected);
    assert_eq!(state.current_upstreams, expected);
    assert_eq!(state.extraparams.to_https, Some(true));
    assert!(state.extraparams.sticky_sessions);
    assert_eq!(state.extraparams.rate_limit, Some(7));
    let pair = |n: &str, v: &str| (n.to_string(), v.to_string());
    let a_client = lookup(&state.client_headers, "a.test").unwrap();
    assert_eq!(lookup(a_client, "/").unwrap(), &vec![pair("X-C", "c")]);
    let global = lookup(&state.client_headers, "GLOBAL_CLIENT_HEADERS").unwrap();
    assert_eq!(lookup(global, "/").unwrap(), &vec![pair("X-C", "c"), pair("X-C", "c")]);
    assert_eq!(lookup(&state.server_headers, "a.test").unwrap()[0].0, "/api");
    assert_eq!(lookup(&state.server_headers, "a.test").unwrap().len(), 1);
}

#[test]
fn liveness_marks_backends_out_of_service() {
    let full = table(vec![
        ("a.test", vec![("/", vec![backend("10.0.0.1", 80), backend("10.0.0.2", 80)])]),
        ("b.test", vec![("/x", vec![backend("10.0.0.3", 90)])]),
    ]);
    let current = table(vec![("a.test", vec![("/", vec![backend("10.0.0.2", 80)])])]);
    let live = upstreams_liveness(&full, &current);
    assert_eq!(
        live,
        vec![
            (
                "a.test".to_string(),
                vec![(
                    "/".to_string(),
                    vec![("10.0.0.1".to_string(), 80, false), ("10.0.0.2".to_string(), 80, true)]
                )]
            ),
            ("b.test".to_string(), vec![("/x".to_string(), vec![("10.0.0.3".to_string(), 90, false)])]),
        ]
    );
}

#[test]
fn only_later_loads_ask_for_a_health_check() {
    let parsed = || Config {
        provider: "file".to_string(),
        upstreams: Some(vec![(
            "a.test".to_string(),
            HostConfig {
                paths: vec![("/".to_string(), PathConfig { servers: vec!["10.0.0.1:80".to_string()], ..Default::default() })],
                rate_limit: None,
            },
        )]),
        ..Default::default()
    };
    let mut first_run = true;
    let (first, _, check) = configuration_from_parsed(parsed(), vec![], &mut first_run);
    assert!(!check && !first_run);
    assert_eq!(first.unwrap().upstreams[0].1[0].1[0].address, "10.0.0.1");
    let (later, _, check) = configuration_from_parsed(parsed(), vec![], &mut first_run);
    assert!(check && !first_run);
    assert_eq!(later.unwrap().upstreams[0].1[0].1.len(), 1);
    let consul = Config { provider: "consul".to_string(), ..parsed() };
    let mut fresh = true;
    let (_, _, check) = configuration_from_parsed(consul, vec![], &mut fresh);
    assert!(fresh && !check);
}

#[test]
fn applied_backends_are_all_live() {
    let mut state = ProxyState::new();
    let mut config = Configuration::default();
    config.upstreams = table(vec![
        ("a.test", vec![("/", vec![backend("10.0.0.1", 80)]), ("/b", vec![backend("10.0.0.2", 81)])]),
        ("b.test", vec![("/", vec![backend("10.0.0.3", 82), backend("10.0.0.4", 83)])]),
    ]);
    apply_configuration(&mut state, config);
    let live = upstreams_liveness(&state.full_upstreams, &state.current_upstreams);
    assert!(live.iter().all(|(_, paths)| paths.iter().all(|(_, bs)| bs.iter().all(|b| b.2))));
    assert_eq!(live.iter().map(|(_, ps)| ps.iter().map(|(_, bs)| bs.len()).sum::<usize>()).sum::<usize>(), 4);
}

#[test]
fn global_headers_are_added_after_a_paths_own() {
    let ups = table(vec![("a.test", vec![])]);
    let hs = headers(vec![
        ("a.test", vec![("/", vec![("X-A", "1")]), ("/b", vec![("X-B", "2")])]),
        ("GLOBAL_SERVER_HEADERS", vec![("/", vec![("X-G", "g")]), ("/new", vec![("X-N", "n")])]),
    ]);
    let out = keep_headers(hs, &ups, "GLOBAL_SERVER_HEADERS");
    let a = lookup(&out, "a.test").unwrap();
    let pair = |n: &str, v: &str| (n.to_string(), v.to_string());
    assert_eq!(lookup(a, "/").unwrap(), &vec![pair("X-A", "1"), pair("X-G", "g")]);
    assert_eq!(lookup(a, "/b").unwrap(), &vec![pair("X-B", "2")]);
    assert_eq!(lookup(a, "/new").unwrap(), &vec![pair("X-N", "n")]);
    let plain = keep_headers(headers(vec![("a.test", vec![("/", vec![("X-A", "1")])])]), &ups, "GLOBAL_SERVER_HEADERS");
    assert_eq!(lookup(lookup(&plain, "a.test").unwrap(), "/").unwrap(), &vec![pair("X-A", "1")]);
}
