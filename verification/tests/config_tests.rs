use proxy_gateway::parceyaml::{
    build_headers, configuration_from_parsed, finish_main_config, log_level_filter,
    parce_tls_grades, path_backends, populate_file_upstreams, populate_headers_and_auth, upstream_source,
    UpstreamSource,
};
use proxy_gateway::structs::{
    AppConfig, Auth, Config, Configuration, Consul, HostConfig, InnerAuth, InnerMap, PathConfig,
};

fn strings(v: &[&str]) -> Vec<String> {
    v.iter().map(|s| s.to_string()).collect()
}

fn path(servers: &[&str]) -> PathConfig {
    PathConfig { servers: strings(servers), ..Default::default() }
}

fn host(paths: Vec<(&str, PathConfig)>) -> HostConfig {
    HostConfig {
        paths: paths.into_iter().map(|(p, c)| (p.to_string(), c)).collect(),
        rate_limit: None,
    }
}

fn lookup<'a, V>(pairs: &'a [(String, V)], key: &str) -> Option<&'a V> {
    pairs.iter().rev().find(|(k, _)| k == key).map(|(_, v)| v)
}

#[test]
fn inner_map_new_is_localhost_with_everything_off() {
    let m = InnerMap::new();
    assert_eq!(m.address, "127.0.0.1");
    assert_eq!(m.port, 0);
    assert!(!m.is_ssl && !m.is_http2 && !m.to_https);
    assert_eq!(m.rate_limit, None);
    assert_eq!(m.healthcheck, None);
    assert_eq!(m.redirect_to, None);
    assert!(m.authorization.is_none());
}

#[test]
fn build_headers_trims_and_skips_lines_without_colon() {
    let lines = Some(strings(&[" X-A : 1 ", "broken", "X-B:two:parts", ":empty"]));
    let mut hl = vec![("Existing".to_string(), "v".to_string())];
    build_headers(&lines, &Configuration::default(), &mut hl);
    assert_eq!(
        hl,
        vec![
            ("Existing".to_string(), "v".to_string()),
            ("X-A".to_string(), "1".to_string()),
            ("X-B".to_string(), "two:parts".to_string()),
            ("".to_string(), "empty".to_string()),
        ]
    );
    let mut none = Vec::new();
    build_headers(&None, &Configuration::default(), &mut none);
    assert!(none.is_empty());
}

#[test]
fn backends_come_from_well_formed_server_entries() {
    let mut pc = path(&["10.0.0.1:8080", "bad", "10.0.0.2:70000", "[::1]:9000", "h:+81"]);
    pc.to_https = Some(true);
    pc.rate_limit = Some(5);
    pc.healthcheck = Some(false);
    pc.redirect_to = Some("https://x".to_string());
    pc.authorization = Some(Auth { auth_type: "basic".to_string(), auth_cred: "u:p".to_string() });
    let b = path_backends(&pc);
    assert_eq!(b.len(), 2);
    assert_eq!(b[0].address, "10.0.0.1");
    assert_eq!(b[0].port, 8080);
    assert!(b[0].to_https);
    assert_eq!(b[0].rate_limit, Some(5));
    assert_eq!(b[0].healthcheck, Some(false));
    assert_eq!(b[0].redirect_to.as_deref(), Some("https://x"));
    assert_eq!(
        b[0].authorization.as_deref(),
        Some(&InnerAuth { auth_type: "basic".to_string(), auth_cred: "u:p".to_string() })
    );
    assert_eq!(b[1].address, "h");
    assert_eq!(b[1].port, 81);
}

#[test]
fn global_headers_and_settings() {
    let parsed = Config {
        client_headers: Some(strings(&["A: one ", "noval"])),
        server_headers: Some(strings(&["B: two "])),
        to_https: Some(true),
        sticky_sessions: true,
        rate_limit: Some(10),
        authorization: Some(Auth { auth_type: "jwt".to_string(), auth_cred: "k".to_string() }),
        ..Default::default()
    };
    let mut c = Configuration::default();
    populate_headers_and_auth(&mut c, &parsed);
    assert_eq!(c.client_headers.len(), 1);
    assert_eq!(c.client_headers[0].0, "GLOBAL_CLIENT_HEADERS");
    assert_eq!(c.client_headers[0].1, vec![("/".to_string(), vec![("A".to_string(), " one ".to_string())])]);
    assert_eq!(c.server_headers[0].0, "GLOBAL_SERVER_HEADERS");
    assert_eq!(c.server_headers[0].1, vec![("/".to_string(), vec![("B".to_string(), "two".to_string())])]);
    assert_eq!(c.extraparams.to_https, Some(true));
    assert!(c.extraparams.sticky_sessions);
    assert_eq!(c.extraparams.rate_limit, Some(10));
    assert_eq!(c.extraparams.authentication.as_ref().unwrap().auth_type, "jwt");
}

#[test]
fn file_upstreams_build_tables() {
    let mut p1 = path(&["127.0.0.1:8000"]);
    p1.client_headers = Some(strings(&["X: y"]));
    let parsed = Config {
        upstreams: Some(vec![("example.com".to_string(), host(vec![("/", p1), ("/api", path(&["127.0.0.1:9000", "127.0.0.2:9001"]))]))]),
        ..Default::default()
    };
    let mut c = Configuration::default();
    let mut first_run = true;
    assert!(!populate_file_upstreams(&mut c, &parsed, &mut first_run));
    assert!(!first_run);
    let paths = lookup(&c.upstreams, "example.com").unwrap();
    assert_eq!(lookup(paths, "/").unwrap().len(), 1);
    assert_eq!(lookup(paths, "/api").unwrap()[1].port, 9001);
    let ch = lookup(&c.client_headers, "example.com").unwrap();
    assert_eq!(lookup(ch, "/").unwrap(), &vec![("X".to_string(), "y".to_string())]);
    assert!(lookup(ch, "/api").unwrap().is_empty());
    let mut untouched = Configuration::default();
    let mut fresh = true;
    assert!(!populate_file_upstreams(&mut untouched, &Config::default(), &mut fresh));
    assert!(fresh);
    assert!(untouched.upstreams.is_empty() && untouched.client_headers.is_empty());
    let mut later = Configuration::default();
    assert!(populate_file_upstreams(&mut later, &parsed, &mut first_run));
    assert!(!first_run);
}

#[test]
fn file_provider_configuration() {
    let parsed = Config {
        provider: "file".to_string(),
        upstreams: Some(vec![("a.com".to_string(), host(vec![("/", path(&["1.1.1.1:80"]))]))]),
        ..Default::default()
    };
    let extra = vec![
        Ok(vec![("b.com".to_string(), host(vec![("/", path(&["2.2.2.2:80"]))]))]),
        Ok(vec![("a.com".to_string(), host(vec![("/new", path(&["3.3.3.3:81"]))]))]),
    ];
    let mut first_run = true;
    let (c, msg, check) = configuration_from_parsed(parsed, extra, &mut first_run);
    assert_eq!(msg, "Ok");
    assert!(!check && !first_run);
    let c = c.unwrap();
    assert_eq!(c.typecfg, "file");
    let a = lookup(&c.upstreams, "a.com").unwrap();
    assert!(lookup(a, "/").is_none());
    assert_eq!(lookup(a, "/new").unwrap()[0].address, "3.3.3.3");
    assert_eq!(lookup(lookup(&c.upstreams, "b.com").unwrap(), "/").unwrap()[0].port, 80);
    assert_eq!(c.client_headers[0].0, "GLOBAL_CLIENT_HEADERS");
}

#[test]
fn extra_file_errors_stop_loading() {
    let parsed = Config { provider: "file".to_string(), upstreams: Some(vec![]), ..Default::default() };
    let extra = vec![Ok(vec![]), Err("bad yaml".to_string()), Err("later".to_string())];
    let mut first_run = true;
    let (c, msg, check) = configuration_from_parsed(parsed, extra, &mut first_run);
    assert!(c.is_none());
    assert_eq!(msg, "bad yaml");
    assert!(first_run && !check);
    let no_hosts = Config { provider: "file".to_string(), ..Default::default() };
    let (c, msg, _) = configuration_from_parsed(no_hosts, vec![Err("ignored".to_string())], &mut true);
    assert!(c.is_some());
    assert_eq!(msg, "Ok");
}

#[test]
fn providers_select_the_configuration() {
    let consul = Config { provider: "consul".to_string(), consul: Some(Consul::default()), ..Default::default() };
    let mut first_run = false;
    let (c, msg, check) = configuration_from_parsed(consul, vec![], &mut first_run);
    assert!(!check);
    assert!(c.unwrap().consul.is_some());
    assert_eq!(msg, "Ok");
    let consul_missing = Config { provider: "consul".to_string(), ..Default::default() };
    let (c, msg, _) = configuration_from_parsed(consul_missing, vec![], &mut true);
    assert!(c.is_none());
    assert_eq!(msg, "Ok");
    let kube_missing = Config { provider: "kubernetes".to_string(), ..Default::default() };
    assert!(configuration_from_parsed(kube_missing, vec![], &mut true).0.is_none());
    let unknown = Config { provider: "zookeeper".to_string(), ..Default::default() };
    let (c, msg, _) = configuration_from_parsed(unknown, vec![], &mut true);
    assert!(c.is_none());
    assert_eq!(msg, "Unknown provider");
}

#[test]
fn tls_grades_are_settled() {
    assert_eq!(parce_tls_grades(Some("HIGH".to_string())), Some("high".to_string()));
    assert_eq!(parce_tls_grades(Some("Unsafe".to_string())), Some("unsafe".to_string()));
    assert_eq!(parce_tls_grades(Some("medium".to_string())), Some("medium".to_string()));
    assert_eq!(parce_tls_grades(Some("strong".to_string())), Some("medium".to_string()));
    assert_eq!(parce_tls_grades(None), Some("medium".to_string()));
    for g in ["HIGH", "x", "unsafe", "Medium"] {
        let once = parce_tls_grades(Some(g.to_string()));
        assert_eq!(parce_tls_grades(once.clone()), once);
    }
}

#[test]
fn log_levels() {
    assert_eq!(log_level_filter("debug"), ("debug".to_string(), true));
    assert_eq!(log_level_filter("off"), ("off".to_string(), true));
    assert_eq!(log_level_filter("verbose"), ("info".to_string(), false));
}

#[test]
fn main_config_is_finished() {
    let cfo = AppConfig {
        hc_method: "head".to_string(),
        config_address: "0.0.0.0:3000".to_string(),
        proxy_address_http: "0.0.0.0:6193".to_string(),
        proxy_address_tls: Some("0.0.0.0:6194".to_string()),
        proxy_tls_grade: Some("HIGH".to_string()),
        master_key: "k".to_string(),
        ..Default::default()
    };
    let r = finish_main_config(cfo);
    assert_eq!(r.hc_method, "HEAD");
    let unicode = finish_main_config(AppConfig { hc_method: "straße".to_string(), ..Default::default() });
    assert_eq!(unicode.hc_method, "STRASSE");
    assert_eq!(r.local_server, Some(("0.0.0.0".to_string(), 3000)));
    assert_eq!(r.proxy_port, Some("6193".to_string()));
    assert_eq!(r.proxy_port_tls, Some("6194".to_string()));
    assert_eq!(r.proxy_tls_grade, Some("high".to_string()));
    assert_eq!(r.master_key, "k");
    let bad = finish_main_config(AppConfig { config_address: "nohost".to_string(), ..Default::default() });
    assert_eq!(bad.local_server, None);
    assert_eq!(bad.proxy_port, None);
    assert_eq!(bad.proxy_port_tls, None);
    assert_eq!(bad.proxy_tls_grade, Some("medium".to_string()));
    let bad_port = finish_main_config(AppConfig { config_address: "h:99999".to_string(), ..Default::default() });
    assert_eq!(bad_port.local_server, None);
}

#[test]
fn later_hosts_replace_earlier_ones() {
    let parsed = Config {
        provider: "file".to_string(),
        upstreams: Some(vec![("h".to_string(), host(vec![("/", path(&["1.1.1.1:1"]))]))]),
        ..Default::default()
    };
    let extra = vec![Ok(vec![("h".to_string(), host(vec![("/", path(&["2.2.2.2:2"]))]))])];
    let c = configuration_from_parsed(parsed, extra, &mut true).0.unwrap();
    assert_eq!(lookup(lookup(&c.upstreams, "h").unwrap(), "/").unwrap()[0].port, 2);
}

#[test]
fn load_requests_name_their_source() {
    assert!(matches!(upstream_source("filepath"), Some(UpstreamSource::FilePath)));
    assert!(matches!(upstream_source("content"), Some(UpstreamSource::Content)));
    assert!(upstream_source("url").is_none());
}
