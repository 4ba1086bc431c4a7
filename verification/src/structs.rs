//! The configuration data model: what the YAML files declare (`Config`,
//! `HostConfig`, `PathConfig`, ...), what the proxy runs on (`Configuration`,
//! `InnerMap`, ...), and the main application settings (`AppConfig`).
//!
//! Maps keyed by name are held as vectors of `(key, value)` pairs; where a
//! key occurs more than once the last pair is the one that counts, as with
//! successive inserts into a map (see `lookup`).
use std::sync::Arc;
use vstd::prelude::*;

verus! {

broadcast use vstd::string::group_string_axioms;

/// The value that a pair list gives to `key`: that of the last pair with
/// this key, as after inserting the pairs into a map in order.
pub open spec fn lookup<K, V>(pairs: Seq<(K, V)>, key: K) -> Option<V>
    decreases pairs.len(),
{
    if pairs.len() == 0 {
        None
    } else if pairs.last().0 == key {
        Some(pairs.last().1)
    } else {
        lookup(pairs.drop_last(), key)
    }
}

/// Settings that apply to every upstream unless a path overrides them.
#[derive(Clone, Debug)]
pub struct Extraparams {
    pub to_https: Option<bool>,
    pub sticky_sessions: bool,
    pub authentication: Option<Arc<InnerAuth>>,
    pub rate_limit: Option<isize>,
}

#[derive(Debug, Default, Clone)]
pub struct GlobalServiceMapping {
    pub upstream: String,
    pub hostname: String,
    pub path: Option<String>,
    pub to_https: Option<bool>,
    pub sticky_sessions: Option<bool>,
    pub rate_limit: Option<isize>,
    pub client_headers: Option<Vec<String>>,
    pub server_headers: Option<Vec<String>>,
}

#[derive(Clone, Default, Debug)]
pub struct Kubernetes {
    pub servers: Option<Vec<String>>,
    pub services: Option<Vec<GlobalServiceMapping>>,
    pub tokenpath: Option<String>,
}

#[derive(Clone, Default, Debug)]
pub struct Consul {
    pub servers: Option<Vec<String>>,
    pub services: Option<Vec<GlobalServiceMapping>>,
    pub token: Option<String>,
}

/// The upstreams file as written.
#[derive(Debug, Default)]
pub struct Config {
    pub provider: String,
    pub to_https: Option<bool>,
    pub sticky_sessions: bool,
    pub upstreams: Option<Vec<(String, HostConfig)>>,
    pub globals: Option<Vec<(String, Vec<String>)>>,
    pub client_headers: Option<Vec<String>>,
    pub server_headers: Option<Vec<String>>,
    pub authorization: Option<Auth>,
    pub consul: Option<Consul>,
    pub kubernetes: Option<Kubernetes>,
    pub rate_limit: Option<isize>,
}

/// One host of the upstreams file: its paths and their settings.
#[derive(Debug, Default)]
pub struct HostConfig {
    pub paths: Vec<(String, PathConfig)>,
    pub rate_limit: Option<isize>,
}

#[derive(Debug, Default, Clone)]
pub struct Auth {
    pub auth_type: String,
    pub auth_cred: String,
}

/// One path of a host: the servers behind it and how to reach them.
#[derive(Debug, Default)]
pub struct PathConfig {
    pub servers: Vec<String>,
    pub to_https: Option<bool>,
    pub sticky_sessions: Option<bool>,
    pub client_headers: Option<Vec<String>>,
    pub server_headers: Option<Vec<String>>,
    pub rate_limit: Option<isize>,
    pub healthcheck: Option<bool>,
    pub redirect_to: Option<String>,
    pub authorization: Option<Auth>,
}

/// Hostname, then path, then the backends that serve it.
pub type UpstreamTable = Vec<(String, Vec<(String, Vec<InnerMap>)>)>;

/// Hostname (or a global key), then path, then `(name, value)` headers.
pub type HeaderTable = Vec<(String, Vec<(String, Vec<(String, String)>)>)>;

/// The configuration the proxy runs on, built from a `Config`.
#[derive(Debug)]
pub struct Configuration {
    pub upstreams: UpstreamTable,
    pub client_headers: HeaderTable,
    pub server_headers: HeaderTable,
    pub consul: Option<Consul>,
    pub kubernetes: Option<Kubernetes>,
    pub typecfg: String,
    pub extraparams: Extraparams,
}

/// The main settings file.
#[derive(Debug, Default)]
pub struct AppConfig {
    pub hc_interval: u16,
    pub hc_method: String,
    pub upstreams_conf: String,
    pub log_level: String,
    pub master_key: String,
    pub config_address: String,
    pub proxy_address_http: String,
    pub config_api_enabled: bool,
    pub config_tls_address: Option<String>,
    pub config_tls_certificate: Option<String>,
    pub config_tls_key_file: Option<String>,
    pub proxy_address_tls: Option<String>,
    pub proxy_port_tls: Option<String>,
    pub proxy_port: Option<String>,
    pub local_server: Option<(String, u16)>,
    pub proxy_configs: Option<String>,
    pub proxy_tls_grade: Option<String>,
    pub file_server_address: Option<String>,
    pub file_server_folder: Option<String>,
    pub runuser: Option<String>,
    pub rungroup: Option<String>,
}

#[derive(Debug, Default, Clone, PartialEq, Eq)]
pub struct InnerAuth {
    pub auth_type: String,
    pub auth_cred: String,
}

/// One backend server of an upstream path.
#[derive(Debug, Clone, PartialEq, Eq)]
pub struct InnerMap {
    pub address: String,
    pub port: u16,
    pub is_ssl: bool,
    pub is_http2: bool,
    pub to_https: bool,
    pub rate_limit: Option<isize>,
    pub healthcheck: Option<bool>,
    pub redirect_to: Option<String>,
    pub authorization: Option<Arc<InnerAuth>>,
}

#[derive(Debug, Default)]
pub struct InnerMapForJson {
    pub address: String,
    pub port: u16,
    pub is_ssl: bool,
    pub is_http2: bool,
    pub to_https: bool,
    pub rate_limit: Option<isize>,
    pub healthcheck: Option<bool>,
}

#[derive(Debug, Default)]
pub struct UpstreamSnapshotForJson {
    pub backends: Vec<InnerMapForJson>,
    pub requests: usize,
}

/// The abstract value of an `InnerAuth`: its type and its credential.
pub struct InnerAuthView {
    pub auth_type: Seq<char>,
    pub auth_cred: Seq<char>,
}

impl DeepView for InnerAuth {
    type V = InnerAuthView;

    open spec fn deep_view(&self) -> InnerAuthView {
        InnerAuthView { auth_type: self.auth_type@, auth_cred: self.auth_cred@ }
    }
}

impl DeepView for Auth {
    type V = InnerAuthView;

    open spec fn deep_view(&self) -> InnerAuthView {
        InnerAuthView { auth_type: self.auth_type@, auth_cred: self.auth_cred@ }
    }
}

/// The abstract value of an `InnerMap`.
pub struct InnerMapView {
    pub address: Seq<char>,
    pub port: u16,
    pub is_ssl: bool,
    pub is_http2: bool,
    pub to_https: bool,
    pub rate_limit: Option<isize>,
    pub healthcheck: Option<bool>,
    pub redirect_to: Option<Seq<char>>,
    pub authorization: Option<InnerAuthView>,
}

impl DeepView for InnerMap {
    type V = InnerMapView;

    open spec fn deep_view(&self) -> InnerMapView {
        InnerMapView {
            address: self.address@,
            port: self.port,
            is_ssl: self.is_ssl,
            is_http2: self.is_http2,
            to_https: self.to_https,
            rate_limit: self.rate_limit,
            healthcheck: self.healthcheck,
            redirect_to: self.redirect_to.deep_view(),
            authorization: self.authorization.deep_view(),
        }
    }
}

/// The abstract value of `Extraparams`.
pub struct ExtraparamsView {
    pub to_https: Option<bool>,
    pub sticky_sessions: bool,
    pub authentication: Option<InnerAuthView>,
    pub rate_limit: Option<isize>,
}

impl DeepView for Extraparams {
    type V = ExtraparamsView;

    open spec fn deep_view(&self) -> ExtraparamsView {
        ExtraparamsView {
            to_https: self.to_https,
            sticky_sessions: self.sticky_sessions,
            authentication: self.authentication.deep_view(),
            rate_limit: self.rate_limit,
        }
    }
}

impl Default for Extraparams {
    /// No HTTPS redirect, no sticky sessions, no authentication, no limit.
    fn default() -> (r: Self)
        ensures
            r.to_https is None,
            !r.sticky_sessions,
            r.authentication is None,
            r.rate_limit is None,
    {
        Extraparams { to_https: None, sticky_sessions: false, authentication: None, rate_limit: None }
    }
}

impl Default for Configuration {
    /// No upstreams, no headers, no discovery settings.
    fn default() -> (r: Self)
        ensures
            r.upstreams@.len() == 0,
            r.client_headers@.len() == 0,
            r.server_headers@.len() == 0,
            r.consul is None,
            r.kubernetes is None,
            r.typecfg@.len() == 0,
            r.extraparams.to_https is None,
            !r.extraparams.sticky_sessions,
            r.extraparams.authentication is None,
            r.extraparams.rate_limit is None,
    {
        Configuration {
            upstreams: Vec::new(),
            client_headers: Vec::new(),
            server_headers: Vec::new(),
            consul: None,
            kubernetes: None,
            typecfg: String::new(),
            extraparams: Extraparams::default(),
        }
    }
}

/// A copy of `a` as the proxy holds it.
pub fn inner_auth_of(a: &Auth) -> (r: InnerAuth)
    ensures
        r.deep_view() == a.deep_view(),
{
    InnerAuth { auth_type: a.auth_type.clone(), auth_cred: a.auth_cred.clone() }
}

impl InnerMap {
    /// A backend on 127.0.0.1, port 0, with every option off.
    pub fn new() -> (r: Self)
        ensures
            r.deep_view() == (InnerMapView {
                address: "127.0.0.1"@,
                port: 0,
                is_ssl: false,
                is_http2: false,
                to_https: false,
                rate_limit: None,
                healthcheck: None,
                redirect_to: None,
                authorization: None,
            }),
    {
        Self {
            address: "127.0.0.1".to_string(),
            port: 0,
            is_ssl: false,
            is_http2: false,
            to_https: false,
            rate_limit: None,
            healthcheck: None,
            redirect_to: None,
            authorization: None,
        }
    }
}

} // verus!
