//! How the proxy learns its upstreams: which discovery a configuration
//! selects, and where the automatically kept files live.
use crate::text::str_eq;
use vstd::prelude::*;

verus! {

broadcast use vstd::string::group_string_axioms;

/// Upstreams read from a file and watched for changes.
pub struct FromFileProvider {
    pub path: String,
}

/// The discovery that a configuration's provider selects.
#[derive(PartialEq, Eq, Structural, Debug)]
pub enum DiscoveryKind {
    File,
    Kubernetes,
    Consul,
    Unknown,
}

/// The discovery for a provider name: "file", "kubernetes", "consul", or
/// none known.
pub fn discovery_kind(typecfg: &str) -> (r: DiscoveryKind)
    ensures
        typecfg@ == "file"@ ==> r == DiscoveryKind::File,
        typecfg@ == "kubernetes"@ ==> r == DiscoveryKind::Kubernetes,
        typecfg@ == "consul"@ ==> r == DiscoveryKind::Consul,
        typecfg@ != "file"@ && typecfg@ != "kubernetes"@ && typecfg@ != "consul"@ ==> r
            == DiscoveryKind::Unknown,
{
    proof {
        reveal_strlit("file");
        reveal_strlit("consul");
        reveal_strlit("kubernetes");
        assert("file"@.len() == 4);
        assert("consul"@.len() == 6);
        assert("kubernetes"@.len() == 10);
    }
    if str_eq(typecfg, "file") {
        DiscoveryKind::File
    } else if str_eq(typecfg, "kubernetes") {
        DiscoveryKind::Kubernetes
    } else if str_eq(typecfg, "consul") {
        DiscoveryKind::Consul
    } else {
        DiscoveryKind::Unknown
    }
}

/// The base directory of the automatically kept files: the configured
/// one, or "/tmp".
pub open spec fn configs_base(proxy_configs: Option<Seq<char>>) -> Seq<char> {
    match proxy_configs {
        Some(d) => d,
        None => "/tmp"@,
    }
}

/// The directories of the automatically kept configuration and of the
/// certificates: `<base>/autoconfigs` and `<base>/certificates`.
pub fn config_dirs(proxy_configs: &Option<String>) -> (r: (String, String))
    ensures
        r.0@ == configs_base(proxy_configs.deep_view()) + "/autoconfigs"@,
        r.1@ == configs_base(proxy_configs.deep_view()) + "/certificates"@,
{
    let base: String = match proxy_configs {
        Some(d) => d.clone(),
        None => "/tmp".to_string(),
    };
    let mut confdir = base.clone();
    confdir.append("/autoconfigs");
    let mut certdir = base;
    certdir.append("/certificates");
    (confdir, certdir)
}

/// The TLS grade the proxy starts with: the settled one, "medium" where
/// none is set.
pub fn startup_grade(proxy_tls_grade: &Option<String>) -> (r: String)
    ensures
        r@ == match proxy_tls_grade {
            Some(g) => g@,
            None => "medium"@,
        },
{
    match proxy_tls_grade {
        Some(g) => g.clone(),
        None => "medium".to_string(),
    }
}

} // verus!
