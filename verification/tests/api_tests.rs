use proxy_gateway::discovery::{config_dirs, discovery_kind, startup_grade, DiscoveryKind, FromFileProvider};
use proxy_gateway::order::{register_challenge, ChallengeStore};
use proxy_gateway::webserver::{
    access_denied, acme_create_reply, acme_order_reply, conf_reply, http01_challenge_reply,
    jwt_authorized, jwt_expiry, jwt_reply, key_authorization, order_domain, status_mismatch,
    jwt_gen, status_reply, status_route, token_claims, StatusRoute,
};

#[test]
fn api_keys() {
    assert!(key_authorization(Some("secret"), None, "secret"));
    assert!(key_authorization(None, Some("secret"), "secret"));
    assert!(!key_authorization(Some("wrong"), Some("secret"), "secret"));
    assert!(!key_authorization(None, None, "secret"));
    assert!(!key_authorization(Some("secre"), None, "secret"));
    assert!(!key_authorization(Some(""), None, "secret"));
    assert!(key_authorization(Some(""), None, ""));
}

#[test]
fn conf_replies() {
    let r = conf_reply(false, true, None);
    assert_eq!((r.status, r.body.as_str()), (403, "Config API is disabled !\n"));
    let r = conf_reply(true, false, None);
    assert_eq!((r.status, r.body.as_str()), (403, "Access Denied !\n"));
    let r = conf_reply(true, true, None);
    assert_eq!((r.status, r.body.as_str()), (200, "Accepted! Applying in background\n"));
    let r = conf_reply(true, true, Some("bad line".to_string()));
    assert_eq!((r.status, r.body.as_str()), (502, "Failed: bad line\n"));
    let d = access_denied();
    assert_eq!((d.status, d.body.as_str()), (403, "Access Denied !\n"));
}

#[test]
fn jwt_replies() {
    assert!(jwt_authorized("k", "k"));
    assert!(!jwt_authorized("k", "K"));
    assert_eq!(jwt_expiry(1000, 5), 1300);
    let r = jwt_reply(true, Some("tok".to_string()));
    assert_eq!((r.status, r.body.as_str()), (201, "tok"));
    let r = jwt_reply(true, None);
    assert_eq!((r.status, r.body.as_str()), (500, "ERROR"));
    let r = jwt_reply(false, Some("tok".to_string()));
    assert_eq!((r.status, r.body.as_str()), (403, "Unauthorised"));
}

#[test]
fn status_routes() {
    assert!(matches!(status_route(true, true), StatusRoute::Liveness));
    assert!(matches!(status_route(false, true), StatusRoute::All));
    assert!(matches!(status_route(false, false), StatusRoute::Mismatch));
    let m = status_mismatch();
    assert_eq!((m.status, m.body.as_str()), (500, "Parameter mismatch"));
}

#[test]
fn acme_replies() {
    let r = acme_create_reply(Ok("id\n".to_string()));
    assert_eq!((r.status, r.body.as_str()), (200, "id\n"));
    let r = acme_create_reply(Err("boom".to_string()));
    assert_eq!((r.status, r.body.as_str()), (500, "Failed to create account: boom"));
    let r = acme_order_reply(Err("nope".to_string()));
    assert_eq!((r.status, r.body.as_str()), (500, "Failed to order a certificate: nope"));
    assert_eq!(order_domain("/example.com/"), "example.com");
}

#[test]
fn challenges_are_served() {
    let mut store = ChallengeStore::new();
    register_challenge(&mut store, "abc.def".to_string());
    let r = http01_challenge_reply(&store, "abc");
    assert_eq!((r.status, r.body.as_str()), (200, "abc.def"));
    let r = http01_challenge_reply(&store, "zzz");
    assert_eq!((r.status, r.body.as_str()), (404, "Not found"));
}

#[test]
fn discovery_settings() {
    assert_eq!(discovery_kind("file"), DiscoveryKind::File);
    assert_eq!(discovery_kind("kubernetes"), DiscoveryKind::Kubernetes);
    assert_eq!(discovery_kind("consul"), DiscoveryKind::Consul);
    assert_eq!(discovery_kind("other"), DiscoveryKind::Unknown);
    assert_eq!(config_dirs(&None), ("/tmp/autoconfigs".to_string(), "/tmp/certificates".to_string()));
    assert_eq!(
        config_dirs(&Some("/etc/p".to_string())),
        ("/etc/p/autoconfigs".to_string(), "/etc/p/certificates".to_string())
    );
    assert_eq!(startup_grade(&None), "medium");
    assert_eq!(startup_grade(&Some("high".to_string())), "high");
    let p = FromFileProvider { path: "/x.yaml".to_string() };
    assert_eq!(p.path, "/x.yaml");
}

#[test]
fn status_answers_each_route() {
    let (r, json) = status_reply(true, true, "{\"live\":1}".to_string(), Err("unused".to_string()));
    assert_eq!((r.status, r.body.as_str(), json), (200, "{\"live\":1}", true));
    let (r, json) = status_reply(false, true, "L".to_string(), Ok("{\"all\":2}".to_string()));
    assert_eq!((r.status, r.body.as_str(), json), (200, "{\"all\":2}", true));
    let (r, json) = status_reply(false, true, "L".to_string(), Err("poisoned".to_string()));
    assert_eq!((r.status, r.body.as_str(), json), (500, "Failed to get status: poisoned", false));
    let (r, json) = status_reply(false, false, "L".to_string(), Ok("A".to_string()));
    assert_eq!((r.status, r.body.as_str(), json), (500, "Parameter mismatch", false));
}

#[test]
fn token_claims_leave_the_master_key_out() {
    let c = token_claims("ops".to_string(), "r4nd".to_string(), 1_000, 15);
    assert_eq!(c.master_key, "");
    assert_eq!(c.owner, "ops");
    assert_eq!(c.random, "r4nd");
    assert_eq!(c.exp, 1_900);
}

#[test]
fn tokens_are_hs256_over_the_claims() {
    let r = jwt_gen("master", "master", "ops".to_string(), "r4nd".to_string(), 1_000, 15);
    assert_eq!(r.status, 201);
    let mut validation = jsonwebtoken::Validation::new(jsonwebtoken::Algorithm::HS256);
    validation.validate_exp = false;
    validation.required_spec_claims.clear();
    let data = jsonwebtoken::decode::<serde_json::Value>(&r.body, &jsonwebtoken::DecodingKey::from_secret(b"master"), &validation).unwrap();
    let claims = data.claims.as_object().unwrap();
    let keys: Vec<&String> = claims.keys().collect();
    assert_eq!(keys, vec!["master_key", "owner", "exp", "random"]);
    assert_eq!(claims["master_key"], "");
    assert_eq!(claims["owner"], "ops");
    assert_eq!(claims["exp"], 1_900);
    assert_eq!(claims["random"], "r4nd");
    assert!(jsonwebtoken::decode::<serde_json::Value>(&r.body, &jsonwebtoken::DecodingKey::from_secret(b"other"), &validation).is_err());
    let denied = jwt_gen("guess", "master", "ops".to_string(), "x".to_string(), 1_000, 15);
    assert_eq!((denied.status, denied.body.as_str()), (403, "Unauthorised"));
}
