use x509_parser::certification_request::X509CertificationRequest;
use x509_parser::extensions::{GeneralName, ParsedExtension};
use x509_parser::prelude::FromDer;
use proxy_gateway::order::{
    certificate_files, challenge_token, credentials_file, domains_file, register_challenge,
    register_domain, register_listed_domains, signing_request, renewal_needed, replace_str, ChallengeStore,
    DomainRegistry,
};

#[test]
fn file_names() {
    assert_eq!(credentials_file("/etc/proxy/autoconfigs"), "/etc/proxy/autoconfigs/acme_credentials.json");
    assert_eq!(
        certificate_files("/certs", "example.com"),
        ("/certs/example.com.crt".to_string(), "/certs/example.com.key".to_string())
    );
    assert_eq!(domains_file("/etc/a/acme_credentials.json"), "/etc/a/domains.json");
    assert_eq!(domains_file("creds.json"), "creds.json");
}

#[test]
fn replace_matches_std() {
    for (s, f, t) in [("aaa", "aa", "b"), ("abcabc", "bc", "X"), ("", "a", "b"), ("xyz", "q", "r"), ("ééé", "é", "e"), ("ab", "", "-"), ("", "", "x")] {
        assert_eq!(replace_str(s, f, t), s.replace(f, t));
    }
}

fn sorted(mut v: Vec<String>) -> Vec<String> {
    v.sort();
    v
}

#[test]
fn domain_registry_keeps_each_domain_once() {
    let mut reg = DomainRegistry::new();
    assert!(reg.insert("a.com"));
    assert!(reg.insert("b.com"));
    assert!(!reg.insert("a.com"));
    assert!(reg.contains("b.com"));
    assert!(!reg.contains("c.com"));
    assert_eq!(sorted(reg.list()), vec!["a.com".to_string(), "b.com".to_string()]);
}

#[test]
fn registering_a_new_domain_gives_the_list_file() {
    let mut reg = DomainRegistry::new();
    reg.insert("a.com");
    let text = register_domain(&mut reg, "b.com").unwrap();
    assert!(text == "[\n  \"a.com\",\n  \"b.com\"\n]" || text == "[\n  \"b.com\",\n  \"a.com\"\n]");
    assert!(register_domain(&mut reg, "a.com").is_none());
    assert_eq!(reg.list().len(), 2);
    let mut fresh = DomainRegistry::new();
    assert!(register_listed_domains(&mut fresh, &text));
    assert_eq!(sorted(fresh.list()), vec!["a.com".to_string(), "b.com".to_string()]);
}

#[test]
fn domain_list_files() {
    let mut reg = DomainRegistry::new();
    reg.insert("x");
    assert!(register_listed_domains(&mut reg, "[\"x\", \"y\", \"y\"]"));
    assert_eq!(sorted(reg.list()), vec!["x".to_string(), "y".to_string()]);
    assert!(!register_listed_domains(&mut reg, "{}"));
    assert!(!register_listed_domains(&mut reg, "not json"));
    assert!(register_listed_domains(&mut reg, "[]"));
    assert_eq!(reg.list().len(), 2);
    let mut empty = DomainRegistry::new();
    assert_eq!(register_domain(&mut empty, "only"), Some("[\n  \"only\"\n]".to_string()));
}

#[test]
fn challenge_tokens() {
    assert_eq!(challenge_token("tok.thumb"), "tok");
    assert_eq!(challenge_token("a.b.c"), "a");
    assert_eq!(challenge_token("nodot"), "nodot");
    assert_eq!(challenge_token(".x"), "");
}

#[test]
fn registered_challenges_are_answered() {
    let mut store = ChallengeStore::new();
    register_challenge(&mut store, "tok1.abc".to_string());
    register_challenge(&mut store, "tok2.def".to_string());
    assert_eq!(store.get("tok1"), Some("tok1.abc".to_string()));
    assert_eq!(store.get("tok2"), Some("tok2.def".to_string()));
    assert_eq!(store.get("tok3"), None);
    store.insert("tok1".to_string(), "tok1.new".to_string());
    assert_eq!(store.get("tok1"), Some("tok1.new".to_string()));
    store.clear();
    assert_eq!(store.get("tok1"), None);
}

#[test]
fn renewal() {
    let now = 1_000_000u64;
    assert!(renewal_needed(None, now));
    assert!(renewal_needed(Some(now + 2592000), now));
    assert!(!renewal_needed(Some(now + 2592001), now));
    assert!(renewal_needed(Some(0), now));
}

#[test]
fn signing_requests_ask_for_the_domain_alone() {
    let (der, key_pem) = signing_request("shop.example.com").unwrap();
    assert!(key_pem.contains("PRIVATE KEY"));
    let (_, csr) = X509CertificationRequest::from_der(&der).unwrap();
    let mut names = Vec::new();
    for ext in csr.requested_extensions().unwrap() {
        if let ParsedExtension::SubjectAlternativeName(san) = ext {
            for n in &san.general_names {
                if let GeneralName::DNSName(d) = n {
                    names.push(d.to_string());
                }
            }
        }
    }
    assert_eq!(names, vec!["shop.example.com".to_string()]);
    let key = rcgen::KeyPair::from_pem(&key_pem).unwrap();
    assert_eq!(csr.certification_request_info.subject_pki.raw, key.public_key_der().as_slice());
    let (other, _) = signing_request("other.test").unwrap();
    assert_ne!(der, other);
}
