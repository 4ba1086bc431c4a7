use proxy_gateway::load::{
    cert_expiry, certificate_is_fresh, certificate_names, collect_certificate_names,
    CertificateConfig, CertificateInfo, Certificates,
};
use rcgen::{CertificateParams, DistinguishedName, DnType, KeyPair};

fn pem_for(cn: &str, sans: &[&str], not_after: (i32, u8, u8)) -> String {
    let mut params = CertificateParams::new(sans.iter().map(|s| s.to_string()).collect::<Vec<_>>()).unwrap();
    params.distinguished_name = DistinguishedName::new();
    params.distinguished_name.push(DnType::CommonName, cn);
    params.not_after = rcgen::date_time_ymd(not_after.0, not_after.1, not_after.2);
    let key = KeyPair::generate().unwrap();
    params.self_signed(&key).unwrap().pem()
}

fn info(cns: &[&str], alts: &[&str]) -> CertificateInfo {
    CertificateInfo {
        common_names: cns.iter().map(|s| s.to_string()).collect(),
        alt_names: alts.iter().map(|s| s.to_string()).collect(),
        cert_path: String::new(),
        key_path: String::new(),
    }
}

fn configs(n: usize) -> Vec<CertificateConfig> {
    (0..n)
        .map(|i| CertificateConfig { cert_path: format!("c{}.crt", i), key_path: format!("c{}.key", i) })
        .collect()
}

#[test]
fn names_of_a_real_certificate() {
    let pem = pem_for("a.example.com", &["a.example.com", "*.example.org", "b.example.com"], (2030, 1, 1));
    let (mut cns, mut alts) = certificate_names(pem.as_bytes()).unwrap();
    cns.sort();
    alts.sort();
    assert_eq!(cns, vec!["a.example.com".to_string()]);
    assert_eq!(alts, vec!["*.example.org".to_string(), "b.example.com".to_string()]);
}

#[test]
fn not_a_certificate_has_no_names() {
    assert!(certificate_names(b"hello").is_none());
    assert!(certificate_names(b"-----BEGIN CERTIFICATE-----\nAAAA\n-----END CERTIFICATE-----\n").is_none());
    assert!(cert_expiry(b"").is_none());
}

#[test]
fn expiry_of_a_real_certificate() {
    let pem = pem_for("x", &["x.test"], (2030, 1, 1));
    assert_eq!(cert_expiry(pem.as_bytes()), Some(1893456000));
}

#[test]
fn freshness_needs_more_than_thirty_days() {
    let now = 1_700_000_000u64;
    assert!(certificate_is_fresh(now + 30 * 24 * 3600 + 1, now));
    assert!(!certificate_is_fresh(now + 30 * 24 * 3600, now));
    assert!(!certificate_is_fresh(now, now));
}

#[test]
fn duplicate_names_are_collected_once() {
    let cns = vec![Some("a".to_string()), None, Some("a".to_string()), Some("b".to_string())];
    let sans = vec![Some("a".to_string()), Some("c".to_string()), None, Some("c".to_string())];
    let (c, a) = collect_certificate_names(&cns, &sans);
    assert_eq!(c, vec!["a".to_string(), "b".to_string()]);
    assert_eq!(a, vec!["c".to_string()]);
}

#[test]
fn certificates_need_every_one_loaded() {
    let ok = Certificates::new(&configs(2), vec![Some(info(&["a"], &[])), Some(info(&["b"], &[]))]).unwrap();
    assert_eq!(ok.default_cert_path, "c0.crt");
    assert_eq!(ok.default_key_path, "c0.key");
    assert_eq!(ok.configs.len(), 2);
    assert!(Certificates::new(&configs(2), vec![Some(info(&["a"], &[])), None]).is_none());
}

#[test]
fn server_names_choose_certificates() {
    let certs = Certificates::new(
        &configs(3),
        vec![
            Some(info(&["*.example.com"], &["shared.test"])),
            Some(info(&["www.example.com"], &[])),
            Some(info(&["other.test"], &["shared.test", "*.example.com"])),
        ],
    )
    .unwrap();
    assert_eq!(certs.find_ssl_context("www.example.com"), Some(1));
    assert_eq!(certs.find_ssl_context("api.example.com"), Some(0));
    assert_eq!(certs.find_ssl_context("deep.api.example.com"), Some(0));
    assert_eq!(certs.find_ssl_context("example.com"), None);
    assert_eq!(certs.find_ssl_context("shared.test"), Some(2));
    assert_eq!(certs.find_ssl_context("*.example.com"), Some(2));
    assert_eq!(certs.find_ssl_context("unknown.org"), None);
}

#[test]
fn a_failed_reload_keeps_the_certificates_in_use() {
    let mut certs = Certificates::new(&configs(1), vec![Some(info(&["a"], &[]))]).unwrap();
    let mut newer = configs(2);
    newer[0].cert_path = "n0.crt".to_string();
    certs.reload(&newer, vec![Some(info(&["b"], &[])), None]);
    assert_eq!(certs.configs.len(), 1);
    assert_eq!(certs.default_cert_path, "c0.crt");
    certs.reload(&newer, vec![Some(info(&["b"], &[])), Some(info(&["c"], &[]))]);
    assert_eq!(certs.configs.len(), 2);
    assert_eq!(certs.default_cert_path, "n0.crt");
    assert_eq!(certs.find_ssl_context("c"), Some(1));
}
