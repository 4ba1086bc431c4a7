//! TLS certificates: the names a certificate serves, its expiry, and which
//! of the loaded certificates answers a TLS server name.
use crate::text::{
    char_vec, ends_with_str, has_prefix, has_suffix, starts_with_str, str_eq,
};
use vstd::prelude::*;

verus! {

broadcast use vstd::string::group_string_axioms;

/// Where a certificate and its private key are read from.
#[derive(Clone, Debug)]
pub struct CertificateConfig {
    pub cert_path: String,
    pub key_path: String,
}

/// A loaded certificate: the names it serves and where it was read from.
#[derive(Debug)]
pub struct CertificateInfo {
    pub common_names: Vec<String>,
    pub alt_names: Vec<String>,
    pub cert_path: String,
    pub key_path: String,
}

/// The loaded certificates, in the order of their configurations.
#[derive(Debug)]
pub struct Certificates {
    pub configs: Vec<CertificateInfo>,
    pub default_cert_path: String,
    pub default_key_path: String,
}

// ---------------------------------------------------------------------------
// Reading certificates (calls into rustls-pemfile and x509-parser)
// ---------------------------------------------------------------------------

/// The DER bytes of the first PEM item of `pem`, where that item is an
/// X.509 certificate, as `rustls_pemfile::read_one` reads it.
pub uninterp spec fn pem_leading_certificate(pem: Seq<u8>) -> Option<Seq<u8>>;

/// The DER contents of the first PEM block of `pem`, as
/// `x509_parser::pem::parse_x509_pem` decodes it.
pub uninterp spec fn pem_first_block(pem: Seq<u8>) -> Option<Seq<u8>>;

/// What `X509Certificate::from_der` finds in `der`, where it parses: for
/// each subject common name its text (where it is a string), for each
/// subject alternative name its DNS name (where it is one; none where the
/// extension is missing or malformed), and the end of validity in seconds
/// since the epoch.
pub uninterp spec fn x509_certificate_fields(der: Seq<u8>) -> Option<
    (Seq<Option<Seq<char>>>, Seq<Option<Seq<char>>>, i64),
>;

/// Calls `rustls_pemfile::read_one` on `pem`. The contract claims that the
/// result depends on the bytes alone; what PEM decoding gives is not
/// written out here.
#[verifier::external_body]
fn read_pem_certificate(pem: &[u8]) -> (r: Option<Vec<u8>>)
    ensures
        match r {
            Some(der) => pem_leading_certificate(pem@) == Some(der@),
            None => pem_leading_certificate(pem@) is None,
        },
{
    let mut reader: &[u8] = pem;
    match rustls_pemfile::read_one(&mut reader) {
        Ok(Some(rustls_pemfile::Item::X509Certificate(cert))) => Some(cert.to_vec()),
        _ => None,
    }
}

/// Calls `x509_parser::pem::parse_x509_pem` on `pem`. The contract claims
/// that the result depends on the bytes alone.
#[verifier::external_body]
fn read_pem_block(pem: &[u8]) -> (r: Option<Vec<u8>>)
    ensures
        match r {
            Some(der) => pem_first_block(pem@) == Some(der@),
            None => pem_first_block(pem@) is None,
        },
{
    match x509_parser::pem::parse_x509_pem(pem) {
        Ok((_, block)) => Some(block.contents),
        Err(_) => None,
    }
}

/// Calls `x509_parser::parse_x509_certificate` (`X509Certificate::from_der`) on `der` and reads the subject common
/// names, the DNS subject alternative names and the end of validity of the
/// result. The contract claims that the result depends on the bytes alone;
/// X.509 decoding is not written out here.
#[verifier::external_body]
fn parse_certificate(der: &[u8]) -> (r: Option<(Vec<Option<String>>, Vec<Option<String>>, i64)>)
    ensures
        r.deep_view() == x509_certificate_fields(der@),
{
    let (_, x509) = x509_parser::parse_x509_certificate(der).ok()?;
    let cns = x509.subject().iter_common_name().map(|a| a.as_str().ok().map(|s| s.to_string()));
    let sans = match x509.subject_alternative_name() {
        Ok(Some(san)) => san.value.general_names.iter().map(|n| match n {
            x509_parser::extensions::GeneralName::DNSName(d) => Some(d.to_string()),
            _ => None,
        }).collect(),
        _ => Vec::new(),
    };
    Some((cns.collect(), sans, x509.validity().not_after.timestamp()))
}

// ---------------------------------------------------------------------------
// Names of a certificate
// ---------------------------------------------------------------------------

/// The values present in a list of optional values.
pub open spec fn present_values(entries: Seq<Option<Seq<char>>>) -> Set<Seq<char>> {
    Set::new(|x: Seq<char>| entries.contains(Some(x)))
}

/// Whether the list holds no value twice.
pub open spec fn distinct(s: Seq<Seq<char>>) -> bool {
    forall|i: int, j: int| 0 <= i < j < s.len() ==> s[i] != s[j]
}

/// Whether `x` is among the first `n` strings of `v`.
fn contains_string(v: &Vec<String>, x: &str) -> (r: bool)
    ensures
        r == v.deep_view().contains(x@),
{
    let mut i: usize = 0;
    while i < v.len()
        invariant
            i <= v@.len(),
            forall|k: int| 0 <= k < i ==> (#[trigger] v.deep_view()[k]) != x@,
        decreases v@.len() - i,
    {
        if str_eq(v[i].as_str(), x) {
            assert(v.deep_view()[i as int] == x@);
            return true;
        }
        i = i + 1;
    }
    assert forall|k: int| 0 <= k < v.deep_view().len() implies v.deep_view()[k] != x@ by {}
    false
}

/// The names a certificate serves, from its common-name entries and its
/// DNS alternative-name entries: every common name that is text, once, and
/// every DNS name that is not already a common name, once. The order is
/// not part of the result's meaning.
pub fn collect_certificate_names(cns: &Vec<Option<String>>, sans: &Vec<Option<String>>) -> (r: (
    Vec<String>,
    Vec<String>,
))
    ensures
        r.0.deep_view().to_set() == present_values(cns.deep_view()),
        distinct(r.0.deep_view()),
        r.1.deep_view().to_set() == present_values(sans.deep_view()).difference(
            present_values(cns.deep_view()),
        ),
        distinct(r.1.deep_view()),
{
    let ghost cv = cns.deep_view();
    let ghost sv = sans.deep_view();
    let mut common: Vec<String> = Vec::new();
    let mut i: usize = 0;
    while i < cns.len()
        invariant
            cv == cns.deep_view(),
            i <= cns@.len(),
            distinct(common.deep_view()),
            forall|x: Seq<char>| common.deep_view().contains(x) <==> cv.take(i as int).contains(Some(x)),
        decreases cns@.len() - i,
    {
        let ghost before = common.deep_view();
        match &cns[i] {
            Some(cn) => {
                if !contains_string(&common, cn.as_str()) {
                    common.push(cn.clone());
                    proof {
                        assert(common.deep_view() =~= before.push(cn@));
                        lemma_push_contains(before, cn@);
                    }
                }
            },
            None => {},
        }
        proof {
            lemma_take_next_contains(cv, i as int);
            assert forall|x: Seq<char>|
                common.deep_view().contains(x) <==> cv.take(i + 1).contains(Some(x)) by {
                assert(common.deep_view().contains(x) <==> (before.contains(x) || cv[i as int] == Some(x)));
            }
        }
        i = i + 1;
    }
    assert(cv.take(cns@.len() as int) =~= cv);
    let mut alt: Vec<String> = Vec::new();
    let mut j: usize = 0;
    while j < sans.len()
        invariant
            cv == cns.deep_view(),
            sv == sans.deep_view(),
            j <= sans@.len(),
            distinct(alt.deep_view()),
            forall|x: Seq<char>| common.deep_view().contains(x) <==> cv.contains(Some(x)),
            forall|x: Seq<char>|
                alt.deep_view().contains(x) <==> (sv.take(j as int).contains(Some(x))
                    && !cv.contains(Some(x))),
        decreases sans@.len() - j,
    {
        let ghost before = alt.deep_view();
        match &sans[j] {
            Some(dns) => {
                if !contains_string(&common, dns.as_str()) && !contains_string(
                    &alt,
                    dns.as_str(),
                ) {
                    alt.push(dns.clone());
                    proof {
                        assert(alt.deep_view() =~= before.push(dns@));
                        lemma_push_contains(before, dns@);
                    }
                }
            },
            None => {},
        }
        proof {
            lemma_take_next_contains(sv, j as int);
            assert forall|x: Seq<char>|
                alt.deep_view().contains(x) <==> (sv.take(j + 1).contains(Some(x))
                    && !cv.contains(Some(x))) by {
                assert(alt.deep_view().contains(x) <==> (before.contains(x) || (sv[j as int]
                    == Some(x) && !cv.contains(Some(x)))));
            }
        }
        j = j + 1;
    }
    assert(sv.take(sans@.len() as int) =~= sv);
    assert(common.deep_view().to_set() =~= present_values(cv));
    assert(alt.deep_view().to_set() =~= present_values(sv).difference(present_values(cv)));
    (common, alt)
}

proof fn lemma_push_contains(v: Seq<Seq<char>>, y: Seq<char>)
    ensures
        forall|x: Seq<char>| #[trigger] v.push(y).contains(x) <==> (v.contains(x) || x == y),
        distinct(v) && !v.contains(y) ==> distinct(v.push(y)),
{
    let w = v.push(y);
    assert(w.len() == v.len() + 1);
    assert forall|x: Seq<char>| #[trigger] w.contains(x) <==> (v.contains(x) || x == y) by {
        if v.contains(x) {
            let k = choose|k: int| 0 <= k < v.len() && #[trigger] v[k] == x;
            assert(w[k] == x);
        }
        if x == y {
            assert(w[v.len() as int] == x);
        }
        if w.contains(x) && x != y {
            let k = choose|k: int| 0 <= k < w.len() && #[trigger] w[k] == x;
            assert(k < v.len());
            assert(v[k] == x);
        }
    }
    if distinct(v) && !v.contains(y) {
        assert forall|i: int, j: int| 0 <= i < j < w.len() implies w[i] != w[j] by {
            if j == v.len() {
                assert(v[i] == w[i]);
            } else {
                assert(v[i] == w[i] && v[j] == w[j]);
            }
        }
    }
}

proof fn lemma_take_next_contains(s: Seq<Option<Seq<char>>>, i: int)
    requires
        0 <= i < s.len(),
    ensures
        forall|x: Seq<char>|
            s.take(i + 1).contains(Some(x)) <==> (s.take(i).contains(Some(x)) || s[i] == Some(x)),
{
    assert(s.take(i + 1) =~= s.take(i).push(s[i]));
    assert forall|x: Seq<char>|
        s.take(i + 1).contains(Some(x)) <==> (s.take(i).contains(Some(x)) || s[i] == Some(x)) by {
        if s.take(i).contains(Some(x)) {
            let k = choose|k: int| 0 <= k < i && #[trigger] s.take(i)[k] == Some(x);
            assert(s.take(i + 1)[k] == Some(x));
        }
        if s[i] == Some(x) {
            assert(s.take(i + 1)[i] == Some(x));
        }
        if s.take(i + 1).contains(Some(x)) && s[i] != Some(x) {
            let k = choose|k: int| 0 <= k < i + 1 && #[trigger] s.take(i + 1)[k] == Some(x);
            assert(s.take(i)[k] == Some(x));
        }
    }
}

// ---------------------------------------------------------------------------
// Reading one certificate
// ---------------------------------------------------------------------------

/// The bytes of the line `-----BEGIN CERTIFICATE-----`.
pub open spec fn begin_certificate() -> Seq<u8> {
    seq![
        45u8, 45, 45, 45, 45, 66, 69, 71, 73, 78, 32, 67, 69, 82, 84, 73, 70, 73, 67, 65, 84, 69, 45,
        45, 45, 45, 45,
    ]
}

/// The bytes that start the line `-----END CERTIFICATE-----`.
pub open spec fn end_certificate() -> Seq<u8> {
    seq![
        45u8, 45, 45, 45, 45, 69, 78, 68, 32, 67, 69, 82, 84, 73, 70, 73, 67, 65, 84, 69, 45, 45, 45,
        45, 45,
    ]
}

/// The first position at or after `i` that holds `byte`; the length where
/// none does.
pub open spec fn first_from(s: Seq<u8>, i: int, byte: u8) -> int
    decreases s.len() - i,
{
    if i >= s.len() || i < 0 {
        s.len() as int
    } else if s[i] == byte {
        i
    } else {
        first_from(s, i + 1, byte)
    }
}

/// Where a PEM text that starts with a certificate block ends that block:
/// after the newline of its `-----END CERTIFICATE-----` line. The text must
/// start with the `-----BEGIN CERTIFICATE-----` line (ended by a line
/// break), and the next `-` after it must start the END line at the start
/// of a line. `None` where the text is not so shaped.
pub open spec fn certificate_block_end(s: Seq<u8>) -> Option<int> {
    if s.len() > 27 && s.take(27) == begin_certificate() && (s[27] == 10u8 || s[27] == 13u8) {
        let q = first_from(s, 28, 45u8);
        if q < s.len() && s[q - 1] == 10u8 && q + 25 <= s.len() && s.subrange(q, q + 25)
            == end_certificate() {
            let n = first_from(s, q + 25, 10u8);
            if n < s.len() {
                Some(n + 1)
            } else {
                None
            }
        } else {
            None
        }
    } else {
        None
    }
}

/// The part of a PEM text that its first certificate is read from: its
/// leading certificate block (see `certificate_block_end`), or all of it
/// where it does not start with one. PEM readers stop at the END line of
/// the first block, so what follows the block is never read.
pub open spec fn leading_block(s: Seq<u8>) -> Seq<u8> {
    match certificate_block_end(s) {
        Some(e) => s.take(e),
        None => s,
    }
}

proof fn lemma_first_from_prefix(a: Seq<u8>, b: Seq<u8>, i: int, byte: u8)
    requires
        0 <= i,
        first_from(a, i, byte) < a.len(),
    ensures
        first_from(a + b, i, byte) == first_from(a, i, byte),
    decreases a.len() - i,
{
    if i < a.len() && a[i] != byte {
        lemma_first_from_prefix(a, b, i + 1, byte);
    }
    if i < a.len() {
        assert((a + b)[i] == a[i]);
    }
}

proof fn lemma_first_from_facts(s: Seq<u8>, i: int, byte: u8)
    requires
        0 <= i,
    ensures
        i <= first_from(s, i, byte) <= s.len() || (i > s.len() && first_from(s, i, byte) == s.len()),
        first_from(s, i, byte) < s.len() ==> s[first_from(s, i, byte)] == byte,
        forall|k: int| i <= k < first_from(s, i, byte) ==> s[k] != byte,
    decreases s.len() - i,
{
    if i < s.len() && s[i] != byte {
        lemma_first_from_facts(s, i + 1, byte);
    }
}

/// The certificate of a chain (leaf first, then the certificates that
/// issued it) is read from the leaf alone: for a text `a` that is exactly
/// one certificate block, whatever follows it, `b`, changes nothing of the
/// leading certificate or the first PEM block that are read.
pub proof fn law_chain_is_read_by_its_leaf(a: Seq<u8>, b: Seq<u8>)
    requires
        certificate_block_end(a) == Some(a.len() as int),
    ensures
        leading_block(a + b) == a,
        leading_block(a) == a,
        pem_leading_certificate(leading_block(a + b)) == pem_leading_certificate(leading_block(a)),
        pem_first_block(leading_block(a + b)) == pem_first_block(leading_block(a)),
{
    let s = a + b;
    assert(a.len() > 27 && a.take(27) == begin_certificate() && (a[27] == 10u8 || a[27] == 13u8));
    lemma_first_from_facts(a, 28, 45u8);
    assert(s.take(27) =~= a.take(27));
    assert(s[27] == a[27]);
    let q = first_from(a, 28, 45u8);
    lemma_first_from_prefix(a, b, 28, 45u8);
    assert(s[q - 1] == a[q - 1]);
    assert(s.subrange(q, q + 25) =~= a.subrange(q, q + 25));
    assert(q < a.len() && a[q - 1] == 10u8 && q + 25 <= a.len() && a.subrange(q, q + 25) == end_certificate());
    let n = first_from(a, q + 25, 10u8);
    assert(n < a.len());
    lemma_first_from_prefix(a, b, q + 25, 10u8);
    assert(s.take(a.len() as int) =~= a);
    assert(a.take(a.len() as int) =~= a);
}

/// The leading certificate block of a PEM text (see `leading_block`).
pub fn leading_certificate_block(pem: &[u8]) -> (r: &[u8])
    ensures
        r@ == leading_block(pem@),
{
    let begin: [u8; 27] = [
        45, 45, 45, 45, 45, 66, 69, 71, 73, 78, 32, 67, 69, 82, 84, 73, 70, 73, 67, 65, 84, 69, 45, 45,
        45, 45, 45,
    ];
    let end: [u8; 25] = [
        45, 45, 45, 45, 45, 69, 78, 68, 32, 67, 69, 82, 84, 73, 70, 73, 67, 65, 84, 69, 45, 45, 45, 45,
        45,
    ];
    assert(begin@ =~= begin_certificate());
    assert(end@ =~= end_certificate());
    let len = pem.len();
    if len <= 27 || !(pem[27] == 10 || pem[27] == 13) {
        return pem;
    }
    let mut i: usize = 0;
    while i < 27
        invariant
            i <= 27 < len,
            len == pem@.len(),
            begin@ == begin_certificate(),
            forall|k: int| 0 <= k < i ==> pem@[k] == begin@[k],
        decreases 27 - i,
    {
        if pem[i] != begin[i] {
            assert(pem@.take(27)[i as int] != begin_certificate()[i as int]);
            return pem;
        }
        i = i + 1;
    }
    assert(pem@.take(27) =~= begin_certificate());
    let mut q: usize = 28;
    while q < len && pem[q] != 45
        invariant
            28 <= q <= len,
            len == pem@.len(),
            first_from(pem@, 28, 45u8) == first_from(pem@, q as int, 45u8),
        decreases len - q,
    {
        q = q + 1;
    }
    proof {
        if q < len {
            assert(first_from(pem@, q as int, 45u8) == q);
        } else {
            assert(first_from(pem@, q as int, 45u8) == len);
        }
    }
    if q >= len || pem[q - 1] != 10 || len - q < 25 {
        return pem;
    }
    let mut j: usize = 0;
    while j < 25
        invariant
            j <= 25,
            q + 25 <= len,
            len == pem@.len(),
            end@ == end_certificate(),
            forall|k: int| 0 <= k < j ==> pem@[q + k] == end@[k],
            len > 27,
            pem@.take(27) == begin_certificate(),
            pem@[27] == 10u8 || pem@[27] == 13u8,
            first_from(pem@, 28, 45u8) == q,
            28 <= q < len,
            pem@[q - 1] == 10u8,
        decreases 25 - j,
    {
        if pem[q + j] != end[j] {
            assert(pem@.subrange(q as int, q + 25)[j as int] != end_certificate()[j as int]);
            return pem;
        }
        j = j + 1;
    }
    assert(pem@.subrange(q as int, q + 25) =~= end_certificate());
    let mut n: usize = q + 25;
    while n < len && pem[n] != 10
        invariant
            q + 25 <= n <= len,
            len == pem@.len(),
            first_from(pem@, q + 25, 10u8) == first_from(pem@, n as int, 10u8),
            len > 27,
            pem@.take(27) == begin_certificate(),
            pem@[27] == 10u8 || pem@[27] == 13u8,
            first_from(pem@, 28, 45u8) == q,
            28 <= q < len,
            pem@[q - 1] == 10u8,
            pem@.subrange(q as int, q + 25) == end_certificate(),
        decreases len - n,
    {
        n = n + 1;
    }
    proof {
        if n < len {
            assert(first_from(pem@, n as int, 10u8) == n);
        } else {
            assert(first_from(pem@, n as int, 10u8) == len);
        }
    }
    if n >= len {
        return pem;
    }
    vstd::slice::slice_subrange(pem, 0, n + 1)
}


/// The names that the certificate at the head of `pem` serves, as common
/// names and further alternative names (see `collect_certificate_names`);
/// `None` where the PEM does not start with a certificate or the
/// certificate does not parse.
pub fn certificate_names(pem: &[u8]) -> (r: Option<(Vec<String>, Vec<String>)>)
    ensures
        match pem_leading_certificate(leading_block(pem@)) {
            None => r is None,
            Some(der) => match x509_certificate_fields(der) {
                None => r is None,
                Some(fields) => r matches Some(names) && {
                    &&& names.0.deep_view().to_set() == present_values(fields.0)
                    &&& distinct(names.0.deep_view())
                    &&& names.1.deep_view().to_set() == present_values(fields.1).difference(
                        present_values(fields.0),
                    )
                    &&& distinct(names.1.deep_view())
                },
            },
        },
{
    let der = read_pem_certificate(leading_certificate_block(pem))?;
    let fields = parse_certificate(der.as_slice())?;
    Some(collect_certificate_names(&fields.0, &fields.1))
}

/// The end of validity, in seconds since the epoch, of the certificate in
/// the first PEM block of `pem`; `None` where there is no such block or it
/// does not parse. A date before the epoch wraps around, as a cast does.
pub fn cert_expiry(pem: &[u8]) -> (r: Option<u64>)
    ensures
        match pem_first_block(leading_block(pem@)) {
            None => r is None,
            Some(der) => match x509_certificate_fields(der) {
                None => r is None,
                Some(fields) => r == Some(fields.2 as u64),
            },
        },
{
    let der = read_pem_block(leading_certificate_block(pem))?;
    let fields = parse_certificate(der.as_slice())?;
    Some(fields.2 as u64)
}

/// Thirty days, in seconds: how long a certificate must still be valid
/// for it not to be renewed.
pub const RENEWAL_MARGIN_SECS: u64 = 2592000;

/// Whether a certificate valid until `expiry` needs no renewal at time
/// `now`: it stays valid for more than thirty days.
pub fn certificate_is_fresh(expiry: u64, now: u64) -> (r: bool)
    requires
        now + RENEWAL_MARGIN_SECS <= u64::MAX,
    ensures
        r == (expiry > now + 30 * 24 * 3600),
{
    expiry > now + RENEWAL_MARGIN_SECS
}

// ---------------------------------------------------------------------------
// Choosing a certificate for a server name
// ---------------------------------------------------------------------------

/// All names a loaded certificate serves.
pub open spec fn names_of(info: CertificateInfo) -> Seq<Seq<char>> {
    info.common_names.deep_view() + info.alt_names.deep_view()
}

/// Whether a certificate name `*.rest` covers `server`: it ends in `.rest`.
pub open spec fn wildcard_matches(pattern: Seq<char>, server: Seq<char>) -> bool {
    has_prefix(pattern, seq!['*', '.']) && has_suffix(server, pattern.skip(1))
}

/// The last certificate that serves `server` by name exactly.
pub open spec fn exact_holder(infos: Seq<CertificateInfo>, server: Seq<char>) -> Option<int>
    decreases infos.len(),
{
    if infos.len() == 0 {
        None
    } else if names_of(infos.last()).contains(server) {
        Some(infos.len() - 1)
    } else {
        exact_holder(infos.drop_last(), server)
    }
}

/// Whether one of the certificate's names is a wildcard covering `server`.
pub open spec fn covers_by_wildcard(info: CertificateInfo, server: Seq<char>) -> bool {
    exists|k: int| 0 <= k < names_of(info).len() && wildcard_matches(#[trigger] names_of(info)[k], server)
}

/// The first certificate with a wildcard name covering `server`.
pub open spec fn wildcard_holder(infos: Seq<CertificateInfo>, server: Seq<char>) -> Option<int>
    decreases infos.len(),
{
    if infos.len() == 0 {
        None
    } else if covers_by_wildcard(infos[0], server) {
        Some(0)
    } else {
        match wildcard_holder(infos.drop_first(), server) {
            Some(i) => Some(i + 1),
            None => None,
        }
    }
}

/// The certificate that answers `server`: the last one naming it exactly,
/// else the first with a wildcard covering it.
pub open spec fn certificate_for(infos: Seq<CertificateInfo>, server: Seq<char>) -> Option<int> {
    match exact_holder(infos, server) {
        Some(i) => Some(i),
        None => wildcard_holder(infos, server),
    }
}

proof fn lemma_exact_holder_none(infos: Seq<CertificateInfo>, server: Seq<char>, j: int)
    requires
        0 <= j <= infos.len(),
        forall|k: int| j <= k < infos.len() ==> !names_of(#[trigger] infos[k]).contains(server),
    ensures
        exact_holder(infos, server) == exact_holder(infos.take(j), server),
    decreases infos.len() - j,
{
    if j < infos.len() {
        assert(infos.drop_last().take(j) =~= infos.take(j));
        lemma_exact_holder_none(infos.drop_last(), server, j);
    } else {
        assert(infos.take(j) =~= infos);
    }
}

proof fn lemma_wildcard_holder_skip(infos: Seq<CertificateInfo>, server: Seq<char>, i: int)
    requires
        0 <= i <= infos.len(),
        forall|k: int| 0 <= k < i ==> !covers_by_wildcard(#[trigger] infos[k], server),
    ensures
        wildcard_holder(infos, server) == match wildcard_holder(infos.skip(i), server) {
            Some(m) => Some(m + i),
            None => None,
        },
    decreases i,
{
    if i > 0 {
        assert(infos.drop_first().skip(i - 1) =~= infos.skip(i));
        lemma_wildcard_holder_skip(infos.drop_first(), server, i - 1);
    } else {
        assert(infos.skip(0) =~= infos);
    }
}

/// Whether one of `names` is a wildcard covering `server`.
fn wildcard_covers(names: &Vec<String>, server: &str) -> (r: bool)
    ensures
        r == exists|k: int| 0 <= k < names@.len() && wildcard_matches(#[trigger] names.deep_view()[k], server@),
{
    proof {
        reveal_strlit("*.");
        assert("*."@ =~= seq!['*', '.']);
    }
    let mut i: usize = 0;
    while i < names.len()
        invariant
            i <= names@.len(),
            "*."@ == seq!['*', '.'],
            forall|k: int| 0 <= k < i ==> !wildcard_matches(#[trigger] names.deep_view()[k], server@),
        decreases names@.len() - i,
    {
        let name = names[i].as_str();
        if starts_with_str(name, "*.") {
            let n = char_vec(name).len();
            let rest = name.substring_char(1, n);
            assert(rest@ =~= name@.skip(1));
            if ends_with_str(server, rest) {
                assert(wildcard_matches(names.deep_view()[i as int], server@));
                return true;
            }
        }
        i = i + 1;
    }
    false
}

impl Certificates {
    /// The certificates loaded for `configs`, one result per configuration
    /// in `loaded`; `None` where one could not be loaded. The first
    /// configuration gives the default certificate and key.
    pub fn new(configs: &Vec<CertificateConfig>, loaded: Vec<Option<CertificateInfo>>) -> (r: Option<Self>)
        requires
            configs@.len() > 0,
            loaded@.len() == configs@.len(),
        ensures
            r is Some <==> forall|i: int| 0 <= i < loaded@.len() ==> (#[trigger] loaded@[i]) is Some,
            r matches Some(c) ==> {
                &&& c.infos().len() == loaded@.len()
                &&& forall|i: int| 0 <= i < loaded@.len() ==> loaded@[i] == Some(#[trigger] c.infos()[i])
                &&& c.default_cert_path == configs@[0].cert_path
                &&& c.default_key_path == configs@[0].key_path
            },
    {
        let ghost all = loaded@;
        let mut infos: Vec<CertificateInfo> = Vec::new();
        let mut rest = loaded;
        let n = rest.len();
        let mut i: usize = 0;
        #[verifier::loop_isolation(false)]
        while i < n
            invariant
                n == all.len(),
                i <= n,
                rest@ == all.skip(i as int),
                infos@.len() == i,
                forall|k: int| 0 <= k < i ==> all[k] == Some(#[trigger] infos@[k]),
            decreases n - i,
        {
            let item = rest.remove(0);
            assert(item == all[i as int]);
            match item {
                Some(info) => {
                    infos.push(info);
                },
                None => {
                    assert(!(all[i as int] is Some));
                    return None;
                },
            }
            assert(rest@ =~= all.skip(i + 1));
            i = i + 1;
        }
        assert forall|k: int| 0 <= k < all.len() implies (#[trigger] all[k]) is Some by {
            assert(all[k] == Some(infos@[k]));
        }
        Some(
            Certificates {
                configs: infos,
                default_cert_path: configs[0].cert_path.clone(),
                default_key_path: configs[0].key_path.clone(),
            },
        )
    }

    /// Takes a reloaded certificate set (see `new`) in place of this one;
    /// where a certificate of it could not be loaded, the set in use stays.
    pub fn reload(&mut self, configs: &Vec<CertificateConfig>, loaded: Vec<Option<CertificateInfo>>)
        requires
            configs@.len() > 0,
            loaded@.len() == configs@.len(),
        ensures
            (forall|i: int| 0 <= i < loaded@.len() ==> (#[trigger] loaded@[i]) is Some) ==> {
                &&& final(self).infos().len() == loaded@.len()
                &&& forall|i: int| 0 <= i < loaded@.len() ==> loaded@[i] == Some(#[trigger] final(self).infos()[i])
                &&& final(self).default_cert_path == configs@[0].cert_path
                &&& final(self).default_key_path == configs@[0].key_path
            },
            !(forall|i: int| 0 <= i < loaded@.len() ==> (#[trigger] loaded@[i]) is Some) ==> *final(self)
                == *old(self),
    {
        match Certificates::new(configs, loaded) {
            Some(c) => {
                *self = c;
            },
            None => {},
        }
    }

    /// The loaded certificates.
    pub open spec fn infos(&self) -> Seq<CertificateInfo> {
        self.configs@
    }

    /// The position of the certificate that answers the TLS server name
    /// `server_name` (see `certificate_for`).
    pub fn find_ssl_context(&self, server_name: &str) -> (r: Option<usize>)
        ensures
            r matches Some(i) ==> i < self.infos().len(),
            match r {
                Some(i) => certificate_for(self.infos(), server_name@) == Some(i as int),
                None => certificate_for(self.infos(), server_name@) is None,
            },
    {
        let n = self.configs.len();
        let mut j: usize = n;
        while j > 0
            invariant
                n == self.configs@.len(),
                j <= n,
                forall|k: int| j <= k < n ==> !names_of(#[trigger] self.configs@[k]).contains(server_name@),
            decreases j,
        {
            let info = &self.configs[j - 1];
            if contains_string(&info.common_names, server_name) || contains_string(
                &info.alt_names,
                server_name,
            ) {
                proof {
                    lemma_exact_holder_none(self.configs@, server_name@, j as int);
                    let t = self.configs@.take(j as int);
                    assert(t.last() == *info);
                    assert(names_of(*info).contains(server_name@)) by {
                        if info.common_names.deep_view().contains(server_name@) {
                            let k = choose|k: int| 0 <= k < info.common_names.deep_view().len() && #[trigger] info.common_names.deep_view()[k] == server_name@;
                            assert(names_of(*info)[k] == server_name@);
                        } else {
                            let k = choose|k: int| 0 <= k < info.alt_names.deep_view().len() && #[trigger] info.alt_names.deep_view()[k] == server_name@;
                            assert(names_of(*info)[info.common_names.deep_view().len() + k] == server_name@);
                        }
                    }
                }
                return Some(j - 1);
            }
            proof {
                let info_v = self.configs@[j - 1];
                assert(!names_of(info_v).contains(server_name@)) by {
                    if names_of(info_v).contains(server_name@) {
                        let k = choose|k: int| 0 <= k < names_of(info_v).len() && #[trigger] names_of(info_v)[k] == server_name@;
                        if k < info_v.common_names.deep_view().len() {
                            assert(info_v.common_names.deep_view()[k] == server_name@);
                        } else {
                            assert(info_v.alt_names.deep_view()[k - info_v.common_names.deep_view().len()] == server_name@);
                        }
                    }
                }
            }
            j = j - 1;
        }
        proof {
            lemma_exact_holder_none(self.configs@, server_name@, 0);
        }
        let mut i: usize = 0;
        while i < n
            invariant
                n == self.configs@.len(),
                i <= n,
                exact_holder(self.configs@, server_name@) is None,
                forall|k: int| 0 <= k < i ==> !covers_by_wildcard(#[trigger] self.configs@[k], server_name@),
            decreases n - i,
        {
            let info = &self.configs[i];
            let by_cn = wildcard_covers(&info.common_names, server_name);
            let by_alt = wildcard_covers(&info.alt_names, server_name);
            proof {
                let cn = info.common_names.deep_view();
                let alt = info.alt_names.deep_view();
                assert(names_of(*info) =~= cn + alt);
                if by_cn {
                    let k = choose|k: int| 0 <= k < cn.len() && wildcard_matches(#[trigger] cn[k], server_name@);
                    assert(names_of(*info)[k] == cn[k]);
                }
                if by_alt {
                    let k = choose|k: int| 0 <= k < alt.len() && wildcard_matches(#[trigger] alt[k], server_name@);
                    assert(names_of(*info)[cn.len() + k] == alt[k]);
                }
                if covers_by_wildcard(*info, server_name@) {
                    let k = choose|k: int| 0 <= k < names_of(*info).len() && wildcard_matches(#[trigger] names_of(*info)[k], server_name@);
                    if k < cn.len() {
                        assert(cn[k] == names_of(*info)[k]);
                    } else {
                        assert(alt[k - cn.len()] == names_of(*info)[k]);
                    }
                }
            }
            if by_cn || by_alt {
                proof {
                    lemma_wildcard_holder_skip(self.configs@, server_name@, i as int);
                    assert(self.configs@.skip(i as int)[0] == *info);
                }
                return Some(i);
            }
            i = i + 1;
        }
        proof {
            lemma_wildcard_holder_skip(self.configs@, server_name@, n as int);
        }
        None
    }
}

// ---------------------------------------------------------------------------
// Laws
// ---------------------------------------------------------------------------

proof fn lemma_exact_holder_found(infos: Seq<CertificateInfo>, server: Seq<char>, i: int)
    requires
        0 <= i < infos.len(),
        names_of(infos[i]).contains(server),
    ensures
        exact_holder(infos, server) matches Some(j) && i <= j < infos.len() && names_of(
            infos[j],
        ).contains(server),
    decreases infos.len(),
{
    if !names_of(infos.last()).contains(server) {
        assert(infos.drop_last()[i] == infos[i]);
        lemma_exact_holder_found(infos.drop_last(), server, i);
    }
}

/// A name that a certificate serves exactly is answered by a certificate
/// that serves it exactly (the last such one), never by a wildcard.
pub proof fn law_exact_name_wins(infos: Seq<CertificateInfo>, server: Seq<char>, i: int)
    requires
        0 <= i < infos.len(),
        names_of(infos[i]).contains(server),
    ensures
        certificate_for(infos, server) matches Some(j) && i <= j < infos.len() && names_of(
            infos[j],
        ).contains(server),
{
    lemma_exact_holder_found(infos, server, i);
}

/// Whether the certificate name `name` is `*.` followed by a text that
/// `server` ends with, character by character.
pub open spec fn star_name_covers(name: Seq<char>, server: Seq<char>) -> bool {
    &&& 2 <= name.len()
    &&& name[0] == '*'
    &&& name[1] == '.'
    &&& name.len() - 1 <= server.len()
    &&& forall|t: int| 1 <= t < name.len() ==> #[trigger] server[server.len() - name.len() + t] == name[t]
}

/// Whether one of `names` is such a wildcard for `server`.
pub open spec fn some_star_name_covers(names: Seq<Seq<char>>, server: Seq<char>) -> bool {
    exists|k: int| 0 <= k < names.len() && star_name_covers(#[trigger] names[k], server)
}

proof fn lemma_wildcard_matches_text(name: Seq<char>, server: Seq<char>)
    ensures
        wildcard_matches(name, server) <==> star_name_covers(name, server),
{
    if wildcard_matches(name, server) {
        assert(name.take(2)[0] == name[0] && name.take(2)[1] == name[1]);
        let suffix = server.skip(server.len() - (name.len() - 1));
        assert forall|t: int| 1 <= t < name.len() implies #[trigger] server[server.len() - name.len() + t] == name[t] by {
            assert(suffix[t - 1] == name.skip(1)[t - 1]);
        }
    }
    if star_name_covers(name, server) {
        assert(name.take(2) =~= seq!['*', '.']);
        assert(server.skip(server.len() - (name.len() - 1)) =~= name.skip(1)) by {
            assert forall|t: int| 0 <= t < name.len() - 1 implies server.skip(server.len() - (name.len() - 1))[t] == name.skip(1)[t] by {
                assert(server[server.len() - name.len() + (t + 1)] == name[t + 1]);
            }
        }
    }
}

proof fn lemma_covers_by_wildcard_text(info: CertificateInfo, server: Seq<char>)
    ensures
        covers_by_wildcard(info, server) <==> (some_star_name_covers(info.common_names.deep_view(), server)
            || some_star_name_covers(info.alt_names.deep_view(), server)),
{
    let cn = info.common_names.deep_view();
    let alt = info.alt_names.deep_view();
    let all = names_of(info);
    assert(all =~= cn + alt);
    if covers_by_wildcard(info, server) {
        let k = choose|k: int| 0 <= k < all.len() && wildcard_matches(#[trigger] all[k], server);
        lemma_wildcard_matches_text(all[k], server);
        if k < cn.len() {
            assert(cn[k] == all[k]);
        } else {
            assert(alt[k - cn.len()] == all[k]);
        }
    }
    if some_star_name_covers(cn, server) {
        let k = choose|k: int| 0 <= k < cn.len() && star_name_covers(#[trigger] cn[k], server);
        lemma_wildcard_matches_text(cn[k], server);
        assert(all[k] == cn[k]);
    }
    if some_star_name_covers(alt, server) {
        let k = choose|k: int| 0 <= k < alt.len() && star_name_covers(#[trigger] alt[k], server);
        lemma_wildcard_matches_text(alt[k], server);
        assert(all[cn.len() + k] == alt[k]);
    }
}

proof fn lemma_no_exact_holder(infos: Seq<CertificateInfo>, server: Seq<char>)
    requires
        forall|i: int|
            0 <= i < infos.len() ==> !(#[trigger] infos[i]).common_names.deep_view().contains(server)
                && !infos[i].alt_names.deep_view().contains(server),
    ensures
        exact_holder(infos, server) is None,
    decreases infos.len(),
{
    if infos.len() > 0 {
        let last = infos[infos.len() - 1];
        assert(infos.last() == last);
        let cn = last.common_names.deep_view();
        let alt = last.alt_names.deep_view();
        assert(names_of(last) =~= cn + alt);
        if names_of(last).contains(server) {
            let k = choose|k: int| 0 <= k < names_of(last).len() && names_of(last)[k] == server;
            if k < cn.len() {
                assert(cn[k] == server);
            } else {
                assert(alt[k - cn.len()] == server);
            }
        }
        assert forall|i: int| 0 <= i < infos.drop_last().len() implies !(#[trigger] infos.drop_last()[i]).common_names.deep_view().contains(server)
            && !infos.drop_last()[i].alt_names.deep_view().contains(server) by {
            assert(infos.drop_last()[i] == infos[i]);
        }
        lemma_no_exact_holder(infos.drop_last(), server);
    }
}

/// Where no certificate serves the server name exactly, it is answered by
/// the first certificate that has, among its common names or among its
/// alternative names, a wildcard `*.rest` such that the server name ends
/// in `.rest`.
pub proof fn law_first_wildcard_over_all_names(infos: Seq<CertificateInfo>, server: Seq<char>, j: int)
    requires
        forall|i: int|
            0 <= i < infos.len() ==> !(#[trigger] infos[i]).common_names.deep_view().contains(server)
                && !infos[i].alt_names.deep_view().contains(server),
        0 <= j < infos.len(),
        some_star_name_covers(infos[j].common_names.deep_view(), server) || some_star_name_covers(
            infos[j].alt_names.deep_view(),
            server,
        ),
        forall|i: int|
            0 <= i < j ==> !some_star_name_covers((#[trigger] infos[i]).common_names.deep_view(), server)
                && !some_star_name_covers(infos[i].alt_names.deep_view(), server),
    ensures
        certificate_for(infos, server) == Some(j),
{
    lemma_no_exact_holder(infos, server);
    assert forall|k: int| 0 <= k < j implies !covers_by_wildcard(#[trigger] infos[k], server) by {
        lemma_covers_by_wildcard_text(infos[k], server);
    }
    lemma_wildcard_holder_skip(infos, server, j);
    lemma_covers_by_wildcard_text(infos[j], server);
    assert(infos.skip(j)[0] == infos[j]);
}

} // verus!
