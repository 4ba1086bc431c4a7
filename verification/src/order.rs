//! ACME certificate ordering: where credentials, domain lists and issued
//! certificates are kept, the domains certificates are kept for, the
//! HTTP-01 challenges being answered, and when a certificate is renewed.
use crate::load::certificate_is_fresh;
use crate::structs::lookup;
use crate::text::{char_vec, has_prefix, split_once, split_once_str, str_eq};
use dashmap::DashMap;
use rcgen::{CertificateParams, DistinguishedName, KeyPair};
use vstd::prelude::*;

verus! {

broadcast use vstd::string::group_string_axioms;

// ---------------------------------------------------------------------------
// File names
// ---------------------------------------------------------------------------

/// The ACME account credentials file of a configuration directory.
pub fn credentials_file(config_dir: &str) -> (r: String)
    ensures
        r@ == config_dir@ + "/acme_credentials.json"@,
{
    let mut r = config_dir.to_string();
    r.append("/acme_credentials.json");
    r
}

/// The certificate and private-key files of `domain` in `certs_dir`:
/// `<dir>/<domain>.crt` and `<dir>/<domain>.key`.
pub fn certificate_files(certs_dir: &str, domain: &str) -> (r: (String, String))
    ensures
        r.0@ == certs_dir@ + "/"@ + domain@ + ".crt"@,
        r.1@ == certs_dir@ + "/"@ + domain@ + ".key"@,
{
    let mut crt = certs_dir.to_string();
    crt.append("/");
    crt.append(domain);
    crt.append(".crt");
    let mut key = certs_dir.to_string();
    key.append("/");
    key.append(domain);
    key.append(".key");
    (crt, key)
}

/// `s` with every occurrence of `from`, taken left to right without
/// overlap, replaced by `to`, as `str::replace` gives it; an empty `from`
/// occurs before every character and at the end.
pub open spec fn replace_all(s: Seq<char>, from: Seq<char>, to: Seq<char>) -> Seq<char>
    decreases s.len(),
{
    if from.len() == 0 {
        if s.len() == 0 {
            to
        } else {
            to + seq![s[0]] + replace_all(s.drop_first(), from, to)
        }
    } else if s.len() == 0 {
        s
    } else if has_prefix(s, from) {
        to + replace_all(s.skip(from.len() as int), from, to)
    } else {
        seq![s[0]] + replace_all(s.drop_first(), from, to)
    }
}

/// Whether `w` occurs in `v` at position `i`.
fn occurs_at(v: &Vec<char>, w: &Vec<char>, i: usize) -> (r: bool)
    requires
        i <= v@.len(),
    ensures
        r == has_prefix(v@.skip(i as int), w@),
{
    if w.len() > v.len() - i {
        return false;
    }
    let mut k: usize = 0;
    while k < w.len()
        invariant
            i + w@.len() <= v.len(),
            k <= w@.len(),
            forall|m: int| 0 <= m < k ==> #[trigger] v@[i + m] == w@[m],
        decreases w@.len() - k,
    {
        if v[i + k] != w[k] {
            assert(v@.skip(i as int).take(w@.len() as int)[k as int] != w@[k as int]);
            return false;
        }
        k = k + 1;
    }
    assert forall|m: int| 0 <= m < w@.len() implies #[trigger] v@.skip(i as int).take(
        w@.len() as int,
    )[m] == w@[m] by {
        assert(v@[i + m] == w@[m]);
    }
    assert(v@.skip(i as int).take(w@.len() as int) =~= w@);
    true
}

/// `str::replace`.
pub fn replace_str(s: &str, from: &str, to: &str) -> (r: String)
    ensures
        r@ == replace_all(s@, from@, to@),
{
    let v = char_vec(s);
    let w = char_vec(from);
    let n = v.len();
    if w.len() == 0 {
        let mut out = String::new();
        let mut i: usize = 0;
        assert(s@.skip(0) =~= s@);
        assert(out@ + replace_all(s@, from@, to@) =~= replace_all(s@, from@, to@));
        while i < n
            invariant
                v@ == s@,
                from@.len() == 0,
                n == v@.len(),
                i <= n,
                replace_all(s@, from@, to@) == out@ + replace_all(s@.skip(i as int), from@, to@),
            decreases n - i,
        {
            let ghost rest = s@.skip(i as int);
            out.append(to);
            let one = s.substring_char(i, i + 1);
            out.append(one);
            proof {
                assert(one@ =~= seq![rest[0]]);
                assert(rest.drop_first() =~= s@.skip(i + 1));
            }
            i = i + 1;
        }
        assert(s@.skip(n as int) =~= Seq::<char>::empty());
        out.append(to);
        return out;
    }
    let mut out = String::new();
    let mut i: usize = 0;
    assert(s@.skip(0) =~= s@);
    assert(out@ + s@ =~= s@) by {
        assert(out@ =~= Seq::<char>::empty());
    }
    proof {
        assert(replace_all(s@, from@, to@) =~= out@ + replace_all(s@.skip(0), from@, to@));
    }
    while i < n
        invariant
            v@ == s@,
            w@ == from@,
            w@.len() > 0,
            n == v@.len(),
            i <= n,
            replace_all(s@, from@, to@) == out@ + replace_all(s@.skip(i as int), from@, to@),
        decreases n - i,
    {
        let ghost rest = s@.skip(i as int);
        if occurs_at(&v, &w, i) {
            out.append(to);
            proof {
                assert(rest.skip(from@.len() as int) =~= s@.skip(i + from@.len()));
            }
            i = i + w.len();
        } else {
            let one = s.substring_char(i, i + 1);
            out.append(one);
            proof {
                assert(one@ =~= seq![rest[0]]);
                assert(rest.drop_first() =~= s@.skip(i + 1));
            }
            i = i + 1;
        }
    }
    assert(s@.skip(n as int) =~= Seq::<char>::empty());
    assert(out@ + Seq::<char>::empty() =~= out@);
    out
}

/// The domain list file kept beside the credentials file: its name with
/// "/acme_credentials.json" replaced by "/domains.json".
pub fn domains_file(credsfile: &str) -> (r: String)
    ensures
        r@ == replace_all(credsfile@, "/acme_credentials.json"@, "/domains.json"@),
{
    replace_str(credsfile, "/acme_credentials.json", "/domains.json")
}

// ---------------------------------------------------------------------------
// The domain list file (calls into serde_json)
// ---------------------------------------------------------------------------

/// What `serde_json::to_string_pretty` writes for a list of strings.
pub uninterp spec fn pretty_json_of_strings(list: Seq<Seq<char>>) -> Option<Seq<char>>;

/// What `serde_json::from_str::<Vec<String>>` reads from a text.
pub uninterp spec fn json_string_list(text: Seq<char>) -> Option<Seq<Seq<char>>>;

/// Calls `serde_json::to_string_pretty` on a list of strings. The contract
/// claims only that the text depends on the list alone.
#[verifier::external_body]
fn domains_json(list: &Vec<String>) -> (r: Option<String>)
    ensures
        r.deep_view() == pretty_json_of_strings(list.deep_view()),
{
    serde_json::to_string_pretty(list).ok()
}

/// Calls `serde_json::from_str::<Vec<String>>` on `text`. The contract
/// claims only that the result depends on the text alone.
#[verifier::external_body]
fn parse_domain_list(text: &str) -> (r: Option<Vec<String>>)
    ensures
        r.deep_view() == json_string_list(text@),
{
    serde_json::from_str::<Vec<String>>(text).ok()
}

// ---------------------------------------------------------------------------
// The domains certificates are kept for
// ---------------------------------------------------------------------------

/// Whether the list holds no domain twice.
pub open spec fn no_repeats(s: Seq<Seq<char>>) -> bool {
    forall|i: int, j: int| 0 <= i < j < s.len() ==> s[i] != s[j]
}

#[verifier::external_type_specification]
#[verifier::external_body]
#[verifier::reject_recursive_types(K)]
#[verifier::reject_recursive_types(V)]
#[verifier::reject_recursive_types(S)]
pub struct ExDashMap<K, V, S>(DashMap<K, V, S>);

/// The keys of a domain map.
pub uninterp spec fn domain_map_keys(m: DashMap<String, bool>) -> Set<Seq<char>>;

/// `DashMap::new`: a map with no keys.
#[verifier::external_body]
fn domain_map_new() -> (r: DashMap<String, bool>)
    ensures
        domain_map_keys(r) == Set::<Seq<char>>::empty(),
{
    DashMap::new()
}

/// `DashMap::contains_key`: whether `domain` is a key.
#[verifier::external_body]
fn domain_map_contains(m: &DashMap<String, bool>, domain: &str) -> (r: bool)
    ensures
        r == domain_map_keys(*m).contains(domain@),
{
    m.contains_key(domain)
}

/// `DashMap::insert`: `domain` becomes a key; the other keys stay.
#[verifier::external_body]
fn domain_map_insert(m: &mut DashMap<String, bool>, domain: &str)
    ensures
        domain_map_keys(*final(m)) == domain_map_keys(*old(m)).insert(domain@),
{
    m.insert(domain.to_string(), true);
}

/// `DashMap::iter`, each key copied: every key once, in the order in which
/// the map's shards are walked, which the contract leaves open.
#[verifier::external_body]
fn domain_map_key_list(m: &DashMap<String, bool>) -> (r: Vec<String>)
    ensures
        no_repeats(r.deep_view()),
        r.deep_view().to_set() == domain_map_keys(*m),
{
    m.iter().map(|e| e.key().clone()).collect()
}

/// The domains that certificates are ordered and renewed for.
pub struct DomainRegistry {
    domains: DashMap<String, bool>,
}

impl DomainRegistry {
    /// The registered domains.
    pub closed spec fn domains(&self) -> Set<Seq<char>> {
        domain_map_keys(self.domains)
    }

    /// No domains.
    pub fn new() -> (r: Self)
        ensures
            r.domains() == Set::<Seq<char>>::empty(),
    {
        DomainRegistry { domains: domain_map_new() }
    }

    /// Whether `domain` is registered.
    pub fn contains(&self, domain: &str) -> (r: bool)
        ensures
            r == self.domains().contains(domain@),
    {
        domain_map_contains(&self.domains, domain)
    }

    /// Registers `domain`; says whether it was new. A known domain changes
    /// nothing.
    pub fn insert(&mut self, domain: &str) -> (added: bool)
        ensures
            added == !old(self).domains().contains(domain@),
            final(self).domains() == old(self).domains().insert(domain@),
    {
        if self.contains(domain) {
            assert(self.domains().insert(domain@) =~= self.domains());
            return false;
        }
        domain_map_insert(&mut self.domains, domain);
        true
    }

    /// The registered domains, each once, in an order left open.
    pub fn list(&self) -> (r: Vec<String>)
        ensures
            no_repeats(r.deep_view()),
            r.deep_view().to_set() == self.domains(),
    {
        domain_map_key_list(&self.domains)
    }
}

/// Registers `domain` before a certificate is ordered for it. Where it is
/// new, gives the text of the domain list file to write: the pretty JSON
/// of all registered domains, each once, in the order the registry lists
/// them; `None` where it was known already or the list could not be
/// written as JSON.
pub fn register_domain(registry: &mut DomainRegistry, domain: &str) -> (r: Option<String>)
    ensures
        final(registry).domains() == old(registry).domains().insert(domain@),
        old(registry).domains().contains(domain@) ==> r is None,
        !old(registry).domains().contains(domain@) ==> exists|list: Seq<Seq<char>>|
            no_repeats(list) && list.to_set() == final(registry).domains() && r.deep_view()
                == #[trigger] pretty_json_of_strings(list),
{
    let added = registry.insert(domain);
    if added {
        let list = registry.list();
        let r = domains_json(&list);
        assert(no_repeats(list.deep_view()) && list.deep_view().to_set() == registry.domains()
            && r.deep_view() == pretty_json_of_strings(list.deep_view()));
        r
    } else {
        None
    }
}

/// Registers the domains listed in a domain list file, `text`: a JSON list
/// of strings. Says whether the text was such a list; otherwise nothing
/// changes.
pub fn register_listed_domains(registry: &mut DomainRegistry, text: &str) -> (r: bool)
    ensures
        r == json_string_list(text@) is Some,
        match json_string_list(text@) {
            Some(list) => final(registry).domains() == old(registry).domains() + list.to_set(),
            None => final(registry).domains() == old(registry).domains(),
        },
{
    match parse_domain_list(text) {
        Some(list) => {
            let ghost start = registry.domains();
            let mut i: usize = 0;
            while i < list.len()
                invariant
                    i <= list@.len(),
                    registry.domains() == start + list.deep_view().take(i as int).to_set(),
                decreases list@.len() - i,
            {
                let ghost before = registry.domains();
                registry.insert(list[i].as_str());
                proof {
                    let d = list.deep_view()[i as int];
                    assert(list.deep_view().take(i + 1) =~= list.deep_view().take(i as int).push(d));
                    assert(list.deep_view().take(i + 1).to_set() =~= list.deep_view().take(
                        i as int,
                    ).to_set().insert(d)) by {
                        vstd::seq_lib::lemma_seq_contains_after_push(list.deep_view().take(i as int), d, d);
                        assert forall|x: Seq<char>| list.deep_view().take(i + 1).contains(x) <==> (
                        list.deep_view().take(i as int).contains(x) || x == d) by {
                            if list.deep_view().take(i as int).contains(x) {
                                let k = choose|k: int| 0 <= k < i && #[trigger] list.deep_view().take(i as int)[k] == x;
                                assert(list.deep_view().take(i + 1)[k] == x);
                            }
                            if x == d {
                                assert(list.deep_view().take(i + 1)[i as int] == x);
                            }
                            if list.deep_view().take(i + 1).contains(x) && x != d {
                                let k = choose|k: int| 0 <= k < i + 1 && #[trigger] list.deep_view().take(i + 1)[k] == x;
                                assert(list.deep_view().take(i as int)[k] == x);
                            }
                        }
                    }
                    assert(registry.domains() =~= start + list.deep_view().take(i + 1).to_set());
                }
                i = i + 1;
            }
            assert(list.deep_view().take(list@.len() as int) =~= list.deep_view());
            true
        },
        None => false,
    }
}

// ---------------------------------------------------------------------------
// HTTP-01 challenges
// ---------------------------------------------------------------------------

/// The token of a key authorization `token.thumbprint`: the part before
/// the first '.', or all of it where there is none.
pub open spec fn token_of(key_authorization: Seq<char>) -> Seq<char> {
    match split_once(key_authorization, '.') {
        Some(parts) => parts.0,
        None => key_authorization,
    }
}

/// The token of a key authorization (see `token_of`).
pub fn challenge_token(key_authorization: &str) -> (r: String)
    ensures
        r@ == token_of(key_authorization@),
{
    match split_once_str(key_authorization, '.') {
        Some(parts) => parts.0.to_string(),
        None => key_authorization.to_string(),
    }
}

/// The HTTP-01 challenges being answered: token to key authorization.
pub struct ChallengeStore {
    entries: Vec<(String, String)>,
}

impl View for ChallengeStore {
    type V = Map<Seq<char>, Seq<char>>;

    closed spec fn view(&self) -> Map<Seq<char>, Seq<char>> {
        Map::new(
            |t: Seq<char>| lookup(self.entries.deep_view(), t) is Some,
            |t: Seq<char>| lookup(self.entries.deep_view(), t)->0,
        )
    }
}

impl ChallengeStore {
    /// No challenges.
    pub fn new() -> (r: Self)
        ensures
            r@ == Map::<Seq<char>, Seq<char>>::empty(),
    {
        let r = ChallengeStore { entries: Vec::new() };
        assert(r@ =~= Map::<Seq<char>, Seq<char>>::empty());
        r
    }

    /// Answers `token` with `key_authorization` from now on.
    pub fn insert(&mut self, token: String, key_authorization: String)
        ensures
            final(self)@ == old(self)@.insert(token@, key_authorization@),
    {
        let ghost before = self.entries.deep_view();
        self.entries.push((token, key_authorization));
        proof {
            let after = self.entries.deep_view();
            assert(after =~= before.push((token@, key_authorization@)));
            assert(after.drop_last() =~= before);
            assert(self@ =~= old(self)@.insert(token@, key_authorization@));
        }
    }

    /// The key authorization that answers `token`, if any.
    pub fn get(&self, token: &str) -> (r: Option<String>)
        ensures
            match r {
                Some(k) => self@.contains_key(token@) && self@[token@] == k@,
                None => !self@.contains_key(token@),
            },
    {
        let n = self.entries.len();
        let mut j: usize = n;
        assert(self.entries.deep_view().take(n as int) =~= self.entries.deep_view());
        while j > 0
            invariant
                n == self.entries@.len(),
                j <= n,
                lookup(self.entries.deep_view(), token@) == lookup(
                    self.entries.deep_view().take(j as int),
                    token@,
                ),
            decreases j,
        {
            let ghost t = self.entries.deep_view().take(j as int);
            assert(t.last() == self.entries.deep_view()[j - 1]);
            assert(t.drop_last() =~= self.entries.deep_view().take(j - 1));
            if str_eq(self.entries[j - 1].0.as_str(), token) {
                return Some(self.entries[j - 1].1.clone());
            }
            j = j - 1;
        }
        None
    }

    /// Forgets every challenge.
    pub fn clear(&mut self)
        ensures
            final(self)@ == Map::<Seq<char>, Seq<char>>::empty(),
    {
        self.entries = Vec::new();
        assert(self@ =~= Map::<Seq<char>, Seq<char>>::empty());
    }
}

/// Registers a key authorization under its token (see `token_of`).
pub fn register_challenge(store: &mut ChallengeStore, key_authorization: String)
    ensures
        final(store)@ == old(store)@.insert(token_of(key_authorization@), key_authorization@),
{
    let token = challenge_token(key_authorization.as_str());
    store.insert(token, key_authorization);
}

// ---------------------------------------------------------------------------
// The certificate signing request (calls into rcgen)
// ---------------------------------------------------------------------------

/// The DNS names among the subject alternative names that a DER encoded
/// certificate signing request asks a certificate for, in order; `None`
/// where the bytes are no such request.
pub uninterp spec fn csr_dns_names(der: Seq<u8>) -> Option<Seq<Seq<char>>>;

/// The subject public key info (DER) of a DER encoded certificate signing
/// request; `None` where the bytes are no such request.
pub uninterp spec fn csr_public_key(der: Seq<u8>) -> Option<Seq<u8>>;

/// The subject public key info (DER) of the private key in a PEM text;
/// `None` where it holds no private key.
pub uninterp spec fn pem_key_public_key(pem: Seq<char>) -> Option<Seq<u8>>;

/// Whether a name cannot be read as an IP address: it holds no ':' (which
/// every IPv6 address has) and some character other than a digit or '.'
/// (all an IPv4 address has).
pub open spec fn plain_dns_name(name: Seq<char>) -> bool {
    &&& !name.contains(':')
    &&& exists|i: int| 0 <= i < name.len() && (#[trigger] name[i]) != '.' && !('0' <= name[i] <= '9')
}

/// Calls rcgen: `CertificateParams::new` with `domain` as the one subject
/// alternative name, an empty distinguished name, `KeyPair::generate`, and
/// `serialize_request`; gives the request's DER and the new key as PEM, or
/// `None` where rcgen fails. The request carries the public key of the key
/// returned with it (it is signed with that key). For a name that cannot be
/// an IP address the request asks for exactly that DNS name. The key is
/// random: nothing more is claimed of it, nor of a name that rcgen reads as
/// an IP address.
#[verifier::external_body]
fn new_signing_request(domain: &str) -> (r: Option<(Vec<u8>, String)>)
    ensures
        plain_dns_name(domain@) ==> (r matches Some(p) ==> csr_dns_names(p.0@) == Some(seq![domain@])),
        r matches Some(p) ==> csr_public_key(p.0@) is Some && csr_public_key(p.0@) == pem_key_public_key(p.1@),
{
    let mut params = CertificateParams::new(vec![domain.to_string()]).ok()?;
    params.distinguished_name = DistinguishedName::new();
    let key = KeyPair::generate().ok()?;
    let request = params.serialize_request(&key).ok()?;
    Some((request.der().to_vec(), key.serialize_pem()))
}

/// A certificate signing request for `domain` and its private key (PEM),
/// newly made; `None` where they could not be made. The request asks for
/// `domain` alone and carries the public key of the key returned with it
/// (see `new_signing_request`).
pub fn signing_request(domain: &str) -> (r: Option<(Vec<u8>, String)>)
    ensures
        plain_dns_name(domain@) ==> (r matches Some(p) ==> csr_dns_names(p.0@) == Some(seq![domain@])),
        r matches Some(p) ==> csr_public_key(p.0@) is Some && csr_public_key(p.0@) == pem_key_public_key(p.1@),
{
    new_signing_request(domain)
}

// ---------------------------------------------------------------------------
// Renewal
// ---------------------------------------------------------------------------

/// Whether a certificate must be ordered, given the expiry of the one on
/// disk (`None` where there is none or it cannot be read) and the time:
/// unless it stays valid for more than thirty days.
pub fn renewal_needed(expiry: Option<u64>, now: u64) -> (r: bool)
    requires
        now + 2592000 <= u64::MAX,
    ensures
        r == match expiry {
            Some(e) => e <= now + 30 * 24 * 3600,
            None => true,
        },
{
    match expiry {
        Some(e) => !certificate_is_fresh(e, now),
        None => true,
    }
}

// ---------------------------------------------------------------------------
// Laws
// ---------------------------------------------------------------------------

/// A key authorization `token.rest` is registered under `token`, and a
/// challenge for that token is then answered with it, whatever else was
/// registered before.
pub proof fn law_challenge_answered_with_its_key(
    store: Map<Seq<char>, Seq<char>>,
    token: Seq<char>,
    rest: Seq<char>,
)
    requires
        !token.contains('.'),
    ensures
        token_of(token + seq!['.'] + rest) == token,
        store.insert(token_of(token + seq!['.'] + rest), token + seq!['.'] + rest)[token] == token
            + seq!['.'] + rest,
{
    let ka = token + seq!['.'] + rest;
    let k = token.len() as int;
    assert(ka[k] == '.');
    assert forall|j: int| 0 <= j < k implies #[trigger] ka[j] != '.' by {
        assert(ka[j] == token[j]);
    }
    crate::text::lemma_split_once_at(ka, '.', k);
    assert(ka.take(k) =~= token);
}

} // verus!
