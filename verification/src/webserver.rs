//! The decisions of the configuration API: who may use it, and what each
//! endpoint answers.
use crate::order::ChallengeStore;
use crate::text::{str_eq, trim_char, trim_matches_char};
use subtle::ConstantTimeEq;
use vstd::prelude::*;

verus! {

broadcast use vstd::string::group_string_axioms;

/// An HTTP answer: status code and body text.
pub struct Reply {
    pub status: u16,
    pub body: String,
}

/// Calls `<[u8] as subtle::ConstantTimeEq>::ct_eq`: the comparison takes a
/// time independent of where the slices differ, and the answer is whether
/// they are equal (slices of different lengths are unequal).
#[verifier::external_body]
fn constant_time_eq(a: &[u8], b: &[u8]) -> (r: bool)
    ensures
        r == (a@ == b@),
{
    a.ct_eq(b).into()
}

/// The key a request presents: that of the `x-api-key` header where it is
/// readable text, else that of the `key` query parameter.
pub open spec fn presented_key(header_key: Option<Seq<char>>, param_key: Option<Seq<char>>) -> Option<
    Seq<char>,
> {
    match header_key {
        Some(k) => Some(k),
        None => param_key,
    }
}

/// Whether a request may use the API: the key it presents (see
/// `presented_key`) is the master key. The comparison runs in constant
/// time.
pub fn key_authorization(header_key: Option<&str>, param_key: Option<&str>, masterkey: &str) -> (r:
    bool)
    ensures
        r == (presented_key(header_key.deep_view(), param_key.deep_view()) == Some(masterkey@)),
{
    let key = match header_key {
        Some(k) => Some(k),
        None => param_key,
    };
    match key {
        Some(s) => {
            let eq = constant_time_eq(s.as_bytes(), masterkey.as_bytes());
            proof {
                vstd::utf8::encode_utf8_decode_utf8(s@);
                vstd::utf8::encode_utf8_decode_utf8(masterkey@);
            }
            eq
        },
        None => false,
    }
}

/// The answer to a request without a valid key.
pub fn access_denied() -> (r: Reply)
    ensures
        r.status == 403,
        r.body@ == "Access Denied !\n"@,
{
    Reply { status: 403, body: "Access Denied !\n".to_string() }
}

/// The answer to a new upstreams file posted to the API: refused while
/// the API is disabled or without a valid key; else accepted where the
/// file parses (it is then applied), or reported as failed with the parse
/// error (`parse_error`).
pub fn conf_reply(api_enabled: bool, authorized: bool, parse_error: Option<String>) -> (r: Reply)
    ensures
        !api_enabled ==> r.status == 403 && r.body@ == "Config API is disabled !\n"@,
        api_enabled && !authorized ==> r.status == 403 && r.body@ == "Access Denied !\n"@,
        api_enabled && authorized ==> match parse_error {
            None => r.status == 200 && r.body@ == "Accepted! Applying in background\n"@,
            Some(e) => r.status == 502 && r.body@ == "Failed: "@ + e@ + "\n"@,
        },
{
    if !api_enabled {
        return Reply { status: 403, body: "Config API is disabled !\n".to_string() };
    }
    if authorized {
        match parse_error {
            None => Reply { status: 200, body: "Accepted! Applying in background\n".to_string() },
            Some(e) => {
                let mut body = "Failed: ".to_string();
                body.append(e.as_str());
                body.append("\n");
                Reply { status: 502, body }
            },
        }
    } else {
        access_denied()
    }
}

/// Whether a token request carries the master key (compared as text).
pub fn jwt_authorized(given_key: &str, master_key: &str) -> (r: bool)
    ensures
        r == (given_key@ == master_key@),
{
    str_eq(given_key, master_key)
}

/// The expiry written into a token: `minutes` minutes after `now_secs`.
pub fn jwt_expiry(now_secs: u64, minutes: u64) -> (r: u64)
    requires
        now_secs + minutes * 60 <= u64::MAX,
    ensures
        r == now_secs + minutes * 60,
{
    now_secs + minutes * 60
}

/// The claims written into a token: an empty master key (the key is never
/// written into a token), the requested owner and random value, and the
/// expiry as `jwt_expiry` gives it.
pub struct TokenClaims {
    pub master_key: String,
    pub owner: String,
    pub exp: u64,
    pub random: String,
}

/// The claims of a token requested by `owner` with `random`, valid for
/// `minutes` minutes from `now_secs`.
pub fn token_claims(owner: String, random: String, now_secs: u64, minutes: u64) -> (r: TokenClaims)
    requires
        now_secs + minutes * 60 <= u64::MAX,
    ensures
        r.master_key@ == Seq::<char>::empty(),
        r.owner == owner,
        r.random == random,
        r.exp == now_secs + minutes * 60,
{
    let master_key = String::new();
    assert(master_key@ =~= Seq::<char>::empty());
    TokenClaims { master_key, owner, exp: jwt_expiry(now_secs, minutes), random }
}

/// What `jsonwebtoken::encode` gives with the default header (HS256) for
/// the claims `{"master_key", "owner", "exp", "random"}` written in that
/// order, keyed by `secret`; `None` where it fails.
pub uninterp spec fn hs256_token(
    master_key: Seq<char>,
    owner: Seq<char>,
    exp: u64,
    random: Seq<char>,
    secret: Seq<char>,
) -> Option<Seq<char>>;

/// Calls `jsonwebtoken::encode` with the default header (HS256), the claims
/// written as a JSON object in the order master_key, owner, exp, random,
/// and `secret` as the HMAC key. The contract claims only that the token
/// depends on these alone.
#[verifier::external_body]
fn sign_token(claims: &TokenClaims, secret: &str) -> (r: Option<String>)
    ensures
        r.deep_view() == hs256_token(claims.master_key@, claims.owner@, claims.exp, claims.random@, secret@),
{
    let mut fields = serde_json::Map::new();
    fields.insert("master_key".to_string(), serde_json::Value::String(claims.master_key.clone()));
    fields.insert("owner".to_string(), serde_json::Value::String(claims.owner.clone()));
    fields.insert("exp".to_string(), serde_json::Value::from(claims.exp));
    fields.insert("random".to_string(), serde_json::Value::String(claims.random.clone()));
    let key = jsonwebtoken::EncodingKey::from_secret(secret.as_bytes());
    jsonwebtoken::encode(&jsonwebtoken::Header::default(), &fields, &key).ok()
}

/// The answer to a token request that gives `given_key` and asks a token
/// for `owner` with `random`, valid `minutes` minutes from `now_secs`:
/// with the master key, 201 with the HS256 token over the claims of
/// `token_claims` (the master key left out of them) keyed by the given key,
/// or 500 "ERROR" where it cannot be made; otherwise 403 "Unauthorised".
pub fn jwt_gen(given_key: &str, master_key: &str, owner: String, random: String, now_secs: u64, minutes: u64) -> (r: Reply)
    requires
        given_key@ == master_key@ ==> now_secs + minutes * 60 <= u64::MAX,
    ensures
        given_key@ != master_key@ ==> r.status == 403 && r.body@ == "Unauthorised"@,
        given_key@ == master_key@ ==> match hs256_token(
            Seq::empty(),
            owner@,
            (now_secs + minutes * 60) as u64,
            random@,
            given_key@,
        ) {
            Some(t) => r.status == 201 && r.body@ == t,
            None => r.status == 500 && r.body@ == "ERROR"@,
        },
{
    if jwt_authorized(given_key, master_key) {
        let claims = token_claims(owner, random, now_secs, minutes);
        let token = sign_token(&claims, given_key);
        jwt_reply(true, token)
    } else {
        jwt_reply(false, None)
    }
}

/// The answer to a token request: 201 with the token where it was
/// authorized and signed (`token`), 500 with "ERROR" where signing
/// failed, 403 with "Unauthorised" where the key was wrong.
pub fn jwt_reply(authorized: bool, token: Option<String>) -> (r: Reply)
    ensures
        authorized ==> match token {
            Some(t) => r.status == 201 && r.body@ == t@,
            None => r.status == 500 && r.body@ == "ERROR"@,
        },
        !authorized ==> r.status == 403 && r.body@ == "Unauthorised"@,
{
    if authorized {
        match token {
            Some(t) => Reply { status: 201, body: t },
            None => Reply { status: 500, body: "ERROR".to_string() },
        }
    } else {
        Reply { status: 403, body: "Unauthorised".to_string() }
    }
}

/// What a status request asks for.
pub enum StatusRoute {
    /// The liveness of every backend.
    Liveness,
    /// The full upstream table.
    All,
    /// Neither: a parameter mismatch.
    Mismatch,
}

/// The status route of a request: `live` wins over `all`.
pub fn status_route(has_live: bool, has_all: bool) -> (r: StatusRoute)
    ensures
        has_live ==> r is Liveness,
        !has_live && has_all ==> r is All,
        !has_live && !has_all ==> r is Mismatch,
{
    if has_live {
        StatusRoute::Liveness
    } else if has_all {
        StatusRoute::All
    } else {
        StatusRoute::Mismatch
    }
}

/// The answer to a status request that matches no route.
pub fn status_mismatch() -> (r: Reply)
    ensures
        r.status == 500,
        r.body@ == "Parameter mismatch"@,
{
    Reply { status: 500, body: "Parameter mismatch".to_string() }
}

/// The answer to a status request: with `live`, 200 with the liveness
/// JSON `liveness` (whether `all` is given or not); else with `all`, 200
/// with the upstream table JSON `table`, or 500 "Failed to get status: "
/// followed by its error; else 500 "Parameter mismatch". The second part of
/// the result says whether the body is JSON.
pub fn status_reply(has_live: bool, has_all: bool, liveness: String, table: Result<String, String>) -> (r: (
    Reply,
    bool,
))
    ensures
        has_live ==> r.0.status == 200 && r.0.body@ == liveness@ && r.1,
        !has_live && has_all ==> match table {
            Ok(j) => r.0.status == 200 && r.0.body@ == j@ && r.1,
            Err(e) => r.0.status == 500 && r.0.body@ == "Failed to get status: "@ + e@ && !r.1,
        },
        !has_live && !has_all ==> r.0.status == 500 && r.0.body@ == "Parameter mismatch"@ && !r.1,
{
    match status_route(has_live, has_all) {
        StatusRoute::Liveness => (Reply { status: 200, body: liveness }, true),
        StatusRoute::All => match table {
            Ok(j) => (Reply { status: 200, body: j }, true),
            Err(e) => (outcome_reply(Err(e), "Failed to get status: "), false),
        },
        StatusRoute::Mismatch => (status_mismatch(), false),
    }
}

/// The answer to an ACME step that gave `outcome`: 200 with its text, or
/// 500 with `failure` followed by the error.
fn outcome_reply(outcome: Result<String, String>, failure: &str) -> (r: Reply)
    ensures
        match outcome {
            Ok(t) => r.status == 200 && r.body@ == t@,
            Err(e) => r.status == 500 && r.body@ == failure@ + e@,
        },
{
    match outcome {
        Ok(t) => Reply { status: 200, body: t },
        Err(e) => {
            let mut body = failure.to_string();
            body.append(e.as_str());
            Reply { status: 500, body }
        },
    }
}

/// The answer to an account creation request (see `outcome_reply`).
pub fn acme_create_reply(outcome: Result<String, String>) -> (r: Reply)
    ensures
        match outcome {
            Ok(t) => r.status == 200 && r.body@ == t@,
            Err(e) => r.status == 500 && r.body@ == "Failed to create account: "@ + e@,
        },
{
    outcome_reply(outcome, "Failed to create account: ")
}

/// The answer to a certificate order request (see `outcome_reply`).
pub fn acme_order_reply(outcome: Result<String, String>) -> (r: Reply)
    ensures
        match outcome {
            Ok(t) => r.status == 200 && r.body@ == t@,
            Err(e) => r.status == 500 && r.body@ == "Failed to order a certificate: "@ + e@,
        },
{
    outcome_reply(outcome, "Failed to order a certificate: ")
}

/// The domain named in an order request path: without leading and
/// trailing slashes.
pub fn order_domain(path: &str) -> (r: &str)
    ensures
        r@ == trim_char(path@, '/'),
{
    trim_matches_char(path, '/')
}

/// The answer to an HTTP-01 challenge request for `token`: 200 with the
/// key authorization registered for it, else 404 "Not found".
pub fn http01_challenge_reply(store: &ChallengeStore, token: &str) -> (r: Reply)
    ensures
        store@.contains_key(token@) ==> r.status == 200 && r.body@ == store@[token@],
        !store@.contains_key(token@) ==> r.status == 404 && r.body@ == "Not found"@,
{
    match store.get(token) {
        Some(key_authorization) => Reply { status: 200, body: key_authorization },
        None => Reply { status: 404, body: "Not found".to_string() },
    }
}

} // verus!
