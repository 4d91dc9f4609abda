//! The calls into outside crates, each behind a small function whose
//! contract states what the crate's documentation and source promise.

use vstd::prelude::*;
use vstd::utf8::encode_utf8;

use aho_corasick::{AhoCorasick, AhoCorasickBuilder};
use base64::Engine;
use jwt_simple::prelude::{RS256PublicKey, RSAPublicKeyLike, VerificationOptions};
use reqwest::Url;
use serde_json::Value;
use std::collections::HashSet;

use crate::sso::{ClaimValue, ClaimView};

verus! {

#[verifier::external_type_specification]
#[verifier::external_body]
pub struct ExAhoCorasick(AhoCorasick);

#[verifier::external_type_specification]
#[verifier::external_body]
pub struct ExRS256PublicKey(RS256PublicKey);

#[verifier::external_type_specification]
#[verifier::external_body]
pub struct ExValue(Value);


/// What the URL-safe, unpadded base64 decoding of `s` yields, or `None`
/// where `s` is no such encoding.
pub uninterp spec fn base64url_decoded(s: Seq<char>) -> Option<Seq<u8>>;

/// Whether an RSA public key can be made of the big-endian modulus `n` and
/// exponent `e`.
pub uninterp spec fn rsa_components_accepted(n: Seq<u8>, e: Seq<u8>) -> bool;

/// The MIME type guessed from the extension of `path`
/// (`application/octet-stream` where there is no guess).
pub uninterp spec fn guessed_mime(path: Seq<char>) -> Seq<char>;

/// Whether an automaton can be built for the one pattern with these UTF-8
/// bytes.
pub uninterp spec fn automaton_builds(pattern: Seq<u8>) -> bool;

/// `url` with `key=value` added, form-encoded, to its query; `None` where
/// `url` does not parse as an absolute URL.
pub uninterp spec fn url_with_query_pair(url: Seq<char>, key: Seq<char>, value: Seq<char>) -> Option<Seq<char>>;

/// The custom claims that the payload of the JSON Web Token `token` holds,
/// by name, each by its JSON shape.
pub uninterp spec fn token_claims(token: Seq<char>) -> Map<Seq<char>, ClaimView>;

/// Whether the RS256 signature of the JSON Web Token `token` checks under
/// the key with big-endian modulus `n` and exponent `e`, and its `aud`
/// claim holds `audience`.
pub uninterp spec fn rs256_token_accepted(token: Seq<char>, n: Seq<u8>, e: Seq<u8>, audience: Seq<char>) -> bool;

/// The members of `v` by name, each by its JSON shape, when `v` is an
/// object; none otherwise.
pub uninterp spec fn json_claims(v: Value) -> Map<Seq<char>, ClaimView>;

/// ASCII letters folded to lower case; other bytes unchanged.
pub open spec fn ascii_fold(b: u8) -> u8 {
    if 65 <= b <= 90 {
        (b + 32) as u8
    } else {
        b
    }
}

/// Whether `p` occurs in `h` at index `i`, with ASCII letters compared
/// without case.
pub open spec fn occurs_at(h: Seq<u8>, p: Seq<u8>, i: int) -> bool {
    0 <= i && i + p.len() <= h.len() && forall|j: int|
        0 <= j < p.len() ==> #[trigger] ascii_fold(h[i + j]) == ascii_fold(p[j])
}

/// Whether `p` occurs in `h`, with ASCII letters compared without case.
pub open spec fn contains_ignoring_ascii_case(h: Seq<u8>, p: Seq<u8>) -> bool {
    exists|i: int| occurs_at(h, p, i)
}

/// A searcher for one pattern, ASCII letters compared without case.
pub struct PatternMatcher {
    automaton: AhoCorasick,
    pattern: String,
}

impl PatternMatcher {
    /// The UTF-8 bytes of the pattern searched for.
    pub closed spec fn needle(&self) -> Seq<u8> {
        encode_utf8(self.pattern@)
    }
}

/// Relies on aho_corasick's `AhoCorasickBuilder::build` with
/// `ascii_case_insensitive(true)`: an automaton for the one pattern `p`,
/// unless building it fails.
#[verifier::external_body]
pub(crate) fn build_matcher(p: &str) -> (r: Option<PatternMatcher>)
    ensures
        r is Some == automaton_builds(encode_utf8(p@)),
        r matches Some(m) ==> m.needle() == encode_utf8(p@),
{
    match AhoCorasickBuilder::new().ascii_case_insensitive(true).build([p]) {
        Ok(automaton) => Some(PatternMatcher { automaton, pattern: p.to_owned() }),
        Err(_) => None,
    }
}

/// Relies on aho_corasick's `AhoCorasick::is_match`: true if and only if the
/// pattern occurs in `haystack` (standard match semantics, which never make
/// the search fail).
#[verifier::external_body]
pub(crate) fn matches_text(m: &PatternMatcher, haystack: &str) -> (r: bool)
    ensures
        r == contains_ignoring_ascii_case(encode_utf8(haystack@), m.needle()),
{
    m.automaton.is_match(haystack)
}

/// Relies on base64's `URL_SAFE_NO_PAD` engine: `decode` yields the bytes
/// that `s` encodes, or an error.
#[verifier::external_body]
pub(crate) fn decode_base64url(s: &str) -> (r: Option<Vec<u8>>)
    ensures
        r is Some == base64url_decoded(s@) is Some,
        r matches Some(v) ==> v@ == base64url_decoded(s@).unwrap(),
{
    base64::engine::general_purpose::URL_SAFE_NO_PAD.decode(s).ok()
}

/// A trusted RS256 key with the modulus and exponent it was made of.
pub struct TrustedKey {
    key: RS256PublicKey,
    n: Vec<u8>,
    e: Vec<u8>,
}

impl TrustedKey {
    /// The big-endian modulus and exponent the key was made of.
    pub closed spec fn components(&self) -> (Seq<u8>, Seq<u8>) {
        (self.n@, self.e@)
    }
}

/// Relies on jwt_simple's `RS256PublicKey::from_components`, which builds
/// the key from the modulus and the exponent or fails on them.
#[verifier::external_body]
pub(crate) fn rs256_key_from_components(n: &Vec<u8>, e: &Vec<u8>) -> (r: Option<TrustedKey>)
    ensures
        r is Some == rsa_components_accepted(n@, e@),
        r matches Some(k) ==> k.components() == (n@, e@),
{
    match RS256PublicKey::from_components(n, e) {
        Ok(key) => Some(TrustedKey { key, n: n.clone(), e: e.clone() }),
        Err(_) => None,
    }
}

/// Relies on jwt_simple's `verify_token`: the custom claims of `token` when
/// its signature checks against `key`, its audience is `audience` and its
/// times are valid now (`validate` rejects a missing or other audience).
/// Whether it verifies depends on the clock; the claims it gives are those
/// of the token's payload.
#[verifier::external_body]
pub(crate) fn verify_token_claims(key: &TrustedKey, token: &str, audience: &str) -> (r: Option<Value>)
    ensures
        r matches Some(v) ==> json_claims(v) == token_claims(token@),
        r is Some ==> rs256_token_accepted(token@, key.components().0, key.components().1, audience@),
{
    let opts = VerificationOptions {
        allowed_audiences: Some(HashSet::from([audience.to_owned()])),
        ..Default::default()
    };
    key.key.verify_token::<Value>(token, Some(opts)).ok().map(|c| c.custom)
}

/// The claim called `name` among `claims`, `Missing` when absent.
pub open spec fn claim_in(claims: Map<Seq<char>, ClaimView>, name: Seq<char>) -> ClaimView {
    if claims.dom().contains(name) {
        claims[name]
    } else {
        ClaimView::Missing
    }
}

/// Relies on serde_json's `Value::get`: the member called `name` of an
/// object (none of any other value), told apart by its JSON shape; each
/// item of an array is kept as its text if it is a string.
#[verifier::external_body]
pub(crate) fn claim_of(claims: &Value, name: &str) -> (r: ClaimValue)
    ensures
        r@ == claim_in(json_claims(*claims), name@),
{
    match claims.get(name) {
        None => ClaimValue::Missing,
        Some(Value::String(s)) => ClaimValue::Text(s.clone()),
        Some(Value::Array(a)) => ClaimValue::List(
            a.iter().map(|x| x.as_str().map(|s| s.to_owned())).collect(),
        ),
        Some(_) => ClaimValue::Other,
    }
}

/// Relies on mime_guess's `from_path(..).first_or_octet_stream()`: the type
/// registered for the extension of `path`.
#[verifier::external_body]
pub(crate) fn mime_for_path(path: &str) -> (r: String)
    ensures
        r@ == guessed_mime(path@),
{
    mime_guess::from_path(path).first_or_octet_stream().as_ref().to_owned()
}

/// Relies on url's `Url::parse`, `query_pairs_mut().append_pair` and
/// `as_str` (re-exported by reqwest): `url` with `key=value` added to its
/// query, or `None` where `url` does not parse.
#[verifier::external_body]
pub(crate) fn with_query_pair(url: &str, key: &str, value: &str) -> (r: Option<String>)
    ensures
        r is Some == url_with_query_pair(url@, key@, value@) is Some,
        r matches Some(u) ==> u@ == url_with_query_pair(url@, key@, value@).unwrap(),
{
    let mut parsed = Url::parse(url).ok()?;
    parsed.query_pairs_mut().append_pair(key, value);
    Some(parsed.as_str().to_owned())
}

} // verus!
