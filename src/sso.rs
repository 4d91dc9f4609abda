//! The trust engine: OIDC discovery data, the trusted keys, identity from
//! verified claims and the group policy per bucket and action.

use vstd::prelude::*;

use serde_json::Value;

use crate::bindings::{
    base64url_decoded, claim_in, claim_of, decode_base64url, json_claims,
    rs256_key_from_components, rs256_token_accepted, rsa_components_accepted, token_claims,
    url_with_query_pair,
    verify_token_claims, with_query_pair, TrustedKey,
};
use crate::config::{bucket_selected, contains_name, resolve_bucket, selected_index, S3Bucket};
use crate::text::{joined, same_text, texts};

verus! {

/// The endpoints that the provider's well-known document announces.
#[derive(Debug, Clone)]
pub struct WellKnownConfiguration {
    pub authorization_endpoint: String,
    pub token_endpoint: String,
    pub jwks_uri: String,
}

/// One entry of a JSON Web Key Set.
#[derive(Debug, Clone)]
pub struct JWKey {
    pub alg: String,
    /// The `use` member of the key.
    pub key_use: String,
    pub kid: String,
    /// The exponent, base64url without padding.
    pub e: String,
    pub kty: String,
    /// The modulus, base64url without padding.
    pub n: String,
}

/// A JSON Web Key Set.
#[derive(Debug, Clone)]
pub struct Jwks {
    pub keys: Vec<JWKey>,
}

/// The static policy and client settings of the trust engine.
#[derive(Debug, Clone)]
pub struct SSOAuthConfig {
    pub redirect: String,
    /// The audience that tokens must carry.
    pub resource: String,
    pub client_id: String,
    pub secret: String,
    pub username_claim: String,
    pub groups_claim: String,
    pub scope: String,
    pub well_known: String,
    pub cookie_name: String,
    /// The group needed to view; anyone may when unset.
    pub login_group: Option<String>,
    /// The group needed to upload; anyone may when unset.
    pub upload_group: Option<String>,
    /// The group needed to delete; anyone may when unset.
    pub delete_group: Option<String>,
}

pub fn default_alg() -> (r: String)
    ensures
        r@ == "RS256"@,
{
    "RS256".to_owned()
}

pub fn default_username() -> (r: String)
    ensures
        r@ == "username"@,
{
    "username".to_owned()
}

pub fn default_groups() -> (r: String)
    ensures
        r@ == "groups"@,
{
    "groups".to_owned()
}

pub fn default_scope() -> (r: String)
    ensures
        r@ == "openid"@,
{
    "openid".to_owned()
}

pub fn default_cookie_name() -> (r: String)
    ensures
        r@ == "sessionid"@,
{
    "sessionid".to_owned()
}

impl Default for SSOAuthConfig {
    fn default() -> (r: Self)
        ensures
            r.redirect@ == ""@ && r.resource@ == ""@ && r.client_id@ == ""@ && r.secret@ == ""@,
            r.username_claim@ == "username"@ && r.groups_claim@ == "groups"@,
            r.scope@ == "openid"@ && r.well_known@ == ""@ && r.cookie_name@ == "session"@,
            r.login_group is None && r.upload_group is None && r.delete_group is None,
    {
        SSOAuthConfig {
            redirect: "".to_owned(),
            resource: "".to_owned(),
            client_id: "".to_owned(),
            secret: "".to_owned(),
            username_claim: "username".to_owned(),
            groups_claim: "groups".to_owned(),
            scope: "openid".to_owned(),
            well_known: "".to_owned(),
            cookie_name: "session".to_owned(),
            login_group: None,
            upload_group: None,
            delete_group: None,
        }
    }
}

/// The query of the provider's redirect back to us.
#[derive(Debug, Clone)]
pub struct RedirectCode {
    pub code: String,
}

/// A lifetime given either as a number or as a numeric string.
#[derive(Debug, Clone)]
pub enum U64orString {
    U64(u64),
    String(String),
}

/// The token endpoint's answer to a code exchange.
#[derive(Debug, Clone)]
pub struct TokenResponse {
    pub access_token: String,
    pub id_token: Option<String>,
    pub refresh_token: Option<String>,
    pub expires_in: U64orString,
}

/// A claim of a verified token, by its JSON shape.
#[derive(Debug)]
pub enum ClaimValue {
    /// The token does not hold the claim.
    Missing,
    /// A string.
    Text(String),
    /// An array; each item as its text where it is a string.
    List(Vec<Option<String>>),
    /// Any other shape.
    Other,
}

/// A claim as plain values, by its JSON shape.
pub enum ClaimView {
    Missing,
    Text(Seq<char>),
    List(Seq<Option<Seq<char>>>),
    Other,
}

/// The text of an array item, if it is a string.
pub open spec fn item_view(o: Option<String>) -> Option<Seq<char>> {
    match o {
        Some(s) => Some(s@),
        None => None,
    }
}

impl View for ClaimValue {
    type V = ClaimView;

    open spec fn view(&self) -> ClaimView {
        match self {
            ClaimValue::Missing => ClaimView::Missing,
            ClaimValue::Text(s) => ClaimView::Text(s@),
            ClaimValue::List(v) => ClaimView::List(v@.map_values(|o: Option<String>| item_view(o))),
            ClaimValue::Other => ClaimView::Other,
        }
    }
}

/// What a caller asks to do with a bucket.
#[derive(Debug, Clone, Copy, PartialEq, Eq, Structural)]
pub enum Action {
    View,
    Delete,
    Upload,
}

/// Errors of the trust engine.
#[derive(Debug)]
pub enum SsoError {
    /// A key's modulus or exponent is not base64url.
    KeyDecodeFailed,
    /// A key's components do not make an RSA public key.
    KeyRejected,
    /// No trusted key accepts the token.
    VerificationFailed,
    /// A needed claim is missing or has the wrong shape.
    ClaimsMalformed,
    /// The authorize endpoint is not a URL.
    InvalidUrl,
}

/// The user name that a username claim gives: only a string does.
pub open spec fn username_of(c: ClaimView) -> Option<Seq<char>> {
    match c {
        ClaimView::Text(s) => Some(s),
        _ => None,
    }
}

/// Whether every item of an array claim is a string.
pub open spec fn all_strings(items: Seq<Option<Seq<char>>>) -> bool {
    forall|i: int| 0 <= i < items.len() ==> (#[trigger] items[i]) is Some
}

/// The groups that a groups claim gives: one string is one group, an array
/// of strings gives its strings; any other shape gives none.
pub open spec fn groups_of(c: ClaimView) -> Option<Seq<Seq<char>>> {
    match c {
        ClaimView::Text(s) => Some(seq![s]),
        ClaimView::List(items) => if all_strings(items) {
            Some(items.map_values(|o: Option<Seq<char>>| o.unwrap()))
        } else {
            None
        },
        _ => None,
    }
}

/// The group that `cfg` asks for `a`, if any.
pub open spec fn required_group(cfg: SSOAuthConfig, a: Action) -> Option<String> {
    match a {
        Action::View => cfg.login_group,
        Action::Upload => cfg.upload_group,
        Action::Delete => cfg.delete_group,
    }
}

/// The name a caller's group must have on `bucket` to count as `g`.
pub open spec fn bucket_group(bucket: S3Bucket, g: Seq<char>) -> Seq<char> {
    match bucket.sso_group_prefix {
        Some(p) => p@ + g,
        None => g,
    }
}

/// Whether holding `groups` permits `a` on `bucket` under `cfg`.
pub open spec fn groups_permit(
    cfg: SSOAuthConfig,
    a: Action,
    bucket: S3Bucket,
    groups: Seq<String>,
) -> bool {
    match required_group(cfg, a) {
        None => true,
        Some(g) => contains_name(groups, bucket_group(bucket, g@)),
    }
}

/// Whether the claims of `token` permit `a` on `bucket` under `cfg`: it
/// names a user, and its groups hold the required group, with the
/// bucket's prefix, when one is required.
pub open spec fn token_grants(cfg: SSOAuthConfig, a: Action, bucket: S3Bucket, token: Seq<char>) -> bool {
    let claims = token_claims(token);
    &&& username_of(claim_in(claims, cfg.username_claim@)) is Some
    &&& match groups_of(claim_in(claims, cfg.groups_claim@)) {
        Some(gs) => match required_group(cfg, a) {
            Some(g) => gs.contains(bucket_group(bucket, g@)),
            None => true,
        },
        None => false,
    }
}

/// Whether a key entry is RS256.
pub open spec fn is_rs256(k: JWKey) -> bool {
    k.alg@ == "RS256"@
}

/// Whether an RS256 entry's components decode and make a key.
pub open spec fn key_usable(k: JWKey) -> bool {
    &&& base64url_decoded(k.n@) is Some
    &&& base64url_decoded(k.e@) is Some
    &&& rsa_components_accepted(base64url_decoded(k.n@).unwrap(), base64url_decoded(k.e@).unwrap())
}

/// The decoded modulus and exponent of each RS256 entry of `keys`, in
/// order.
pub open spec fn rs256_components(keys: Seq<JWKey>) -> Seq<(Seq<u8>, Seq<u8>)>
    decreases keys.len(),
{
    if keys.len() == 0 {
        Seq::empty()
    } else {
        let prev = rs256_components(keys.drop_last());
        let k = keys.last();
        if is_rs256(k) {
            prev.push((base64url_decoded(k.n@).unwrap(), base64url_decoded(k.e@).unwrap()))
        } else {
            prev
        }
    }
}

/// Whether one of the keys with these components accepts `token` for
/// `audience`.
pub open spec fn accepted_by_some_key(
    keys: Seq<(Seq<u8>, Seq<u8>)>,
    token: Seq<char>,
    audience: Seq<char>,
) -> bool {
    exists|i: int|
        0 <= i < keys.len() && rs256_token_accepted(token, (#[trigger] keys[i]).0, keys[i].1, audience)
}

/// The authorize URL built from `endpoint`: client id, redirect URI,
/// `response_type=code` and scope added to its query in that order.
pub open spec fn authorize_url(
    endpoint: Seq<char>,
    client_id: Seq<char>,
    redirect: Seq<char>,
    scope: Seq<char>,
) -> Option<Seq<char>> {
    match url_with_query_pair(endpoint, "client_id"@, client_id) {
        None => None,
        Some(u1) => match url_with_query_pair(u1, "redirect_uri"@, redirect) {
            None => None,
            Some(u2) => match url_with_query_pair(u2, "response_type"@, "code"@) {
                None => None,
                Some(u3) => url_with_query_pair(u3, "scope"@, scope),
            },
        },
    }
}

/// The trust engine's state: policy, discovery data and trusted keys.
pub struct SSOConfig {
    config: SSOAuthConfig,
    keys: Vec<TrustedKey>,
    token_endpoint: String,
    authorize_endpoint: String,
    jwks_endpoint: String,
}

/// What a refresh with `wk` and `jwks` does: when every RS256 entry is
/// usable it succeeds and installs the new endpoints and exactly the RS256
/// keys, in order; otherwise it fails and changes nothing.
pub open spec fn refreshed(
    before: SSOConfig,
    after: SSOConfig,
    wk: WellKnownConfiguration,
    jwks: Jwks,
    ok: bool,
) -> bool {
    &&& ok == forall|i: int|
        0 <= i < jwks.keys@.len() && is_rs256(#[trigger] jwks.keys@[i]) ==> key_usable(jwks.keys@[i])
    &&& ok ==> {
        &&& after.policy() == before.policy()
        &&& after.authorize_endpoint() == wk.authorization_endpoint@
        &&& after.token_endpoint() == wk.token_endpoint@
        &&& after.jwks_endpoint() == wk.jwks_uri@
        &&& after.key_components() == rs256_components(jwks.keys@)
    }
    &&& !ok ==> after == before
}

impl SSOConfig {
    pub closed spec fn policy(&self) -> SSOAuthConfig {
        self.config
    }

    pub closed spec fn key_count(&self) -> nat {
        self.keys@.len()
    }

    /// The modulus and exponent of each trusted key, in order.
    pub closed spec fn key_components(&self) -> Seq<(Seq<u8>, Seq<u8>)> {
        self.keys@.map_values(|k: TrustedKey| k.components())
    }

    pub closed spec fn authorize_endpoint(&self) -> Seq<char> {
        self.authorize_endpoint@
    }

    pub closed spec fn token_endpoint(&self) -> Seq<char> {
        self.token_endpoint@
    }

    pub closed spec fn jwks_endpoint(&self) -> Seq<char> {
        self.jwks_endpoint@
    }

    /// Whether tokens can be checked and logins sent to the provider.
    pub open spec fn is_ready(&self) -> bool {
        self.key_count() > 0 && self.token_endpoint().len() > 0 && self.authorize_endpoint().len()
            > 0
    }

    /// An engine with `config` and nothing discovered yet.
    pub fn new(config: SSOAuthConfig) -> (r: SSOConfig)
        ensures
            r.policy() == config,
            r.key_count() == 0,
            r.key_components() == Seq::<(Seq<u8>, Seq<u8>)>::empty(),
            r.authorize_endpoint().len() == 0,
            r.token_endpoint().len() == 0,
            r.jwks_endpoint().len() == 0,
            !r.is_ready(),
    {
        let r = SSOConfig {
            config,
            keys: Vec::new(),
            token_endpoint: String::new(),
            authorize_endpoint: String::new(),
            jwks_endpoint: String::new(),
        };
        assert(r.key_components() =~= Seq::<(Seq<u8>, Seq<u8>)>::empty());
        r
    }

    /// Whether at least one key is trusted and both endpoints are known.
    pub fn ready(&self) -> (r: bool)
        ensures
            r == self.is_ready(),
    {
        self.keys.len() > 0 && !(self.token_endpoint.as_str().is_empty()
            || self.authorize_endpoint.as_str().is_empty())
    }

    /// Installs a fetched discovery document and key set: the RS256 keys
    /// replace the trusted set, other algorithms are skipped. All or
    /// nothing: on any failure the previous state stays as it was.
    pub fn update(&mut self, well_known: WellKnownConfiguration, jwks: &Jwks) -> (r: Result<(), SsoError>)
        ensures
            refreshed(*old(self), *final(self), well_known, *jwks, r is Ok),
    {
        let mut keys: Vec<TrustedKey> = Vec::new();
        let mut i: usize = 0;
        while i < jwks.keys.len()
            invariant
                i <= jwks.keys.len(),
                forall|j: int|
                    0 <= j < i && is_rs256(#[trigger] jwks.keys@[j]) ==> key_usable(jwks.keys@[j]),
                keys@.map_values(|k: TrustedKey| k.components()) == rs256_components(
                    jwks.keys@.subrange(0, i as int),
                ),
            decreases jwks.keys.len() - i,
        {
            let k = &jwks.keys[i];
            assert(jwks.keys@.subrange(0, i + 1).drop_last() =~= jwks.keys@.subrange(0, i as int));
            if same_text(k.alg.as_str(), "RS256") {
                let e = match decode_base64url(k.e.as_str()) {
                    Some(e) => e,
                    None => return Err(SsoError::KeyDecodeFailed),
                };
                let n = match decode_base64url(k.n.as_str()) {
                    Some(n) => n,
                    None => return Err(SsoError::KeyDecodeFailed),
                };
                match rs256_key_from_components(&n, &e) {
                    Some(key) => {
                        let ghost before = keys@;
                        keys.push(key);
                        assert(keys@.map_values(|k: TrustedKey| k.components()) =~= before.map_values(
                            |k: TrustedKey| k.components(),
                        ).push(key.components()));
                    },
                    None => return Err(SsoError::KeyRejected),
                }
            }
            i = i + 1;
        }
        assert(jwks.keys@.subrange(0, i as int) =~= jwks.keys@);
        self.authorize_endpoint = well_known.authorization_endpoint;
        self.token_endpoint = well_known.token_endpoint;
        self.jwks_endpoint = well_known.jwks_uri;
        self.keys = keys;
        Ok(())
    }

    pub fn get_cookie_name(&self) -> (r: &str)
        ensures
            r@ == self.policy().cookie_name@,
    {
        self.config.cookie_name.as_str()
    }

    /// The custom claims of `token` by the first trusted key that accepts
    /// it, tried in order; fails when none does.
    fn verify(&self, token: &str) -> (r: Result<Value, SsoError>)
        ensures
            r is Ok ==> self.key_count() > 0,
            r is Ok ==> accepted_by_some_key(self.key_components(), token@, self.policy().resource@),
            r matches Ok(v) ==> json_claims(v) == token_claims(token@),
            r matches Err(e) ==> e is VerificationFailed,
    {
        let mut i: usize = 0;
        while i < self.keys.len()
            invariant
                i <= self.keys.len(),
            decreases self.keys.len() - i,
        {
            match verify_token_claims(&self.keys[i], token, self.config.resource.as_str()) {
                Some(claims) => {
                    assert(self.key_components()[i as int] == self.keys@[i as int].components());
                    return Ok(claims);
                },
                None => {},
            }
            i = i + 1;
        }
        Err(SsoError::VerificationFailed)
    }

    /// The provider's authorize URL with client id, redirect URI,
    /// `response_type=code` and the scope appended to its query; fails when
    /// the authorize endpoint is not a URL.
    pub fn build_redirect_url(&self) -> (r: Result<String, SsoError>)
        ensures
            r is Ok <==> authorize_url(
                self.authorize_endpoint(),
                self.policy().client_id@,
                self.policy().redirect@,
                self.policy().scope@,
            ) is Some,
            r matches Ok(u) ==> Some(u@) == authorize_url(
                self.authorize_endpoint(),
                self.policy().client_id@,
                self.policy().redirect@,
                self.policy().scope@,
            ),
            r matches Err(e) ==> e is InvalidUrl,
    {
        let u1 = match with_query_pair(self.authorize_endpoint.as_str(), "client_id", self.config.client_id.as_str()) {
            Some(u) => u,
            None => return Err(SsoError::InvalidUrl),
        };
        let u2 = match with_query_pair(u1.as_str(), "redirect_uri", self.config.redirect.as_str()) {
            Some(u) => u,
            None => return Err(SsoError::InvalidUrl),
        };
        let u3 = match with_query_pair(u2.as_str(), "response_type", "code") {
            Some(u) => u,
            None => return Err(SsoError::InvalidUrl),
        };
        match with_query_pair(u3.as_str(), "scope", self.config.scope.as_str()) {
            Some(u) => Ok(u),
            None => Err(SsoError::InvalidUrl),
        }
    }

    /// The form fields of the authorization-code grant that exchanges
    /// `code` at the token endpoint.
    pub fn code_exchange_form(&self, code: &RedirectCode) -> (r: Vec<(String, String)>)
        ensures
            r@.len() == 5,
            r@[0].0@ == "code"@ && r@[0].1@ == code.code@,
            r@[1].0@ == "client_id"@ && r@[1].1@ == self.policy().client_id@,
            r@[2].0@ == "client_secret"@ && r@[2].1@ == self.policy().secret@,
            r@[3].0@ == "redirect_uri"@ && r@[3].1@ == self.policy().redirect@,
            r@[4].0@ == "grant_type"@ && r@[4].1@ == "authorization_code"@,
    {
        let mut r: Vec<(String, String)> = Vec::new();
        r.push(("code".to_owned(), code.code.as_str().to_owned()));
        r.push(("client_id".to_owned(), self.config.client_id.as_str().to_owned()));
        r.push(("client_secret".to_owned(), self.config.secret.as_str().to_owned()));
        r.push(("redirect_uri".to_owned(), self.config.redirect.as_str().to_owned()));
        r.push(("grant_type".to_owned(), "authorization_code".to_owned()));
        r
    }

    /// Where the provider's discovery document is fetched from.
    pub fn well_known_url(&self) -> (r: &str)
        ensures
            r@ == self.policy().well_known@,
    {
        self.config.well_known.as_str()
    }

    /// The token endpoint that the code exchange posts to.
    pub fn token_endpoint_url(&self) -> (r: &str)
        ensures
            r@ == self.token_endpoint(),
    {
        self.token_endpoint.as_str()
    }

    /// The key-set endpoint announced by the last discovery.
    pub fn jwks_endpoint_url(&self) -> (r: &str)
        ensures
            r@ == self.jwks_endpoint(),
    {
        self.jwks_endpoint.as_str()
    }

    /// The user name and groups of a verified token, read from its claims.
    fn eject_username_groups(&self, token: &str) -> (r: Result<(String, Vec<String>), SsoError>)
        ensures
            r is Ok ==> self.key_count() > 0,
            r is Ok ==> accepted_by_some_key(self.key_components(), token@, self.policy().resource@),
            r matches Ok((u, g)) ==> {
                let claims = token_claims(token@);
                &&& username_of(claim_in(claims, self.policy().username_claim@)) == Some(u@)
                &&& groups_of(claim_in(claims, self.policy().groups_claim@)) == Some(texts(g@))
            },
    {
        let claims = self.verify(token)?;
        let username = claim_of(&claims, self.config.username_claim.as_str());
        let groups = claim_of(&claims, self.config.groups_claim.as_str());
        identity_from_claims(username, groups)
    }

    /// Whether holding `groups` permits `action` on `bucket`.
    pub fn group_allowed(&self, action: Action, bucket: &S3Bucket, groups: &Vec<String>) -> (r: bool)
        ensures
            r == groups_permit(self.policy(), action, *bucket, groups@),
    {
        let required = match action {
            Action::View => &self.config.login_group,
            Action::Upload => &self.config.upload_group,
            Action::Delete => &self.config.delete_group,
        };
        assert(*required == required_group(self.policy(), action));
        match required {
            None => true,
            Some(g) => {
                let wanted = match &bucket.sso_group_prefix {
                    Some(p) => joined(p.as_str(), g.as_str()),
                    None => g.as_str().to_owned(),
                };
                let mut i: usize = 0;
                while i < groups.len()
                    invariant
                        i <= groups.len(),
                        wanted@ == bucket_group(*bucket, g@),
                        required_group(self.policy(), action) == Some(*g),
                        forall|j: int| 0 <= j < i ==> #[trigger] groups@[j]@ != wanted@,
                    decreases groups.len() - i,
                {
                    if same_text(groups[i].as_str(), wanted.as_str()) {
                        assert(groups@[i as int]@ == bucket_group(*bucket, g@));
                        return true;
                    }
                    i = i + 1;
                }
                false
            },
        }
    }

    /// Whether the bearer of `token` may do `action` on the bucket selected
    /// by `bucket` (the first one when `None`). Denied when no bucket is
    /// selected; allowed without looking at the token when the action needs
    /// no group; otherwise the token's groups decide, and any failure to
    /// read them denies.
    pub fn can_action(
        &self,
        action: Action,
        buckets: &Vec<S3Bucket>,
        token: &str,
        bucket: Option<&str>,
    ) -> (r: bool)
        ensures
            !bucket_selected(buckets@, bucket) ==> !r,
            bucket_selected(buckets@, bucket) && required_group(self.policy(), action) is None ==> r,
            r && required_group(self.policy(), action) is Some ==> self.key_count() > 0 && token_grants(
                self.policy(),
                action,
                buckets@[selected_index(buckets@, bucket)],
                token@,
            ) && accepted_by_some_key(self.key_components(), token@, self.policy().resource@),
    {
        let target = match resolve_bucket(buckets, bucket) {
            Some(i) => &buckets[i],
            None => return false,
        };
        assert(*target == buckets@[selected_index(buckets@, bucket)]);
        let needs_group = match action {
            Action::View => self.config.login_group.is_some(),
            Action::Upload => self.config.upload_group.is_some(),
            Action::Delete => self.config.delete_group.is_some(),
        };
        if !needs_group {
            return true;
        }
        match self.eject_username_groups(token) {
            Ok((_username, groups)) => {
                let allowed = self.group_allowed(action, target, &groups);
                proof {
                    if allowed {
                        let g = required_group(self.policy(), action).unwrap();
                        let w = bucket_group(*target, g@);
                        let j = choose|j: int| 0 <= j < groups@.len() && #[trigger] groups@[j]@ == w;
                        assert(texts(groups@)[j] == w);
                    }
                }
                allowed
            },
            Err(_) => false,
        }
    }

    pub fn can_view(&self, buckets: &Vec<S3Bucket>, token: &str, bucket: Option<&str>) -> (r: bool)
        ensures
            !bucket_selected(buckets@, bucket) ==> !r,
            bucket_selected(buckets@, bucket) && self.policy().login_group is None ==> r,
            r && self.policy().login_group is Some ==> self.key_count() > 0 && token_grants(
                self.policy(),
                Action::View,
                buckets@[selected_index(buckets@, bucket)],
                token@,
            ) && accepted_by_some_key(self.key_components(), token@, self.policy().resource@),
    {
        self.can_action(Action::View, buckets, token, bucket)
    }

    pub fn can_upload(&self, buckets: &Vec<S3Bucket>, token: &str, bucket: Option<&str>) -> (r: bool)
        ensures
            !bucket_selected(buckets@, bucket) ==> !r,
            bucket_selected(buckets@, bucket) && self.policy().upload_group is None ==> r,
            r && self.policy().upload_group is Some ==> self.key_count() > 0 && token_grants(
                self.policy(),
                Action::Upload,
                buckets@[selected_index(buckets@, bucket)],
                token@,
            ) && accepted_by_some_key(self.key_components(), token@, self.policy().resource@),
    {
        self.can_action(Action::Upload, buckets, token, bucket)
    }

    pub fn can_delete(&self, buckets: &Vec<S3Bucket>, token: &str, bucket: Option<&str>) -> (r: bool)
        ensures
            !bucket_selected(buckets@, bucket) ==> !r,
            bucket_selected(buckets@, bucket) && self.policy().delete_group is None ==> r,
            r && self.policy().delete_group is Some ==> self.key_count() > 0 && token_grants(
                self.policy(),
                Action::Delete,
                buckets@[selected_index(buckets@, bucket)],
                token@,
            ) && accepted_by_some_key(self.key_components(), token@, self.policy().resource@),
    {
        self.can_action(Action::Delete, buckets, token, bucket)
    }
}

/// The user name and groups that two claims give; `ClaimsMalformed` when
/// either is missing or has another shape, an array with an item that is
/// not a string included.
pub fn identity_from_claims(username: ClaimValue, groups: ClaimValue) -> (r: Result<(String, Vec<String>), SsoError>)
    ensures
        r is Ok <==> username_of(username@) is Some && groups_of(groups@) is Some,
        r matches Ok((u, g)) ==> u@ == username_of(username@).unwrap() && texts(g@) == groups_of(
            groups@,
        ).unwrap(),
        r matches Err(e) ==> e is ClaimsMalformed,
{
    let ghost gv = groups@;
    let user = match username {
        ClaimValue::Text(s) => s,
        _ => return Err(SsoError::ClaimsMalformed),
    };
    let list = match groups {
        ClaimValue::Text(s) => {
            let mut v: Vec<String> = Vec::new();
            v.push(s);
            assert(texts(v@) =~= seq![v@[0]@]);
            v
        },
        ClaimValue::List(items) => {
            let ghost iv = items@.map_values(|o: Option<String>| item_view(o));
            assert(gv == ClaimView::List(iv));
            let mut v: Vec<String> = Vec::new();
            let mut i: usize = 0;
            while i < items.len()
                invariant
                    i <= items.len(),
                    iv == items@.map_values(|o: Option<String>| item_view(o)),
                    gv == ClaimView::List(iv),
                    gv == groups@,
                    username_of(username@) is Some,
                    v@.len() == i,
                    forall|j: int| 0 <= j < i ==> items@[j] == Some(#[trigger] v@[j]),
                decreases items.len() - i,
            {
                match &items[i] {
                    Some(s) => {
                        v.push(s.clone());
                    },
                    None => {
                        assert(iv[i as int] is None);
                        return Err(SsoError::ClaimsMalformed);
                    },
                }
                i = i + 1;
            }
            assert forall|j: int| 0 <= j < iv.len() implies (#[trigger] iv[j]) is Some by {
                assert(items@[j] == Some(v@[j]));
            }
            assert(texts(v@) =~= iv.map_values(|o: Option<Seq<char>>| o.unwrap()));
            v
        },
        _ => return Err(SsoError::ClaimsMalformed),
    };
    Ok((user, list))
}

/// An action that needs no group is permitted whatever groups the caller
/// holds; so `can_action` grants it on a selected bucket without reading
/// the token.
pub proof fn lemma_no_group_permits_all(cfg: SSOAuthConfig, a: Action, bucket: S3Bucket, groups: Seq<String>)
    requires
        required_group(cfg, a) is None,
    ensures
        groups_permit(cfg, a, bucket, groups),
{
}

/// With group `G` required and a non-empty group prefix `pfx` on the
/// bucket, a caller holding `pfx + G` is permitted, and a caller whose
/// groups are all the bare `G` is not (as `group_allowed` decides).
pub proof fn lemma_prefixed_group_policy(cfg: SSOAuthConfig, a: Action, bucket: S3Bucket, groups: Seq<String>)
    requires
        required_group(cfg, a) is Some,
        bucket.sso_group_prefix is Some,
        bucket.sso_group_prefix.unwrap()@.len() > 0,
    ensures
        contains_name(groups, bucket.sso_group_prefix.unwrap()@ + required_group(cfg, a).unwrap()@)
            ==> groups_permit(cfg, a, bucket, groups),
        (forall|i: int| 0 <= i < groups.len() ==> (#[trigger] groups[i])@ == required_group(cfg, a).unwrap()@)
            ==> !groups_permit(cfg, a, bucket, groups),
{
    let g = required_group(cfg, a).unwrap()@;
    let wanted = bucket.sso_group_prefix.unwrap()@ + g;
    assert(wanted.len() > g.len());
    if forall|i: int| 0 <= i < groups.len() ==> (#[trigger] groups[i])@ == g {
        assert forall|i: int| 0 <= i < groups.len() implies (#[trigger] groups[i])@ != wanted by {
            assert(groups[i]@ == g);
        }
    }
}

/// Readiness across a refresh: one that succeeds with both endpoints and
/// at least one RS256 key makes the engine ready; one that fails leaves
/// readiness as it was, so a ready engine stays ready.
pub proof fn lemma_readiness_across_refresh(
    before: SSOConfig,
    after: SSOConfig,
    wk: WellKnownConfiguration,
    jwks: Jwks,
    ok: bool,
)
    requires
        refreshed(before, after, wk, jwks, ok),
    ensures
        ok && wk.authorization_endpoint@.len() > 0 && wk.token_endpoint@.len() > 0
            && rs256_components(jwks.keys@).len() > 0 ==> after.is_ready(),
        !ok ==> after.is_ready() == before.is_ready(),
{
    if ok {
        assert(after.key_components().len() == after.key_count());
    }
}

/// With group `G` required and a non-empty group prefix on the bucket, a
/// token whose groups are all the bare `G` grants nothing; so
/// `can_action` denies it.
pub proof fn lemma_bare_group_denied(cfg: SSOAuthConfig, a: Action, bucket: S3Bucket, token: Seq<char>)
    requires
        required_group(cfg, a) is Some,
        bucket.sso_group_prefix is Some,
        bucket.sso_group_prefix.unwrap()@.len() > 0,
        groups_of(claim_in(token_claims(token), cfg.groups_claim@)) is Some,
        forall|i: int|
            0 <= i < groups_of(claim_in(token_claims(token), cfg.groups_claim@)).unwrap().len()
                ==> #[trigger] groups_of(claim_in(token_claims(token), cfg.groups_claim@)).unwrap()[i]
                == required_group(cfg, a).unwrap()@,
    ensures
        !token_grants(cfg, a, bucket, token),
{
    let gs = groups_of(claim_in(token_claims(token), cfg.groups_claim@)).unwrap();
    let g = required_group(cfg, a).unwrap()@;
    let wanted = bucket.sso_group_prefix.unwrap()@ + g;
    assert(wanted.len() > g.len());
    if gs.contains(wanted) {
        let i = choose|i: int| 0 <= i < gs.len() && gs[i] == wanted;
        assert(gs[i] == g);
    }
}

} // verus!
