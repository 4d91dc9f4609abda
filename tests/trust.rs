use s3clix::config::{HostAccessStyle, S3Bucket};
use s3clix::sso::{
    default_alg, default_cookie_name, default_groups, default_scope, default_username,
    identity_from_claims, Action, ClaimValue, JWKey, Jwks, RedirectCode, SSOAuthConfig, SSOConfig,
    SsoError, WellKnownConfiguration,
};

const RFC_N: &str = "0vx7agoebGcQSuuPiLJXZptN9nndrQmbXEps2aiAFbWhM78LhWx4cbbfAAtVT86zwu1RK7aPFFxuhDR1L6tSoc_BJECPebWKRXjBZCiFV4n3oknjhMstn64tZ_2W-5JsGY4Hc5n9yBXArwl93lqt7_RN5w6Cf0h4QyQ5v-65YGjQR0_FDW2QvzqY368QQMicAtaSqzs8KJZgnYb9c7d0zgdAZHzu6qMQvRL5hajrn1n91CbOpbISD08qNLyrdkt-bFTWhAI4vMQFh6WeZu0fM4lFd2NcRwr3XPksINHaQ-G_xBniIqbw0Ls1jF44-csFCur-kEgU8awapJzKnqDKgw";

fn bucket(alias: &str, prefix: Option<&str>) -> S3Bucket {
    S3Bucket {
        alias: alias.to_string(),
        cdn_url: String::new(),
        make_public: false,
        style: HostAccessStyle::Path,
        bucket: alias.to_string(),
        access_key: "xxx".to_string(),
        secret_key: "xxxx".to_string(),
        url: "xxxx".to_string(),
        sso_group_prefix: prefix.map(|p| p.to_string()),
        guess_mime: false,
        timeout: 10,
        tries: 2,
    }
}

fn policy(upload_group: Option<&str>) -> SSOAuthConfig {
    let mut c = SSOAuthConfig::default();
    c.client_id = "s3clix".to_string();
    c.redirect = "http://localhost:8080/_redirect/".to_string();
    c.resource = "s3clix".to_string();
    c.secret = "XXXXXXXXXXXXXXX".to_string();
    c.upload_group = upload_group.map(|g| g.to_string());
    c
}

fn key(alg: &str, n: &str) -> JWKey {
    JWKey {
        alg: alg.to_string(),
        key_use: "sig".to_string(),
        kid: "k1".to_string(),
        e: "AQAB".to_string(),
        kty: "RSA".to_string(),
        n: n.to_string(),
    }
}

fn discovery() -> WellKnownConfiguration {
    WellKnownConfiguration {
        authorization_endpoint: "https://login.example.com/authorize".to_string(),
        token_endpoint: "https://login.example.com/token".to_string(),
        jwks_uri: "https://login.example.com/keys".to_string(),
    }
}

#[test]
fn policy_defaults() {
    assert_eq!(default_alg(), "RS256");
    assert_eq!(default_username(), "username");
    assert_eq!(default_groups(), "groups");
    assert_eq!(default_scope(), "openid");
    assert_eq!(default_cookie_name(), "sessionid");
    let d = SSOAuthConfig::default();
    assert_eq!(d.cookie_name, "session");
    assert!(d.login_group.is_none());
}

#[test]
fn not_ready_before_refresh() {
    let s = SSOConfig::new(policy(None));
    assert!(!s.ready());
    assert_eq!(s.get_cookie_name(), "session");
}

#[test]
fn refresh_installs_rs256_keys_only() {
    let mut s = SSOConfig::new(policy(None));
    let jwks = Jwks { keys: vec![key("RS256", RFC_N), key("ES256", "???")] };
    assert!(s.update(discovery(), &jwks).is_ok());
    assert!(s.ready());
    assert_eq!(s.token_endpoint_url(), "https://login.example.com/token");
    assert_eq!(s.jwks_endpoint_url(), "https://login.example.com/keys");
}

#[test]
fn refresh_without_keys_is_not_ready() {
    let mut s = SSOConfig::new(policy(None));
    assert!(s.update(discovery(), &Jwks { keys: vec![] }).is_ok());
    assert!(!s.ready());
}

#[test]
fn failed_refresh_keeps_previous_state() {
    let mut s = SSOConfig::new(policy(None));
    assert!(s.update(discovery(), &Jwks { keys: vec![key("RS256", RFC_N)] }).is_ok());
    let mut other = discovery();
    other.token_endpoint = "https://elsewhere/token".to_string();
    let bad = Jwks { keys: vec![key("RS256", "not base64 !")] };
    assert!(matches!(s.update(other, &bad), Err(SsoError::KeyDecodeFailed)));
    assert!(s.ready());
    assert_eq!(s.token_endpoint_url(), "https://login.example.com/token");
}

#[test]
fn redirect_url_carries_client_parameters() {
    let mut s = SSOConfig::new(policy(None));
    assert!(matches!(s.build_redirect_url(), Err(SsoError::InvalidUrl)));
    s.update(discovery(), &Jwks { keys: vec![] }).unwrap();
    let url = s.build_redirect_url().unwrap();
    assert_eq!(
        url,
        "https://login.example.com/authorize?client_id=s3clix&redirect_uri=http%3A%2F%2Flocalhost%3A8080%2F_redirect%2F&response_type=code&scope=openid"
    );
}

#[test]
fn code_exchange_form_fields() {
    let s = SSOConfig::new(policy(None));
    let form = s.code_exchange_form(&RedirectCode { code: "abc".to_string() });
    assert_eq!(form.len(), 5);
    assert_eq!(form[0], ("code".to_string(), "abc".to_string()));
    assert_eq!(form[2], ("client_secret".to_string(), "XXXXXXXXXXXXXXX".to_string()));
    assert_eq!(form[4], ("grant_type".to_string(), "authorization_code".to_string()));
}

#[test]
fn identity_from_string_or_array_claims() {
    let (u, g) = identity_from_claims(
        ClaimValue::Text("alice".to_string()),
        ClaimValue::Text("staff".to_string()),
    )
    .unwrap();
    assert_eq!(u, "alice");
    assert_eq!(g, vec!["staff".to_string()]);
    let (_, g) = identity_from_claims(
        ClaimValue::Text("bob".to_string()),
        ClaimValue::List(vec![Some("a".to_string()), Some("b".to_string())]),
    )
    .unwrap();
    assert_eq!(g, vec!["a".to_string(), "b".to_string()]);
}

#[test]
fn malformed_claims_are_rejected() {
    assert!(matches!(
        identity_from_claims(ClaimValue::Missing, ClaimValue::Text("g".to_string())),
        Err(SsoError::ClaimsMalformed)
    ));
    assert!(matches!(
        identity_from_claims(ClaimValue::List(vec![]), ClaimValue::Text("g".to_string())),
        Err(SsoError::ClaimsMalformed)
    ));
    assert!(matches!(
        identity_from_claims(ClaimValue::Text("u".to_string()), ClaimValue::Other),
        Err(SsoError::ClaimsMalformed)
    ));
    assert!(matches!(
        identity_from_claims(
            ClaimValue::Text("u".to_string()),
            ClaimValue::List(vec![Some("a".to_string()), None]),
        ),
        Err(SsoError::ClaimsMalformed)
    ));
}

#[test]
fn no_group_configured_allows_any_token() {
    let s = SSOConfig::new(policy(None));
    let buckets = vec![bucket("main", None)];
    assert!(s.can_upload(&buckets, "garbage", None));
    assert!(s.can_view(&buckets, "garbage", Some("main")));
    assert!(s.can_delete(&buckets, "", None));
    assert!(!s.can_view(&buckets, "garbage", Some("other")));
}

#[test]
fn required_group_denies_unverifiable_token() {
    let mut s = SSOConfig::new(policy(Some("writers")));
    s.update(discovery(), &Jwks { keys: vec![key("RS256", RFC_N)] }).unwrap();
    let buckets = vec![bucket("main", None)];
    assert!(!s.can_action(Action::Upload, &buckets, "not.a.token", None));
    assert!(s.can_action(Action::View, &buckets, "not.a.token", None));
}

#[test]
fn prefixed_group_is_required_on_prefixed_bucket() {
    let s = SSOConfig::new(policy(Some("writers")));
    let b = bucket("main", Some("team-"));
    assert!(s.group_allowed(Action::Upload, &b, &vec!["team-writers".to_string()]));
    assert!(!s.group_allowed(Action::Upload, &b, &vec!["writers".to_string()]));
    let plain = bucket("plain", None);
    assert!(s.group_allowed(Action::Upload, &plain, &vec!["writers".to_string()]));
    assert!(s.group_allowed(Action::Delete, &b, &vec![]));
}

#[test]
fn refresh_rejects_key_that_is_no_rsa_key() {
    let mut s = SSOConfig::new(policy(None));
    let jwks = Jwks { keys: vec![key("RS256", "AAAA")] };
    assert!(matches!(s.update(discovery(), &jwks), Err(SsoError::KeyRejected)));
    assert!(!s.ready());
    assert_eq!(s.token_endpoint_url(), "");
}
