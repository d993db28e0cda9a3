use rustfox::model::{AuthSpec, OAuth2Token};
use rustfox::oauth_cache::{
    cached_token, clear_oauth2_token, clear_token, refreshed_token, reset_cache, same_token, store_token, TokenCache,
};

fn token() -> OAuth2Token {
    OAuth2Token {
        access_token: "at".into(),
        token_type: "Bearer".into(),
        refresh_token: Some("rt".into()),
        expires_at: 1_700_003_600,
    }
}

#[test]
fn store_read_clear_roundtrip() {
    let mut cache = TokenCache::new();
    reset_cache(&mut cache);
    assert!(cached_token(&cache, "c1", "https://t/x").is_none());
    store_token(&mut cache, "c1", "https://t/x", token());
    assert_eq!(cached_token(&cache, "c1", "https://t/x").unwrap().access_token, "at");
    // key 不同 → 相互隔离
    assert!(cached_token(&cache, "c1", "https://t/y").is_none());
    clear_token(&mut cache, "c1", "https://t/x");
    assert!(cached_token(&cache, "c1", "https://t/x").is_none());
}

#[test]
fn store_overwrites_previous() {
    let mut cache = TokenCache::new();
    reset_cache(&mut cache);
    let mut t = token();
    store_token(&mut cache, "k", "u", t.clone());
    t.access_token = "at-2".into();
    store_token(&mut cache, "k", "u", t);
    assert_eq!(cached_token(&cache, "k", "u").unwrap().access_token, "at-2");
}

#[test]
fn clear_leaves_other_keys_and_reset_empties() {
    let mut cache = TokenCache::new();
    store_token(&mut cache, "a", "u", token());
    let mut other = token();
    other.access_token = "b-token".into();
    other.refresh_token = None;
    store_token(&mut cache, "b", "u", other);
    clear_token(&mut cache, "a", "u");
    clear_token(&mut cache, "missing", "u");
    let b = cached_token(&cache, "b", "u").unwrap();
    assert_eq!(b.access_token, "b-token");
    assert!(b.refresh_token.is_none());
    assert_eq!(b.expires_at, 1_700_003_600);
    reset_cache(&mut cache);
    assert!(cached_token(&cache, "b", "u").is_none());
}

fn oauth2(token: Option<OAuth2Token>) -> AuthSpec {
    AuthSpec::OAuth2 {
        client_id: "c".into(),
        client_secret: "s".into(),
        auth_url: "https://a/auth".into(),
        token_url: "https://a/token".into(),
        scope: String::new(),
        redirect_uri: "http://127.0.0.1:9090/callback".into(),
        token,
    }
}

#[test]
fn refreshed_token_only_when_cache_differs() {
    let mut cache = TokenCache::new();
    assert!(refreshed_token(&cache, &oauth2(Some(token()))).is_none());
    store_token(&mut cache, "c", "https://a/token", token());
    assert!(refreshed_token(&cache, &oauth2(Some(token()))).is_none());
    assert_eq!(refreshed_token(&cache, &oauth2(None)).unwrap().access_token, "at");
    let mut newer = token();
    newer.access_token = "at-new".into();
    newer.expires_at += 3600;
    store_token(&mut cache, "c", "https://a/token", newer);
    let got = refreshed_token(&cache, &oauth2(Some(token()))).unwrap();
    assert_eq!(got.access_token, "at-new");
    assert!(refreshed_token(&cache, &AuthSpec::Bearer { token: "x".into() }).is_none());
}

#[test]
fn tokens_compared_field_by_field() {
    let a = token();
    let mut b = token();
    assert!(same_token(&a, &b));
    b.refresh_token = None;
    assert!(!same_token(&a, &b));
    let mut c = token();
    c.expires_at += 1;
    assert!(!same_token(&a, &c));
}

#[test]
fn clearing_oauth2_token_forgets_both_copies() {
    let mut cache = TokenCache::new();
    store_token(&mut cache, "c", "https://a/token", token());
    store_token(&mut cache, "other", "https://a/token", token());
    let mut auth = oauth2(Some(token()));
    clear_oauth2_token(&mut auth, &mut cache);
    assert!(matches!(&auth, AuthSpec::OAuth2 { token: None, client_id, .. } if client_id == "c"));
    assert!(cached_token(&cache, "c", "https://a/token").is_none());
    assert!(cached_token(&cache, "other", "https://a/token").is_some());
    let mut bearer = AuthSpec::Bearer { token: "t".into() };
    clear_oauth2_token(&mut bearer, &mut cache);
    assert!(matches!(&bearer, AuthSpec::Bearer { token } if token == "t"));
    assert!(cached_token(&cache, "other", "https://a/token").is_some());
}
