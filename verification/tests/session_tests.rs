use session_auth::claims::RefreshTokenClaims;
use session_auth::cookies::Jar;
use session_auth::errors::ErrorCode;
use session_auth::session::{get_authed_user, set_authed_user, MemoryUserStore};
use session_auth::token::TokenCodec;
use session_auth::user::{User, UserResult};
use session_auth::{ACCESS_TOKEN_DURATION, REFRESH_TOKEN_DURATION};

const NOW: u64 = 1700000000;

fn codec() -> TokenCodec {
    match TokenCodec::new(b"a very private secret".to_vec()) {
        Ok(c) => c,
        Err(_) => panic!("secret was rejected"),
    }
}

fn alice() -> User {
    User {
        id: b"user-1".to_vec(),
        email: b"alice@example.com".to_vec(),
        password: b"argon2-hash".to_vec(),
        created_at: 0,
        updated_at: 0,
    }
}

fn store_with_alice() -> MemoryUserStore {
    MemoryUserStore { users: vec![alice()] }
}

fn jar_with_refresh_token(c: &TokenCodec, token_id: &[u8], exp: u64) -> Jar {
    let claims = RefreshTokenClaims {
        sub: token_id.to_vec(),
        user_id: b"user-1".to_vec(),
        exp,
    };
    let token = c.encode_refresh_claims(&claims);
    let mut header = b"refresh_token=".to_vec();
    header.extend_from_slice(&token);
    Jar::from_request(&header)
}

fn expect_unauthorized(r: UserResult, message: &str) {
    match r {
        UserResult::GeneralError(g) => {
            assert!(matches!(g.code, ErrorCode::Unauthorized));
            assert_eq!(g.message, message);
        },
        _ => panic!("expected an unauthorized outcome"),
    }
}

#[test]
fn refresh_path_rotates_both_cookies() {
    let c = codec();
    let mut jar = jar_with_refresh_token(&c, b"old-token-id", NOW + 1000);
    let mut store = store_with_alice();
    let r = get_authed_user(&c, &mut store, &mut jar, NOW);
    match r {
        UserResult::User(u) => assert_eq!(u.id, b"user-1".to_vec()),
        _ => panic!("expected an authenticated outcome"),
    }
    let delta = jar.delta();
    assert_eq!(delta.len(), 2);
    assert_eq!(delta[0].name, b"access_token".to_vec());
    assert_eq!(delta[1].name, b"refresh_token".to_vec());
    let access = c.decode_access_token(&delta[0].value).expect("fresh access token decodes");
    assert_eq!(access.sub, b"user-1".to_vec());
    assert_eq!(access.exp, NOW + ACCESS_TOKEN_DURATION);
    let refresh = c.decode_refresh_token(&delta[1].value).expect("fresh refresh token decodes");
    assert_eq!(refresh.user_id, b"user-1".to_vec());
    assert_eq!(refresh.exp, NOW + REFRESH_TOKEN_DURATION);
    assert_ne!(refresh.sub, b"old-token-id".to_vec());
    assert_eq!(refresh.sub.len(), 21);
    assert_eq!(delta[0].max_age as u64, ACCESS_TOKEN_DURATION);
    assert_eq!(delta[1].max_age as u64, REFRESH_TOKEN_DURATION);
    for cookie in delta {
        assert_eq!(cookie.domain, b"localhost".to_vec());
        assert_eq!(cookie.path, b"/".to_vec());
        assert!(cookie.secure);
        assert!(cookie.http_only);
    }
}

#[test]
fn invalid_access_token_does_not_fall_back() {
    let c = codec();
    let claims = RefreshTokenClaims {
        sub: b"old-token-id".to_vec(),
        user_id: b"user-1".to_vec(),
        exp: NOW + 1000,
    };
    let refresh = c.encode_refresh_claims(&claims);
    let mut header = b"access_token=not.a.token; refresh_token=".to_vec();
    header.extend_from_slice(&refresh);
    let mut jar = Jar::from_request(&header);
    let mut store = store_with_alice();
    let r = get_authed_user(&c, &mut store, &mut jar, NOW);
    expect_unauthorized(r, "access token is invalid");
    assert!(jar.delta().is_empty());
}

#[test]
fn expired_refresh_token_terminates_the_session() {
    let c = codec();
    let mut jar = jar_with_refresh_token(&c, b"old-token-id", NOW - 1);
    let mut store = store_with_alice();
    let r = get_authed_user(&c, &mut store, &mut jar, NOW);
    expect_unauthorized(r, "token has expired");
    assert!(jar.delta().is_empty());
}

#[test]
fn refresh_token_expiring_now_is_already_expired() {
    let c = codec();
    let mut jar = jar_with_refresh_token(&c, b"old-token-id", NOW);
    let mut store = store_with_alice();
    let r = get_authed_user(&c, &mut store, &mut jar, NOW);
    expect_unauthorized(r, "token has expired");
    let mut jar2 = jar_with_refresh_token(&c, b"old-token-id", NOW + 1);
    let r2 = get_authed_user(&c, &mut store, &mut jar2, NOW);
    assert!(matches!(r2, UserResult::User(_)));
}

#[test]
fn no_cookies_means_no_token_provided() {
    let c = codec();
    let mut jar = Jar::from_request(&Vec::new());
    let mut store = store_with_alice();
    let r = get_authed_user(&c, &mut store, &mut jar, NOW);
    expect_unauthorized(r, "no token was provided");
    assert!(jar.delta().is_empty());
}

#[test]
fn garbled_refresh_token_is_invalid() {
    let c = codec();
    let mut jar = Jar::from_request(&b"refresh_token=gibberish".to_vec());
    let mut store = store_with_alice();
    let r = get_authed_user(&c, &mut store, &mut jar, NOW);
    expect_unauthorized(r, "invalid token");
    assert!(jar.delta().is_empty());
}

#[test]
fn unknown_user_on_refresh_leaves_jar_alone() {
    let c = codec();
    let mut jar = jar_with_refresh_token(&c, b"old-token-id", NOW + 1000);
    let mut store = MemoryUserStore { users: Vec::new() };
    let r = get_authed_user(&c, &mut store, &mut jar, NOW);
    match r {
        UserResult::GeneralError(g) => {
            assert!(matches!(g.code, ErrorCode::NotFound));
            assert_eq!(g.message, "user not found");
        },
        _ => panic!("expected a not-found outcome"),
    }
    assert!(jar.delta().is_empty());
}

#[test]
fn establish_then_resolve_does_not_rotate_again() {
    let c = codec();
    let mut jar = Jar::new();
    set_authed_user(&c, &alice(), &mut jar, NOW);
    let delta_before: Vec<Vec<u8>> = jar.delta().into_iter().map(|ck| ck.value).collect();
    assert_eq!(delta_before.len(), 2);
    let mut store = store_with_alice();
    let r = get_authed_user(&c, &mut store, &mut jar, NOW);
    match r {
        UserResult::User(u) => {
            assert_eq!(u.id, b"user-1".to_vec());
            assert_eq!(u.email, b"alice@example.com".to_vec());
        },
        _ => panic!("expected an authenticated outcome"),
    }
    let delta_after: Vec<Vec<u8>> = jar.delta().into_iter().map(|ck| ck.value).collect();
    assert_eq!(delta_before, delta_after);
}

#[test]
fn access_token_expiring_now_falls_to_refresh_and_rotates() {
    let c = codec();
    let mut jar = Jar::new();
    set_authed_user(&c, &alice(), &mut jar, NOW);
    let minted: Vec<Vec<u8>> = jar.delta().into_iter().map(|ck| ck.value).collect();
    let mut store = store_with_alice();
    // One second before the access token expires it still authenticates and
    // nothing is rotated.
    let r = get_authed_user(&c, &mut store, &mut jar, NOW + ACCESS_TOKEN_DURATION - 1);
    assert!(matches!(r, UserResult::User(_)));
    let same: Vec<Vec<u8>> = jar.delta().into_iter().map(|ck| ck.value).collect();
    assert_eq!(minted, same);
    // At the expiry second the access token is already expired: the refresh
    // path runs and mints a new pair.
    let r2 = get_authed_user(&c, &mut store, &mut jar, NOW + ACCESS_TOKEN_DURATION);
    assert!(matches!(r2, UserResult::User(_)));
    let rotated: Vec<Vec<u8>> = jar.delta().into_iter().map(|ck| ck.value).collect();
    assert_eq!(rotated.len(), 2);
    assert_ne!(minted, rotated);
}

#[test]
fn sign_out_clears_both_cookies() {
    let c = codec();
    let mut jar = jar_with_refresh_token(&c, b"old-token-id", NOW + 1000);
    let mut store = store_with_alice();
    let r = get_authed_user(&c, &mut store, &mut jar, NOW);
    assert!(matches!(r, UserResult::User(_)));
    session_auth::session::sign_out(&mut jar);
    assert_eq!(jar.get(&b"access_token".to_vec()), None);
    assert_eq!(jar.get(&b"refresh_token".to_vec()), None);
    let delta = jar.delta();
    // The request carried a refresh cookie, so its removal must be sent; the
    // access cookie never reached the client and needs no removal.
    assert_eq!(delta.len(), 1);
    assert_eq!(delta[0].name, b"refresh_token".to_vec());
    assert!(delta[0].max_age <= 0);
}

#[test]
fn resolve_identity_uses_the_real_clock() {
    let c = codec();
    let now = chrono::Utc::now().timestamp() as u64;
    let mut jar = Jar::new();
    set_authed_user(&c, &alice(), &mut jar, now);
    let mut store = store_with_alice();
    let r = session_auth::session::resolve_identity(&c, &mut store, &mut jar);
    match r {
        UserResult::User(u) => assert_eq!(u.id, b"user-1".to_vec()),
        _ => panic!("expected an authenticated outcome"),
    }
}
