use session_auth::b64::{b64_decode, b64_encode};
use session_auth::claims::{AccessTokenClaims, RefreshTokenClaims};
use session_auth::token::TokenCodec;

fn codec(secret: &[u8]) -> TokenCodec {
    match TokenCodec::new(secret.to_vec()) {
        Ok(c) => c,
        Err(_) => panic!("secret was rejected"),
    }
}

#[test]
fn b64_encodes_known_bytes() {
    let out = b64_encode(&b"hello".to_vec());
    assert_eq!(out, b"aGVsbG8".to_vec());
    assert_eq!(b64_encode(&Vec::new()), Vec::<u8>::new());
    assert_eq!(b64_encode(&vec![251u8, 239]), b"--8".to_vec());
}

#[test]
fn b64_round_trips() {
    for len in 0..10usize {
        let data: Vec<u8> = (0..len as u8).map(|b| b.wrapping_mul(37).wrapping_add(11)).collect();
        let enc = b64_encode(&data);
        assert_eq!(b64_decode(&enc), Some(data));
    }
}

#[test]
fn b64_rejects_bad_input() {
    assert_eq!(b64_decode(&b"A".to_vec()), None);
    assert_eq!(b64_decode(&b"A!".to_vec()), None);
    assert_eq!(b64_decode(&b"AB.CD".to_vec()), None);
}

#[test]
fn access_token_round_trips() {
    let c = codec(b"a very private secret");
    let claims = AccessTokenClaims {
        sub: b"user-1".to_vec(),
        email: b"alice@example.com".to_vec(),
        exp: 4102444800,
    };
    let token = c.encode_access_claims(&claims);
    let back = c.decode_access_token(&token).expect("own token must decode");
    assert_eq!(back.sub, b"user-1".to_vec());
    assert_eq!(back.email, b"alice@example.com".to_vec());
    assert_eq!(back.exp, 4102444800);
}

#[test]
fn refresh_token_round_trips() {
    let c = codec(b"a very private secret");
    let claims = RefreshTokenClaims {
        sub: b"token-id-0".to_vec(),
        user_id: b"user-1".to_vec(),
        exp: 4102444800,
    };
    let token = c.encode_refresh_claims(&claims);
    let back = c.decode_refresh_token(&token).expect("own token must decode");
    assert_eq!(back.sub, b"token-id-0".to_vec());
    assert_eq!(back.user_id, b"user-1".to_vec());
    assert_eq!(back.exp, 4102444800);
}

#[test]
fn claims_with_quotes_and_backslashes_round_trip() {
    let c = codec(b"s3cret");
    let claims = AccessTokenClaims {
        sub: b"we\"ird\\id".to_vec(),
        email: b"quo\"te@ex\\ample.com".to_vec(),
        exp: 77,
    };
    let token = c.encode_access_claims(&claims);
    let back = c.decode_access_token(&token).expect("escaped claims must decode");
    assert_eq!(back.sub, b"we\"ird\\id".to_vec());
    assert_eq!(back.email, b"quo\"te@ex\\ample.com".to_vec());
    assert_eq!(back.exp, 77);
}

#[test]
fn tampering_with_any_byte_invalidates() {
    let c = codec(b"a very private secret");
    let claims = AccessTokenClaims {
        sub: b"user-1".to_vec(),
        email: b"alice@example.com".to_vec(),
        exp: 4102444800,
    };
    let token = c.encode_access_claims(&claims);
    for i in 0..token.len() {
        let mut broken = token.clone();
        broken[i] ^= 1;
        assert!(c.decode_access_token(&broken).is_none(), "byte {} flipped", i);
    }
}

#[test]
fn truncated_token_invalidates() {
    let c = codec(b"a very private secret");
    let claims = RefreshTokenClaims {
        sub: b"token-id-0".to_vec(),
        user_id: b"user-1".to_vec(),
        exp: 4102444800,
    };
    let token = c.encode_refresh_claims(&claims);
    let mut broken = token.clone();
    broken.pop();
    assert!(c.decode_refresh_token(&broken).is_none());
    assert!(c.decode_refresh_token(&Vec::new()).is_none());
}

#[test]
fn wrong_secret_invalidates() {
    let c1 = codec(b"first secret");
    let c2 = codec(b"second secret");
    let claims = AccessTokenClaims {
        sub: b"user-1".to_vec(),
        email: b"alice@example.com".to_vec(),
        exp: 4102444800,
    };
    let token = c1.encode_access_claims(&claims);
    assert!(c2.decode_access_token(&token).is_none());
    assert!(c1.decode_access_token(&token).is_some());
}

#[test]
fn empty_secret_is_a_config_error() {
    assert!(TokenCodec::new(Vec::new()).is_err());
    assert!(TokenCodec::new(b"x".to_vec()).is_ok());
}

#[test]
fn token_is_a_standard_jwt() {
    let secret = b"a very private secret";
    let c = codec(secret);
    let claims = AccessTokenClaims {
        sub: b"user-1".to_vec(),
        email: b"alice@example.com".to_vec(),
        exp: 4102444800,
    };
    let token = c.encode_access_claims(&claims);
    let token_str = String::from_utf8(token).expect("token is ASCII");
    let validation = jsonwebtoken::Validation::new(jsonwebtoken::Algorithm::HS512);
    let data = jsonwebtoken::decode::<serde_json::Value>(
        &token_str,
        &jsonwebtoken::DecodingKey::from_secret(secret),
        &validation,
    )
    .expect("jsonwebtoken must accept the token");
    assert_eq!(data.claims["sub"].as_str(), Some("user-1"));
    assert_eq!(data.claims["email"].as_str(), Some("alice@example.com"));
    assert_eq!(data.claims["exp"].as_u64(), Some(4102444800));
}

#[test]
fn wrong_algorithm_is_rejected() {
    // A token signed with HS256 instead of HS512 must not decode, even with
    // the right secret: its header differs from the HS512 header.
    let secret = b"a very private secret";
    let value: serde_json::Value =
        serde_json::from_str("{\"sub\":\"user-1\",\"email\":\"a@b.c\",\"exp\":4102444800}")
            .unwrap();
    let foreign = jsonwebtoken::encode(
        &jsonwebtoken::Header::new(jsonwebtoken::Algorithm::HS256),
        &value,
        &jsonwebtoken::EncodingKey::from_secret(secret),
    )
    .unwrap();
    let c = codec(secret);
    assert!(c.decode_access_token(&foreign.into_bytes()).is_none());
}
