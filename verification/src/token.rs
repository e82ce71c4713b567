//! Signing and verifying the compact token format: base64url(header) "."
//! base64url(claims JSON) "." base64url(HMAC-SHA512 of the first two parts),
//! all under one shared secret.
//!
//! The framing, the claim serialization and the parsing are verified; only
//! the keyed hash itself is an outside call, named `hs512_tag`.
use vstd::prelude::*;

verus! {

use crate::b64::{b64_decode, b64_decode_spec, b64_encode, b64_encode_spec, lemma_b64_encode_alphabet, lemma_b64_round_trip};
use crate::claims::{AccessTokenClaims, RefreshTokenClaims, access_json, access_json_bytes, lemma_parse_access_json, lemma_parse_refresh_json, parse_access_json, parse_access_spec, parse_refresh_json, parse_refresh_spec, push_all, refresh_json, refresh_json_bytes};
use crate::user::User;
use crate::util::{bytes_eq, subvec};

/// What HMAC-SHA512 signing returns, base64url-encoded: a function of the
/// message and the secret alone.
pub uninterp spec fn hs512_tag(message: Seq<u8>, secret: Seq<u8>) -> Seq<u8>;

/// Relies on jsonwebtoken::crypto::sign with Algorithm::HS512 and a key from
/// EncodingKey::from_secret: for the HMAC algorithms it always returns Ok of
/// the base64url-encoded HMAC-SHA512 of the message under the secret, a
/// value determined by the message and the secret alone, so the unwrap
/// cannot fail.
#[verifier::external_body]
fn hs512_sign(message: &Vec<u8>, secret: &Vec<u8>) -> (r: Vec<u8>)
    ensures
        r@ == hs512_tag(message@, secret@),
{
    jsonwebtoken::crypto::sign(
        message.as_slice(),
        &jsonwebtoken::EncodingKey::from_secret(secret.as_slice()),
        jsonwebtoken::Algorithm::HS512,
    ).unwrap().into_bytes()
}

/// Relies on nanoid::format with nanoid::rngs::default and the url-safe
/// alphabet (what the nanoid macro expands to): a random identifier of 21
/// ASCII letters, digits, '-' or '_'; nothing is assumed about which one.
#[verifier::external_body]
fn fresh_token_id() -> (r: Vec<u8>)
    ensures
        r@.len() == 21,
        forall|i: int| 0 <= i < r@.len() ==> crate::b64::is_b64_byte(#[trigger] r@[i]),
{
    nanoid::format(nanoid::rngs::default, &nanoid::alphabet::SAFE, 21).into_bytes()
}

/// The bytes of the fixed token header `{"typ":"JWT","alg":"HS512"}`.
pub open spec fn header_json() -> Seq<u8> {
    seq![
        123u8, 34, 116, 121, 112, 34, 58, 34, 74, 87, 84, 34, 44, 34, 97, 108, 103, 34, 58, 34,
        72, 83, 53, 49, 50, 34, 125,
    ]
}

/// A signed token over a claims payload: the two base64url parts joined by
/// a dot, then a dot and the keyed hash of everything before it.
pub open spec fn signed_token(payload: Seq<u8>, secret: Seq<u8>) -> Seq<u8> {
    let msg = b64_encode_spec(header_json()) + seq![46u8] + b64_encode_spec(payload);
    msg + seq![46u8] + hs512_tag(msg, secret)
}

/// The one token that carries given access claims under a secret.
pub open spec fn access_token_spec(sub: Seq<u8>, email: Seq<u8>, exp: u64, secret: Seq<u8>) -> Seq<
    u8,
> {
    signed_token(access_json(sub, email, exp), secret)
}

/// The one token that carries given refresh claims under a secret.
pub open spec fn refresh_token_spec(
    sub: Seq<u8>,
    user_id: Seq<u8>,
    exp: u64,
    secret: Seq<u8>,
) -> Seq<u8> {
    signed_token(refresh_json(sub, user_id, exp), secret)
}

/// The position of the first dot at or after a position; the length when
/// there is none.
pub open spec fn first_dot(v: Seq<u8>, i: int) -> int
    decreases v.len() - i,
{
    if i < 0 || i >= v.len() {
        v.len() as int
    } else if v[i] == 46 {
        i
    } else {
        first_dot(v, i + 1)
    }
}

/// A token split at its first two dots: header part, payload part, and
/// everything after the second dot.
pub open spec fn split3(v: Seq<u8>) -> Option<(Seq<u8>, Seq<u8>, Seq<u8>)> {
    let d1 = first_dot(v, 0);
    if d1 == v.len() {
        None
    } else {
        let d2 = first_dot(v, d1 + 1);
        if d2 == v.len() {
            None
        } else {
            Some(
                (
                    v.subrange(0, d1),
                    v.subrange(d1 + 1, d2),
                    v.subrange(d2 + 1, v.len() as int),
                ),
            )
        }
    }
}

/// What decoding an access token returns: the claims whose canonical token
/// equals the input, and nothing on any other input.
pub open spec fn decode_access_spec(t: Seq<u8>, secret: Seq<u8>) -> Option<(Seq<u8>, Seq<u8>, u64)> {
    match split3(t) {
        None => None,
        Some((h, p, _sig)) => {
            if h != b64_encode_spec(header_json()) {
                None
            } else {
                match b64_decode_spec(p) {
                    None => None,
                    Some(payload) => match parse_access_spec(payload) {
                        None => None,
                        Some((sub, email, exp)) => if t == access_token_spec(
                            sub,
                            email,
                            exp,
                            secret,
                        ) {
                            Some((sub, email, exp))
                        } else {
                            None
                        },
                    },
                }
            }
        },
    }
}

/// What decoding a refresh token returns, in the same way.
pub open spec fn decode_refresh_spec(t: Seq<u8>, secret: Seq<u8>) -> Option<
    (Seq<u8>, Seq<u8>, u64),
> {
    match split3(t) {
        None => None,
        Some((h, p, _sig)) => {
            if h != b64_encode_spec(header_json()) {
                None
            } else {
                match b64_decode_spec(p) {
                    None => None,
                    Some(payload) => match parse_refresh_spec(payload) {
                        None => None,
                        Some((sub, user_id, exp)) => if t == refresh_token_spec(
                            sub,
                            user_id,
                            exp,
                            secret,
                        ) {
                            Some((sub, user_id, exp))
                        } else {
                            None
                        },
                    },
                }
            }
        },
    }
}

/// Anything an access decode accepts is the canonical token of the claims
/// it returns: a tampered byte that still decodes would have to reproduce
/// the whole signed token.
pub proof fn lemma_decode_access_sound(t: Seq<u8>, secret: Seq<u8>)
    ensures
        match decode_access_spec(t, secret) {
            Some(c) => t == access_token_spec(c.0, c.1, c.2, secret),
            None => true,
        },
{
}

/// Anything a refresh decode accepts is the canonical token of the claims
/// it returns.
pub proof fn lemma_decode_refresh_sound(t: Seq<u8>, secret: Seq<u8>)
    ensures
        match decode_refresh_spec(t, secret) {
            Some(c) => t == refresh_token_spec(c.0, c.1, c.2, secret),
            None => true,
        },
{
}

/// In a sequence made of a dot-free part, a dot and a tail, the first dot
/// search from the part's start finds exactly that dot.
proof fn lemma_first_dot_at(v: Seq<u8>, i: int, j: int)
    requires
        0 <= i <= j < v.len(),
        forall|k: int| i <= k < j ==> v[k] != 46,
        v[j] == 46,
    ensures
        first_dot(v, i) == j,
    decreases j - i,
{
    if i < j {
        lemma_first_dot_at(v, i + 1, j);
    }
}

/// Decoding inverts encoding: the canonical access token of any claims
/// decodes to exactly those claims.
pub proof fn lemma_access_round_trip(sub: Seq<u8>, email: Seq<u8>, exp: u64, secret: Seq<u8>)
    ensures
        decode_access_spec(access_token_spec(sub, email, exp, secret), secret) == Some(
            (sub, email, exp),
        ),
{
    let h = b64_encode_spec(header_json());
    let p = b64_encode_spec(access_json(sub, email, exp));
    let msg = h + seq![46u8] + p;
    let t = access_token_spec(sub, email, exp, secret);
    let nh = h.len() as int;
    let np = p.len() as int;
    lemma_b64_encode_alphabet(header_json());
    lemma_b64_encode_alphabet(access_json(sub, email, exp));
    assert(t[nh] == 46);
    assert forall|k: int| 0 <= k < nh implies t[k] != 46 by {
        assert(t[k] == h[k]);
        assert(crate::b64::is_b64_byte(h[k]));
    }
    lemma_first_dot_at(t, 0, nh);
    assert(t[nh + 1 + np] == 46);
    assert forall|k: int| nh + 1 <= k < nh + 1 + np implies t[k] != 46 by {
        assert(t[k] == p[k - nh - 1]);
        assert(crate::b64::is_b64_byte(p[k - nh - 1]));
    }
    lemma_first_dot_at(t, nh + 1, nh + 1 + np);
    assert(t.subrange(0, nh) =~= h);
    assert(t.subrange(nh + 1, nh + 1 + np) =~= p);
    lemma_b64_round_trip(access_json(sub, email, exp));
    lemma_parse_access_json(sub, email, exp);
}

/// Decoding inverts encoding for refresh tokens as well.
pub proof fn lemma_refresh_round_trip(sub: Seq<u8>, user_id: Seq<u8>, exp: u64, secret: Seq<u8>)
    ensures
        decode_refresh_spec(refresh_token_spec(sub, user_id, exp, secret), secret) == Some(
            (sub, user_id, exp),
        ),
{
    let h = b64_encode_spec(header_json());
    let p = b64_encode_spec(refresh_json(sub, user_id, exp));
    let t = refresh_token_spec(sub, user_id, exp, secret);
    let nh = h.len() as int;
    let np = p.len() as int;
    lemma_b64_encode_alphabet(header_json());
    lemma_b64_encode_alphabet(refresh_json(sub, user_id, exp));
    assert(t[nh] == 46);
    assert forall|k: int| 0 <= k < nh implies t[k] != 46 by {
        assert(t[k] == h[k]);
        assert(crate::b64::is_b64_byte(h[k]));
    }
    lemma_first_dot_at(t, 0, nh);
    assert(t[nh + 1 + np] == 46);
    assert forall|k: int| nh + 1 <= k < nh + 1 + np implies t[k] != 46 by {
        assert(t[k] == p[k - nh - 1]);
        assert(crate::b64::is_b64_byte(p[k - nh - 1]));
    }
    lemma_first_dot_at(t, nh + 1, nh + 1 + np);
    assert(t.subrange(0, nh) =~= h);
    assert(t.subrange(nh + 1, nh + 1 + np) =~= p);
    lemma_b64_round_trip(refresh_json(sub, user_id, exp));
    lemma_parse_refresh_json(sub, user_id, exp);
}

/// Two different access claim sets never share a token under one secret.
pub proof fn lemma_access_token_injective(
    s1: Seq<u8>,
    e1: Seq<u8>,
    x1: u64,
    s2: Seq<u8>,
    e2: Seq<u8>,
    x2: u64,
    secret: Seq<u8>,
)
    requires
        access_token_spec(s1, e1, x1, secret) == access_token_spec(s2, e2, x2, secret),
    ensures
        s1 == s2 && e1 == e2 && x1 == x2,
{
    lemma_access_round_trip(s1, e1, x1, secret);
    lemma_access_round_trip(s2, e2, x2, secret);
}

/// Two different refresh claim sets never share a token under one secret.
pub proof fn lemma_refresh_token_injective(
    s1: Seq<u8>,
    u1: Seq<u8>,
    x1: u64,
    s2: Seq<u8>,
    u2: Seq<u8>,
    x2: u64,
    secret: Seq<u8>,
)
    requires
        refresh_token_spec(s1, u1, x1, secret) == refresh_token_spec(s2, u2, x2, secret),
    ensures
        s1 == s2 && u1 == u2 && x1 == x2,
{
    lemma_refresh_round_trip(s1, u1, x1, secret);
    lemma_refresh_round_trip(s2, u2, x2, secret);
}

/// The error of building a codec without a usable secret: a missing or
/// empty secret is a startup fault, not a per-request one.
pub enum ConfigError {
    MissingSecret,
}

/// Signs and verifies both token kinds under one shared secret.
pub struct TokenCodec {
    secret: Vec<u8>,
}

impl TokenCodec {
    /// The configured secret.
    pub closed spec fn secret_bytes(&self) -> Seq<u8> {
        self.secret@
    }

    /// A codec is well formed once it holds a non-empty secret.
    pub open spec fn wf(&self) -> bool {
        self.secret_bytes().len() > 0
    }

    /// Configure the codec; an absent (empty) secret is refused.
    pub fn new(secret: Vec<u8>) -> (r: Result<TokenCodec, ConfigError>)
        ensures
            match r {
                Ok(c) => secret@.len() > 0 && c.wf() && c.secret_bytes() == secret@,
                Err(e) => secret@.len() == 0 && e is MissingSecret,
            },
    {
        if secret.len() == 0 {
            Err(ConfigError::MissingSecret)
        } else {
            Ok(TokenCodec { secret })
        }
    }

    /// Frame and sign a claims payload.
    fn sign_payload(&self, payload: &Vec<u8>) -> (r: Vec<u8>)
        ensures
            r@ == signed_token(payload@, self.secret_bytes()),
    {
        let header: Vec<u8> = vec![
            123u8, 34, 116, 121, 112, 34, 58, 34, 74, 87, 84, 34, 44, 34, 97, 108, 103, 34, 58,
            34, 72, 83, 53, 49, 50, 34, 125,
        ];
        assert(header@ =~= header_json());
        let mut msg = b64_encode(&header);
        msg.push(46);
        let p64 = b64_encode(payload);
        push_all(&mut msg, &p64);
        proof {
            assert(msg@ =~= b64_encode_spec(header_json()) + seq![46u8] + b64_encode_spec(
                payload@,
            ));
        }
        let tag = hs512_sign(&msg, &self.secret);
        let mut out = msg;
        out.push(46);
        push_all(&mut out, &tag);
        proof {
            assert(out@ =~= signed_token(payload@, self.secret_bytes()));
        }
        out
    }

    /// The canonical token of given access claims.
    pub fn encode_access_claims(&self, c: &AccessTokenClaims) -> (r: Vec<u8>)
        ensures
            r@ == access_token_spec(c.sub@, c.email@, c.exp, self.secret_bytes()),
    {
        let payload = access_json_bytes(&c.sub, &c.email, c.exp);
        self.sign_payload(&payload)
    }

    /// The canonical token of given refresh claims.
    pub fn encode_refresh_claims(&self, c: &RefreshTokenClaims) -> (r: Vec<u8>)
        ensures
            r@ == refresh_token_spec(c.sub@, c.user_id@, c.exp, self.secret_bytes()),
    {
        let payload = refresh_json_bytes(&c.sub, &c.user_id, c.exp);
        self.sign_payload(&payload)
    }

    /// Mint an access token for a user, expiring a fixed duration past
    /// `now`.
    pub fn create_access_token(&self, user: &User, now: u64) -> (r: Vec<u8>)
        requires
            now + crate::ACCESS_TOKEN_DURATION <= u64::MAX,
        ensures
            r@ == access_token_spec(
                user.id@,
                user.email@,
                (now + crate::ACCESS_TOKEN_DURATION) as u64,
                self.secret_bytes(),
            ),
    {
        let claims = AccessTokenClaims {
            sub: crate::util::copy_bytes(&user.id),
            email: crate::util::copy_bytes(&user.email),
            exp: now + crate::ACCESS_TOKEN_DURATION,
        };
        self.encode_access_claims(&claims)
    }

    /// Mint a refresh token for a user with a fresh random token id,
    /// expiring a fixed duration past `now`.
    pub fn create_refresh_token(&self, user: &User, now: u64) -> (r: Vec<u8>)
        requires
            now + crate::REFRESH_TOKEN_DURATION <= u64::MAX,
        ensures
            exists|tid: Seq<u8>|
                r@ == #[trigger] refresh_token_spec(
                    tid,
                    user.id@,
                    (now + crate::REFRESH_TOKEN_DURATION) as u64,
                    self.secret_bytes(),
                ) && tid.len() == 21,
    {
        let tid = fresh_token_id();
        let claims = RefreshTokenClaims {
            sub: tid,
            user_id: crate::util::copy_bytes(&user.id),
            exp: now + crate::REFRESH_TOKEN_DURATION,
        };
        let r = self.encode_refresh_claims(&claims);
        proof {
            assert(r@ == refresh_token_spec(
                claims.sub@,
                user.id@,
                (now + crate::REFRESH_TOKEN_DURATION) as u64,
                self.secret_bytes(),
            ));
        }
        r
    }

    /// Verify and read an access token: returns the claims exactly when the
    /// input is the canonical signed token of some access claims, and
    /// nothing on malformed input, a signature mismatch, or an algorithm
    /// mismatch. Expiry is not checked here; that is the caller's step.
    pub fn decode_access_token(&self, token: &Vec<u8>) -> (r: Option<AccessTokenClaims>)
        ensures
            match r {
                Some(c) => decode_access_spec(token@, self.secret_bytes()) == Some(
                    (c.sub@, c.email@, c.exp),
                ),
                None => decode_access_spec(token@, self.secret_bytes()) is None,
            },
    {
        let n = token.len();
        let d1 = find_dot(token, 0);
        if d1 == n {
            return None;
        }
        let d2 = find_dot(token, d1 + 1);
        if d2 == n {
            return None;
        }
        let h = subvec(token, 0, d1);
        let p = subvec(token, d1 + 1, d2);
        let header: Vec<u8> = vec![
            123u8, 34, 116, 121, 112, 34, 58, 34, 74, 87, 84, 34, 44, 34, 97, 108, 103, 34, 58,
            34, 72, 83, 53, 49, 50, 34, 125,
        ];
        assert(header@ =~= header_json());
        let h_expect = b64_encode(&header);
        if !bytes_eq(&h, &h_expect) {
            return None;
        }
        let payload = match b64_decode(&p) {
            Some(x) => x,
            None => {
                return None;
            },
        };
        let c = match parse_access_json(&payload) {
            Some(c) => c,
            None => {
                return None;
            },
        };
        let canon = self.encode_access_claims(&c);
        if bytes_eq(token, &canon) {
            Some(c)
        } else {
            None
        }
    }

    /// Verify and read a refresh token, in the same way.
    pub fn decode_refresh_token(&self, token: &Vec<u8>) -> (r: Option<RefreshTokenClaims>)
        ensures
            match r {
                Some(c) => decode_refresh_spec(token@, self.secret_bytes()) == Some(
                    (c.sub@, c.user_id@, c.exp),
                ),
                None => decode_refresh_spec(token@, self.secret_bytes()) is None,
            },
    {
        let n = token.len();
        let d1 = find_dot(token, 0);
        if d1 == n {
            return None;
        }
        let d2 = find_dot(token, d1 + 1);
        if d2 == n {
            return None;
        }
        let h = subvec(token, 0, d1);
        let p = subvec(token, d1 + 1, d2);
        let header: Vec<u8> = vec![
            123u8, 34, 116, 121, 112, 34, 58, 34, 74, 87, 84, 34, 44, 34, 97, 108, 103, 34, 58,
            34, 72, 83, 53, 49, 50, 34, 125,
        ];
        assert(header@ =~= header_json());
        let h_expect = b64_encode(&header);
        if !bytes_eq(&h, &h_expect) {
            return None;
        }
        let payload = match b64_decode(&p) {
            Some(x) => x,
            None => {
                return None;
            },
        };
        let c = match parse_refresh_json(&payload) {
            Some(c) => c,
            None => {
                return None;
            },
        };
        let canon = self.encode_refresh_claims(&c);
        if bytes_eq(token, &canon) {
            Some(c)
        } else {
            None
        }
    }
}

/// The position of the first dot at or after `start`, or the length.
fn find_dot(v: &Vec<u8>, start: usize) -> (r: usize)
    requires
        start <= v@.len(),
    ensures
        r as int == first_dot(v@, start as int),
        start <= r <= v@.len(),
{
    let n = v.len();
    let mut i: usize = start;
    while i < n
        invariant
            start <= i <= n,
            n == v@.len(),
            first_dot(v@, start as int) == first_dot(v@, i as int),
        decreases n - i,
    {
        if v[i] == 46 {
            return i;
        }
        i = i + 1;
    }
    n
}

} // verus!
