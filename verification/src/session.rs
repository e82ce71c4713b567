//! The session state machine: resolve an identity from a cookie jar,
//! silently rotating the token pair when the access token has naturally
//! expired, and establish a new session after credential verification.
//!
//! The decisions are fully specified by `resolve_step` over the jar, the
//! secret and the clock; the persistence lookup is the one step the library
//! cannot decide, so it is taken through a trait and the contracts state
//! what holds for every value it may return.
use vstd::prelude::*;

verus! {

use crate::cookies::{
    Cookie,
    CookieData,
    Jar,
    JarData,
    jar_get,
    lemma_find_upsert_other,
    lemma_find_upsert_same,
    upsert,
};
use crate::errors::ErrorCode;
use crate::token::{
    TokenCodec,
    access_token_spec,
    decode_access_spec,
    decode_refresh_spec,
    lemma_access_round_trip,
    lemma_refresh_round_trip,
    lemma_refresh_token_injective,
    refresh_token_spec,
};
use crate::user::{User, UserResult, general_with};
use crate::util::bytes_eq;

/// The name of the access-token cookie, `access_token` in ASCII.
pub open spec fn access_cookie_name() -> Seq<u8> {
    seq![97u8, 99, 99, 101, 115, 115, 95, 116, 111, 107, 101, 110]
}

/// The name of the refresh-token cookie, `refresh_token` in ASCII.
pub open spec fn refresh_cookie_name() -> Seq<u8> {
    seq![114u8, 101, 102, 114, 101, 115, 104, 95, 116, 111, 107, 101, 110]
}

/// The fixed cookie domain, `localhost` in ASCII.
pub open spec fn cookie_domain() -> Seq<u8> {
    seq![108u8, 111, 99, 97, 108, 104, 111, 115, 116]
}

/// The fixed cookie path, `/` in ASCII.
pub open spec fn cookie_path() -> Seq<u8> {
    seq![47u8]
}

/// A token cookie as this module writes it: fixed domain and path, secure,
/// http-only, max-age equal to the token's duration.
pub open spec fn token_cookie(name: Seq<u8>, value: Seq<u8>, max_age: int) -> CookieData {
    CookieData {
        name,
        value,
        domain: cookie_domain(),
        path: cookie_path(),
        max_age,
        secure: true,
        http_only: true,
    }
}

/// The access cookie a session established at `now` carries.
pub open spec fn session_access_cookie(
    user_id: Seq<u8>,
    email: Seq<u8>,
    now: u64,
    secret: Seq<u8>,
) -> CookieData {
    token_cookie(
        access_cookie_name(),
        access_token_spec(user_id, email, (now + crate::ACCESS_TOKEN_DURATION) as u64, secret),
        crate::ACCESS_TOKEN_DURATION as int,
    )
}

/// The refresh cookie a session established at `now` carries, for a given
/// token id.
pub open spec fn session_refresh_cookie(
    tid: Seq<u8>,
    user_id: Seq<u8>,
    now: u64,
    secret: Seq<u8>,
) -> CookieData {
    token_cookie(
        refresh_cookie_name(),
        refresh_token_spec(tid, user_id, (now + crate::REFRESH_TOKEN_DURATION) as u64, secret),
        crate::REFRESH_TOKEN_DURATION as int,
    )
}

/// A jar after a fresh token pair is written for a user: both cookies set
/// together, nothing else touched.
pub open spec fn jar_with_session(
    j: JarData,
    user_id: Seq<u8>,
    email: Seq<u8>,
    tid: Seq<u8>,
    now: u64,
    secret: Seq<u8>,
) -> JarData {
    JarData {
        originals: j.originals,
        changes: upsert(
            upsert(j.changes, session_access_cookie(user_id, email, now, secret)),
            session_refresh_cookie(tid, user_id, now, secret),
        ),
    }
}

/// What the resolver decides before any lookup is made.
pub enum SessionStep {
    /// A live access token names this user: look it up and answer with the
    /// store's result, touching nothing.
    LookupByAccess { user_id: Seq<u8> },
    /// The access token is absent or naturally expired and a live refresh
    /// token names this user: look it up and rotate both cookies on
    /// success.
    LookupByRefresh { user_id: Seq<u8> },
    /// The access cookie is present but not a validly signed token:
    /// terminal, no fallback to the refresh path.
    RejectInvalidAccess,
    /// Neither token is usable because no refresh cookie exists.
    RejectNoToken,
    /// The refresh cookie is present but not a validly signed token.
    RejectInvalidRefresh,
    /// The refresh token is validly signed but expired: the session ends.
    RejectExpiredRefresh,
}

/// The refresh half of the decision.
pub open spec fn refresh_step(j: JarData, secret: Seq<u8>, now: u64) -> SessionStep {
    match jar_get(j, refresh_cookie_name()) {
        None => SessionStep::RejectNoToken,
        Some(v) => match decode_refresh_spec(v, secret) {
            None => SessionStep::RejectInvalidRefresh,
            Some(c) => if !crate::token_live(c.2, now) {
                SessionStep::RejectExpiredRefresh
            } else {
                SessionStep::LookupByRefresh { user_id: c.1 }
            },
        },
    }
}

/// The whole decision: a missing access cookie falls to the refresh path,
/// an invalid one is terminal, an expired one falls to the refresh path,
/// and a live one is looked up.
pub open spec fn resolve_step(j: JarData, secret: Seq<u8>, now: u64) -> SessionStep {
    match jar_get(j, access_cookie_name()) {
        None => refresh_step(j, secret, now),
        Some(v) => match decode_access_spec(v, secret) {
            None => SessionStep::RejectInvalidAccess,
            Some(c) => if !crate::token_live(c.2, now) {
                refresh_step(j, secret, now)
            } else {
                SessionStep::LookupByAccess { user_id: c.0 }
            },
        },
    }
}

/// Everything the resolver promises for one call at a known clock: each
/// rejection carries its reason and leaves the jar alone; an access lookup
/// leaves the jar alone; a refresh lookup rotates both cookies exactly when
/// it returns a user, and touches nothing otherwise.
pub open spec fn resolved_at(
    j0: JarData,
    j1: JarData,
    r: UserResult,
    secret: Seq<u8>,
    now: u64,
) -> bool {
    &&& (resolve_step(j0, secret, now) is RejectInvalidAccess ==> j1 == j0 && general_with(
        r,
        ErrorCode::Unauthorized,
        "access token is invalid"@,
    ))
    &&& (resolve_step(j0, secret, now) is RejectNoToken ==> j1 == j0 && general_with(
        r,
        ErrorCode::Unauthorized,
        "no token was provided"@,
    ))
    &&& (resolve_step(j0, secret, now) is RejectInvalidRefresh ==> j1 == j0 && general_with(
        r,
        ErrorCode::Unauthorized,
        "invalid token"@,
    ))
    &&& (resolve_step(j0, secret, now) is RejectExpiredRefresh ==> j1 == j0 && general_with(
        r,
        ErrorCode::Unauthorized,
        "token has expired"@,
    ))
    &&& (resolve_step(j0, secret, now) is LookupByAccess ==> j1 == j0)
    &&& (resolve_step(j0, secret, now) is LookupByRefresh ==> {
        &&& (r matches UserResult::User(u) ==> exists|tid: Seq<u8>|
            j1 == #[trigger] jar_with_session(j0, u.id@, u.email@, tid, now, secret) && tid.len()
                == 21)
        &&& (!(r is User) ==> j1 == j0)
    })
}

/// The persistence collaborator: resolves a user id to a user, a not-found
/// answer, or a server error. Nothing is assumed about its behaviour; every
/// caller states what holds for each value it may return.
pub trait UserStore {
    /// Look a user up by id.
    fn find(&mut self, id: &Vec<u8>) -> UserResult;
}

/// An in-memory store over a fixed list of users.
pub struct MemoryUserStore {
    pub users: Vec<User>,
}

impl UserStore for MemoryUserStore {
    fn find(&mut self, id: &Vec<u8>) -> UserResult {
        let n = self.users.len();
        let mut i: usize = 0;
        while i < n
            invariant
                i <= n,
                n == self.users@.len(),
            decreases n - i,
        {
            if bytes_eq(&self.users[i].id, id) {
                return UserResult::User(self.users[i].duplicate());
            }
            i = i + 1;
        }
        UserResult::not_found("user not found")
    }
}

/// The access-token cookie name as bytes.
fn access_name() -> (r: Vec<u8>)
    ensures
        r@ == access_cookie_name(),
{
    let r: Vec<u8> = vec![97u8, 99, 99, 101, 115, 115, 95, 116, 111, 107, 101, 110];
    proof {
        assert(r@ =~= access_cookie_name());
    }
    r
}

/// The refresh-token cookie name as bytes.
fn refresh_name() -> (r: Vec<u8>)
    ensures
        r@ == refresh_cookie_name(),
{
    let r: Vec<u8> = vec![114u8, 101, 102, 114, 101, 115, 104, 95, 116, 111, 107, 101, 110];
    proof {
        assert(r@ =~= refresh_cookie_name());
    }
    r
}

/// A token cookie with the fixed attributes: domain, path and the two
/// security flags are the same for every cookie a session writes.
pub fn build_token_cookie(name: Vec<u8>, value: Vec<u8>, max_age: i64) -> (r: Cookie)
    ensures
        r@ == token_cookie(name@, value@, max_age as int),
{
    let domain: Vec<u8> = vec![108u8, 111, 99, 97, 108, 104, 111, 115, 116];
    let path: Vec<u8> = vec![47u8];
    let r = Cookie { name, value, domain, path, max_age, secure: true, http_only: true };
    proof {
        assert(r@ =~= token_cookie(r.name@, r.value@, max_age as int));
    }
    r
}

/// Establish a session for a verified user: unconditionally mint a fresh
/// access and refresh pair and write both cookies into the jar, leaving the
/// rest of the jar alone.
pub fn set_authed_user(codec: &TokenCodec, user: &User, jar: &mut Jar, now: u64)
    requires
        old(jar).wf(),
        now + crate::REFRESH_TOKEN_DURATION <= u64::MAX,
    ensures
        final(jar).wf(),
        exists|tid: Seq<u8>|
            final(jar)@ == #[trigger] jar_with_session(
                old(jar)@,
                user.id@,
                user.email@,
                tid,
                now,
                codec.secret_bytes(),
            ) && tid.len() == 21,
{
    let access_token = codec.create_access_token(user, now);
    let refresh_token = codec.create_refresh_token(user, now);
    let ghost tid: Seq<u8> = choose|t: Seq<u8>|
        refresh_token@ == #[trigger] refresh_token_spec(
            t,
            user.id@,
            (now + crate::REFRESH_TOKEN_DURATION) as u64,
            codec.secret_bytes(),
        ) && t.len() == 21;
    jar.add(
        build_token_cookie(access_name(), access_token, crate::ACCESS_TOKEN_DURATION as i64),
    );
    jar.add(
        build_token_cookie(refresh_name(), refresh_token, crate::REFRESH_TOKEN_DURATION as i64),
    );
    proof {
        assert(final(jar)@ =~= jar_with_session(
            old(jar)@,
            user.id@,
            user.email@,
            tid,
            now,
            codec.secret_bytes(),
        ));
    }
}

/// The refresh path: no refresh cookie, an invalid one and an expired one
/// are terminal, each with its own reason; a live one is looked up, and on
/// success exactly one rotation writes both cookies together.
fn refresh_tokens<S: UserStore>(
    codec: &TokenCodec,
    store: &mut S,
    jar: &mut Jar,
    now: u64,
) -> (r: UserResult)
    requires
        old(jar).wf(),
        now + crate::REFRESH_TOKEN_DURATION <= u64::MAX,
    ensures
        final(jar).wf(),
        refresh_step(old(jar)@, codec.secret_bytes(), now) is RejectNoToken ==> final(jar)@ == old(
            jar,
        )@ && general_with(r, ErrorCode::Unauthorized, "no token was provided"@),
        refresh_step(old(jar)@, codec.secret_bytes(), now) is RejectInvalidRefresh ==> final(jar)@
            == old(jar)@ && general_with(r, ErrorCode::Unauthorized, "invalid token"@),
        refresh_step(old(jar)@, codec.secret_bytes(), now) is RejectExpiredRefresh ==> final(jar)@
            == old(jar)@ && general_with(r, ErrorCode::Unauthorized, "token has expired"@),
        refresh_step(old(jar)@, codec.secret_bytes(), now) is LookupByRefresh ==> {
            &&& (r matches UserResult::User(u) ==> exists|tid: Seq<u8>|
                final(jar)@ == #[trigger] jar_with_session(
                    old(jar)@,
                    u.id@,
                    u.email@,
                    tid,
                    now,
                    codec.secret_bytes(),
                ) && tid.len() == 21)
            &&& (!(r is User) ==> final(jar)@ == old(jar)@)
        },
{
    let refresh_token = jar.get(&refresh_name());
    let token_value = match refresh_token {
        None => {
            return UserResult::unauthorized("no token was provided");
        },
        Some(v) => v,
    };
    let claims = match codec.decode_refresh_token(&token_value) {
        None => {
            return UserResult::unauthorized("invalid token");
        },
        Some(c) => c,
    };
    if crate::token_expired(claims.exp, now) {
        return UserResult::unauthorized("token has expired");
    }
    let result = store.find(&claims.user_id);
    match &result {
        UserResult::User(user) => {
            set_authed_user(codec, user, jar, now);
        },
        _ => {},
    }
    result
}

/// Resolve the identity a jar authenticates: a live access token is looked
/// up directly; a missing or naturally expired access token falls to the
/// refresh path; an invalid access token is terminal with no fallback. The
/// jar changes exactly when a refresh lookup succeeds, and then by one
/// rotation of both cookies.
pub fn get_authed_user<S: UserStore>(
    codec: &TokenCodec,
    store: &mut S,
    jar: &mut Jar,
    now: u64,
) -> (r: UserResult)
    requires
        old(jar).wf(),
        now + crate::REFRESH_TOKEN_DURATION <= u64::MAX,
    ensures
        final(jar).wf(),
        resolved_at(old(jar)@, final(jar)@, r, codec.secret_bytes(), now),
{
    let access_token = jar.get(&access_name());
    let token_value = match access_token {
        None => {
            return refresh_tokens(codec, store, jar, now);
        },
        Some(v) => v,
    };
    let claims = match codec.decode_access_token(&token_value) {
        None => {
            return UserResult::unauthorized("access token is invalid");
        },
        Some(c) => c,
    };
    if crate::token_expired(claims.exp, now) {
        return refresh_tokens(codec, store, jar, now);
    }
    store.find(&claims.sub)
}

/// End the session: mark both token cookies for deletion, the refresh one
/// first, whatever the jar held.
pub fn sign_out(jar: &mut Jar)
    requires
        old(jar).wf(),
    ensures
        final(jar).wf(),
        final(jar)@.originals == old(jar)@.originals,
        final(jar)@.changes == upsert(
            upsert(old(jar)@.changes, crate::cookies::removal_cookie(refresh_cookie_name())),
            crate::cookies::removal_cookie(access_cookie_name()),
        ),
{
    jar.remove(refresh_name());
    jar.remove(access_name());
}

/// Relies on chrono::Utc::now: the current Unix timestamp in seconds. The
/// value depends on the clock, so nothing is assumed about it; the one
/// caller states what holds for every value it may return.
#[verifier::external_body]
fn current_timestamp() -> u64 {
    chrono::Utc::now().timestamp() as u64
}

/// What one call of the resolver yields at a clock reading: the resolver's
/// answer, except that a reading too close to the end of the timestamp
/// range for a refresh expiry to be computed is a server error that touches
/// nothing.
pub open spec fn resolved_outcome(
    j0: JarData,
    j1: JarData,
    r: UserResult,
    secret: Seq<u8>,
    now: u64,
) -> bool {
    if now + crate::REFRESH_TOKEN_DURATION <= u64::MAX {
        resolved_at(j0, j1, r, secret, now)
    } else {
        j1 == j0 && general_with(r, ErrorCode::ServerError, "something went wrong"@)
    }
}

/// Resolve the identity a jar authenticates at the present moment: the
/// outcome is the resolver's answer for some reading of the clock.
pub fn resolve_identity<S: UserStore>(codec: &TokenCodec, store: &mut S, jar: &mut Jar) -> (r:
    UserResult)
    requires
        old(jar).wf(),
    ensures
        final(jar).wf(),
        exists|now: u64|
            #[trigger] resolved_outcome(old(jar)@, final(jar)@, r, codec.secret_bytes(), now),
{
    let now = current_timestamp();
    if now > u64::MAX - crate::REFRESH_TOKEN_DURATION {
        let r = UserResult::server();
        proof {
            assert(resolved_outcome(old(jar)@, jar@, r, codec.secret_bytes(), now));
        }
        return r;
    }
    let r = get_authed_user(codec, store, jar, now);
    proof {
        assert(resolved_outcome(old(jar)@, jar@, r, codec.secret_bytes(), now));
    }
    r
}

/// The two cookies one session writes always carry matching domain, path
/// and security attributes.
pub proof fn lemma_session_cookies_match_attributes(
    user_id: Seq<u8>,
    email: Seq<u8>,
    tid: Seq<u8>,
    now: u64,
    secret: Seq<u8>,
)
    ensures
        session_access_cookie(user_id, email, now, secret).domain == session_refresh_cookie(
            tid,
            user_id,
            now,
            secret,
        ).domain,
        session_access_cookie(user_id, email, now, secret).path == session_refresh_cookie(
            tid,
            user_id,
            now,
            secret,
        ).path,
        session_access_cookie(user_id, email, now, secret).secure == session_refresh_cookie(
            tid,
            user_id,
            now,
            secret,
        ).secure,
        session_access_cookie(user_id, email, now, secret).http_only == session_refresh_cookie(
            tid,
            user_id,
            now,
            secret,
        ).http_only,
{
}

/// A present access cookie that is not a validly signed token denies access
/// outright: the refresh path is never consulted, whatever the refresh
/// cookie holds.
pub proof fn lemma_invalid_access_is_terminal(j: JarData, secret: Seq<u8>, now: u64, v: Seq<u8>)
    requires
        jar_get(j, access_cookie_name()) == Some(v),
        decode_access_spec(v, secret) is None,
    ensures
        (resolve_step(j, secret, now) == SessionStep::RejectInvalidAccess),
{
}

/// With no access cookie and a live refresh token, the resolver takes the
/// refresh path toward the token's user.
pub proof fn lemma_refresh_path_when_no_access(
    j: JarData,
    secret: Seq<u8>,
    now: u64,
    tid: Seq<u8>,
    user_id: Seq<u8>,
    exp: u64,
)
    requires
        jar_get(j, access_cookie_name()) is None,
        jar_get(j, refresh_cookie_name()) == Some(refresh_token_spec(tid, user_id, exp, secret)),
        crate::token_live(exp, now),
    ensures
        (resolve_step(j, secret, now) == SessionStep::LookupByRefresh { user_id }),
{
    lemma_refresh_round_trip(tid, user_id, exp, secret);
}

/// With no access cookie and an expired refresh token the session is over:
/// the resolver rejects with the expiry reason, whoever the token named.
pub proof fn lemma_expired_refresh_terminates(
    j: JarData,
    secret: Seq<u8>,
    now: u64,
    tid: Seq<u8>,
    user_id: Seq<u8>,
    exp: u64,
)
    requires
        jar_get(j, access_cookie_name()) is None,
        jar_get(j, refresh_cookie_name()) == Some(refresh_token_spec(tid, user_id, exp, secret)),
        exp <= now,
    ensures
        (resolve_step(j, secret, now) == SessionStep::RejectExpiredRefresh),
{
    lemma_refresh_round_trip(tid, user_id, exp, secret);
}

/// The expiry boundary: a token whose expiry equals the clock is already
/// expired and falls to the refresh path; one second before its expiry it
/// is still valid.
pub proof fn lemma_expiry_boundary(
    j: JarData,
    secret: Seq<u8>,
    sub: Seq<u8>,
    email: Seq<u8>,
    exp: u64,
)
    requires
        jar_get(j, access_cookie_name()) == Some(access_token_spec(sub, email, exp, secret)),
    ensures
        (resolve_step(j, secret, exp) == refresh_step(j, secret, exp)),
        exp > 0 ==> (resolve_step(j, secret, (exp - 1) as u64) == SessionStep::LookupByAccess {
            user_id: sub,
        }),
{
    lemma_access_round_trip(sub, email, exp, secret);
}

/// Establishing a session and resolving it at the same instant finds the
/// same user through the fresh access token, with no further rotation: the
/// resolver's decision on the written jar is a plain access lookup.
pub proof fn lemma_establish_then_resolve(
    j: JarData,
    user_id: Seq<u8>,
    email: Seq<u8>,
    tid: Seq<u8>,
    now: u64,
    secret: Seq<u8>,
)
    requires
        now + crate::ACCESS_TOKEN_DURATION <= u64::MAX,
    ensures
        (resolve_step(jar_with_session(j, user_id, email, tid, now, secret), secret, now)
            == SessionStep::LookupByAccess { user_id }),
{
    let a = session_access_cookie(user_id, email, now, secret);
    let r = session_refresh_cookie(tid, user_id, now, secret);
    let j2 = jar_with_session(j, user_id, email, tid, now, secret);
    assert(access_cookie_name()[0] != refresh_cookie_name()[0]);
    assert(a.name != r.name);
    lemma_find_upsert_other(upsert(j.changes, a), r, access_cookie_name());
    lemma_find_upsert_same(j.changes, a);
    assert(jar_get(j2, access_cookie_name()) == Some(
        access_token_spec(user_id, email, (now + crate::ACCESS_TOKEN_DURATION) as u64, secret),
    ));
    lemma_access_round_trip(user_id, email, (now + crate::ACCESS_TOKEN_DURATION) as u64, secret);
}

/// After a rotation on a jar straight from a request (no changes yet), the
/// delta is exactly the two fresh cookies: the new access cookie was not in
/// the request, and the new refresh token carries a different token id, so
/// by token injectivity its value differs from the request's.
pub proof fn lemma_rotation_delta(
    j: JarData,
    user_id: Seq<u8>,
    email: Seq<u8>,
    tid0: Seq<u8>,
    uid0: Seq<u8>,
    exp0: u64,
    tid: Seq<u8>,
    now: u64,
    secret: Seq<u8>,
)
    requires
        j.changes.len() == 0,
        crate::cookies::find_cookie(j.originals, access_cookie_name()) is None,
        (crate::cookies::find_cookie(j.originals, refresh_cookie_name()) matches Some(o) && o.value
            == refresh_token_spec(tid0, uid0, exp0, secret)),
        tid != tid0,
    ensures
        (crate::cookies::delta_of(
            j.originals,
            jar_with_session(j, user_id, email, tid, now, secret).changes,
        ) == seq![
            session_access_cookie(user_id, email, now, secret),
            session_refresh_cookie(tid, user_id, now, secret),
        ]),
{
    let a = session_access_cookie(user_id, email, now, secret);
    let r = session_refresh_cookie(tid, user_id, now, secret);
    let changes = jar_with_session(j, user_id, email, tid, now, secret).changes;
    assert(access_cookie_name()[0] != refresh_cookie_name()[0]);
    assert(a.name != r.name);
    assert(upsert(j.changes, a) =~= seq![a]);
    assert(seq![a].skip(1) =~= Seq::<CookieData>::empty());
    assert(upsert(Seq::<CookieData>::empty(), r) =~= seq![r]);
    assert(upsert(seq![a], r) =~= seq![a] + upsert(seq![a].skip(1), r));
    assert(changes =~= seq![a, r]);
    if r.value == refresh_token_spec(tid0, uid0, exp0, secret) {
        lemma_refresh_token_injective(
            tid,
            user_id,
            (now + crate::REFRESH_TOKEN_DURATION) as u64,
            tid0,
            uid0,
            exp0,
            secret,
        );
    }
    assert(crate::cookies::differs_from_original(j.originals, a));
    assert(crate::cookies::differs_from_original(j.originals, r));
    assert(changes.skip(1) =~= seq![r]);
    assert(seq![r].skip(1) =~= Seq::<CookieData>::empty());
    assert(crate::cookies::delta_of(j.originals, Seq::<CookieData>::empty())
        =~= Seq::<CookieData>::empty());
    assert(crate::cookies::delta_of(j.originals, seq![r]) =~= seq![r]);
    assert(crate::cookies::delta_of(j.originals, changes) =~= seq![a] + seq![r]);
    assert(seq![a] + seq![r] =~= seq![a, r]);
}

} // verus!
