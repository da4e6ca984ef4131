//! The session protocol: register, login, verify a bearer token, unwrap the
//! key of a record category, and log out.

use vstd::prelude::*;
use vstd::utf8::encode_utf8;
use crate::bearer::{
    bearer_prefix, bearer_token, lemma_parse_issued_token, parse_bearer, split_auth_header,
    token_text,
};
use crate::credential::{check_hash, create_credential, hash_accepts};
use crate::crypt_provider::{CryptProviders, MAX_KEY_LEN, MAX_PLAINTEXT_LEN};
use crate::crypt_types::{string_envelope_value, CryptString, Cryptable};
use crate::db::{DBObjIdent, LocalRow};
use crate::error::AuthError;
use crate::store::{lemma_local_for_at, StoreView, TokenStore};
use crate::text::{ascii_chars, char_bytes, lemma_alnum_chars};
use crate::token_gen::{generate_token, is_secret_text};

verus! {

/// Days after which a session expires.
pub const TOKEN_EXPIRE: u64 = 14;

/// Seconds after which a session expires: `TOKEN_EXPIRE` days.
pub const SESSION_LIFETIME: i64 = 1209600;

/// Relies on `chrono::Utc::now` and `DateTime::timestamp`: the current time
/// in seconds since the Unix epoch. Nothing is known of its value.
#[verifier::external_body]
fn current_timestamp() -> (r: i64) {
    chrono::Utc::now().timestamp()
}

/// The key of category `kind` that session `session_id` reaches with
/// `secret`: the user's local token, through the copy wrapped for the
/// session, opened under the secret.
pub open spec fn local_key(
    v: StoreView,
    provider: CryptProviders,
    user_id: int,
    kind: Seq<char>,
    session_id: int,
    secret: Seq<u8>,
) -> Option<Seq<char>> {
    match v.local_for(user_id, kind) {
        None => None,
        Some(lt) => match v.wrapped_for(lt.id, session_id) {
            None => None,
            Some(w) => match string_envelope_value(provider, w.crypt, secret) {
                Ok(s) => Some(s),
                Err(_) => None,
            },
        },
    }
}

/// The session id and secret that a token handed to a client names, once
/// presented as `"Bearer " + token`.
pub open spec fn issued(tok: Seq<char>) -> Option<(int, Seq<u8>)> {
    parse_bearer(bearer_prefix() + encode_utf8(tok))
}

/// The user's local token of category `kind`, if there is one, opens under
/// the password, and its copy wrapped for the session opens under the
/// session secret to the same value.
pub open spec fn kind_granted(
    v: StoreView,
    provider: CryptProviders,
    user_id: int,
    session_id: int,
    secret: Seq<u8>,
    pw: Seq<u8>,
    kind: Seq<char>,
) -> bool {
    match v.local_for(user_id, kind) {
        None => true,
        Some(lt) => {
            &&& string_envelope_value(provider, lt.crypt, pw) is Ok
            &&& v.wrapped_for(lt.id, session_id) matches Some(w) && string_envelope_value(
                provider,
                w.crypt,
                secret,
            ) == string_envelope_value(provider, lt.crypt, pw)
        },
    }
}

/// Every local token of the user is wrapped for the session, and opens
/// under the session secret to what it opens to under the password.
pub open spec fn session_grants(
    v: StoreView,
    provider: CryptProviders,
    user_id: int,
    session_id: int,
    secret: Seq<u8>,
    pw: Seq<u8>,
) -> bool {
    forall|kind: Seq<char>| #[trigger] kind_granted(v, provider, user_id, session_id, secret, pw, kind)
}

/// `after` is `before` with one new session for `user_id`, with the next
/// session id, valid until `now + SESSION_LIFETIME`, stored as a hash (a
/// PHC string, never the secret itself) that accepts its secret, and
/// reaching every local token of the user; only wrapped copies for it were
/// added. The token is the session id in decimal, `_`, and the secret.
pub open spec fn session_issued(
    before: StoreView,
    after: StoreView,
    provider: CryptProviders,
    user_id: int,
    pw: Seq<u8>,
    tok: Seq<char>,
    now: int,
) -> bool {
    issued(tok) matches Some((sid, secret)) && {
        &&& sid == before.next_session_id
        &&& tok == token_text(sid, ascii_chars(secret))
        &&& before.session(sid) is None
        &&& after.users == before.users
        &&& after.local_tokens == before.local_tokens
        &&& after.sessions.len() == before.sessions.len() + 1
        &&& after.sessions.drop_last() == before.sessions
        &&& after.sessions.last().id == sid
        &&& after.sessions.last().user_id == user_id
        &&& after.sessions.last().valid_until == now + SESSION_LIFETIME
        &&& hash_accepts(secret, after.sessions.last().secret_hash)
        &&& after.sessions.last().secret_hash.len() > 0
        &&& after.sessions.last().secret_hash[0] == '$'
        &&& after.sessions.last().secret_hash != ascii_chars(secret)
        &&& before.wrapped.len() <= after.wrapped.len()
        &&& after.wrapped.subrange(0, before.wrapped.len() as int) == before.wrapped
        &&& forall|i: int|
            before.wrapped.len() <= i < after.wrapped.len() ==> #[trigger] after.wrapped[i].session_id
                == sid
        &&& session_grants(after, provider, user_id, sid, secret, pw)
    }
}

/// `after` holds no user, local token, session or wrapped local token
/// that `before` did not hold, and the same users and local tokens.
pub open spec fn nothing_issued(before: StoreView, after: StoreView) -> bool {
    &&& after.users == before.users
    &&& after.local_tokens == before.local_tokens
    &&& forall|m: int|
        0 <= m < after.sessions.len() ==> before.sessions.contains(#[trigger] after.sessions[m])
    &&& forall|m: int|
        0 <= m < after.wrapped.len() ==> before.wrapped.contains(#[trigger] after.wrapped[m])
}

/// The session id that the header names (0 where it names none).
pub open spec fn named_session(h: Seq<u8>) -> int {
    match parse_bearer(h) {
        Some((sid, _)) => sid,
        None => 0,
    }
}

/// The secret that the header holds (empty where it names no session).
pub open spec fn named_secret(h: Seq<u8>) -> Seq<u8> {
    match parse_bearer(h) {
        Some((_, secret)) => secret,
        None => Seq::empty(),
    }
}

/// The header names a session that is recorded and expired at `now`.
pub open spec fn expired_at(v: StoreView, h: Seq<u8>, now: int) -> bool {
    parse_bearer(h) matches Some((sid, _)) && v.session(sid) matches Some(s) && now
        >= s.valid_until
}

/// What verifying the authorization header `h` at `now` yields: the user,
/// the session id and the secret, or `InvalidToken` where the header is
/// malformed, names no session, an expired one, or the wrong secret.
pub open spec fn verify_outcome(v: StoreView, h: Seq<u8>, now: int) -> Result<
    (int, int, Seq<u8>),
    AuthError,
> {
    match parse_bearer(h) {
        None => Err(AuthError::InvalidToken),
        Some((sid, secret)) => match v.session(sid) {
            None => Err(AuthError::InvalidToken),
            Some(s) => if now >= s.valid_until {
                Err(AuthError::InvalidToken)
            } else if hash_accepts(secret, s.secret_hash) {
                Ok((s.user_id, sid, secret))
            } else {
                Err(AuthError::InvalidToken)
            },
        },
    }
}

/// Every row of `v` is a row of `v`.
pub proof fn lemma_nothing_issued_refl(v: StoreView)
    ensures
        nothing_issued(v, v),
{
    assert forall|m: int| 0 <= m < v.sessions.len() implies v.sessions.contains(
        #[trigger] v.sessions[m],
    ) by {}
    assert forall|m: int| 0 <= m < v.wrapped.len() implies v.wrapped.contains(
        #[trigger] v.wrapped[m],
    ) by {}
}

/// Revoking a session that was just added, with the wrapped copies added
/// for it, leaves nothing that was not there before.
pub proof fn lemma_revoke_after_issue(before: StoreView, cur: StoreView, after: StoreView, sid: int)
    requires
        cur.users == before.users,
        cur.local_tokens == before.local_tokens,
        cur.sessions.len() == before.sessions.len() + 1,
        cur.sessions.drop_last() == before.sessions,
        cur.sessions.last().id == sid,
        before.wrapped.len() <= cur.wrapped.len(),
        cur.wrapped.subrange(0, before.wrapped.len() as int) == before.wrapped,
        forall|i: int|
            before.wrapped.len() <= i < cur.wrapped.len() ==> #[trigger] cur.wrapped[i].session_id
                == sid,
        after.revoked(cur, sid),
    ensures
        nothing_issued(before, after),
{
    assert forall|m: int| 0 <= m < after.wrapped.len() implies before.wrapped.contains(
        #[trigger] after.wrapped[m],
    ) by {
        let w = after.wrapped[m];
        assert(cur.wrapped.contains(w));
        let i = choose|i: int| 0 <= i < cur.wrapped.len() && cur.wrapped[i] == w;
        assert(w.session_id != sid);
        assert(i < before.wrapped.len());
        assert(before.wrapped[i] == cur.wrapped.subrange(0, before.wrapped.len() as int)[i]);
    }
    assert forall|m: int| 0 <= m < after.sessions.len() implies before.sessions.contains(
        #[trigger] after.sessions[m],
    ) by {
        let s = after.sessions[m];
        assert(cur.sessions.contains(s));
        let i = choose|i: int| 0 <= i < cur.sessions.len() && cur.sessions[i] == s;
        assert(s.id != sid) by {
            if s.id == sid {
                assert(after.sessions[m].id == sid);
            }
        }
        assert(i < before.sessions.len());
        assert(before.sessions[i] == cur.sessions.drop_last()[i]);
    }
}

/// The token, or the failure, as text.
pub open spec fn text_result(r: Result<String, AuthError>) -> Result<Seq<char>, AuthError> {
    match r {
        Ok(s) => Ok(s@),
        Err(e) => Err(e),
    }
}

/// The user, session id and secret of a verification, or its failure, as
/// values.
pub open spec fn triple_result(r: Result<(i32, i32, String), AuthError>) -> Result<
    (int, int, Seq<char>),
    AuthError,
> {
    match r {
        Ok((u, sid, s)) => Ok((u as int, sid as int, s@)),
        Err(e) => Err(e),
    }
}

/// The session `tok` names is recorded for `user_id`, valid until
/// `now + SESSION_LIFETIME`, stored as a hash that accepts the token's
/// secret and differs from it, and reaches every local token of the user;
/// the token is the session id in decimal, `_`, and the secret.
pub open spec fn session_live(
    v: StoreView,
    provider: CryptProviders,
    user_id: int,
    pw: Seq<u8>,
    tok: Seq<char>,
    now: int,
) -> bool {
    issued(tok) matches Some((sid, secret)) && v.session(sid) matches Some(s) && {
        &&& tok == token_text(sid, ascii_chars(secret))
        &&& s.user_id == user_id
        &&& s.valid_until == now + SESSION_LIFETIME
        &&& hash_accepts(secret, s.secret_hash)
        &&& s.secret_hash.len() > 0
        &&& s.secret_hash[0] == '$'
        &&& s.secret_hash != ascii_chars(secret)
        &&& session_grants(v, provider, user_id, sid, secret, pw)
    }
}

/// What logging in as `name` with password bytes `pw` at `now` does: an
/// unknown name or a password that the stored hash rejects yields
/// `InvalidCredentials` and changes nothing; otherwise a session is issued,
/// or `InternalFailure` leaves no new row behind.
pub open spec fn login_outcome(
    before: StoreView,
    after: StoreView,
    provider: CryptProviders,
    name: Seq<char>,
    pw: Seq<u8>,
    now: int,
    r: Result<Seq<char>, AuthError>,
) -> bool {
    match before.user_named(name) {
        None => r == Err::<Seq<char>, AuthError>(AuthError::InvalidCredentials) && after == before,
        Some(u) => if !hash_accepts(pw, u.password_hash) {
            r == Err::<Seq<char>, AuthError>(AuthError::InvalidCredentials) && after == before
        } else {
            match r {
                Ok(tok) => session_issued(before, after, provider, u.id, pw, tok, now),
                Err(e) => e == AuthError::InternalFailure && nothing_issued(before, after),
            }
        },
    }
}

/// What registering `name` with password bytes `pw` at `now` does: a taken
/// name yields `UsernameTaken` and changes nothing. On success the user is
/// added with a PHC hash that accepts the password; each local token added
/// is the user's, for a configured category, and wraps a fresh secret under
/// the password; every configured category has a local token of the user
/// where the password is within the cipher's key limit and enough
/// local-token ids are left; and the returned token names a live session of
/// the user with the next session id.
pub open spec fn register_outcome(
    before: StoreView,
    after: StoreView,
    provider: CryptProviders,
    kinds: Seq<Seq<char>>,
    name: Seq<char>,
    pw: Seq<u8>,
    now: int,
    r: Result<Seq<char>, AuthError>,
) -> bool {
    &&& (r == Err::<Seq<char>, AuthError>(AuthError::UsernameTaken)) == (before.user_named(name) is Some)
    &&& before.user_named(name) is Some ==> after == before
    &&& r matches Ok(tok) ==> {
        &&& after.users.len() == before.users.len() + 1
        &&& after.users.drop_last() == before.users
        &&& after.users.last().id == before.next_user_id
        &&& after.users.last().username == name
        &&& hash_accepts(pw, after.users.last().password_hash)
        &&& after.users.last().password_hash.len() > 0
        &&& after.users.last().password_hash[0] == '$'
        &&& (pw.len() <= MAX_KEY_LEN && before.next_local_id + kinds.len() <= i32::MAX) ==> forall|
            k: Seq<char>,
        |
            kinds.contains(k) ==> #[trigger] after.local_for(after.users.last().id, k) is Some
        &&& issued_session(tok) == before.next_session_id
        &&& before.local_tokens.len() <= after.local_tokens.len()
        &&& after.local_tokens.subrange(0, before.local_tokens.len() as int) == before.local_tokens
        &&& forall|i: int|
            before.local_tokens.len() <= i < after.local_tokens.len() ==> provisioned(
                #[trigger] after.local_tokens[i],
                provider,
                kinds,
                after.users.last().id,
                pw,
            )
        &&& session_live(after, provider, after.users.last().id, pw, tok, now)
    }
}

/// A local token of `user_id` for a configured category that wraps, under
/// the password, a freshly generated secret.
pub open spec fn provisioned(
    lt: LocalRow,
    provider: CryptProviders,
    kinds: Seq<Seq<char>>,
    user_id: int,
    pw: Seq<u8>,
) -> bool {
    &&& lt.user_id == user_id
    &&& kinds.contains(lt.kind)
    &&& string_envelope_value(provider, lt.crypt, pw) matches Ok(g) && is_secret_text(g)
}

/// What verifying the header `h` at `now` yields and does to the store.
pub open spec fn verify_effect(
    before: StoreView,
    after: StoreView,
    h: Seq<u8>,
    now: int,
    r: Result<(int, int, Seq<char>), AuthError>,
) -> bool {
    &&& match verify_outcome(before, h, now) {
        Ok((u, sid, secret)) => r == Ok::<(int, int, Seq<char>), AuthError>(
            (u, sid, ascii_chars(secret)),
        ),
        Err(e) => r == Err::<(int, int, Seq<char>), AuthError>(e),
    }
    &&& if expired_at(before, h, now) {
        after.revoked(before, named_session(h))
    } else {
        after == before
    }
}

/// What logging out with the header `h` at `now` does: where the header
/// verifies, the session it names is revoked; otherwise the failure and
/// the effect of verification.
pub open spec fn logout_outcome(
    before: StoreView,
    after: StoreView,
    h: Seq<u8>,
    now: int,
    r: Result<(), AuthError>,
) -> bool {
    match verify_outcome(before, h, now) {
        Ok((_, sid, _)) => r is Ok && after.revoked(before, sid),
        Err(e) => r == Err::<(), AuthError>(e) && if expired_at(before, h, now) {
            after.revoked(before, named_session(h))
        } else {
            after == before
        },
    }
}

/// A session just issued is live in the store it was issued into.
pub proof fn lemma_issued_live(
    before: StoreView,
    after: StoreView,
    provider: CryptProviders,
    user_id: int,
    pw: Seq<u8>,
    tok: Seq<char>,
    now: int,
)
    requires
        after.wf(),
        session_issued(before, after, provider, user_id, pw, tok, now),
    ensures
        session_live(after, provider, user_id, pw, tok, now),
{
    let sid = named_session(bearer_prefix() + encode_utf8(tok));
    let n = after.sessions.len() - 1;
    assert(after.sessions[n].id == sid);
    let j = choose|j: int| 0 <= j < after.sessions.len() && #[trigger] after.sessions[j].id == sid;
    assert(j == n) by {
        if j < n {
            assert(after.sessions[j].id != after.sessions[n].id);
        }
    }
}

/// The session id that a token handed to a client names.
pub open spec fn issued_session(tok: Seq<char>) -> int {
    named_session(bearer_prefix() + encode_utf8(tok))
}

/// The secret that a token handed to a client holds.
pub open spec fn issued_secret(tok: Seq<char>) -> Seq<u8> {
    named_secret(bearer_prefix() + encode_utf8(tok))
}

/// What the user's local token of category `kind` opens to under the
/// password: the category's key.
pub open spec fn local_secret(
    v: StoreView,
    provider: CryptProviders,
    user_id: int,
    kind: Seq<char>,
    pw: Seq<u8>,
) -> Option<Seq<char>> {
    match v.local_for(user_id, kind) {
        None => None,
        Some(lt) => match string_envelope_value(provider, lt.crypt, pw) {
            Ok(g) => Some(g),
            Err(_) => None,
        },
    }
}

/// Right after a login with the right password, the new session unwraps
/// each of the user's categories to exactly the key that the password
/// unwraps it to.
pub proof fn lemma_unwrap_after_login(
    v: StoreView,
    provider: CryptProviders,
    user_id: int,
    pw: Seq<u8>,
    tok: Seq<char>,
    now: int,
    kind: Seq<char>,
)
    requires
        session_live(v, provider, user_id, pw, tok, now),
        v.local_for(user_id, kind) is Some,
    ensures
        local_secret(v, provider, user_id, kind, pw) is Some,
        local_key(v, provider, user_id, kind, issued_session(tok), issued_secret(tok))
            == local_secret(v, provider, user_id, kind, pw),
{
    assert(kind_granted(v, provider, user_id, issued_session(tok), issued_secret(tok), pw, kind));
}

/// Right after registration, the first session unwraps each category
/// provisioned by it to the secret generated then: `TOKEN_LENGTH` letters
/// and digits.
pub proof fn lemma_unwrap_after_register(
    before: StoreView,
    after: StoreView,
    provider: CryptProviders,
    kinds: Seq<Seq<char>>,
    name: Seq<char>,
    pw: Seq<u8>,
    now: int,
    tok: Seq<char>,
    kind: Seq<char>,
)
    requires
        before.wf(),
        after.wf(),
        register_outcome(before, after, provider, kinds, name, pw, now, Ok(tok)),
        before.local_for(after.users.last().id, kind) is None,
        after.local_for(after.users.last().id, kind) is Some,
    ensures
        local_secret(after, provider, after.users.last().id, kind, pw) matches Some(g)
            && is_secret_text(g),
        local_key(after, provider, after.users.last().id, kind, issued_session(tok), issued_secret(tok))
            == local_secret(after, provider, after.users.last().id, kind, pw),
{
    let uid = after.users.last().id;
    lemma_unwrap_after_login(after, provider, uid, pw, tok, now, kind);
    let j = choose|j: int|
        0 <= j < after.local_tokens.len() && #[trigger] after.local_tokens[j].user_id == uid
            && after.local_tokens[j].kind == kind;
    if j < before.local_tokens.len() {
        assert(before.local_tokens[j] == after.local_tokens.subrange(0, before.local_tokens.len() as int)[j]);
        assert(before.local_tokens[j].user_id == uid && before.local_tokens[j].kind == kind);
    } else {
        assert(provisioned(after.local_tokens[j], provider, kinds, uid, pw));
    }
}

/// The first registration on a fresh store returns the token `"1_<secret>"`.
/// For every configured category that had no local token of the new user,
/// and where the password is within the cipher's key limit and enough
/// local-token ids are left, that session unwraps the category to the
/// secret generated at provisioning: `TOKEN_LENGTH` letters and digits.
pub proof fn lemma_first_registration(
    before: StoreView,
    after: StoreView,
    provider: CryptProviders,
    kinds: Seq<Seq<char>>,
    name: Seq<char>,
    pw: Seq<u8>,
    now: int,
    tok: Seq<char>,
    kind: Seq<char>,
)
    requires
        before.wf(),
        after.wf(),
        before.next_session_id == 1,
        register_outcome(before, after, provider, kinds, name, pw, now, Ok(tok)),
        kinds.contains(kind),
        pw.len() <= MAX_KEY_LEN,
        before.next_local_id + kinds.len() <= i32::MAX,
        before.local_for(after.users.last().id, kind) is None,
    ensures
        issued_session(tok) == 1,
        tok == token_text(1, ascii_chars(issued_secret(tok))),
        local_secret(after, provider, after.users.last().id, kind, pw) matches Some(g)
            && is_secret_text(g),
        local_key(after, provider, after.users.last().id, kind, 1, issued_secret(tok))
            == local_secret(after, provider, after.users.last().id, kind, pw),
{
    assert(after.local_for(after.users.last().id, kind) is Some);
    lemma_unwrap_after_register(before, after, provider, kinds, name, pw, now, tok, kind);
}

/// After a logout, the same header no longer verifies, at any time, and no
/// wrapped local token of the session is left.
pub proof fn lemma_verify_after_logout(
    before: StoreView,
    after: StoreView,
    h: Seq<u8>,
    now: int,
    later: int,
)
    requires
        logout_outcome(before, after, h, now, Ok(())),
    ensures
        verify_outcome(after, h, later) == Err::<(int, int, Seq<u8>), AuthError>(
            AuthError::InvalidToken,
        ),
        !expired_at(after, h, later),
        after.no_wrapped_for_session(named_session(h)),
{
}

/// A session found expired fails verification and is purged with its
/// wrapped local tokens; presenting it again fails the same way and
/// changes nothing.
pub proof fn lemma_expired_purged(
    before: StoreView,
    after: StoreView,
    h: Seq<u8>,
    now: int,
    r: Result<(int, int, Seq<char>), AuthError>,
    later: int,
)
    requires
        verify_effect(before, after, h, now, r),
        expired_at(before, h, now),
    ensures
        r == Err::<(int, int, Seq<char>), AuthError>(AuthError::InvalidToken),
        after.session(named_session(h)) is None,
        after.no_wrapped_for_session(named_session(h)),
        verify_outcome(after, h, later) == Err::<(int, int, Seq<u8>), AuthError>(
            AuthError::InvalidToken,
        ),
        !expired_at(after, h, later),
{
}

/// Two logins in a row issue two different sessions, and both tokens verify
/// afterwards, each to its own user, session and secret, until expiry.
pub proof fn lemma_two_logins(
    s0: StoreView,
    s1: StoreView,
    s2: StoreView,
    provider: CryptProviders,
    u1: int,
    u2: int,
    pw1: Seq<u8>,
    pw2: Seq<u8>,
    tok1: Seq<char>,
    tok2: Seq<char>,
    now1: int,
    now2: int,
    t: int,
)
    requires
        s1.wf(),
        s2.wf(),
        session_issued(s0, s1, provider, u1, pw1, tok1, now1),
        session_issued(s1, s2, provider, u2, pw2, tok2, now2),
        t < now1 + SESSION_LIFETIME,
        t < now2 + SESSION_LIFETIME,
    ensures
        issued_session(tok1) != issued_session(tok2),
        tok1 != tok2,
        verify_outcome(s2, bearer_prefix() + encode_utf8(tok1), t) == Ok::<
            (int, int, Seq<u8>),
            AuthError,
        >((u1, issued_session(tok1), issued_secret(tok1))),
        verify_outcome(s2, bearer_prefix() + encode_utf8(tok2), t) == Ok::<
            (int, int, Seq<u8>),
            AuthError,
        >((u2, issued_session(tok2), issued_secret(tok2))),
{
    let sid1 = issued_session(tok1);
    let sid2 = issued_session(tok2);
    lemma_issued_live(s0, s1, provider, u1, pw1, tok1, now1);
    lemma_issued_live(s1, s2, provider, u2, pw2, tok2, now2);
    assert(s1.session(sid1) is Some);
    assert(sid1 != sid2);
    let n = s1.sessions.len() as int;
    let i = choose|i: int| 0 <= i < s1.sessions.len() && #[trigger] s1.sessions[i].id == sid1;
    assert(s2.sessions[i] == s1.sessions[i]) by {
        assert(s2.sessions.drop_last()[i] == s2.sessions[i]);
    }
    let k = choose|k: int| 0 <= k < s2.sessions.len() && #[trigger] s2.sessions[k].id == sid1;
    assert(k == i) by {
        if k < i {
            assert(s2.sessions[k].id != s2.sessions[i].id);
        } else if i < k {
            assert(s2.sessions[i].id != s2.sessions[k].id);
        }
    }
}

/// Revoking one session leaves what every other session unwraps unchanged.
pub proof fn lemma_revoke_keeps_other_sessions(
    before: StoreView,
    after: StoreView,
    provider: CryptProviders,
    sid: int,
    user_id: int,
    kind: Seq<char>,
    other: int,
    secret: Seq<u8>,
)
    requires
        before.wf(),
        after.wf(),
        after.revoked(before, sid),
        other != sid,
    ensures
        local_key(after, provider, user_id, kind, other, secret) == local_key(
            before,
            provider,
            user_id,
            kind,
            other,
            secret,
        ),
{
    if let Some(lt) = before.local_for(user_id, kind) {
        let a = lt.id;
        if exists|i: int|
            0 <= i < before.wrapped.len() && #[trigger] before.wrapped[i].local_token_id == a
                && before.wrapped[i].session_id == other {
            let i = choose|i: int|
                0 <= i < before.wrapped.len() && #[trigger] before.wrapped[i].local_token_id == a
                    && before.wrapped[i].session_id == other;
            assert(after.wrapped.contains(before.wrapped[i]));
            let m = choose|m: int| 0 <= m < after.wrapped.len() && after.wrapped[m] == before.wrapped[i];
            assert(after.wrapped[m].local_token_id == a && after.wrapped[m].session_id == other);
            let k = choose|k: int|
                0 <= k < after.wrapped.len() && #[trigger] after.wrapped[k].local_token_id == a
                    && after.wrapped[k].session_id == other;
            assert(k == m) by {
                if k < m {
                    assert(after.wrapped[k].id != after.wrapped[m].id);
                } else if m < k {
                    assert(after.wrapped[m].id != after.wrapped[k].id);
                }
            }
            assert(after.wrapped_for(a, other) == before.wrapped_for(a, other));
        } else {
            if exists|k: int|
                0 <= k < after.wrapped.len() && #[trigger] after.wrapped[k].local_token_id == a
                    && after.wrapped[k].session_id == other {
                let k = choose|k: int|
                    0 <= k < after.wrapped.len() && #[trigger] after.wrapped[k].local_token_id == a
                        && after.wrapped[k].session_id == other;
                assert(before.wrapped.contains(after.wrapped[k]));
                let i = choose|i: int| 0 <= i < before.wrapped.len() && before.wrapped[i] == after.wrapped[k];
                assert(before.wrapped[i].local_token_id == a && before.wrapped[i].session_id == other);
            }
            assert(after.wrapped_for(a, other) == before.wrapped_for(a, other));
        }
    }
}

/// How many of the local tokens belong to `user_id`.
pub open spec fn user_token_count(s: Seq<LocalRow>, user_id: int) -> nat
    decreases s.len(),
{
    if s.len() == 0 {
        0
    } else {
        user_token_count(s.drop_last(), user_id) + if s.last().user_id == user_id {
            1nat
        } else {
            0nat
        }
    }
}

/// A prefix holds no more of a user's local tokens than the whole.
pub proof fn lemma_count_prefix(s: Seq<LocalRow>, user_id: int, k: int)
    requires
        0 <= k <= s.len(),
    ensures
        user_token_count(s.subrange(0, k), user_id) <= user_token_count(s, user_id),
    decreases s.len(),
{
    if k < s.len() {
        assert(s.drop_last() =~= s.subrange(0, s.len() - 1));
        lemma_count_prefix(s.drop_last(), user_id, k);
        assert(s.drop_last().subrange(0, k) =~= s.subrange(0, k));
    } else {
        assert(s.subrange(0, k) =~= s);
    }
}

/// The user's local token of category `kind`, if there is one, opens under
/// the password to a key that the cipher can seal again.
pub open spec fn rewrap_ok(
    v: StoreView,
    provider: CryptProviders,
    user_id: int,
    pw: Seq<u8>,
    kind: Seq<char>,
) -> bool {
    match v.local_for(user_id, kind) {
        None => true,
        Some(lt) => string_envelope_value(provider, lt.crypt, pw) matches Ok(g) && encode_utf8(g).len()
            <= MAX_PLAINTEXT_LEN,
    }
}

/// A session for `user_id` can be recorded at `now`: its expiry is a
/// timestamp, a session id and one wrapped-token id per local token of the
/// user are left, and every local token of the user opens under the
/// password.
pub open spec fn session_recordable(
    v: StoreView,
    provider: CryptProviders,
    user_id: int,
    pw: Seq<u8>,
    now: int,
) -> bool {
    &&& now + SESSION_LIFETIME <= i64::MAX
    &&& v.next_session_id < i32::MAX
    &&& v.next_wrapped_id + user_token_count(v.local_tokens, user_id) <= i32::MAX
    &&& forall|kind: Seq<char>| #[trigger] rewrap_ok(v, provider, user_id, pw, kind)
}

/// The session protocol over a token store, for a configured set of record
/// categories and one cipher.
pub struct SessionManager {
    pub db: TokenStore,
    pub resource_kinds: Vec<DBObjIdent>,
    pub crypt_provider: CryptProviders,
}

impl SessionManager {
    /// The record categories, as text.
    pub open spec fn kinds(&self) -> Seq<Seq<char>> {
        self.resource_kinds@.map_values(|k: DBObjIdent| k.db_identifier@)
    }

    /// The configuration is that of `other`: same categories, same cipher.
    pub open spec fn same_config(&self, other: &SessionManager) -> bool {
        self.kinds() == other.kinds() && self.crypt_provider == other.crypt_provider
    }

    /// A manager over an empty store.
    pub fn new(resource_kinds: Vec<DBObjIdent>, crypt_provider: CryptProviders) -> (r: SessionManager)
        ensures
            r.db@.wf(),
            r.db@.users.len() == 0,
            r.db@.sessions.len() == 0,
            r.db@.local_tokens.len() == 0,
            r.db@.wrapped.len() == 0,
            r.db@.next_user_id == 1,
            r.db@.next_local_id == 1,
            r.db@.next_wrapped_id == 1,
            r.db@.next_session_id == 1,
            r.resource_kinds@ == resource_kinds@,
            r.crypt_provider == crypt_provider,
    {
        SessionManager { db: TokenStore::new(), resource_kinds, crypt_provider }
    }

    /// The key of category `used_for` that session `remote_token_id`
    /// reaches with its secret `remote_token`; `InternalFailure` where the
    /// category was never provisioned, the session holds no copy of it, or
    /// the copy does not open.
    pub fn decrypt_local_token_for(
        &self,
        user_id: i32,
        used_for: &DBObjIdent,
        remote_token_id: i32,
        remote_token: &str,
    ) -> (r: Result<String, AuthError>)
        requires
            self.db@.wf(),
        ensures
            match local_key(
                self.db@,
                self.crypt_provider,
                user_id as int,
                used_for.db_identifier@,
                remote_token_id as int,
                encode_utf8(remote_token@),
            ) {
                Some(k) => r matches Ok(s) && s@ == k,
                None => r == Err::<String, AuthError>(AuthError::InternalFailure),
            },
    {
        let local_token_pwcrypt = match self.db.get_local_token_by_used_for_pwcrypt(user_id, used_for) {
            Some(t) => t,
            None => {
                return Err(AuthError::InternalFailure);
            },
        };
        let local_token_rtcrypt = match self.db.get_local_token_by_id_rtcrypt(
            local_token_pwcrypt.id,
            remote_token_id,
        ) {
            Some(t) => t,
            None => {
                return Err(AuthError::InternalFailure);
            },
        };
        match local_token_rtcrypt.local_token_crypt.decrypt(
            remote_token.as_bytes(),
            &self.crypt_provider,
        ) {
            Ok(s) => Ok(s),
            Err(_) => Err(AuthError::InternalFailure),
        }
    }

    /// Revokes a session: its wrapped local tokens, then its record.
    pub fn invalidate_remote_token(&mut self, remote_token_id: i32)
        requires
            old(self).db@.wf(),
        ensures
            final(self).db@.wf(),
            final(self).db@.revoked(old(self).db@, remote_token_id as int),
            final(self).same_config(old(self)),
    {
        self.db.revoke_session(remote_token_id);
    }

    /// Verifies the authorization header at time `now` (seconds since the
    /// epoch). A session found expired is revoked before `InvalidToken` is
    /// returned; nothing else changes the store.
    pub fn verify_token_at(&mut self, auth_header: &str, now: i64) -> (r: Result<
        (i32, i32, String),
        AuthError,
    >)
        requires
            old(self).db@.wf(),
        ensures
            final(self).db@.wf(),
            final(self).same_config(old(self)),
            verify_effect(
                old(self).db@,
                final(self).db@,
                encode_utf8(auth_header@),
                now as int,
                triple_result(r),
            ),
    {
        let (token_id, token) = match split_auth_header(auth_header) {
            Ok(p) => p,
            Err(e) => {
                return Err(e);
            },
        };
        let token_db = match self.db.get_remote_token(token_id) {
            Some(t) => t,
            None => {
                return Err(AuthError::InvalidToken);
            },
        };
        if token_db.valid_until <= now {
            self.invalidate_remote_token(token_id);
            return Err(AuthError::InvalidToken);
        }
        let ghost secret = named_secret(encode_utf8(auth_header@));
        proof {
            crate::text::lemma_ascii_utf8(secret);
            vstd::utf8::is_ascii_chars_encode_utf8(ascii_chars(secret));
            assert(encode_utf8(token@) =~= secret);
        }
        if check_hash(token.as_str().as_bytes(), token_db.rt_hash.as_str()) {
            Ok((token_db.user_id, token_id, token))
        } else {
            Err(AuthError::InvalidToken)
        }
    }
}

impl SessionManager {
    /// Issues a session for `user_id` with a fresh secret: the secret is
    /// hashed and handed to `record_session`. `InternalFailure` where the
    /// hash could not be made or the session could not be recorded; then
    /// nothing new is left behind.
    fn create_remote_token(&mut self, user_id: i32, password: &str, now: i64) -> (r: Result<
        String,
        AuthError,
    >)
        requires
            old(self).db@.wf(),
        ensures
            final(self).db@.wf(),
            final(self).same_config(old(self)),
            match r {
                Ok(tok) => session_issued(
                    old(self).db@,
                    final(self).db@,
                    old(self).crypt_provider,
                    user_id as int,
                    encode_utf8(password@),
                    tok@,
                    now as int,
                ),
                Err(e) => e == AuthError::InternalFailure && nothing_issued(
                    old(self).db@,
                    final(self).db@,
                ),
            },
    {
        proof {
            lemma_nothing_issued_refl(self.db@);
        }
        let remote_token = generate_token();
        proof {
            lemma_alnum_chars(remote_token@);
        }
        let token_hashed = match create_credential(remote_token.as_str().as_bytes()) {
            Some(h) => h,
            None => {
                return Err(AuthError::InternalFailure);
            },
        };
        self.record_session(user_id, password, &remote_token, &token_hashed, now)
    }

    /// Records a session for `user_id` with the given secret and its hash,
    /// valid until `now + SESSION_LIFETIME`, then unwraps every local token
    /// of the user under the password and re-wraps it under the secret. It
    /// succeeds exactly where `session_recordable` holds; any failure
    /// revokes what was added and yields `InternalFailure`, so a session
    /// reaches all categories or none.
    #[verifier::rlimit(100)]
    fn record_session(
        &mut self,
        user_id: i32,
        password: &str,
        secret: &String,
        secret_hash: &String,
        now: i64,
    ) -> (r: Result<String, AuthError>)
        requires
            old(self).db@.wf(),
            is_secret_text(secret@),
            hash_accepts(char_bytes(secret@), secret_hash@),
            secret_hash@.len() > 0,
            secret_hash@[0] == '$',
        ensures
            final(self).db@.wf(),
            final(self).same_config(old(self)),
            (r is Ok) == session_recordable(
                old(self).db@,
                old(self).crypt_provider,
                user_id as int,
                encode_utf8(password@),
                now as int,
            ),
            match r {
                Ok(tok) => session_issued(
                    old(self).db@,
                    final(self).db@,
                    old(self).crypt_provider,
                    user_id as int,
                    encode_utf8(password@),
                    tok@,
                    now as int,
                ),
                Err(e) => e == AuthError::InternalFailure && nothing_issued(
                    old(self).db@,
                    final(self).db@,
                ),
            },
    {
        let ghost before = self.db@;
        let ghost provider = self.crypt_provider;
        let ghost kinds = self.kinds();
        let ghost pwv = encode_utf8(password@);
        let ghost uid = user_id as int;
        proof {
            lemma_nothing_issued_refl(before);
            lemma_alnum_chars(secret@);
        }
        if now > i64::MAX - SESSION_LIFETIME {
            return Err(AuthError::InternalFailure);
        }
        let valid_until = now + SESSION_LIFETIME;
        let remote_token_id = match self.db.new_remote_token(secret_hash.as_str(), user_id, valid_until) {
            Ok(id) => id,
            Err(_) => {
                return Err(AuthError::InternalFailure);
            },
        };
        let ghost mid = self.db@;
        let ghost sid = remote_token_id as int;
        let secret_bytes = secret.as_str().as_bytes();
        let ghost sec = char_bytes(secret@);
        assert(secret_bytes@ == sec);
        let pw = password.as_bytes();
        let n = self.db.local_tokens.len();
        let mut k: usize = 0;
        assert(before.local_tokens.subrange(0, 0) =~= Seq::<LocalRow>::empty());
        assert(self.db@.wrapped.subrange(0, before.wrapped.len() as int) =~= before.wrapped);
        while k < n
            invariant
                self.db@.wf(),
                before.wf(),
                self.crypt_provider == provider,
                self.kinds() == kinds,
                provider == old(self).crypt_provider,
                kinds == old(self).kinds(),
                before == old(self).db@,
                pw@ == pwv,
                pwv == encode_utf8(password@),
                uid == user_id as int,
                secret_bytes@ == sec,
                sec == char_bytes(secret@),
                is_secret_text(secret@),
                now + SESSION_LIFETIME <= i64::MAX,
                sid == remote_token_id as int,
                sid == before.next_session_id,
                mid.sessions.len() == before.sessions.len() + 1,
                mid.sessions.drop_last() == before.sessions,
                mid.sessions.last().id == sid,
                self.db@.users == before.users,
                self.db@.local_tokens == before.local_tokens,
                self.db@.sessions == mid.sessions,
                self.db@.next_session_id == before.next_session_id + 1,
                self.db@.next_wrapped_id == before.next_wrapped_id + user_token_count(
                    before.local_tokens.subrange(0, k as int),
                    uid,
                ),
                n == self.db@.local_tokens.len(),
                k <= n,
                before.wrapped.len() <= self.db@.wrapped.len(),
                self.db@.wrapped.subrange(0, before.wrapped.len() as int) == before.wrapped,
                forall|i: int|
                    before.wrapped.len() <= i < self.db@.wrapped.len() ==> (#[trigger] self.db@.wrapped[i].session_id
                        == sid && exists|j: int|
                        0 <= j < k && before.local_tokens[j].id == self.db@.wrapped[i].local_token_id),
                forall|j: int|
                    0 <= j < k && #[trigger] before.local_tokens[j].user_id == user_id ==> {
                        &&& string_envelope_value(provider, before.local_tokens[j].crypt, pwv) matches Ok(g)
                            && encode_utf8(g).len() <= MAX_PLAINTEXT_LEN
                        &&& self.db@.wrapped_for(before.local_tokens[j].id, sid) matches Some(w)
                            && string_envelope_value(provider, w.crypt, sec)
                            == string_envelope_value(provider, before.local_tokens[j].crypt, pwv)
                    },
            decreases n - k,
        {
            let ghost cur = self.db@;
            let ghost kj = k as int;
            assert(before.local_tokens.subrange(0, kj + 1).drop_last() =~= before.local_tokens.subrange(0, kj));
            assert(before.local_tokens.subrange(0, kj + 1).last() == before.local_tokens[kj]);
            if self.db.local_tokens[k].user_id == user_id {
                let lt_id = self.db.local_tokens[k].id;
                proof {
                    lemma_local_for_at(before, kj);
                    lemma_count_prefix(before.local_tokens, uid, kj + 1);
                    assert(before.local_tokens.subrange(0, n as int) =~= before.local_tokens);
                }
                let opened = self.db.local_tokens[k].token_crypt.decrypt(pw, &self.crypt_provider);
                let local_token = match opened {
                    Ok(s) => s,
                    Err(_) => {
                        assert(!rewrap_ok(before, provider, uid, pwv, before.local_tokens[kj].kind));
                        self.db.revoke_session(remote_token_id);
                        proof {
                            lemma_revoke_after_issue(before, cur, self.db@, sid);
                        }
                        return Err(AuthError::InternalFailure);
                    },
                };
                let rewrapped = match CryptString::encrypt(
                    &local_token,
                    secret_bytes,
                    &self.crypt_provider,
                ) {
                    Ok(c) => c,
                    Err(_) => {
                        assert(!rewrap_ok(before, provider, uid, pwv, before.local_tokens[kj].kind));
                        self.db.revoke_session(remote_token_id);
                        proof {
                            lemma_revoke_after_issue(before, cur, self.db@, sid);
                        }
                        return Err(AuthError::InternalFailure);
                    },
                };
                proof {
                    assert(cur.session(sid) is Some) by {
                        assert(cur.sessions[cur.sessions.len() - 1].id == sid);
                    }
                    assert(cur.wrapped_for(lt_id as int, sid) is None) by {
                        if exists|i: int|
                            0 <= i < cur.wrapped.len() && #[trigger] cur.wrapped[i].local_token_id
                                == lt_id as int && cur.wrapped[i].session_id == sid {
                            let i = choose|i: int|
                                0 <= i < cur.wrapped.len() && #[trigger] cur.wrapped[i].local_token_id
                                    == lt_id as int && cur.wrapped[i].session_id == sid;
                            if i < before.wrapped.len() {
                                assert(cur.wrapped[i] == before.wrapped[i]);
                                assert(1 <= before.wrapped[i].id);
                                assert(before.wrapped[i].session_id < before.next_session_id);
                            } else {
                                let j = choose|j: int|
                                    0 <= j < kj && before.local_tokens[j].id == cur.wrapped[i].local_token_id;
                                assert(before.local_tokens[j].id != before.local_tokens[kj].id);
                            }
                        }
                    }
                }
                match self.db.new_local_token_rtcrypt(lt_id, &rewrapped, remote_token_id) {
                    Ok(_) => {},
                    Err(_) => {
                        self.db.revoke_session(remote_token_id);
                        proof {
                            lemma_revoke_after_issue(before, cur, self.db@, sid);
                        }
                        return Err(AuthError::InternalFailure);
                    },
                }
                proof {
                    let row = self.db@.wrapped.last();
                    assert(self.db@.wrapped == cur.wrapped.push(row));
                    crate::store::lemma_wrapped_for_push(cur, self.db@, row);
                    assert forall|j: int|
                        0 <= j < kj + 1 && #[trigger] before.local_tokens[j].user_id == user_id implies {
                        &&& string_envelope_value(provider, before.local_tokens[j].crypt, pwv) matches Ok(g)
                            && encode_utf8(g).len() <= MAX_PLAINTEXT_LEN
                        &&& self.db@.wrapped_for(before.local_tokens[j].id, sid) matches Some(w)
                            && string_envelope_value(provider, w.crypt, sec)
                            == string_envelope_value(provider, before.local_tokens[j].crypt, pwv)
                    } by {
                        if j < kj {
                            assert(before.local_tokens[j].id != before.local_tokens[kj].id);
                            assert(self.db@.wrapped_for(before.local_tokens[j].id, sid)
                                == cur.wrapped_for(before.local_tokens[j].id, sid));
                        }
                    }
                    assert forall|i: int|
                        before.wrapped.len() <= i < self.db@.wrapped.len() implies (#[trigger] self.db@.wrapped[i].session_id
                        == sid && exists|j: int|
                        0 <= j < kj + 1 && before.local_tokens[j].id == self.db@.wrapped[i].local_token_id) by {
                        if i < cur.wrapped.len() {
                            assert(self.db@.wrapped[i] == cur.wrapped[i]);
                            let j = choose|j: int|
                                0 <= j < kj && before.local_tokens[j].id == cur.wrapped[i].local_token_id;
                            assert(before.local_tokens[j].id == self.db@.wrapped[i].local_token_id);
                        } else {
                            assert(before.local_tokens[kj].id == self.db@.wrapped[i].local_token_id);
                        }
                    }
                    assert(self.db@.wrapped.subrange(0, before.wrapped.len() as int)
                        =~= before.wrapped) by {
                        assert(cur.wrapped.subrange(0, before.wrapped.len() as int) == before.wrapped);
                        assert forall|i: int| 0 <= i < before.wrapped.len() implies self.db@.wrapped[i]
                            == cur.wrapped[i] by {}
                    }
                }
            } else {
                proof {
                    assert forall|i: int|
                        before.wrapped.len() <= i < self.db@.wrapped.len() implies (#[trigger] self.db@.wrapped[i].session_id
                        == sid && exists|j: int|
                        0 <= j < kj + 1 && before.local_tokens[j].id == self.db@.wrapped[i].local_token_id) by {
                        let j = choose|j: int|
                            0 <= j < kj && before.local_tokens[j].id == self.db@.wrapped[i].local_token_id;
                    }
                }
            }
            k = k + 1;
        }
        let tok = bearer_token(remote_token_id, secret);
        proof {
            let after = self.db@;
            assert(before.local_tokens.subrange(0, n as int) =~= before.local_tokens);
            lemma_parse_issued_token(sid, secret@);
            assert(bearer_prefix() + encode_utf8(tok@) == bearer_prefix() + encode_utf8(
                token_text(sid, secret@),
            ));
            assert(before.session(sid) is None) by {
                if exists|i: int| 0 <= i < before.sessions.len() && #[trigger] before.sessions[i].id == sid {
                    let i = choose|i: int|
                        0 <= i < before.sessions.len() && #[trigger] before.sessions[i].id == sid;
                    assert(before.sessions[i].id < before.next_session_id);
                }
            }
            assert(ascii_chars(sec)[0] == secret@[0]);
            assert(secret_hash@ != ascii_chars(sec));
            assert forall|kind: Seq<char>| #[trigger]
                kind_granted(after, provider, uid, sid, sec, pwv, kind) by {
                if after.local_for(uid, kind) is Some {
                    let j = choose|j: int|
                        0 <= j < after.local_tokens.len() && #[trigger] after.local_tokens[j].user_id
                            == user_id && after.local_tokens[j].kind == kind;
                    assert(before.local_tokens[j].user_id == user_id);
                }
            }
            assert forall|kind: Seq<char>| #[trigger]
                rewrap_ok(before, provider, uid, pwv, kind) by {
                if before.local_for(uid, kind) is Some {
                    let j = choose|j: int|
                        0 <= j < before.local_tokens.len() && #[trigger] before.local_tokens[j].user_id
                            == user_id && before.local_tokens[j].kind == kind;
                    assert(before.local_tokens[j].user_id == user_id);
                }
            }
        }
        Ok(tok)
    }
}

impl SessionManager {
    /// Logs in at time `now`. An unknown user costs a password hash as
    /// well, so that the two failures take alike long.
    pub fn login_at(&mut self, username: &str, password: &str, now: i64) -> (r: Result<
        String,
        AuthError,
    >)
        requires
            old(self).db@.wf(),
        ensures
            final(self).db@.wf(),
            final(self).same_config(old(self)),
            login_outcome(
                old(self).db@,
                final(self).db@,
                old(self).crypt_provider,
                username@,
                encode_utf8(password@),
                now as int,
                text_result(r),
            ),
    {
        let user = match self.db.get_user_by_username(username) {
            Some(u) => u,
            None => {
                let _ = create_credential(password.as_bytes());
                return Err(AuthError::InvalidCredentials);
            },
        };
        if !check_hash(password.as_bytes(), user.password_hash.as_str()) {
            return Err(AuthError::InvalidCredentials);
        }
        match self.create_remote_token(user.id, password, now) {
            Ok(tok) => Ok(tok),
            Err(_) => Err(AuthError::InternalFailure),
        }
    }

    /// Provisions category `used_for` for `user_id`: a fresh secret wrapped
    /// under the password. It succeeds exactly where the user has no local
    /// token of the category yet, a local-token id is left and the password
    /// is within the cipher's key limit; otherwise `InternalFailure`, and
    /// nothing changes.
    pub fn add_new_local_token(&mut self, user_id: i32, password: &str, used_for: &DBObjIdent) -> (r:
        Result<(), AuthError>)
        requires
            old(self).db@.wf(),
        ensures
            final(self).db@.wf(),
            final(self).same_config(old(self)),
            (r is Ok) == (old(self).db@.local_for(user_id as int, used_for.db_identifier@) is None
                && old(self).db@.next_local_id < i32::MAX && encode_utf8(password@).len()
                <= MAX_KEY_LEN),
            r is Ok ==> {
                let (before, after) = (old(self).db@, final(self).db@);
                &&& after.users == before.users
                &&& after.sessions == before.sessions
                &&& after.wrapped == before.wrapped
                &&& after.next_user_id == before.next_user_id
                &&& after.next_local_id == before.next_local_id + 1
                &&& after.next_wrapped_id == before.next_wrapped_id
                &&& after.next_session_id == before.next_session_id
                &&& after.local_tokens.len() == before.local_tokens.len() + 1
                &&& after.local_tokens.drop_last() == before.local_tokens
                &&& after.local_tokens.last().user_id == user_id
                &&& after.local_tokens.last().kind == used_for.db_identifier@
                &&& string_envelope_value(
                    old(self).crypt_provider,
                    after.local_tokens.last().crypt,
                    encode_utf8(password@),
                ) matches Ok(g) && is_secret_text(g)
            },
            r matches Err(e) ==> e == AuthError::InternalFailure && final(self).db@ == old(
                self,
            ).db@,
    {
        let local_token = generate_token();
        proof {
            lemma_alnum_chars(local_token@);
        }
        let local_token_crypt = match CryptString::encrypt(
            &local_token,
            password.as_bytes(),
            &self.crypt_provider,
        ) {
            Ok(c) => c,
            Err(_) => {
                return Err(AuthError::InternalFailure);
            },
        };
        match self.db.new_local_token_pwcrypt(user_id, &local_token_crypt, used_for) {
            Ok(_) => {
                assert(self.db@.local_tokens.drop_last() =~= old(self).db@.local_tokens);
                Ok(())
            },
            Err(_) => Err(AuthError::InternalFailure),
        }
    }

    /// Registers `username` at time `now`: creates the user with a hash of
    /// the password, provisions every configured category (a category that
    /// fails is skipped; registration goes on), and issues a first session.
    pub fn register_at(&mut self, username: &str, password: &str, now: i64) -> (r: Result<
        String,
        AuthError,
    >)
        requires
            old(self).db@.wf(),
        ensures
            final(self).db@.wf(),
            final(self).same_config(old(self)),
            register_outcome(
                old(self).db@,
                final(self).db@,
                old(self).crypt_provider,
                old(self).kinds(),
                username@,
                encode_utf8(password@),
                now as int,
                text_result(r),
            ),
    {
        let ghost before = self.db@;
        let ghost pwv = encode_utf8(password@);
        let ghost provider = self.crypt_provider;
        let ghost kinds = self.kinds();
        match self.db.get_user_by_username(username) {
            Some(_) => {
                return Err(AuthError::UsernameTaken);
            },
            None => {},
        }
        let password_hash = match create_credential(password.as_bytes()) {
            Some(h) => h,
            None => {
                return Err(AuthError::InternalFailure);
            },
        };
        let user_id = match self.db.new_user(username, password_hash.as_str()) {
            Ok(id) => id,
            Err(_) => {
                return Err(AuthError::InternalFailure);
            },
        };
        let ghost mid = self.db@;
        assert(mid.users.drop_last() =~= before.users);
        assert(mid.local_tokens.subrange(0, before.local_tokens.len() as int) =~= before.local_tokens);
        let mut i: usize = 0;
        while i < self.resource_kinds.len()
            invariant
                self.db@.wf(),
                self.crypt_provider == provider,
                self.kinds() == kinds,
                provider == old(self).crypt_provider,
                kinds == old(self).kinds(),
                pwv == encode_utf8(password@),
                i <= self.resource_kinds@.len(),
                self.resource_kinds@.len() == kinds.len(),
                self.db@.users == mid.users,
                mid.users.len() == before.users.len() + 1,
                mid.users.drop_last() == before.users,
                mid.users.last().id == before.next_user_id,
                mid.users.last().username == username@,
                hash_accepts(pwv, mid.users.last().password_hash),
                mid.users.last().password_hash.len() > 0,
                mid.users.last().password_hash[0] == '$',
                self.db@.next_session_id == before.next_session_id,
                self.db@.next_local_id <= before.next_local_id + i,
                (pwv.len() <= MAX_KEY_LEN && before.next_local_id + kinds.len() <= i32::MAX)
                    ==> forall|j: int|
                    0 <= j < i ==> #[trigger] self.db@.local_for(user_id as int, kinds[j]) is Some,
                self.db@.sessions == mid.sessions,
                self.db@.wrapped == mid.wrapped,
                mid.local_tokens == before.local_tokens,
                mid.users.last().id == user_id,
                before.local_tokens.len() <= self.db@.local_tokens.len(),
                self.db@.local_tokens.subrange(0, before.local_tokens.len() as int)
                    == before.local_tokens,
                forall|j: int|
                    before.local_tokens.len() <= j < self.db@.local_tokens.len() ==> provisioned(
                        #[trigger] self.db@.local_tokens[j],
                        provider,
                        kinds,
                        user_id as int,
                        pwv,
                    ),
            decreases self.resource_kinds@.len() - i,
        {
            let kind = self.resource_kinds[i as usize].duplicate();
            let ghost cur = self.db@;
            let ghost kind_text = kind.db_identifier@;
            assert(kinds[i as int] == kind_text);
            match self.add_new_local_token(user_id, password, &kind) {
                Ok(()) => {
                    proof {
                        let after = self.db@;
                        assert(kinds.contains(kind_text));
                        let last = after.local_tokens.len() - 1;
                        assert(after.local_tokens[last].user_id == user_id
                            && after.local_tokens[last].kind == kind_text);
                        assert forall|j: int| 0 <= j < i + 1 && cur.local_for(user_id as int, kinds[j])
                            is Some implies #[trigger] after.local_for(user_id as int, kinds[j]) is Some by {
                            let w = choose|w: int|
                                0 <= w < cur.local_tokens.len() && #[trigger] cur.local_tokens[w].user_id
                                    == user_id && cur.local_tokens[w].kind == kinds[j];
                            assert(after.local_tokens[w] == after.local_tokens.drop_last()[w]);
                            assert(after.local_tokens[w].user_id == user_id);
                        }
                        assert forall|j: int|
                            before.local_tokens.len() <= j < after.local_tokens.len() implies provisioned(
                            #[trigger] after.local_tokens[j],
                            provider,
                            kinds,
                            user_id as int,
                            pwv,
                        ) by {
                            if j < cur.local_tokens.len() {
                                assert(after.local_tokens[j] == cur.local_tokens[j]);
                            }
                        }
                        assert(after.local_tokens.subrange(0, before.local_tokens.len() as int)
                            =~= before.local_tokens) by {
                            assert(cur.local_tokens.subrange(0, before.local_tokens.len() as int)
                                == before.local_tokens);
                            assert forall|j: int| 0 <= j < before.local_tokens.len() implies after.local_tokens[j]
                                == cur.local_tokens[j] by {}
                        }
                    }
                },
                Err(_) => {
                    assert(cur.local_for(user_id as int, kind_text) is Some || !(pwv.len()
                        <= MAX_KEY_LEN && before.next_local_id + kinds.len() <= i32::MAX));
                },
            }
            proof {
                if pwv.len() <= MAX_KEY_LEN && before.next_local_id + kinds.len() <= i32::MAX {
                    assert(self.db@.local_for(user_id as int, kinds[i as int]) is Some);
                }
            }
            i = i + 1;
        }
        let ghost mid2 = self.db@;
        match self.create_remote_token(user_id, password, now) {
            Ok(tok) => {
                proof {
                    let after = self.db@;
                    if pwv.len() <= MAX_KEY_LEN && before.next_local_id + kinds.len() <= i32::MAX {
                        assert forall|k: Seq<char>| kinds.contains(k) implies #[trigger] after.local_for(
                            user_id as int,
                            k,
                        ) is Some by {
                            let j = choose|j: int| 0 <= j < kinds.len() && kinds[j] == k;
                            assert(mid2.local_for(user_id as int, kinds[j]) is Some);
                        }
                    }
                    lemma_issued_live(
                        mid2,
                        self.db@,
                        provider,
                        user_id as int,
                        pwv,
                        tok@,
                        now as int,
                    );
                }
                Ok(tok)
            },
            Err(_) => Err(AuthError::InternalFailure),
        }
    }

    /// Logs out at time `now`: only the holder of a token that verifies can
    /// revoke its session.
    pub fn logout_at(&mut self, auth_header: &str, now: i64) -> (r: Result<(), AuthError>)
        requires
            old(self).db@.wf(),
        ensures
            final(self).db@.wf(),
            final(self).same_config(old(self)),
            logout_outcome(old(self).db@, final(self).db@, encode_utf8(auth_header@), now as int, r),
    {
        let (_, token_id, _) = match self.verify_token_at(auth_header, now) {
            Ok(t) => t,
            Err(e) => {
                return Err(e);
            },
        };
        self.invalidate_remote_token(token_id);
        Ok(())
    }
}

impl SessionManager {
    /// Logs in, reading the clock for the session's expiry.
    pub fn login(&mut self, username: &str, password: &str) -> (r: Result<String, AuthError>)
        requires
            old(self).db@.wf(),
        ensures
            final(self).db@.wf(),
            final(self).same_config(old(self)),
            exists|now: i64|
                #[trigger] login_outcome(
                    old(self).db@,
                    final(self).db@,
                    old(self).crypt_provider,
                    username@,
                    encode_utf8(password@),
                    now as int,
                    text_result(r),
                ),
    {
        let now = current_timestamp();
        self.login_at(username, password, now)
    }

    /// Registers, reading the clock for the first session's expiry.
    pub fn register(&mut self, username: &str, password: &str) -> (r: Result<String, AuthError>)
        requires
            old(self).db@.wf(),
        ensures
            final(self).db@.wf(),
            final(self).same_config(old(self)),
            exists|now: i64|
                #[trigger] register_outcome(
                    old(self).db@,
                    final(self).db@,
                    old(self).crypt_provider,
                    old(self).kinds(),
                    username@,
                    encode_utf8(password@),
                    now as int,
                    text_result(r),
                ),
    {
        let now = current_timestamp();
        self.register_at(username, password, now)
    }

    /// Verifies an authorization header against the clock.
    pub fn verify_token(&mut self, auth_header: &str) -> (r: Result<(i32, i32, String), AuthError>)
        requires
            old(self).db@.wf(),
        ensures
            final(self).db@.wf(),
            final(self).same_config(old(self)),
            exists|now: i64|
                #[trigger] verify_effect(
                    old(self).db@,
                    final(self).db@,
                    encode_utf8(auth_header@),
                    now as int,
                    triple_result(r),
                ),
    {
        let now = current_timestamp();
        self.verify_token_at(auth_header, now)
    }

    /// Logs out, checking the token against the clock.
    pub fn logout(&mut self, auth_header: &str) -> (r: Result<(), AuthError>)
        requires
            old(self).db@.wf(),
        ensures
            final(self).db@.wf(),
            final(self).same_config(old(self)),
            exists|now: i64|
                #[trigger] logout_outcome(
                    old(self).db@,
                    final(self).db@,
                    encode_utf8(auth_header@),
                    now as int,
                    r,
                ),
    {
        let now = current_timestamp();
        self.logout_at(auth_header, now)
    }
}

} // verus!
