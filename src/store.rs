//! An in-memory token store with the uniqueness guarantees that the
//! session protocol relies on.

use vstd::prelude::*;
use crate::crypt_types::CryptString;
use crate::db::{
    DBObjIdent, LocalRow, LocalTokenPWCrypt, LocalTokenRTCrypt, RemoteToken, SessionRow, User,
    UserRow, WrappedRow,
};

verus! {

/// Why the store refused a write.
#[derive(Debug, Clone, Copy, PartialEq, Eq, Structural)]
pub enum StoreError {
    /// A row with the same key exists already.
    Duplicate,
    /// No identifier is left.
    Full,
    /// The row refers to a session that is not recorded.
    Missing,
}

/// The store as the contracts see it. The rows of each relation take fresh
/// identifiers from a counter of their own.
pub struct StoreView {
    pub users: Seq<UserRow>,
    pub local_tokens: Seq<LocalRow>,
    pub wrapped: Seq<WrappedRow>,
    pub sessions: Seq<SessionRow>,
    pub next_user_id: int,
    pub next_local_id: int,
    pub next_wrapped_id: int,
    pub next_session_id: int,
}

impl StoreView {
    /// Identifiers are below their counter and distinct within each
    /// relation; a wrapped local token refers to a session id already
    /// issued; a user name, a (user, kind) pair and a (local token, session) pair
    /// occur at most once.
    pub open spec fn wf(self) -> bool {
        &&& 1 <= self.next_user_id <= i32::MAX
        &&& 1 <= self.next_local_id <= i32::MAX
        &&& 1 <= self.next_wrapped_id <= i32::MAX
        &&& 1 <= self.next_session_id <= i32::MAX
        &&& forall|i: int|
            0 <= i < self.users.len() ==> 1 <= #[trigger] self.users[i].id < self.next_user_id
        &&& forall|i: int, j: int|
            #![trigger self.users[i], self.users[j]]
            0 <= i < j < self.users.len() ==> self.users[i].id != self.users[j].id
                && self.users[i].username != self.users[j].username
        &&& forall|i: int|
            0 <= i < self.local_tokens.len() ==> 1 <= #[trigger] self.local_tokens[i].id
                < self.next_local_id
        &&& forall|i: int, j: int|
            #![trigger self.local_tokens[i], self.local_tokens[j]]
            0 <= i < j < self.local_tokens.len() ==> self.local_tokens[i].id
                != self.local_tokens[j].id && (self.local_tokens[i].user_id
                != self.local_tokens[j].user_id || self.local_tokens[i].kind
                != self.local_tokens[j].kind)
        &&& forall|i: int|
            0 <= i < self.wrapped.len() ==> 1 <= #[trigger] self.wrapped[i].id < self.next_wrapped_id
                && self.wrapped[i].session_id < self.next_session_id
        &&& forall|i: int, j: int|
            #![trigger self.wrapped[i], self.wrapped[j]]
            0 <= i < j < self.wrapped.len() ==> self.wrapped[i].id != self.wrapped[j].id && (
            self.wrapped[i].local_token_id != self.wrapped[j].local_token_id
                || self.wrapped[i].session_id != self.wrapped[j].session_id)
        &&& forall|i: int|
            0 <= i < self.sessions.len() ==> 1 <= #[trigger] self.sessions[i].id < self.next_session_id
        &&& forall|i: int, j: int|
            #![trigger self.sessions[i], self.sessions[j]]
            0 <= i < j < self.sessions.len() ==> self.sessions[i].id != self.sessions[j].id
    }

    /// The user of the given name.
    pub open spec fn user_named(self, name: Seq<char>) -> Option<UserRow> {
        if exists|i: int| 0 <= i < self.users.len() && #[trigger] self.users[i].username == name {
            Some(
                self.users[choose|i: int|
                    0 <= i < self.users.len() && #[trigger] self.users[i].username == name],
            )
        } else {
            None
        }
    }

    /// The password-wrapped local token of `user_id` for `kind`.
    pub open spec fn local_for(self, user_id: int, kind: Seq<char>) -> Option<LocalRow> {
        if exists|i: int|
            0 <= i < self.local_tokens.len() && #[trigger] self.local_tokens[i].user_id == user_id
                && self.local_tokens[i].kind == kind {
            Some(
                self.local_tokens[choose|i: int|
                    0 <= i < self.local_tokens.len() && #[trigger] self.local_tokens[i].user_id
                        == user_id && self.local_tokens[i].kind == kind],
            )
        } else {
            None
        }
    }

    /// The copy of local token `local_token_id` wrapped for session `session_id`.
    pub open spec fn wrapped_for(self, local_token_id: int, session_id: int) -> Option<WrappedRow> {
        if exists|i: int|
            0 <= i < self.wrapped.len() && #[trigger] self.wrapped[i].local_token_id
                == local_token_id && self.wrapped[i].session_id == session_id {
            Some(
                self.wrapped[choose|i: int|
                    0 <= i < self.wrapped.len() && #[trigger] self.wrapped[i].local_token_id
                        == local_token_id && self.wrapped[i].session_id == session_id],
            )
        } else {
            None
        }
    }

    /// The session of the given id.
    pub open spec fn session(self, id: int) -> Option<SessionRow> {
        if exists|i: int| 0 <= i < self.sessions.len() && #[trigger] self.sessions[i].id == id {
            Some(
                self.sessions[choose|i: int|
                    0 <= i < self.sessions.len() && #[trigger] self.sessions[i].id == id],
            )
        } else {
            None
        }
    }

    /// No wrapped local token refers to the session.
    pub open spec fn no_wrapped_for_session(self, session_id: int) -> bool {
        forall|i: int| 0 <= i < self.wrapped.len() ==> #[trigger] self.wrapped[i].session_id != session_id
    }

    /// `self` is `before` with the session `session_id` and every wrapped
    /// local token of it removed, and nothing else changed.
    pub open spec fn revoked(self, before: StoreView, session_id: int) -> bool {
        &&& self.users == before.users
        &&& self.local_tokens == before.local_tokens
        &&& self.next_user_id == before.next_user_id
        &&& self.next_local_id == before.next_local_id
        &&& self.next_wrapped_id == before.next_wrapped_id
        &&& self.next_session_id == before.next_session_id
        &&& self.no_wrapped_for_session(session_id)
        &&& self.session(session_id) is None
        &&& forall|m: int|
            0 <= m < self.wrapped.len() ==> before.wrapped.contains(#[trigger] self.wrapped[m])
        &&& forall|i: int|
            0 <= i < before.wrapped.len() && #[trigger] before.wrapped[i].session_id != session_id
                ==> self.wrapped.contains(before.wrapped[i])
        &&& forall|m: int|
            0 <= m < self.sessions.len() ==> before.sessions.contains(#[trigger] self.sessions[m])
        &&& forall|i: int|
            0 <= i < before.sessions.len() && #[trigger] before.sessions[i].id != session_id
                ==> self.sessions.contains(before.sessions[i])
    }

    /// `self` is `before` with every wrapped local token of `session_id`
    /// removed, and nothing else changed.
    pub open spec fn wrapped_removed(self, before: StoreView, session_id: int) -> bool {
        &&& self.users == before.users
        &&& self.local_tokens == before.local_tokens
        &&& self.sessions == before.sessions
        &&& self.next_user_id == before.next_user_id
        &&& self.next_local_id == before.next_local_id
        &&& self.next_wrapped_id == before.next_wrapped_id
        &&& self.next_session_id == before.next_session_id
        &&& self.no_wrapped_for_session(session_id)
        &&& forall|m: int|
            0 <= m < self.wrapped.len() ==> before.wrapped.contains(#[trigger] self.wrapped[m])
        &&& forall|i: int|
            0 <= i < before.wrapped.len() && #[trigger] before.wrapped[i].session_id != session_id
                ==> self.wrapped.contains(before.wrapped[i])
    }

    /// `self` is `before` with the session `session_id` removed, and
    /// nothing else changed.
    pub open spec fn session_removed(self, before: StoreView, session_id: int) -> bool {
        &&& self.users == before.users
        &&& self.local_tokens == before.local_tokens
        &&& self.wrapped == before.wrapped
        &&& self.next_user_id == before.next_user_id
        &&& self.next_local_id == before.next_local_id
        &&& self.next_wrapped_id == before.next_wrapped_id
        &&& self.next_session_id == before.next_session_id
        &&& self.session(session_id) is None
        &&& forall|m: int|
            0 <= m < self.sessions.len() ==> before.sessions.contains(#[trigger] self.sessions[m])
        &&& forall|i: int|
            0 <= i < before.sessions.len() && #[trigger] before.sessions[i].id != session_id
                ==> self.sessions.contains(before.sessions[i])
    }
}

/// Adding a user under a fresh name with the next id keeps the store well formed.
pub proof fn lemma_push_user(before: StoreView, row: UserRow)
    requires
        before.wf(),
        before.next_user_id < i32::MAX,
        row.id == before.next_user_id,
        forall|i: int| 0 <= i < before.users.len() ==> #[trigger] before.users[i].username != row.username,
    ensures
        (StoreView { users: before.users.push(row), next_user_id: before.next_user_id + 1, ..before }).wf(),
{
    let after = StoreView { users: before.users.push(row), next_user_id: before.next_user_id + 1, ..before };
    assert forall|i: int, j: int|
        #![trigger after.users[i], after.users[j]]
        0 <= i < j < after.users.len() implies after.users[i].id != after.users[j].id
            && after.users[i].username != after.users[j].username by {
        if j < before.users.len() {
            assert(before.users[i] == after.users[i] && before.users[j] == after.users[j]);
        } else {
            assert(after.users[i] == before.users[i]);
        }
    }
    assert forall|i: int| 0 <= i < after.users.len() implies 1 <= #[trigger] after.users[i].id
        < after.next_user_id by {
        if i < before.users.len() {
            assert(after.users[i] == before.users[i]);
        }
    }
}

/// Adding a session with the next id keeps the store well formed.
pub proof fn lemma_push_session(before: StoreView, row: SessionRow)
    requires
        before.wf(),
        before.next_session_id < i32::MAX,
        row.id == before.next_session_id,
    ensures
        (StoreView { sessions: before.sessions.push(row), next_session_id: before.next_session_id + 1, ..before }).wf(),
{
    let after = StoreView { sessions: before.sessions.push(row), next_session_id: before.next_session_id + 1, ..before };
    assert forall|i: int, j: int|
        #![trigger after.sessions[i], after.sessions[j]]
        0 <= i < j < after.sessions.len() implies after.sessions[i].id != after.sessions[j].id by {
        if j < before.sessions.len() {
            assert(before.sessions[i] == after.sessions[i] && before.sessions[j] == after.sessions[j]);
        } else {
            assert(after.sessions[i] == before.sessions[i]);
        }
    }
    assert forall|i: int| 0 <= i < after.sessions.len() implies 1 <= #[trigger] after.sessions[i].id
        < after.next_session_id by {
        if i < before.sessions.len() {
            assert(after.sessions[i] == before.sessions[i]);
        }
    }
}

/// Adding a local token under a fresh (user, kind) pair with the next id
/// keeps the store well formed.
pub proof fn lemma_push_local(before: StoreView, row: LocalRow)
    requires
        before.wf(),
        before.next_local_id < i32::MAX,
        row.id == before.next_local_id,
        before.local_for(row.user_id, row.kind) is None,
    ensures
        (StoreView {
            local_tokens: before.local_tokens.push(row),
            next_local_id: before.next_local_id + 1,
            ..before
        }).wf(),
{
    let after = StoreView {
        local_tokens: before.local_tokens.push(row),
        next_local_id: before.next_local_id + 1,
        ..before
    };
    assert forall|i: int, j: int|
        #![trigger after.local_tokens[i], after.local_tokens[j]]
        0 <= i < j < after.local_tokens.len() implies after.local_tokens[i].id
            != after.local_tokens[j].id && (after.local_tokens[i].user_id
            != after.local_tokens[j].user_id || after.local_tokens[i].kind
            != after.local_tokens[j].kind) by {
        if j < before.local_tokens.len() {
            assert(before.local_tokens[i] == after.local_tokens[i] && before.local_tokens[j]
                == after.local_tokens[j]);
        } else {
            assert(after.local_tokens[i] == before.local_tokens[i]);
            if before.local_tokens[i].user_id == row.user_id && before.local_tokens[i].kind
                == row.kind {
                assert(before.local_for(row.user_id, row.kind) is Some);
            }
        }
    }
    assert forall|i: int| 0 <= i < after.local_tokens.len() implies 1
        <= #[trigger] after.local_tokens[i].id < after.next_local_id by {
        if i < before.local_tokens.len() {
            assert(after.local_tokens[i] == before.local_tokens[i]);
        }
    }
}

/// Adding a wrapped local token under a fresh (local token, session) pair
/// with the next id keeps the store well formed.
pub proof fn lemma_push_wrapped(before: StoreView, row: WrappedRow)
    requires
        before.wf(),
        before.next_wrapped_id < i32::MAX,
        row.id == before.next_wrapped_id,
        row.session_id < before.next_session_id,
        before.wrapped_for(row.local_token_id, row.session_id) is None,
    ensures
        (StoreView { wrapped: before.wrapped.push(row), next_wrapped_id: before.next_wrapped_id + 1, ..before }).wf(),
{
    let after = StoreView { wrapped: before.wrapped.push(row), next_wrapped_id: before.next_wrapped_id + 1, ..before };
    assert forall|i: int, j: int|
        #![trigger after.wrapped[i], after.wrapped[j]]
        0 <= i < j < after.wrapped.len() implies after.wrapped[i].id != after.wrapped[j].id && (
        after.wrapped[i].local_token_id != after.wrapped[j].local_token_id
            || after.wrapped[i].session_id != after.wrapped[j].session_id) by {
        if j < before.wrapped.len() {
            assert(before.wrapped[i] == after.wrapped[i] && before.wrapped[j] == after.wrapped[j]);
        } else {
            assert(after.wrapped[i] == before.wrapped[i]);
            if before.wrapped[i].local_token_id == row.local_token_id && before.wrapped[i].session_id
                == row.session_id {
                assert(before.wrapped_for(row.local_token_id, row.session_id) is Some);
            }
        }
    }
    assert forall|i: int| 0 <= i < after.wrapped.len() implies 1 <= #[trigger] after.wrapped[i].id
        < after.next_wrapped_id by {
        if i < before.wrapped.len() {
            assert(after.wrapped[i] == before.wrapped[i]);
        }
    }
}

/// Adding a wrapped local token changes what `wrapped_for` finds only for
/// the new row's own key.
pub proof fn lemma_wrapped_for_push(before: StoreView, after: StoreView, row: WrappedRow)
    requires
        before.wf(),
        after.wf(),
        after.wrapped == before.wrapped.push(row),
    ensures
        after.wrapped_for(row.local_token_id, row.session_id) == Some(row),
        forall|a: int, b: int|
            !(a == row.local_token_id && b == row.session_id) ==> #[trigger] after.wrapped_for(a, b)
                == before.wrapped_for(a, b),
{
    let n = before.wrapped.len() as int;
    assert(after.wrapped[n] == row);
    let j = choose|j: int|
        0 <= j < after.wrapped.len() && #[trigger] after.wrapped[j].local_token_id
            == row.local_token_id && after.wrapped[j].session_id == row.session_id;
    assert(j == n) by {
        if j < n {
            assert(after.wrapped[j].id != after.wrapped[n].id);
        }
    }
    assert forall|a: int, b: int|
        !(a == row.local_token_id && b == row.session_id) implies #[trigger] after.wrapped_for(a, b)
        == before.wrapped_for(a, b) by {
        if exists|i: int|
            0 <= i < before.wrapped.len() && #[trigger] before.wrapped[i].local_token_id == a
                && before.wrapped[i].session_id == b {
            let i = choose|i: int|
                0 <= i < before.wrapped.len() && #[trigger] before.wrapped[i].local_token_id == a
                    && before.wrapped[i].session_id == b;
            assert(after.wrapped[i] == before.wrapped[i]);
            let k = choose|k: int|
                0 <= k < after.wrapped.len() && #[trigger] after.wrapped[k].local_token_id == a
                    && after.wrapped[k].session_id == b;
            assert(k == i) by {
                if k < i {
                    assert(after.wrapped[k].id != after.wrapped[i].id);
                } else if i < k {
                    assert(after.wrapped[i].id != after.wrapped[k].id);
                }
            }
        } else {
            assert forall|k: int|
                0 <= k < after.wrapped.len() implies !(#[trigger] after.wrapped[k].local_token_id
                == a && after.wrapped[k].session_id == b) by {
                if k < n {
                    assert(after.wrapped[k] == before.wrapped[k]);
                }
            }
        }
    }
}

/// A local token is what `local_for` finds for its own user and kind.
pub proof fn lemma_local_for_at(v: StoreView, i: int)
    requires
        v.wf(),
        0 <= i < v.local_tokens.len(),
    ensures
        v.local_for(v.local_tokens[i].user_id, v.local_tokens[i].kind) == Some(v.local_tokens[i]),
{
    let u = v.local_tokens[i].user_id;
    let k = v.local_tokens[i].kind;
    assert(v.local_tokens[i].user_id == u && v.local_tokens[i].kind == k);
    let j = choose|j: int|
        0 <= j < v.local_tokens.len() && #[trigger] v.local_tokens[j].user_id == u
            && v.local_tokens[j].kind == k;
    assert(i == j) by {
        if i < j {
            assert(v.local_tokens[i].id != v.local_tokens[j].id);
        } else if j < i {
            assert(v.local_tokens[j].id != v.local_tokens[i].id);
        }
    }
}

/// The token store kept in memory.
pub struct TokenStore {
    pub users: Vec<User>,
    pub local_tokens: Vec<LocalTokenPWCrypt>,
    pub wrapped_tokens: Vec<LocalTokenRTCrypt>,
    pub remote_tokens: Vec<RemoteToken>,
    pub next_user_id: i32,
    pub next_local_id: i32,
    pub next_wrapped_id: i32,
    pub next_session_id: i32,
}

impl View for TokenStore {
    type V = StoreView;

    open spec fn view(&self) -> StoreView {
        StoreView {
            users: self.users@.map_values(|u: User| u@),
            local_tokens: self.local_tokens@.map_values(|t: LocalTokenPWCrypt| t@),
            wrapped: self.wrapped_tokens@.map_values(|t: LocalTokenRTCrypt| t@),
            sessions: self.remote_tokens@.map_values(|t: RemoteToken| t@),
            next_user_id: self.next_user_id as int,
            next_local_id: self.next_local_id as int,
            next_wrapped_id: self.next_wrapped_id as int,
            next_session_id: self.next_session_id as int,
        }
    }
}

impl TokenStore {
    /// An empty store.
    pub fn new() -> (r: TokenStore)
        ensures
            r@.wf(),
            r@.users.len() == 0,
            r@.local_tokens.len() == 0,
            r@.wrapped.len() == 0,
            r@.sessions.len() == 0,
            r@.next_user_id == 1,
            r@.next_local_id == 1,
            r@.next_wrapped_id == 1,
            r@.next_session_id == 1,
    {
        let r = TokenStore {
            users: Vec::new(),
            local_tokens: Vec::new(),
            wrapped_tokens: Vec::new(),
            remote_tokens: Vec::new(),
            next_user_id: 1,
            next_local_id: 1,
            next_wrapped_id: 1,
            next_session_id: 1,
        };
        assert(r@.users =~= Seq::<UserRow>::empty());
        assert(r@.local_tokens =~= Seq::<LocalRow>::empty());
        assert(r@.wrapped =~= Seq::<WrappedRow>::empty());
        assert(r@.sessions =~= Seq::<SessionRow>::empty());
        r
    }

    /// Creates a user and returns its id; refuses a name that is taken.
    pub fn new_user(&mut self, username: &str, password_hash: &str) -> (r: Result<i32, StoreError>)
        requires
            old(self)@.wf(),
        ensures
            final(self)@.wf(),
            r is Ok <==> old(self)@.user_named(username@) is None && old(self)@.next_user_id < i32::MAX,
            r matches Ok(id) ==> id == old(self)@.next_user_id && final(self)@ == (StoreView {
                users: old(self)@.users.push(
                    UserRow { id: id as int, username: username@, password_hash: password_hash@ },
                ),
                next_user_id: old(self)@.next_user_id + 1,
                ..old(self)@
            }),
            r matches Err(e) ==> final(self)@ == old(self)@ && (e == StoreError::Duplicate
                <==> old(self)@.user_named(username@) is Some),
    {
        let ghost before = self@;
        let name = username.to_owned();
        let mut k: usize = 0;
        while k < self.users.len()
            invariant
                self@ == before,
                before.wf(),
                name@ == username@,
                k <= self.users@.len(),
                forall|i: int| 0 <= i < k ==> #[trigger] before.users[i].username != username@,
            decreases self.users@.len() - k,
        {
            if self.users[k].username == name {
                assert(before.users[k as int].username == username@);
                return Err(StoreError::Duplicate);
            }
            k = k + 1;
        }
        if self.next_user_id == i32::MAX {
            return Err(StoreError::Full);
        }
        let id = self.next_user_id;
        self.users.push(User { id, username: name, password_hash: password_hash.to_owned() });
        self.next_user_id = id + 1;
        assert(self@.users =~= before.users.push(
            UserRow { id: id as int, username: username@, password_hash: password_hash@ },
        ));
        proof {
            lemma_push_user(
                before,
                UserRow { id: id as int, username: username@, password_hash: password_hash@ },
            );
        }
        Ok(id)
    }

    /// The user of the given name.
    pub fn get_user_by_username(&self, username: &str) -> (r: Option<User>)
        requires
            self@.wf(),
        ensures
            match self@.user_named(username@) {
                Some(u) => r matches Some(x) && x@ == u,
                None => r is None,
            },
    {
        let name = username.to_owned();
        let mut k: usize = 0;
        while k < self.users.len()
            invariant
                self@.wf(),
                name@ == username@,
                k <= self.users@.len(),
                forall|i: int| 0 <= i < k ==> #[trigger] self@.users[i].username != username@,
            decreases self.users@.len() - k,
        {
            if self.users[k].username == name {
                let ghost i = k as int;
                assert(self@.users[i].username == username@);
                let ghost j = choose|j: int|
                    0 <= j < self@.users.len() && #[trigger] self@.users[j].username == username@;
                assert(i == j) by {
                    if i < j {
                        assert(self@.users[i].username != self@.users[j].username);
                    } else if j < i {
                        assert(self@.users[j].username != self@.users[i].username);
                    }
                }
                return Some(self.users[k].duplicate());
            }
            k = k + 1;
        }
        None
    }

    /// Records a session with the hash of its secret; returns its id.
    pub fn new_remote_token(&mut self, rt_hash: &str, user_id: i32, valid_until: i64) -> (r: Result<
        i32,
        StoreError,
    >)
        requires
            old(self)@.wf(),
        ensures
            final(self)@.wf(),
            r is Ok <==> old(self)@.next_session_id < i32::MAX,
            r matches Ok(id) ==> id == old(self)@.next_session_id && final(self)@ == (StoreView {
                sessions: old(self)@.sessions.push(
                    SessionRow {
                        id: id as int,
                        secret_hash: rt_hash@,
                        user_id: user_id as int,
                        valid_until: valid_until as int,
                    },
                ),
                next_session_id: old(self)@.next_session_id + 1,
                ..old(self)@
            }),
            r matches Err(e) ==> final(self)@ == old(self)@ && e == StoreError::Full,
    {
        let ghost before = self@;
        if self.next_session_id == i32::MAX {
            return Err(StoreError::Full);
        }
        let id = self.next_session_id;
        self.remote_tokens.push(
            RemoteToken { id, rt_hash: rt_hash.to_owned(), user_id, valid_until },
        );
        self.next_session_id = id + 1;
        let ghost row = SessionRow {
            id: id as int,
            secret_hash: rt_hash@,
            user_id: user_id as int,
            valid_until: valid_until as int,
        };
        assert(self@.sessions =~= before.sessions.push(row));
        proof {
            lemma_push_session(before, row);
        }
        Ok(id)
    }

    /// The session of the given id.
    pub fn get_remote_token(&self, token_id: i32) -> (r: Option<RemoteToken>)
        requires
            self@.wf(),
        ensures
            match self@.session(token_id as int) {
                Some(t) => r matches Some(x) && x@ == t,
                None => r is None,
            },
    {
        let mut k: usize = 0;
        while k < self.remote_tokens.len()
            invariant
                self@.wf(),
                k <= self.remote_tokens@.len(),
                forall|i: int| 0 <= i < k ==> #[trigger] self@.sessions[i].id != token_id,
            decreases self.remote_tokens@.len() - k,
        {
            if self.remote_tokens[k].id == token_id {
                let ghost i = k as int;
                assert(self@.sessions[i].id == token_id);
                let ghost j = choose|j: int|
                    0 <= j < self@.sessions.len() && #[trigger] self@.sessions[j].id == token_id;
                assert(i == j) by {
                    if i < j {
                        assert(self@.sessions[i].id != self@.sessions[j].id);
                    } else if j < i {
                        assert(self@.sessions[j].id != self@.sessions[i].id);
                    }
                }
                return Some(self.remote_tokens[k].duplicate());
            }
            k = k + 1;
        }
        None
    }
}

impl TokenStore {
    /// Stores a local token wrapped under a password for `(user_id,
    /// used_for)`; refuses a second one for the same pair.
    pub fn new_local_token_pwcrypt(
        &mut self,
        user_id: i32,
        token_crypt: &CryptString,
        used_for: &DBObjIdent,
    ) -> (r: Result<i32, StoreError>)
        requires
            old(self)@.wf(),
        ensures
            final(self)@.wf(),
            r is Ok <==> old(self)@.local_for(user_id as int, used_for.db_identifier@) is None
                && old(self)@.next_local_id < i32::MAX,
            r matches Ok(id) ==> id == old(self)@.next_local_id && final(self)@ == (StoreView {
                local_tokens: old(self)@.local_tokens.push(
                    LocalRow {
                        id: id as int,
                        user_id: user_id as int,
                        kind: used_for.db_identifier@,
                        crypt: token_crypt.data_crypt@,
                    },
                ),
                next_local_id: old(self)@.next_local_id + 1,
                ..old(self)@
            }),
            r matches Err(e) ==> final(self)@ == old(self)@ && (e == StoreError::Duplicate
                <==> old(self)@.local_for(user_id as int, used_for.db_identifier@) is Some),
    {
        let ghost before = self@;
        match self.get_local_token_by_used_for_pwcrypt(user_id, used_for) {
            Some(_) => {
                return Err(StoreError::Duplicate);
            },
            None => {},
        }
        if self.next_local_id == i32::MAX {
            return Err(StoreError::Full);
        }
        let id = self.next_local_id;
        self.local_tokens.push(
            LocalTokenPWCrypt {
                id,
                user_id,
                token_crypt: token_crypt.duplicate(),
                used_for: used_for.duplicate(),
            },
        );
        self.next_local_id = id + 1;
        let ghost row = LocalRow {
            id: id as int,
            user_id: user_id as int,
            kind: used_for.db_identifier@,
            crypt: token_crypt.data_crypt@,
        };
        assert(self@.local_tokens =~= before.local_tokens.push(row));
        proof {
            lemma_push_local(before, row);
        }
        Ok(id)
    }

    /// The password-wrapped local token of `user_id` for `used_for`.
    pub fn get_local_token_by_used_for_pwcrypt(&self, user_id: i32, used_for: &DBObjIdent) -> (r:
        Option<LocalTokenPWCrypt>)
        requires
            self@.wf(),
        ensures
            match self@.local_for(user_id as int, used_for.db_identifier@) {
                Some(t) => r matches Some(x) && x@ == t,
                None => r is None,
            },
    {
        let ghost kind = used_for.db_identifier@;
        let mut k: usize = 0;
        while k < self.local_tokens.len()
            invariant
                self@.wf(),
                kind == used_for.db_identifier@,
                k <= self.local_tokens@.len(),
                forall|i: int|
                    0 <= i < k ==> !(#[trigger] self@.local_tokens[i].user_id == user_id
                        && self@.local_tokens[i].kind == kind),
            decreases self.local_tokens@.len() - k,
        {
            if self.local_tokens[k].user_id == user_id && self.local_tokens[k].used_for.db_identifier
                == used_for.db_identifier {
                let ghost i = k as int;
                assert(self@.local_tokens[i].user_id == user_id && self@.local_tokens[i].kind == kind);
                let ghost j = choose|j: int|
                    0 <= j < self@.local_tokens.len() && #[trigger] self@.local_tokens[j].user_id
                        == user_id && self@.local_tokens[j].kind == kind;
                assert(i == j) by {
                    if i < j {
                        assert(self@.local_tokens[i].id != self@.local_tokens[j].id);
                    } else if j < i {
                        assert(self@.local_tokens[j].id != self@.local_tokens[i].id);
                    }
                }
                return Some(self.local_tokens[k].duplicate());
            }
            k = k + 1;
        }
        None
    }

    /// Stores the copy of local token `local_token_id` wrapped for session
    /// `decryptable_by_rt_id`; refuses an unknown session and a second copy
    /// for the same pair.
    pub fn new_local_token_rtcrypt(
        &mut self,
        local_token_id: i32,
        local_token_crypt: &CryptString,
        decryptable_by_rt_id: i32,
    ) -> (r: Result<i32, StoreError>)
        requires
            old(self)@.wf(),
        ensures
            final(self)@.wf(),
            r is Ok <==> old(self)@.session(decryptable_by_rt_id as int) is Some && old(
                self,
            )@.wrapped_for(local_token_id as int, decryptable_by_rt_id as int) is None && old(
                self,
            )@.next_wrapped_id < i32::MAX,
            r matches Ok(id) ==> id == old(self)@.next_wrapped_id && final(self)@ == (StoreView {
                wrapped: old(self)@.wrapped.push(
                    WrappedRow {
                        id: id as int,
                        local_token_id: local_token_id as int,
                        crypt: local_token_crypt.data_crypt@,
                        session_id: decryptable_by_rt_id as int,
                    },
                ),
                next_wrapped_id: old(self)@.next_wrapped_id + 1,
                ..old(self)@
            }),
            r matches Err(e) ==> final(self)@ == old(self)@,
    {
        let ghost before = self@;
        match self.get_remote_token(decryptable_by_rt_id) {
            Some(_) => {},
            None => {
                return Err(StoreError::Missing);
            },
        }
        match self.get_local_token_by_id_rtcrypt(local_token_id, decryptable_by_rt_id) {
            Some(_) => {
                return Err(StoreError::Duplicate);
            },
            None => {},
        }
        if self.next_wrapped_id == i32::MAX {
            return Err(StoreError::Full);
        }
        let id = self.next_wrapped_id;
        self.wrapped_tokens.push(
            LocalTokenRTCrypt {
                id,
                local_token_id,
                local_token_crypt: local_token_crypt.duplicate(),
                decryptable_by_rt_id,
            },
        );
        self.next_wrapped_id = id + 1;
        let ghost row = WrappedRow {
            id: id as int,
            local_token_id: local_token_id as int,
            crypt: local_token_crypt.data_crypt@,
            session_id: decryptable_by_rt_id as int,
        };
        assert(self@.wrapped =~= before.wrapped.push(row));
        proof {
            let j = choose|j: int|
                0 <= j < before.sessions.len() && #[trigger] before.sessions[j].id
                    == decryptable_by_rt_id as int;
            assert(before.sessions[j].id < before.next_session_id);
            lemma_push_wrapped(before, row);
        }
        Ok(id)
    }

    /// The copy of local token `local_token_id` wrapped for session `remote_token_id`.
    pub fn get_local_token_by_id_rtcrypt(&self, local_token_id: i32, remote_token_id: i32) -> (r:
        Option<LocalTokenRTCrypt>)
        requires
            self@.wf(),
        ensures
            match self@.wrapped_for(local_token_id as int, remote_token_id as int) {
                Some(t) => r matches Some(x) && x@ == t,
                None => r is None,
            },
    {
        let mut k: usize = 0;
        while k < self.wrapped_tokens.len()
            invariant
                self@.wf(),
                k <= self.wrapped_tokens@.len(),
                forall|i: int|
                    0 <= i < k ==> !(#[trigger] self@.wrapped[i].local_token_id == local_token_id
                        && self@.wrapped[i].session_id == remote_token_id),
            decreases self.wrapped_tokens@.len() - k,
        {
            if self.wrapped_tokens[k].local_token_id == local_token_id
                && self.wrapped_tokens[k].decryptable_by_rt_id == remote_token_id {
                let ghost i = k as int;
                assert(self@.wrapped[i].local_token_id == local_token_id
                    && self@.wrapped[i].session_id == remote_token_id);
                let ghost j = choose|j: int|
                    0 <= j < self@.wrapped.len() && #[trigger] self@.wrapped[j].local_token_id
                        == local_token_id && self@.wrapped[j].session_id == remote_token_id;
                assert(i == j) by {
                    if i < j {
                        assert(self@.wrapped[i].id != self@.wrapped[j].id);
                    } else if j < i {
                        assert(self@.wrapped[j].id != self@.wrapped[i].id);
                    }
                }
                return Some(self.wrapped_tokens[k].duplicate());
            }
            k = k + 1;
        }
        None
    }
}

impl TokenStore {
    /// Deletes every wrapped local token of session `remote_token_id`.
    pub fn del_local_token_rtcrypt_by_rt(&mut self, remote_token_id: i32)
        requires
            old(self)@.wf(),
        ensures
            final(self)@.wf(),
            final(self)@.wrapped_removed(old(self)@, remote_token_id as int),
    {
        let ghost before = self@;
        let ghost sid = remote_token_id as int;
        let mut kept: Vec<LocalTokenRTCrypt> = Vec::new();
        let ghost mut idx: Seq<int> = Seq::empty();
        let mut k: usize = 0;
        while k < self.wrapped_tokens.len()
            invariant
                self@ == before,
                before.wf(),
                sid == remote_token_id as int,
                k <= self.wrapped_tokens@.len(),
                idx.len() == kept@.len(),
                forall|m: int|
                    0 <= m < idx.len() ==> 0 <= #[trigger] idx[m] < k && kept@[m]@ == before.wrapped[idx[m]]
                        && before.wrapped[idx[m]].session_id != sid,
                forall|m1: int, m2: int| 0 <= m1 < m2 < idx.len() ==> #[trigger] idx[m1] < #[trigger] idx[m2],
                forall|i: int|
                    0 <= i < k && #[trigger] before.wrapped[i].session_id != sid ==> exists|m: int|
                        0 <= m < idx.len() && idx[m] == i,
            decreases self.wrapped_tokens@.len() - k,
        {
            if self.wrapped_tokens[k].decryptable_by_rt_id != remote_token_id {
                let row = self.wrapped_tokens[k].duplicate();
                kept.push(row);
                proof {
                    let old_idx = idx;
                    idx = idx.push(k as int);
                    assert forall|i: int|
                        0 <= i < k + 1 && #[trigger] before.wrapped[i].session_id != sid implies exists|m: int|
                        0 <= m < idx.len() && idx[m] == i by {
                        if i < k {
                            let m = choose|m: int| 0 <= m < old_idx.len() && old_idx[m] == i;
                            assert(idx[m] == i);
                        } else {
                            assert(idx[old_idx.len() as int] == i);
                        }
                    }
                }
            }
            k = k + 1;
        }
        self.wrapped_tokens = kept;
        let ghost after = self@;
        assert(after.users == before.users && after.local_tokens == before.local_tokens
            && after.sessions == before.sessions);
        assert forall|m: int| 0 <= m < after.wrapped.len() implies after.wrapped[m] == before.wrapped[idx[m]] by {}
        assert forall|m1: int, m2: int|
            #![trigger after.wrapped[m1], after.wrapped[m2]]
            0 <= m1 < m2 < after.wrapped.len() implies after.wrapped[m1].id != after.wrapped[m2].id && (
            after.wrapped[m1].local_token_id != after.wrapped[m2].local_token_id
                || after.wrapped[m1].session_id != after.wrapped[m2].session_id) by {
            assert(idx[m1] < idx[m2]);
            assert(before.wrapped[idx[m1]] == after.wrapped[m1]);
            assert(before.wrapped[idx[m2]] == after.wrapped[m2]);
        }
        assert forall|m: int| 0 <= m < after.wrapped.len() implies 1 <= #[trigger] after.wrapped[m].id
            < after.next_wrapped_id && after.wrapped[m].session_id < after.next_session_id by {
            assert(before.wrapped[idx[m]] == after.wrapped[m]);
        }
        assert forall|m: int| 0 <= m < after.wrapped.len() implies before.wrapped.contains(
            #[trigger] after.wrapped[m],
        ) by {
            assert(before.wrapped[idx[m]] == after.wrapped[m]);
        }
        assert forall|i: int|
            0 <= i < before.wrapped.len() && #[trigger] before.wrapped[i].session_id != sid implies after.wrapped.contains(
            before.wrapped[i],
        ) by {
            let m = choose|m: int| 0 <= m < idx.len() && idx[m] == i;
            assert(after.wrapped[m] == before.wrapped[i]);
        }
        assert forall|m: int| 0 <= m < after.wrapped.len() implies #[trigger] after.wrapped[m].session_id
            != sid by {
            assert(before.wrapped[idx[m]] == after.wrapped[m]);
        }
    }

    /// Deletes the session `remote_token_id`.
    pub fn del_remote_token(&mut self, remote_token_id: i32)
        requires
            old(self)@.wf(),
        ensures
            final(self)@.wf(),
            final(self)@.session_removed(old(self)@, remote_token_id as int),
    {
        let ghost before = self@;
        let ghost sid = remote_token_id as int;
        let mut kept: Vec<RemoteToken> = Vec::new();
        let ghost mut idx: Seq<int> = Seq::empty();
        let mut k: usize = 0;
        while k < self.remote_tokens.len()
            invariant
                self@ == before,
                before.wf(),
                sid == remote_token_id as int,
                k <= self.remote_tokens@.len(),
                idx.len() == kept@.len(),
                forall|m: int|
                    0 <= m < idx.len() ==> 0 <= #[trigger] idx[m] < k && kept@[m]@ == before.sessions[idx[m]]
                        && before.sessions[idx[m]].id != sid,
                forall|m1: int, m2: int| 0 <= m1 < m2 < idx.len() ==> #[trigger] idx[m1] < #[trigger] idx[m2],
                forall|i: int|
                    0 <= i < k && #[trigger] before.sessions[i].id != sid ==> exists|m: int|
                        0 <= m < idx.len() && idx[m] == i,
            decreases self.remote_tokens@.len() - k,
        {
            if self.remote_tokens[k].id != remote_token_id {
                let row = self.remote_tokens[k].duplicate();
                kept.push(row);
                proof {
                    let old_idx = idx;
                    idx = idx.push(k as int);
                    assert forall|i: int|
                        0 <= i < k + 1 && #[trigger] before.sessions[i].id != sid implies exists|m: int|
                        0 <= m < idx.len() && idx[m] == i by {
                        if i < k {
                            let m = choose|m: int| 0 <= m < old_idx.len() && old_idx[m] == i;
                            assert(idx[m] == i);
                        } else {
                            assert(idx[old_idx.len() as int] == i);
                        }
                    }
                }
            }
            k = k + 1;
        }
        self.remote_tokens = kept;
        let ghost after = self@;
        assert(after.users == before.users && after.local_tokens == before.local_tokens
            && after.wrapped == before.wrapped);
        assert forall|m: int| 0 <= m < after.sessions.len() implies after.sessions[m] == before.sessions[idx[m]] by {}
        assert forall|m1: int, m2: int|
            #![trigger after.sessions[m1], after.sessions[m2]]
            0 <= m1 < m2 < after.sessions.len() implies after.sessions[m1].id != after.sessions[m2].id by {
            assert(idx[m1] < idx[m2]);
            assert(before.sessions[idx[m1]] == after.sessions[m1]);
            assert(before.sessions[idx[m2]] == after.sessions[m2]);
        }
        assert forall|m: int| 0 <= m < after.sessions.len() implies 1 <= #[trigger] after.sessions[m].id
            < after.next_session_id by {
            assert(before.sessions[idx[m]] == after.sessions[m]);
        }
        assert forall|m: int| 0 <= m < after.sessions.len() implies before.sessions.contains(
            #[trigger] after.sessions[m],
        ) by {
            assert(before.sessions[idx[m]] == after.sessions[m]);
        }
        assert forall|i: int|
            0 <= i < before.sessions.len() && #[trigger] before.sessions[i].id != sid implies after.sessions.contains(
            before.sessions[i],
        ) by {
            let m = choose|m: int| 0 <= m < idx.len() && idx[m] == i;
            assert(after.sessions[m] == before.sessions[i]);
        }
        assert(after.session(sid) is None) by {
            if exists|i: int| 0 <= i < after.sessions.len() && #[trigger] after.sessions[i].id == sid {
                let i = choose|i: int| 0 <= i < after.sessions.len() && #[trigger] after.sessions[i].id == sid;
                assert(before.sessions[idx[i]] == after.sessions[i]);
            }
        }
    }
}

impl TokenStore {
    /// Revokes a session: deletes its wrapped local tokens first, then the
    /// session itself, so that an interruption between the two leaves a
    /// session that reaches no key.
    pub fn revoke_session(&mut self, remote_token_id: i32)
        requires
            old(self)@.wf(),
        ensures
            final(self)@.wf(),
            final(self)@.revoked(old(self)@, remote_token_id as int),
    {
        let ghost before = self@;
        self.del_local_token_rtcrypt_by_rt(remote_token_id);
        let ghost mid = self@;
        self.del_remote_token(remote_token_id);
        let ghost after = self@;
        assert forall|m: int| 0 <= m < after.wrapped.len() implies before.wrapped.contains(
            #[trigger] after.wrapped[m],
        ) by {
            assert(mid.wrapped.contains(after.wrapped[m]));
        }
        assert forall|m: int| 0 <= m < after.sessions.len() implies before.sessions.contains(
            #[trigger] after.sessions[m],
        ) by {
            assert(mid.sessions.contains(after.sessions[m]));
        }
        assert forall|i: int|
            0 <= i < before.sessions.len() && #[trigger] before.sessions[i].id != remote_token_id
                as int implies after.sessions.contains(before.sessions[i]) by {
            assert(mid.sessions[i] == before.sessions[i]);
        }
        assert forall|m: int| 0 <= m < after.wrapped.len() implies #[trigger] after.wrapped[m].session_id
            != remote_token_id as int by {
            assert(mid.wrapped[m] == after.wrapped[m]);
        }
    }
}

} // verus!
