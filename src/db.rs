//! The token store: users, password-wrapped local tokens, session records
//! and session-wrapped local tokens, kept as four relations.

use vstd::prelude::*;
use crate::crypt_types::CryptString;

verus! {

/// A record category: a stable label, one per kind of encryptable record.
#[derive(Debug)]
pub struct DBObjIdent {
    pub db_identifier: String,
}

/// A registered user.
#[derive(Debug)]
pub struct User {
    pub id: i32,
    pub username: String,
    pub password_hash: String,
}

/// A local token wrapped under its owner's password: the durable key of
/// one record category of one user.
#[derive(Debug)]
pub struct LocalTokenPWCrypt {
    pub id: i32,
    pub user_id: i32,
    pub token_crypt: CryptString,
    pub used_for: DBObjIdent,
}

/// A local token wrapped under a session's secret: what makes the local
/// token reachable from that session without the password.
#[derive(Debug)]
pub struct LocalTokenRTCrypt {
    pub id: i32,
    pub local_token_id: i32,
    pub local_token_crypt: CryptString,
    pub decryptable_by_rt_id: i32,
}

/// A session ("remote token"): only a hash of its secret is kept.
#[derive(Debug)]
pub struct RemoteToken {
    pub id: i32,
    pub rt_hash: String,
    pub user_id: i32,
    /// Seconds since the Unix epoch from which on the session is expired.
    pub valid_until: i64,
}

/// A user as the contracts see it.
pub struct UserRow {
    pub id: int,
    pub username: Seq<char>,
    pub password_hash: Seq<char>,
}

/// A password-wrapped local token as the contracts see it.
pub struct LocalRow {
    pub id: int,
    pub user_id: int,
    pub kind: Seq<char>,
    pub crypt: Seq<u8>,
}

/// A session-wrapped local token as the contracts see it.
pub struct WrappedRow {
    pub id: int,
    pub local_token_id: int,
    pub crypt: Seq<u8>,
    pub session_id: int,
}

/// A session as the contracts see it.
pub struct SessionRow {
    pub id: int,
    pub secret_hash: Seq<char>,
    pub user_id: int,
    pub valid_until: int,
}

impl View for User {
    type V = UserRow;

    open spec fn view(&self) -> UserRow {
        UserRow { id: self.id as int, username: self.username@, password_hash: self.password_hash@ }
    }
}

impl View for LocalTokenPWCrypt {
    type V = LocalRow;

    open spec fn view(&self) -> LocalRow {
        LocalRow {
            id: self.id as int,
            user_id: self.user_id as int,
            kind: self.used_for.db_identifier@,
            crypt: self.token_crypt.data_crypt@,
        }
    }
}

impl View for LocalTokenRTCrypt {
    type V = WrappedRow;

    open spec fn view(&self) -> WrappedRow {
        WrappedRow {
            id: self.id as int,
            local_token_id: self.local_token_id as int,
            crypt: self.local_token_crypt.data_crypt@,
            session_id: self.decryptable_by_rt_id as int,
        }
    }
}

impl View for RemoteToken {
    type V = SessionRow;

    open spec fn view(&self) -> SessionRow {
        SessionRow {
            id: self.id as int,
            secret_hash: self.rt_hash@,
            user_id: self.user_id as int,
            valid_until: self.valid_until as int,
        }
    }
}

impl DBObjIdent {
    /// A second label with the same text.
    pub fn duplicate(&self) -> (r: DBObjIdent)
        ensures
            r.db_identifier@ == self.db_identifier@,
    {
        DBObjIdent { db_identifier: self.db_identifier.clone() }
    }
}

impl User {
    /// A copy of the row.
    pub fn duplicate(&self) -> (r: User)
        ensures
            r@ == self@,
    {
        User {
            id: self.id,
            username: self.username.clone(),
            password_hash: self.password_hash.clone(),
        }
    }
}

impl LocalTokenPWCrypt {
    /// A copy of the row.
    pub fn duplicate(&self) -> (r: LocalTokenPWCrypt)
        ensures
            r@ == self@,
    {
        LocalTokenPWCrypt {
            id: self.id,
            user_id: self.user_id,
            token_crypt: self.token_crypt.duplicate(),
            used_for: self.used_for.duplicate(),
        }
    }
}

impl LocalTokenRTCrypt {
    /// A copy of the row.
    pub fn duplicate(&self) -> (r: LocalTokenRTCrypt)
        ensures
            r@ == self@,
    {
        LocalTokenRTCrypt {
            id: self.id,
            local_token_id: self.local_token_id,
            local_token_crypt: self.local_token_crypt.duplicate(),
            decryptable_by_rt_id: self.decryptable_by_rt_id,
        }
    }
}

impl RemoteToken {
    /// A copy of the row.
    pub fn duplicate(&self) -> (r: RemoteToken)
        ensures
            r@ == self@,
    {
        RemoteToken {
            id: self.id,
            rt_hash: self.rt_hash.clone(),
            user_id: self.user_id,
            valid_until: self.valid_until,
        }
    }
}

} // verus!
