//! The record categories and the records whose fields are sealed under a
//! category's key.

use vstd::prelude::*;
use crate::crypt_provider::{CryptError, CryptProviders};
use crate::crypt_types::{string_envelope_value, CryptString, Cryptable};
use crate::db::DBObjIdent;

verus! {

/// The identifier of the course category.
pub open spec fn course_ident() -> Seq<char> {
    "CourseDB"@
}

/// The identifier of the topic category.
pub open spec fn topic_ident() -> Seq<char> {
    "TopicDB"@
}

/// The identifiers of every record category, in a fixed order.
pub open spec fn all_idents() -> Seq<Seq<char>> {
    seq!["CourseDB"@, "TopicDB"@, "StudyGoalDB"@, "ExamDB"@, "ToDoDB"@]
}

/// The identifiers of every record category.
pub fn get_db_idents() -> (r: Vec<DBObjIdent>)
    ensures
        r@.map_values(|k: DBObjIdent| k.db_identifier@) == all_idents(),
{
    let r = vec![
        CourseDB::get_db_ident(),
        TopicDB::get_db_ident(),
        DBObjIdent { db_identifier: String::from_str("StudyGoalDB") },
        DBObjIdent { db_identifier: String::from_str("ExamDB") },
        DBObjIdent { db_identifier: String::from_str("ToDoDB") },
    ];
    assert(r@.map_values(|k: DBObjIdent| k.db_identifier@) =~= all_idents());
    r
}

/// A record exchanged with clients: it carries its id once stored, none
/// while it is still to be created.
pub trait Sendable {
    /// The record's id.
    spec fn id_of(&self) -> Option<i32>;

    /// The record's id.
    fn get_id(&self) -> (r: Option<i32>)
        ensures
            r == self.id_of(),
    ;
}

/// A record that is built from its stored form by opening the sealed fields
/// under the category's key.
pub trait FromDB<DBT>: Sized {
    /// `r` is what opening `dbt` under `key` yields.
    spec fn opened_from(dbt: &DBT, key: Seq<u8>, provider: CryptProviders, r: Result<Self, CryptError>) -> bool;

    /// Opens the sealed fields of `dbt` under `key`.
    fn from_dbt(dbt: &DBT, key: &[u8], provider: &CryptProviders) -> (r: Result<Self, CryptError>)
        ensures
            Self::opened_from(dbt, key@, *provider, r),
    ;
}

/// A course as stored: its name sealed under the course key.
#[derive(Debug)]
pub struct CourseDB {
    pub id: i32,
    pub user_id: i32,
    pub name: CryptString,
}

impl CourseDB {
    /// The category of courses.
    pub fn get_db_ident() -> (r: DBObjIdent)
        ensures
            r.db_identifier@ == course_ident(),
    {
        DBObjIdent { db_identifier: String::from_str("CourseDB") }
    }
}

/// A course as exchanged with a client.
#[derive(Debug)]
pub struct CourseSend {
    pub id: Option<i32>,
    pub name: String,
}

impl Sendable for CourseSend {
    open spec fn id_of(&self) -> Option<i32> {
        self.id
    }

    fn get_id(&self) -> (r: Option<i32>) {
        self.id
    }
}

impl FromDB<CourseDB> for CourseSend {
    /// The name opens, and the course keeps the stored id; otherwise the
    /// name's failure.
    open spec fn opened_from(
        dbt: &CourseDB,
        key: Seq<u8>,
        provider: CryptProviders,
        r: Result<CourseSend, CryptError>,
    ) -> bool {
        match string_envelope_value(provider, dbt.name.data_crypt@, key) {
            Ok(name) => r matches Ok(c) && c.id == Some(dbt.id) && c.name@ == name,
            Err(e) => r matches Err(x) && x == e,
        }
    }

    fn from_dbt(dbt: &CourseDB, key: &[u8], provider: &CryptProviders) -> (r: Result<
        CourseSend,
        CryptError,
    >) {
        match dbt.name.decrypt(key, provider) {
            Ok(name) => Ok(CourseSend { id: Some(dbt.id), name }),
            Err(e) => Err(e),
        }
    }
}

/// A topic of a course as stored: name and details sealed under the topic
/// key.
#[derive(Debug)]
pub struct TopicDB {
    pub id: i32,
    pub user_id: i32,
    pub course_id: i32,
    pub name: CryptString,
    pub details: CryptString,
}

impl TopicDB {
    /// The category of topics.
    pub fn get_db_ident() -> (r: DBObjIdent)
        ensures
            r.db_identifier@ == topic_ident(),
    {
        DBObjIdent { db_identifier: String::from_str("TopicDB") }
    }
}

/// A topic as exchanged with a client.
#[derive(Debug)]
pub struct TopicSend {
    pub id: Option<i32>,
    pub course_id: i32,
    pub name: String,
    pub details: String,
}

impl Sendable for TopicSend {
    open spec fn id_of(&self) -> Option<i32> {
        self.id
    }

    fn get_id(&self) -> (r: Option<i32>) {
        self.id
    }
}

impl FromDB<TopicDB> for TopicSend {
    /// Name and details open, and the topic keeps the stored ids; otherwise
    /// the failure of the name, else of the details.
    open spec fn opened_from(
        dbt: &TopicDB,
        key: Seq<u8>,
        provider: CryptProviders,
        r: Result<TopicSend, CryptError>,
    ) -> bool {
        match (
            string_envelope_value(provider, dbt.name.data_crypt@, key),
            string_envelope_value(provider, dbt.details.data_crypt@, key),
        ) {
            (Ok(name), Ok(details)) => r matches Ok(t) && t.id == Some(dbt.id) && t.course_id
                == dbt.course_id && t.name@ == name && t.details@ == details,
            (Err(e), _) => r matches Err(x) && x == e,
            (Ok(_), Err(e)) => r matches Err(x) && x == e,
        }
    }

    fn from_dbt(dbt: &TopicDB, key: &[u8], provider: &CryptProviders) -> (r: Result<
        TopicSend,
        CryptError,
    >) {
        let name = match dbt.name.decrypt(key, provider) {
            Ok(n) => n,
            Err(e) => {
                return Err(e);
            },
        };
        let details = match dbt.details.decrypt(key, provider) {
            Ok(d) => d,
            Err(e) => {
                return Err(e);
            },
        };
        Ok(TopicSend { id: Some(dbt.id), course_id: dbt.course_id, name, details })
    }
}

} // verus!
