use eduflow::crypt_provider::{decrypt, encrypt, CryptError, CryptProviders};
use eduflow::crypt_types::{CryptI32, CryptString, Cryptable};
use eduflow::objects::{get_db_idents, CourseDB, CourseSend, FromDB, Sendable, TopicDB, TopicSend};

const P: CryptProviders = CryptProviders::SimpleCryptProv;

#[test]
fn string_envelope_round_trip() {
    for v in ["", "hello", "grüße ✓"] {
        let c = CryptString::encrypt(&v.to_string(), b"key-1", &P).expect("seals");
        assert_ne!(c.data_crypt, v.as_bytes().to_vec());
        assert_eq!(c.decrypt(b"key-1", &P), Ok(v.to_string()));
    }
}

#[test]
fn string_envelope_wrong_key_fails() {
    let c = CryptString::encrypt(&"hello".to_string(), b"key-1", &P).expect("seals");
    assert_eq!(c.decrypt(b"key-2", &P), Err(CryptError::Cipher));
}

#[test]
fn i32_envelope_round_trip() {
    for v in [i32::MIN, -1, 0, 1, 258, i32::MAX] {
        let c = CryptI32::encrypt(&v, b"k", &P).expect("seals");
        assert_eq!(c.decrypt(b"k", &P), Ok(v));
    }
}

#[test]
fn i32_envelope_wrong_key_fails() {
    let c = CryptI32::encrypt(&7, b"k1", &P).expect("seals");
    assert_eq!(c.decrypt(b"k2", &P), Err(CryptError::Cipher));
}

#[test]
fn decoding_failures_are_reported_apart() {
    let three = encrypt(&[1, 2, 3], b"k", &P).expect("seals");
    assert_eq!(CryptI32 { data_crypt: three }.decrypt(b"k", &P), Err(CryptError::Decode));
    let not_utf8 = encrypt(&[0xff, 0xfe], b"k", &P).expect("seals");
    assert_eq!(CryptString { data_crypt: not_utf8 }.decrypt(b"k", &P), Err(CryptError::Decode));
}

#[test]
fn provider_round_trip_and_corruption() {
    let c = encrypt(b"payload", b"k", &P).expect("seals");
    assert_ne!(c, b"payload".to_vec());
    assert_eq!(decrypt(&c, b"k", &P), Ok(b"payload".to_vec()));
    assert_eq!(decrypt(b"garbage", b"k", &P), Err(CryptError::Cipher));
}

#[test]
fn db_idents_are_the_record_categories() {
    let ids: Vec<String> = get_db_idents().into_iter().map(|k| k.db_identifier).collect();
    assert_eq!(ids, vec!["CourseDB", "TopicDB", "StudyGoalDB", "ExamDB", "ToDoDB"]);
    assert_eq!(CourseDB::get_db_ident().db_identifier, "CourseDB");
    assert_eq!(TopicDB::get_db_ident().db_identifier, "TopicDB");
}

#[test]
fn course_and_topic_open_under_their_key() {
    let key = b"local-key";
    let course = CourseDB {
        id: 4,
        user_id: 1,
        name: CryptString::encrypt(&"Algebra".to_string(), key, &P).unwrap(),
    };
    let c = CourseSend::from_dbt(&course, key, &P).expect("opens");
    assert_eq!(c.id, Some(4));
    assert_eq!(c.get_id(), Some(4));
    assert_eq!(c.name, "Algebra");
    assert_eq!(CourseSend::from_dbt(&course, b"other", &P).unwrap_err(), CryptError::Cipher);

    let topic = TopicDB {
        id: 9,
        user_id: 1,
        course_id: 4,
        name: CryptString::encrypt(&"Groups".to_string(), key, &P).unwrap(),
        details: CryptString::encrypt(&"".to_string(), key, &P).unwrap(),
    };
    let t = TopicSend::from_dbt(&topic, key, &P).expect("opens");
    assert_eq!((t.id, t.course_id, t.name.as_str(), t.details.as_str()), (Some(9), 4, "Groups", ""));
    assert_eq!(t.get_id(), Some(9));
}

#[test]
fn empty_plaintext_and_empty_key_seal() {
    let c = encrypt(b"", b"", &P).expect("within the cipher's limits");
    assert_eq!(decrypt(&c, b"", &P), Ok(Vec::new()));
}
