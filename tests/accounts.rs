use news_api::error::StoreError;
use news_api::accounts::{create_user, delete_session, get_session_by_id, get_user_by_username, save_session_id, save_session_id_at};
use news_api::store::Database;
use news_api::time::Timestamp;

#[test]
fn usernames_are_unique() {
    let mut db = Database::new();
    assert_eq!(create_user(&mut db, "bob", "h", "s").unwrap().id, 0);
    assert_eq!(create_user(&mut db, "bob", "h2", "s2").err(), Some(StoreError::Conflict));
    assert_eq!(db.users.len(), 1);
}

#[test]
fn user_lookup_by_name() {
    let mut db = Database::new();
    create_user(&mut db, "bob", "hash", "salt").unwrap();
    let u = get_user_by_username(&db, "bob").unwrap();
    assert_eq!(u.password_hash, "hash");
    assert_eq!(u.salt, "salt");
    assert_eq!(get_user_by_username(&db, "eve").err(), Some(StoreError::NotFound));
}

#[test]
fn sessions_resolve_and_end() {
    let mut db = Database::new();
    let uid = create_user(&mut db, "bob", "h", "s").unwrap().id;
    save_session_id_at(&mut db, uid, "tok1", Timestamp { micros: 1 }).unwrap();
    save_session_id(&mut db, uid, "tok2").unwrap();
    assert_eq!(get_session_by_id(&db, "tok1").unwrap().id, uid);
    assert_eq!(get_session_by_id(&db, "tok2").unwrap().id, uid);
    assert_eq!(save_session_id(&mut db, uid, "tok1"), Err(StoreError::Conflict));
    assert_eq!(save_session_id(&mut db, uid + 1, "tok3"), Err(StoreError::NotFound));
    delete_session(&mut db, "tok1").unwrap();
    assert_eq!(get_session_by_id(&db, "tok1").err(), Some(StoreError::NotFound));
    assert_eq!(get_session_by_id(&db, "tok2").unwrap().id, uid);
    assert!(delete_session(&mut db, "missing").is_ok());
}
