use news_api::store::Database;
use news_api::accounts::create_user;
use news_api::articles::{create_article_at, delete_article, update_article};
use news_api::queries::get_article;
use news_api::tags::TagTables;
use news_api::time::Timestamp;

fn names(v: &[&str]) -> Vec<String> {
    v.iter().map(|s| s.to_string()).collect()
}

fn sorted(mut v: Vec<String>) -> Vec<String> {
    v.sort();
    v
}

fn tag_id(db: &Database, name: &str) -> Option<i32> {
    db.tagging.tags.iter().find(|t| t.name == name).map(|t| t.id)
}

fn new_db_with_user() -> (Database, i32) {
    let mut db = Database::new();
    let uid = create_user(&mut db, "alice", "hash", "salt").unwrap().id;
    (db, uid)
}

#[test]
fn create_then_update_tags_replaces_set() {
    let (mut db, uid) = new_db_with_user();
    let a = create_article_at(&mut db, uid, "title", "body", names(&["a", "b"]), Timestamp { micros: 10 })
        .unwrap()
        .id;
    let b_before = tag_id(&db, "b").unwrap();
    update_article(&mut db, uid, a, "title 2", "body 2", names(&["b", "c"])).unwrap();
    let e = get_article(&db, a).unwrap();
    assert_eq!(sorted(e.tags), names(&["b", "c"]));
    assert_eq!(e.title, "title 2");
    assert_eq!(e.content, "body 2");
    assert_eq!(tag_id(&db, "a"), None);
    assert_eq!(tag_id(&db, "b"), Some(b_before));
    assert!(tag_id(&db, "c").is_some());
    assert_eq!(db.tagging.tags.len(), 2);
    assert_eq!(db.tagging.article_tags.len(), 2);
}

#[test]
fn requested_tags_are_a_set() {
    let (mut db, uid) = new_db_with_user();
    let a = create_article_at(&mut db, uid, "t", "c", names(&["x", "y", "x"]), Timestamp { micros: 1 })
        .unwrap()
        .id;
    let e = get_article(&db, a).unwrap();
    assert_eq!(sorted(e.tags), names(&["x", "y"]));
    assert_eq!(db.tagging.tags.len(), 2);
}

#[test]
fn article_without_tags_has_none() {
    let (mut db, uid) = new_db_with_user();
    let a = create_article_at(&mut db, uid, "t", "c", vec![], Timestamp { micros: 1 }).unwrap().id;
    let e = get_article(&db, a).unwrap();
    assert!(e.tags.is_empty());
    assert_eq!(e.author_username, "alice");
    assert!(db.tagging.tags.is_empty());
}

#[test]
fn shared_tag_name_is_one_row() {
    let (mut db, uid) = new_db_with_user();
    let a = create_article_at(&mut db, uid, "t", "c", names(&["x"]), Timestamp { micros: 1 }).unwrap().id;
    let b = create_article_at(&mut db, uid, "t", "c", names(&["x", "z"]), Timestamp { micros: 2 }).unwrap().id;
    let rows: Vec<_> = db.tagging.tags.iter().filter(|t| t.name == "x").collect();
    assert_eq!(rows.len(), 1);
    let x = rows[0].id;
    assert!(db.tagging.article_tags.iter().any(|l| l.article_id == a && l.tag_id == x));
    assert!(db.tagging.article_tags.iter().any(|l| l.article_id == b && l.tag_id == x));
}

#[test]
fn delete_sweeps_exclusive_tags_and_keeps_shared() {
    let (mut db, uid) = new_db_with_user();
    let a = create_article_at(&mut db, uid, "t", "c", names(&["shared", "only"]), Timestamp { micros: 1 })
        .unwrap()
        .id;
    let b = create_article_at(&mut db, uid, "t", "c", names(&["shared"]), Timestamp { micros: 2 }).unwrap().id;
    let shared = tag_id(&db, "shared").unwrap();
    delete_article(&mut db, uid, a).unwrap();
    assert!(get_article(&db, a).is_err());
    assert!(db.tagging.article_tags.iter().all(|l| l.article_id != a));
    assert_eq!(tag_id(&db, "only"), None);
    assert_eq!(tag_id(&db, "shared"), Some(shared));
    assert_eq!(sorted(get_article(&db, b).unwrap().tags), names(&["shared"]));
}

#[test]
fn update_removing_shared_tag_keeps_it_for_others() {
    let (mut db, uid) = new_db_with_user();
    let a = create_article_at(&mut db, uid, "t", "c", names(&["s"]), Timestamp { micros: 1 }).unwrap().id;
    let b = create_article_at(&mut db, uid, "t", "c", names(&["s"]), Timestamp { micros: 2 }).unwrap().id;
    update_article(&mut db, uid, a, "t", "c", vec![]).unwrap();
    assert!(get_article(&db, a).unwrap().tags.is_empty());
    assert_eq!(get_article(&db, b).unwrap().tags, names(&["s"]));
    assert_eq!(db.tagging.tags.len(), 1);
}

#[test]
fn reconcile_on_tables_directly() {
    let t = TagTables::new();
    let r = t.reconcile(5, &names(&["p", "q"])).unwrap();
    assert_eq!(r.tags.len(), 2);
    assert_eq!(r.article_tags.len(), 2);
    assert_eq!(r.next_tag_id, 2);
    let r2 = r.reconcile(5, &names(&["q"])).unwrap();
    assert_eq!(r2.tags.len(), 1);
    assert_eq!(r2.tags[0].name, "q");
    assert_eq!(r2.article_tags.len(), 1);
}

#[test]
fn tag_id_space_exhausted_is_internal() {
    let mut t = TagTables::new();
    t.next_tag_id = i32::MAX;
    let r = t.reconcile(1, &names(&["new"]));
    assert!(matches!(r, Err(news_api::error::StoreError::Internal)));
    let ok = t.reconcile(1, &vec![]);
    assert!(ok.is_ok());
}

#[test]
fn tag_ids_run_out_only_for_new_names() {
    let mut t = TagTables::new();
    t.next_tag_id = i32::MAX - 1;
    let one_new = t.reconcile(1, &names(&["a", "a"])).unwrap();
    assert_eq!(one_new.next_tag_id, i32::MAX);
    assert!(t.reconcile(1, &names(&["a", "b"])).is_err());
    let reused = one_new.reconcile(2, &names(&["a"])).unwrap();
    assert_eq!(reused.next_tag_id, i32::MAX);
    assert_eq!(reused.tags.len(), 1);
    assert!(one_new.reconcile(2, &names(&["a", "c"])).is_err());
}
