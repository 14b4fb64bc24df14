use news_api::error::StoreError;
use news_api::accounts::create_user;
use news_api::articles::{create_article, create_article_at, delete_article, update_article};
use news_api::queries::{get_article, get_articles_page, get_articles_page_before};
use news_api::store::Database;
use news_api::time::Timestamp;

fn setup() -> (Database, i32, i32) {
    let mut db = Database::new();
    let owner = create_user(&mut db, "owner", "h", "s").unwrap().id;
    let other = create_user(&mut db, "other", "h", "s").unwrap().id;
    (db, owner, other)
}

#[test]
fn create_needs_existing_author() {
    let mut db = Database::new();
    let r = create_article_at(&mut db, 3, "t", "c", vec![], Timestamp { micros: 1 });
    assert_eq!(r.err(), Some(StoreError::NotFound));
    assert!(db.articles.is_empty());
}

#[test]
fn create_assigns_fresh_ids() {
    let (mut db, owner, _) = setup();
    let a = create_article_at(&mut db, owner, "t", "c", vec![], Timestamp { micros: 1 }).unwrap().id;
    let b = create_article_at(&mut db, owner, "t", "c", vec![], Timestamp { micros: 2 }).unwrap().id;
    assert_eq!(a, 0);
    assert_eq!(b, 1);
}

#[test]
fn update_by_non_owner_is_forbidden_and_changes_nothing() {
    let (mut db, owner, other) = setup();
    let a = create_article_at(&mut db, owner, "t", "c", vec!["k".to_string()], Timestamp { micros: 1 })
        .unwrap()
        .id;
    let r = update_article(&mut db, other, a, "hacked", "hacked", vec![]);
    assert_eq!(r, Err(StoreError::Forbidden));
    let e = get_article(&db, a).unwrap();
    assert_eq!(e.title, "t");
    assert_eq!(e.tags, vec!["k".to_string()]);
}

#[test]
fn delete_by_non_owner_is_forbidden_and_changes_nothing() {
    let (mut db, owner, other) = setup();
    let a = create_article_at(&mut db, owner, "t", "c", vec!["k".to_string()], Timestamp { micros: 1 }).unwrap().id;
    assert_eq!(delete_article(&mut db, other, a), Err(StoreError::Forbidden));
    assert!(get_article(&db, a).is_ok());
    assert_eq!(db.tagging.tags.len(), 1);
}

#[test]
fn missing_article_is_not_found() {
    let (mut db, owner, _) = setup();
    assert_eq!(update_article(&mut db, owner, 99, "t", "c", vec![]), Err(StoreError::NotFound));
    assert_eq!(delete_article(&mut db, owner, 99), Err(StoreError::NotFound));
    assert_eq!(get_article(&db, 99).err(), Some(StoreError::NotFound));
}

#[test]
fn update_keeps_creation_time() {
    let (mut db, owner, _) = setup();
    let a = create_article_at(&mut db, owner, "t", "c", vec![], Timestamp { micros: 77 }).unwrap().id;
    update_article(&mut db, owner, a, "t2", "c2", vec![]).unwrap();
    assert_eq!(get_article(&db, a).unwrap().created_at, Timestamp { micros: 77 });
}

fn page_ids(db: &Database, cursor: i64, size: i64) -> Vec<i32> {
    get_articles_page_before(&db, Timestamp { micros: cursor }, size)
        .unwrap()
        .iter()
        .map(|e| e.id)
        .collect()
}

#[test]
fn page_is_newest_first_and_cursor_exclusive() {
    let (mut db, owner, _) = setup();
    let a = create_article_at(&mut db, owner, "a", "", vec![], Timestamp { micros: 10 }).unwrap().id;
    let b = create_article_at(&mut db, owner, "b", "", vec![], Timestamp { micros: 30 }).unwrap().id;
    let c = create_article_at(&mut db, owner, "c", "", vec![], Timestamp { micros: 20 }).unwrap().id;
    assert_eq!(page_ids(&db, 100, 10), vec![b, c, a]);
    assert_eq!(page_ids(&db, 30, 10), vec![c, a]);
    assert_eq!(page_ids(&db, 25, 1), vec![c]);
    assert_eq!(page_ids(&db, 10, 10), Vec::<i32>::new());
    assert_eq!(page_ids(&db, 100, 0), Vec::<i32>::new());
}

#[test]
fn negative_page_size_is_refused() {
    let (db, _, _) = setup();
    assert_eq!(get_articles_page_before(&db, Timestamp { micros: 0 }, -1).err(), Some(StoreError::Internal));
}

#[test]
fn page_entries_carry_tags_and_author() {
    let (mut db, owner, _) = setup();
    create_article_at(&mut db, owner, "a", "x", vec!["t1".to_string()], Timestamp { micros: 5 }).unwrap();
    let page = get_articles_page(&db, Some(Timestamp { micros: 6 }), 5).unwrap();
    assert_eq!(page.len(), 1);
    assert_eq!(page[0].author_username, "owner");
    assert_eq!(page[0].tags, vec!["t1".to_string()]);
    assert_eq!(page[0].content, "x");
}

#[test]
fn page_without_cursor_uses_now() {
    let (mut db, owner, _) = setup();
    create_article(&mut db, owner, "a", "x", vec![]).unwrap();
    let page = get_articles_page(&db, None, 5).unwrap();
    assert!(page.len() <= 1);
}
