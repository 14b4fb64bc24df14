use news_api::access::UserId;
use news_api::accounts::get_session_by_id;
use news_api::mappers::into_article;
use news_api::queries::ArticleEntry;
use news_api::service::{ApiError, AppState};
use news_api::settings::{AppSettings, AuthSettings, DbSettings, Settings};
use news_api::time::{parse_timestamp, timestamp_text, Timestamp};

fn state() -> AppState {
    AppState::new(Settings {
        database: DbSettings { uri: "memory".to_string() },
        app: AppSettings { host: "127.0.0.1".to_string(), port: 50051 },
        auth: AuthSettings {
            secure_routes: "/news.NewsService/CreateArticle".to_string(),
            pass_pepper: "pepper".to_string(),
            secret_key: "secret".to_string(),
        },
    })
}

#[test]
fn sign_up_then_sign_in_and_out() {
    let mut s = state();
    let t1 = s.sign_up("carol", "pw").unwrap();
    assert_eq!(t1.len(), 64);
    assert_eq!(s.sign_up("carol", "other"), Err(ApiError::Conflict));
    let uid = get_session_by_id(&s.db, &t1).unwrap().id;
    let t2 = s.sign_in("carol", "pw").unwrap();
    assert_ne!(t1, t2);
    assert_eq!(get_session_by_id(&s.db, &t2).unwrap().id, uid);
    assert_eq!(s.sign_in("carol", "wrong"), Err(ApiError::Unauthenticated));
    assert_eq!(s.sign_in("nobody", "pw"), Err(ApiError::Unauthenticated));
    s.sign_out(&t1).unwrap();
    assert!(get_session_by_id(&s.db, &t1).is_err());
    assert!(get_session_by_id(&s.db, &t2).is_ok());
}

#[test]
fn article_calls_need_identity() {
    let mut s = state();
    assert_eq!(s.create_article(None, "t", "c", vec![]), Err(ApiError::Unauthenticated));
    assert_eq!(s.update_article(None, 0, "t", "c", vec![]), Err(ApiError::Unauthenticated));
    assert_eq!(s.delete_article(None, 0), Err(ApiError::Unauthenticated));
    assert_eq!(s.create_article(Some(UserId { value: 9 }), "t", "c", vec![]), Err(ApiError::NotFound));
}

#[test]
fn article_lifecycle_through_service() {
    let mut s = state();
    s.sign_up("dan", "pw").unwrap();
    s.sign_up("eve", "pw").unwrap();
    let dan = Some(UserId { value: 0 });
    let eve = Some(UserId { value: 1 });
    let id = s.create_article(dan, "t", "c", vec!["a".to_string(), "b".to_string()]).unwrap();
    assert_eq!(s.update_article(eve, id, "x", "x", vec![]), Err(ApiError::Forbidden));
    assert_eq!(s.delete_article(eve, id), Err(ApiError::Forbidden));
    s.update_article(dan, id, "t2", "c2", vec!["b".to_string(), "c".to_string()]).unwrap();
    let a = s.get_article(id).unwrap();
    let mut tags = a.tags.clone();
    tags.sort();
    assert_eq!(tags, vec!["b".to_string(), "c".to_string()]);
    assert_eq!(a.author_username, "dan");
    assert_eq!(a.title, "t2");
    let page = s.get_articles("2999-01-01 00:00:00.000000", 10).unwrap();
    assert_eq!(page.len(), 1);
    assert_eq!(s.get_articles("", -1).err(), Some(ApiError::Internal));
    let old = s.get_articles("2000-01-01 00:00:00.000000", 10).unwrap();
    assert!(old.is_empty());
    s.delete_article(dan, id).unwrap();
    assert_eq!(s.get_article(id).err(), Some(ApiError::NotFound));
}

#[test]
fn timestamps_parse_and_print() {
    let t = parse_timestamp("2024-01-02 03:04:05.000006").unwrap();
    assert_eq!(t, Timestamp { micros: 1704164645000006 });
    assert_eq!(parse_timestamp("yesterday"), None);
    assert_eq!(timestamp_text(t), "2024-01-02 03:04:05.000006");
}

#[test]
fn entries_map_to_articles() {
    let e = ArticleEntry {
        id: 3,
        author_id: 1,
        title: "t".to_string(),
        content: "c".to_string(),
        created_at: Timestamp { micros: 1704164645000006 },
        tags: vec!["x".to_string()],
        author_username: "dan".to_string(),
    };
    let a = into_article(e);
    assert_eq!(a.id, 3);
    assert_eq!(a.created_at, "2024-01-02 03:04:05.000006");
    assert_eq!(a.tags, vec!["x".to_string()]);
    assert_eq!(a.author_username, "dan");
}

#[test]
fn sign_in_adds_exactly_one_session() {
    let mut s = state();
    let t1 = s.sign_up("fay", "pw").unwrap();
    assert_eq!(s.db.sessions.len(), 1);
    let t2 = s.sign_in("fay", "pw").unwrap();
    assert_eq!(s.db.sessions.len(), 2);
    assert_eq!(s.db.sessions[0].session_id, t1);
    assert_eq!(s.db.sessions[1].session_id, t2);
    assert_eq!(t2.len(), 64);
    assert_eq!(s.sign_in("fay", "bad"), Err(ApiError::Unauthenticated));
    assert_eq!(s.db.sessions.len(), 2);
}
