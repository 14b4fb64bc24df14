use news_api::encoding::decimal;
use news_api::credentials::{
    generate_password_hash, password_verdict, salted_input, verify_password, CredentialError,
};
use news_api::accounts::{create_user, save_session_id};
use news_api::access::{AuthInterceptor, AccessError, ReflectionMiddleware, ReflectionMiddlewareLayer};
use news_api::settings::{split_on_commas, AuthSettings};
use news_api::store::Database;
use news_api::token::{generate_session_id, session_token};

fn auth_settings(routes: &str) -> AuthSettings {
    AuthSettings {
        secure_routes: routes.to_string(),
        pass_pepper: "pepper".to_string(),
        secret_key: "server-key".to_string(),
    }
}

#[test]
fn secure_routes_split_on_commas_without_repeats() {
    let mut r = auth_settings("/a,/b,,/a").get_secure_routes();
    r.sort();
    assert_eq!(r, vec!["".to_string(), "/a".to_string(), "/b".to_string()]);
    assert_eq!(auth_settings("").get_secure_routes(), vec!["".to_string()]);
    assert_eq!(split_on_commas("x,y,x"), vec!["x".to_string(), "y".to_string(), "x".to_string()]);
}

#[test]
fn access_check_passes_open_paths_and_checks_secure_ones() {
    let mut db = Database::new();
    let uid = create_user(&mut db, "u", "h", "s").unwrap().id;
    save_session_id(&mut db, uid, "good").unwrap();
    let check = AuthInterceptor::new(&auth_settings("/news.NewsService/CreateArticle,/auth.AuthService/SignOut"));
    let secure = "/news.NewsService/CreateArticle";
    assert!(matches!(check.call(&db, None, Some("good")), Err(AccessError::Unauthenticated)));
    assert!(matches!(check.call(&db, Some("/news.NewsService/GetArticle"), None), Ok(None)));
    assert!(matches!(check.call(&db, Some(secure), None), Err(AccessError::Unauthenticated)));
    assert!(matches!(check.call(&db, Some(secure), Some("bad")), Err(AccessError::Unauthenticated)));
    let id = check.call(&db, Some(secure), Some("good")).unwrap().unwrap();
    assert_eq!(id.user_id.value, uid);
    assert_eq!(id.session_id.value, "good");
    // membership is exact, not by substring
    assert!(matches!(check.call(&db, Some("/news.NewsService/Create"), None), Ok(None)));
}

#[test]
fn reflection_middleware_copies_path() {
    let m = ReflectionMiddlewareLayer {}.layer(5u8);
    assert_eq!(m.inner, 5u8);
    let (name, value) = ReflectionMiddleware::<u8>::path_header("/x.Y/Z");
    assert_eq!(name, "x-request-path");
    assert_eq!(value, "/x.Y/Z");
}

#[test]
fn session_token_is_hmac_of_id_and_nonce_in_hex() {
    assert_eq!(
        session_token(7, "server-key", "abc"),
        "87131bf6c1b800b4c974e70a4b57499b77602d753f7b02b4ffc694e62c7e4e35"
    );
    assert_eq!(
        session_token(-42, "server-key", "n-1"),
        "a2ced698d7788aed9895be204f74de02a88c2605079ba1dd0892d8dfb567bd2a"
    );
}

#[test]
fn generated_session_ids_are_fresh_hex() {
    let a = generate_session_id(1, "k");
    let b = generate_session_id(1, "k");
    assert_eq!(a.len(), 64);
    assert!(a.chars().all(|c| c.is_ascii_hexdigit() && !c.is_ascii_uppercase()));
    assert_ne!(a, b);
}

#[test]
fn salted_input_quotes_the_salt() {
    assert_eq!(salted_input("ab", "pw", "pep"), "\"ab\"pwpep");
}

#[test]
fn password_round_trip_and_changes_fail() {
    let ph = generate_password_hash("hunter2", "pepper").unwrap();
    assert_eq!(ph.salt.len(), 32);
    assert!(ph.salt.chars().all(|c| c.is_ascii_hexdigit()));
    assert!(verify_password("hunter2", &ph.value, &ph.salt, "pepper").is_ok());
    assert_eq!(
        verify_password("hunter3", &ph.value, &ph.salt, "pepper"),
        Err(CredentialError::InvalidPassword)
    );
    let mut other_salt: Vec<char> = ph.salt.chars().collect();
    other_salt[0] = if other_salt[0] == '0' { '1' } else { '0' };
    let other_salt: String = other_salt.into_iter().collect();
    assert_eq!(
        verify_password("hunter2", &ph.value, &other_salt, "pepper"),
        Err(CredentialError::InvalidPassword)
    );
    assert_eq!(
        verify_password("hunter2", &ph.value, &ph.salt, "other"),
        Err(CredentialError::InvalidPassword)
    );
}

#[test]
fn malformed_hash_is_reported() {
    assert_eq!(verify_password("p", "not a hash", "s", "q"), Err(CredentialError::MalformedHash));
}

#[test]
fn verdicts_map_outcomes() {
    assert_eq!(password_verdict(Some(true)), Ok(()));
    assert_eq!(password_verdict(Some(false)), Err(CredentialError::InvalidPassword));
    assert_eq!(password_verdict(None), Err(CredentialError::MalformedHash));
}

#[test]
fn hash_with_given_salt_uses_its_hex() {
    let salt: Vec<u8> = (0u8..16).collect();
    let ph = news_api::credentials::password_hash_with_salt("pw", "pep", &salt).unwrap();
    assert_eq!(ph.salt, "000102030405060708090a0b0c0d0e0f");
    assert!(verify_password("pw", &ph.value, &ph.salt, "pep").is_ok());
    assert!(!ph.salt.contains("pep") && !ph.value.contains("pep"));
}

#[test]
fn decimal_forms() {
    assert_eq!(decimal(0), "0");
    assert_eq!(decimal(-42), "-42");
    assert_eq!(decimal(1234567890), "1234567890");
    assert_eq!(decimal(i32::MIN), "-2147483648");
    assert_eq!(decimal(i32::MAX), "2147483647");
}
