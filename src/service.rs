use vstd::prelude::*;

use crate::accounts::{create_user, delete_session, get_user_by_username, save_session_id};
use crate::articles::{create_article, delete_article, update_article};
use crate::queries::{get_article, get_articles_page_before};
use crate::credentials::{generate_password_hash, hashed_from, password_matches, verify_password};
use crate::error::StoreError;
use crate::access::UserId;
use crate::mappers::{created_text, into_article, into_articles, presents, Article};
use crate::queries::ArticleEntry;
use crate::settings::Settings;
use crate::store::Database;
use crate::strings::views;
use crate::tags::{new_names, reconciled};
use crate::time::{now, parse_timestamp, parsed_datetime_of, Timestamp, TIMESTAMP_FORMAT};
use crate::token::{generate_session_id, token_of};

verus! {

/// Why a call to the service failed.
#[derive(Clone, Copy, PartialEq, Eq, Structural, Debug)]
pub enum ApiError {
    /// The entity is absent.
    NotFound,
    /// The caller is authenticated but does not own the entity.
    Forbidden,
    /// The credential is missing, invalid or unknown.
    Unauthenticated,
    /// A uniqueness constraint would be broken (a taken user name).
    Conflict,
    /// The store or a collaborator failed.
    Internal,
}

/// How a store failure is reported to callers.
pub open spec fn api_error_of(e: StoreError) -> ApiError {
    match e {
        StoreError::NotFound => ApiError::NotFound,
        StoreError::Forbidden => ApiError::Forbidden,
        StoreError::Conflict => ApiError::Conflict,
        StoreError::Internal => ApiError::Internal,
    }
}

/// Reports a store failure.
pub fn api_error(e: StoreError) -> (r: ApiError)
    ensures
        r == api_error_of(e),
{
    match e {
        StoreError::NotFound => ApiError::NotFound,
        StoreError::Forbidden => ApiError::Forbidden,
        StoreError::Conflict => ApiError::Conflict,
        StoreError::Internal => ApiError::Internal,
    }
}

/// The service: the store and the configuration.
pub struct AppState {
    pub db: Database,
    pub settings: Settings,
}

impl AppState {
    /// A service over an empty store.
    pub fn new(settings: Settings) -> (r: AppState)
        ensures
            r.db.wf(),
            r.db.articles@.len() == 0,
            r.db.users@.len() == 0,
            r.db.sessions@.len() == 0,
            r.settings == settings,
    {
        AppState { db: Database::new(), settings }
    }

    /// Some user is called `username` and `password` is theirs.
    pub open spec fn credentials_valid(&self, username: Seq<char>, password: Seq<char>) -> bool {
        exists|i: int|
            0 <= i < self.db.users@.len() && (#[trigger] self.db.users@[i]).username@ == username
                && password_matches(
                password,
                self.db.users@[i].password_hash@,
                self.db.users@[i].salt@,
                self.settings.auth.pass_pepper@,
            )
    }

    /// `a` shows the article row at `j`: its fields, its creation time as text, the names
    /// of its tags, and its author's name.
    pub open spec fn shows(&self, a: Article, j: int) -> bool {
        let row = self.db.articles@[j];
        &&& 0 <= j < self.db.articles@.len()
        &&& a.id == row.id
        &&& a.title@ == row.title@
        &&& a.content@ == row.content@
        &&& a.created_at@ == created_text(row.created_at.micros)
        &&& views(a.tags@).to_set() == self.db.tag_names(row.id)
        &&& exists|u: int|
            0 <= u < self.db.users@.len() && (#[trigger] self.db.users@[u]).id == row.author_id
                && self.db.users@[u].username@ == a.author_username@
    }

    /// A session token that signing in as `username` could draw is already taken: for the
    /// user of that name and some nonce of 36 characters, the token exists.
    pub open spec fn token_may_collide(&self, username: Seq<char>) -> bool {
        exists|i: int, n: Seq<char>|
            0 <= i < self.db.users@.len() && (#[trigger] self.db.users@[i]).username@ == username
                && n.len() == 36 && #[trigger] self.db.has_session(
                token_of(self.db.users@[i].id, self.settings.auth.secret_key@, n),
            )
    }

    /// `a` shows the article `article_id`.
    pub open spec fn shows_article(&self, a: Article, article_id: i32) -> bool {
        exists|j: int| #[trigger] self.shows(a, j) && self.db.articles@[j].id == article_id
    }

    /// Registers `username` with `password` and opens a session for the new user; a taken
    /// name is a conflict.
    pub fn sign_up(&mut self, username: &str, password: &str) -> (r: Result<String, ApiError>)
        requires
            old(self).db.wf(),
        ensures
            final(self).db.wf(),
            final(self).settings == old(self).settings,
            final(self).db.articles == old(self).db.articles,
            final(self).db.tagging == old(self).db.tagging,
            match r {
                Ok(token) => {
                    let user = final(self).db.users@.last();
                    &&& !old(self).db.has_username(username@)
                    &&& final(self).db.users@.len() == old(self).db.users@.len() + 1
                    &&& final(self).db.users@.drop_last() == old(self).db.users@
                    &&& user.username@ == username@
                    &&& hashed_from(user.password_hash@, user.salt@, password@, old(self).settings.auth.pass_pepper@)
                    &&& final(self).db.session_of(token@, user.id)
                    &&& !old(self).db.has_session(token@)
                    &&& final(self).db.sessions@.len() == old(self).db.sessions@.len() + 1
                    &&& final(self).db.sessions@.drop_last() == old(self).db.sessions@
                    &&& final(self).db.sessions@.last().session_id@ == token@
                    &&& final(self).db.sessions@.last().user_id == user.id
                    &&& exists|nonce: Seq<char>|
                        nonce.len() == 36 && token@ == token_of(user.id, old(self).settings.auth.secret_key@, nonce)
                },
                Err(e) => {
                    &&& (e == ApiError::Conflict) == old(self).db.has_username(username@)
                    &&& (e == ApiError::Conflict || e == ApiError::Internal)
                    &&& e == ApiError::Conflict ==> final(self).db == old(self).db
                },
            },
    {
        if self.db.find_username(username).is_some() {
            return Err(ApiError::Conflict);
        }
        let hash = match generate_password_hash(password, self.settings.auth.pass_pepper.as_str()) {
            Ok(h) => h,
            Err(_) => {
                return Err(ApiError::Internal);
            },
        };
        let user = match create_user(&mut self.db, username, hash.value.as_str(), hash.salt.as_str()) {
            Ok(u) => u,
            Err(e) => {
                return Err(api_error(e));
            },
        };
        let token = generate_session_id(user.id, self.settings.auth.secret_key.as_str());
        match save_session_id(&mut self.db, user.id, token.as_str()) {
            Ok(()) => {
                proof {
                    let k = self.db.sessions@.len() - 1;
                    assert(self.db.sessions@[k].session_id@ == token@ && self.db.sessions@[k].user_id == user.id);
                    assert(self.db.session_of(token@, user.id));
                }
                Ok(token)
            },
            Err(_) => Err(ApiError::Internal),
        }
    }

    /// Opens a session for `username` if `password` is theirs. An unknown name and a
    /// wrong password fail alike.
    pub fn sign_in(&mut self, username: &str, password: &str) -> (r: Result<String, ApiError>)
        requires
            old(self).db.wf(),
        ensures
            final(self).db.wf(),
            final(self).settings == old(self).settings,
            final(self).db.users == old(self).db.users,
            final(self).db.articles == old(self).db.articles,
            final(self).db.tagging == old(self).db.tagging,
            match r {
                Ok(token) => exists|i: int|
                    0 <= i < old(self).db.users@.len() && (#[trigger] old(self).db.users@[i]).username@
                        == username@ && password_matches(
                        password@,
                        old(self).db.users@[i].password_hash@,
                        old(self).db.users@[i].salt@,
                        old(self).settings.auth.pass_pepper@,
                    ) && final(self).db.session_of(token@, old(self).db.users@[i].id)
                        && final(self).db.sessions@.last().session_id@ == token@
                        && final(self).db.sessions@.last().user_id == old(self).db.users@[i].id && exists|
                        nonce: Seq<char>,
                    |
                        nonce.len() == 36 && token@ == token_of(
                            old(self).db.users@[i].id,
                            old(self).settings.auth.secret_key@,
                            nonce,
                        ),
                Err(e) => {
                    &&& final(self).db == old(self).db
                    &&& (e == ApiError::Unauthenticated) == !old(self).credentials_valid(username@, password@)
                    &&& (e == ApiError::Unauthenticated || e == ApiError::Internal)
                    &&& e == ApiError::Internal ==> old(self).token_may_collide(username@)
                },
            },
            r is Ok ==> {
                &&& !old(self).db.has_session(r->Ok_0@)
                &&& final(self).db.sessions@.len() == old(self).db.sessions@.len() + 1
                &&& final(self).db.sessions@.drop_last() == old(self).db.sessions@
            },
            old(self).credentials_valid(username@, password@) && !old(self).token_may_collide(username@)
                ==> r is Ok,
    {
        let user = match get_user_by_username(&self.db, username) {
            Ok(u) => u,
            Err(_) => {
                return Err(ApiError::Unauthenticated);
            },
        };
        let ghost i = choose|i: int|
            0 <= i < self.db.users@.len() && (#[trigger] self.db.users@[i]).username@ == username@
                && user.id == self.db.users@[i].id && user.username@ == self.db.users@[i].username@
                && user.password_hash@ == self.db.users@[i].password_hash@ && user.salt@
                == self.db.users@[i].salt@;
        proof {
            assert forall|k: int|
                0 <= k < self.db.users@.len() && (#[trigger] self.db.users@[k]).username@ == username@ implies k == i by {
                assert(self.db.users@[k].username@ == self.db.users@[i].username@);
            }
        }
        match verify_password(
            password,
            user.password_hash.as_str(),
            user.salt.as_str(),
            self.settings.auth.pass_pepper.as_str(),
        ) {
            Ok(()) => {},
            Err(_) => {
                return Err(ApiError::Unauthenticated);
            },
        }
        let token = generate_session_id(user.id, self.settings.auth.secret_key.as_str());
        match save_session_id(&mut self.db, user.id, token.as_str()) {
            Ok(()) => {
                proof {
                    let k = self.db.sessions@.len() - 1;
                    assert(self.db.sessions@[k].session_id@ == token@ && self.db.sessions@[k].user_id == user.id);
                    assert(self.db.session_of(token@, user.id));
                    assert(old(self).db.users@[i].username@ == username@);
                }
                Ok(token)
            },
            Err(_) => {
                proof {
                    let nonce = choose|nonce: Seq<char>|
                        nonce.len() == 36 && token@ == token_of(user.id, self.settings.auth.secret_key@, nonce);
                    assert(self.db.users@[i].username@ == username@);
                    assert(self.db.has_session(token_of(self.db.users@[i].id, self.settings.auth.secret_key@, nonce)));
                    assert(self.token_may_collide(username@));
                }
                Err(ApiError::Internal)
            },
        }
    }

    /// Ends the session `session_id`.
    pub fn sign_out(&mut self, session_id: &str) -> (r: Result<(), ApiError>)
        requires
            old(self).db.wf(),
        ensures
            final(self).db.wf(),
            r is Ok,
            !final(self).db.has_session(session_id@),
            forall|t: Seq<char>, u: i32|
                t != session_id@ ==> final(self).db.session_of(t, u) == old(self).db.session_of(t, u),
            final(self).db.users == old(self).db.users,
            final(self).db.articles == old(self).db.articles,
            final(self).db.tagging == old(self).db.tagging,
            final(self).settings == old(self).settings,
    {
        match delete_session(&mut self.db, session_id) {
            Ok(()) => Ok(()),
            Err(e) => Err(api_error(e)),
        }
    }

    /// The article `article_id`.
    pub fn get_article(&self, article_id: i32) -> (r: Result<Article, ApiError>)
        requires
            self.db.wf(),
        ensures
            match r {
                Ok(a) => self.shows_article(a, article_id),
                Err(e) => e == ApiError::NotFound && !self.db.has_article(article_id),
            },
            self.db.has_article(article_id) ==> r is Ok,
    {
        match get_article(&self.db, article_id) {
            Ok(e) => {
                let ghost entry = e;
                let a = into_article(e);
                proof {
                    let j = choose|j: int|
                        0 <= j < self.db.articles@.len() && (#[trigger] self.db.articles@[j]).id == article_id
                            && self.db.describes(entry, self.db.articles@[j]);
                    let u = choose|u: int|
                        0 <= u < self.db.users@.len() && (#[trigger] self.db.users@[u]).id == self.db.articles@[j].author_id
                            && self.db.users@[u].username@ == entry.author_username@;
                    assert(views(a.tags@).to_set() == views(entry.tags@).to_set());
                    assert(self.shows(a, j) && self.db.articles@[j].id == article_id);
                    assert(self.shows_article(a, article_id));
                }
                Ok(a)
            },
            Err(e) => Err(api_error(e)),
        }
    }

    /// `v` presents a page of the store's articles (see `Database::is_page`) before a
    /// cursor, which is the time that `last_timestamp` names where it parses.
    pub open spec fn articles_page(&self, v: Seq<Article>, last_timestamp: Seq<char>, page_size: int) -> bool {
        exists|es: Seq<ArticleEntry>, c: Timestamp|
            #![trigger self.db.is_page(es, c, page_size)]
            self.db.is_page(es, c, page_size) && es.len() == v.len() && (forall|m: int|
                0 <= m < es.len() ==> presents(#[trigger] v[m], es[m])) && (parsed_datetime_of(
                last_timestamp,
                TIMESTAMP_FORMAT@,
            ) matches Some(micros) ==> c.micros == micros)
    }

    /// A page of articles created strictly before the cursor `last_timestamp` (written as
    /// `TIMESTAMP_FORMAT`; any other text means now), newest first.
    pub fn get_articles(&self, last_timestamp: &str, page_size: i64) -> (r: Result<Vec<Article>, ApiError>)
        requires
            self.db.wf(),
        ensures
            match r {
                Ok(v) => self.articles_page(v@, last_timestamp@, page_size as int),
                Err(e) => e == ApiError::Internal && page_size < 0,
            },
            page_size >= 0 ==> r is Ok,
    {
        let cursor = match parse_timestamp(last_timestamp) {
            Some(t) => t,
            None => now(),
        };
        match get_articles_page_before(&self.db, cursor, page_size) {
            Ok(es) => {
                let ghost entries = es@;
                let v = into_articles(es);
                proof {
                    assert(self.db.is_page(entries, cursor, page_size as int));
                }
                Ok(v)
            },
            Err(e) => Err(api_error(e)),
        }
    }

    /// Creates an article by the caller `user` (`None` where the request carries no
    /// identity) and returns its id.
    pub fn create_article(&mut self, user: Option<UserId>, title: &str, content: &str, tags: Vec<String>) -> (r:
        Result<i32, ApiError>)
        requires
            old(self).db.wf(),
        ensures
            final(self).db.wf(),
            final(self).settings == old(self).settings,
            match r {
                Ok(id) => {
                    &&& user matches Some(u)
                    &&& id == old(self).db.next_article_id
                    &&& final(self).db.owns(user->0.value, id)
                    &&& final(self).db.articles@.drop_last() == old(self).db.articles@
                    &&& final(self).db.articles@.last().title@ == title@
                    &&& final(self).db.articles@.last().content@ == content@
                    &&& reconciled(old(self).db.tagging, final(self).db.tagging, id, views(tags@))
                    &&& final(self).db.tagging.next_tag_id == old(self).db.tagging.next_tag_id
                        + new_names(old(self).db.tagging.tags@, views(tags@)).len()
                    &&& final(self).db.users == old(self).db.users
                    &&& final(self).db.sessions == old(self).db.sessions
                },
                Err(e) => {
                    &&& final(self).db == old(self).db
                    &&& (e == ApiError::Unauthenticated) == (user is None)
                    &&& user matches Some(u) ==> (e == ApiError::NotFound) == !old(self).db.has_user(u.value)
                    &&& (e == ApiError::Unauthenticated || e == ApiError::NotFound || e == ApiError::Internal)
                },
            },
            user matches Some(u) && old(self).db.has_user(u.value) && old(self).db.next_article_id
                < i32::MAX && old(self).db.tagging.next_tag_id + new_names(
                old(self).db.tagging.tags@,
                views(tags@),
            ).len() <= i32::MAX ==> r is Ok,
    {
        let author = match user {
            Some(u) => u,
            None => {
                return Err(ApiError::Unauthenticated);
            },
        };
        match create_article(&mut self.db, author.value, title, content, tags) {
            Ok(a) => {
                proof {
                    let last = self.db.articles@.len() - 1;
                    assert(self.db.articles@[last].id == a.id);
                }
                Ok(a.id)
            },
            Err(e) => Err(api_error(e)),
        }
    }

    /// Replaces the title, content and tags of the article `article_id`, if the caller
    /// `user` wrote it.
    pub fn update_article(
        &mut self,
        user: Option<UserId>,
        article_id: i32,
        title: &str,
        content: &str,
        tags: Vec<String>,
    ) -> (r: Result<(), ApiError>)
        requires
            old(self).db.wf(),
        ensures
            final(self).db.wf(),
            final(self).settings == old(self).settings,
            match r {
                Ok(()) => {
                    &&& user matches Some(u)
                    &&& old(self).db.owns(user->0.value, article_id)
                    &&& final(self).db.owns(user->0.value, article_id)
                    &&& reconciled(old(self).db.tagging, final(self).db.tagging, article_id, views(tags@))
                    &&& final(self).db.tagging.next_tag_id == old(self).db.tagging.next_tag_id
                        + new_names(old(self).db.tagging.tags@, views(tags@)).len()
                    &&& final(self).db.users == old(self).db.users
                    &&& final(self).db.sessions == old(self).db.sessions
                    &&& final(self).db.articles@.len() == old(self).db.articles@.len()
                    &&& forall|j: int|
                        0 <= j < old(self).db.articles@.len() && old(self).db.articles@[j].id
                            != article_id ==> #[trigger] final(self).db.articles@[j]
                            == old(self).db.articles@[j]
                    &&& forall|j: int|
                        0 <= j < old(self).db.articles@.len() && old(self).db.articles@[j].id
                            == article_id ==> (#[trigger] final(self).db.articles@[j]).title@ == title@
                            && final(self).db.articles@[j].content@ == content@
                },
                Err(e) => {
                    &&& final(self).db == old(self).db
                    &&& (e == ApiError::Unauthenticated) == (user is None)
                    &&& user matches Some(u) ==> {
                        &&& (e == ApiError::NotFound) == !old(self).db.has_article(article_id)
                        &&& (e == ApiError::Forbidden) == (old(self).db.has_article(article_id)
                            && !old(self).db.owns(u.value, article_id))
                    }
                    &&& e != ApiError::Conflict
                },
            },
            user matches Some(u) && old(self).db.owns(u.value, article_id)
                && old(self).db.tagging.next_tag_id + new_names(old(self).db.tagging.tags@, views(tags@)).len()
                <= i32::MAX ==> r is Ok,
    {
        let author = match user {
            Some(u) => u,
            None => {
                return Err(ApiError::Unauthenticated);
            },
        };
        match update_article(&mut self.db, author.value, article_id, title, content, tags) {
            Ok(()) => {
                proof {
                    let i = choose|i: int|
                        0 <= i < old(self).db.articles@.len() && (#[trigger] old(self).db.articles@[i]).id
                            == article_id && old(self).db.articles@[i].author_id == author.value;
                    assert(self.db.articles@[i].id == article_id);
                }
                Ok(())
            },
            Err(e) => Err(api_error(e)),
        }
    }

    /// Deletes the article `article_id`, if the caller `user` wrote it.
    pub fn delete_article(&mut self, user: Option<UserId>, article_id: i32) -> (r: Result<(), ApiError>)
        requires
            old(self).db.wf(),
        ensures
            final(self).db.wf(),
            final(self).settings == old(self).settings,
            match r {
                Ok(()) => {
                    &&& user matches Some(u)
                    &&& old(self).db.owns(user->0.value, article_id)
                    &&& !final(self).db.has_article(article_id)
                    &&& reconciled(old(self).db.tagging, final(self).db.tagging, article_id, Seq::empty())
                    &&& !final(self).db.tagging.mentions_article(article_id)
                    &&& final(self).db.articles@.len() == old(self).db.articles@.len() - 1
                    &&& forall|j: int|
                        0 <= j < old(self).db.articles@.len() && old(self).db.articles@[j].id != article_id
                            ==> final(self).db.articles@.contains(#[trigger] old(self).db.articles@[j])
                    &&& forall|j: int|
                        0 <= j < final(self).db.articles@.len() ==> old(self).db.articles@.contains(
                            #[trigger] final(self).db.articles@[j],
                        )
                    &&& final(self).db.users == old(self).db.users
                    &&& final(self).db.sessions == old(self).db.sessions
                },
                Err(e) => {
                    &&& final(self).db == old(self).db
                    &&& (e == ApiError::Unauthenticated) == (user is None)
                    &&& user matches Some(u) ==> {
                        &&& (e == ApiError::NotFound) == !old(self).db.has_article(article_id)
                        &&& (e == ApiError::Forbidden) == (old(self).db.has_article(article_id)
                            && !old(self).db.owns(u.value, article_id))
                    }
                },
            },
            user matches Some(u) && old(self).db.owns(u.value, article_id) ==> r is Ok,
    {
        let author = match user {
            Some(u) => u,
            None => {
                return Err(ApiError::Unauthenticated);
            },
        };
        match delete_article(&mut self.db, author.value, article_id) {
            Ok(()) => Ok(()),
            Err(e) => Err(api_error(e)),
        }
    }
}

} // verus!
