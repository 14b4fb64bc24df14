use vstd::prelude::*;

use crate::error::StoreError;
use crate::strings::views;
use crate::tags::{has_id, lemma_row_at, rows_of, TagTables};
use crate::time::Timestamp;

verus! {

/// A row of the article table.
pub struct ArticleRecord {
    pub id: i32,
    pub author_id: i32,
    pub title: String,
    pub content: String,
    pub created_at: Timestamp,
}

/// The id of a newly created article.
#[derive(Clone, Copy, PartialEq, Eq, Structural, Debug)]
pub struct ArticleId {
    pub id: i32,
}

/// The id of a user.
#[derive(Clone, Copy, PartialEq, Eq, Structural, Debug)]
pub struct UserIdEntry {
    pub id: i32,
}

/// A row of the user table.
pub struct UserEntry {
    pub id: i32,
    pub username: String,
    pub email: Option<String>,
    pub password_hash: String,
    pub salt: String,
}

/// A row of the session table: an opaque token that stands for a user.
pub struct SessionRecord {
    pub session_id: String,
    pub user_id: i32,
    pub created_at: Timestamp,
}

/// The relational store: articles, tags with their associations, users and sessions,
/// with the next unused article and user ids.
pub struct Database {
    pub articles: Vec<ArticleRecord>,
    pub tagging: TagTables,
    pub users: Vec<UserEntry>,
    pub sessions: Vec<SessionRecord>,
    pub next_article_id: i32,
    pub next_user_id: i32,
}

impl Database {
    /// The article `aid` exists.
    pub open spec fn has_article(&self, aid: i32) -> bool {
        exists|i: int| 0 <= i < self.articles@.len() && (#[trigger] self.articles@[i]).id == aid
    }

    /// The article `aid` exists and `uid` wrote it.
    pub open spec fn owns(&self, uid: i32, aid: i32) -> bool {
        exists|i: int|
            0 <= i < self.articles@.len() && (#[trigger] self.articles@[i]).id == aid
                && self.articles@[i].author_id == uid
    }

    /// The user `uid` exists.
    pub open spec fn has_user(&self, uid: i32) -> bool {
        exists|i: int| 0 <= i < self.users@.len() && (#[trigger] self.users@[i]).id == uid
    }

    /// Some user is called `name`.
    pub open spec fn has_username(&self, name: Seq<char>) -> bool {
        exists|i: int| 0 <= i < self.users@.len() && (#[trigger] self.users@[i]).username@ == name
    }

    /// Some session has the token `token`.
    pub open spec fn has_session(&self, token: Seq<char>) -> bool {
        exists|i: int|
            0 <= i < self.sessions@.len() && (#[trigger] self.sessions@[i]).session_id@ == token
    }

    /// The session `token` exists and belongs to the user `uid`.
    pub open spec fn session_of(&self, token: Seq<char>, uid: i32) -> bool {
        exists|i: int|
            0 <= i < self.sessions@.len() && (#[trigger] self.sessions@[i]).session_id@ == token
                && self.sessions@[i].user_id == uid
    }

    /// The names of the tags that the article `aid` carries.
    pub open spec fn tag_names(&self, aid: i32) -> Set<Seq<char>> {
        self.tagging.tag_names(aid)
    }

    /// Article ids are unique and below the next unused id, authors exist, and every
    /// association names an existing article.
    pub open spec fn articles_wf(&self) -> bool {
        &&& 0 <= self.next_article_id
        &&& forall|i: int, j: int|
            0 <= i < self.articles@.len() && 0 <= j < self.articles@.len() && (#[trigger] self.articles@[i]).id
                == (#[trigger] self.articles@[j]).id ==> i == j
        &&& forall|i: int|
            0 <= i < self.articles@.len() ==> 0 <= (#[trigger] self.articles@[i]).id < self.next_article_id
                && self.has_user(self.articles@[i].author_id)
        &&& forall|i: int|
            0 <= i < self.tagging.article_tags@.len() ==> self.has_article(
                (#[trigger] self.tagging.article_tags@[i]).article_id,
            )
    }

    /// User ids and names are unique, and ids lie below the next unused id.
    pub open spec fn users_wf(&self) -> bool {
        &&& 0 <= self.next_user_id
        &&& forall|i: int, j: int|
            0 <= i < self.users@.len() && 0 <= j < self.users@.len() && (#[trigger] self.users@[i]).id
                == (#[trigger] self.users@[j]).id ==> i == j
        &&& forall|i: int, j: int|
            0 <= i < self.users@.len() && 0 <= j < self.users@.len() && (#[trigger] self.users@[i]).username@
                == (#[trigger] self.users@[j]).username@ ==> i == j
        &&& forall|i: int|
            0 <= i < self.users@.len() ==> 0 <= (#[trigger] self.users@[i]).id < self.next_user_id
    }

    /// Session tokens are unique, and every session's user exists.
    pub open spec fn sessions_wf(&self) -> bool {
        &&& forall|i: int, j: int|
            0 <= i < self.sessions@.len() && 0 <= j < self.sessions@.len() && (#[trigger] self.sessions@[i]).session_id@
                == (#[trigger] self.sessions@[j]).session_id@ ==> i == j
        &&& forall|i: int|
            0 <= i < self.sessions@.len() ==> self.has_user((#[trigger] self.sessions@[i]).user_id)
    }

    /// The tag tables are well formed; article, user and session keys are unique; ids lie
    /// below the next unused id; every article's author, every association's article and
    /// every session's user exists.
    pub open spec fn wf(&self) -> bool {
        &&& self.tagging.wf()
        &&& self.articles_wf()
        &&& self.users_wf()
        &&& self.sessions_wf()
    }

    /// An empty store.
    pub fn new() -> (r: Database)
        ensures
            r.wf(),
            r.articles@.len() == 0,
            r.users@.len() == 0,
            r.sessions@.len() == 0,
            r.tagging.tags@.len() == 0,
            r.tagging.article_tags@.len() == 0,
    {
        Database {
            articles: Vec::new(),
            tagging: TagTables::new(),
            users: Vec::new(),
            sessions: Vec::new(),
            next_article_id: 0,
            next_user_id: 0,
        }
    }

    /// The index of the article `aid`, if it exists.
    pub fn find_article(&self, aid: i32) -> (r: Option<usize>)
        ensures
            match r {
                Some(i) => i < self.articles@.len() && self.articles@[i as int].id == aid,
                None => !self.has_article(aid),
            },
    {
        let mut i: usize = 0;
        while i < self.articles.len()
            invariant
                i <= self.articles@.len(),
                forall|k: int| 0 <= k < i ==> (#[trigger] self.articles@[k]).id != aid,
            decreases self.articles@.len() - i,
        {
            if self.articles[i].id == aid {
                return Some(i);
            }
            i = i + 1;
        }
        None
    }

    /// The index of the user `uid`, if it exists.
    pub fn find_user(&self, uid: i32) -> (r: Option<usize>)
        ensures
            match r {
                Some(i) => i < self.users@.len() && self.users@[i as int].id == uid,
                None => !self.has_user(uid),
            },
    {
        let mut i: usize = 0;
        while i < self.users.len()
            invariant
                i <= self.users@.len(),
                forall|k: int| 0 <= k < i ==> (#[trigger] self.users@[k]).id != uid,
            decreases self.users@.len() - i,
        {
            if self.users[i].id == uid {
                return Some(i);
            }
            i = i + 1;
        }
        None
    }
}

/// With no tag names left, no association names the article.
pub proof fn lemma_no_names_no_links(t: TagTables, aid: i32)
    requires
        t.wf(),
        t.tag_names(aid) == Set::<Seq<char>>::empty(),
    ensures
        forall|i: int|
            0 <= i < t.article_tags@.len() ==> (#[trigger] t.article_tags@[i]).article_id != aid,
{
    assert forall|i: int| 0 <= i < t.article_tags@.len() implies (#[trigger] t.article_tags@[i]).article_id
        != aid by {
        let lk = t.article_tags@[i];
        if lk.article_id == aid {
            assert(has_id(t.tags@, lk.tag_id));
            let j = choose|j: int| 0 <= j < t.tags@.len() && (#[trigger] t.tags@[j]).id == lk.tag_id;
            lemma_row_at(t.tags@, j);
            assert(t.linked(aid, lk.tag_id));
            assert(t.tag_names(aid).contains(t.tags@[j].name@));
        }
    }
}

} // verus!
