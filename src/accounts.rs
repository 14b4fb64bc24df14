use vstd::prelude::*;

use crate::error::StoreError;
use crate::store::{Database, SessionRecord, UserEntry, UserIdEntry};
use crate::time::{now, Timestamp};

verus! {

/// A copy of an optional string with the same contents.
fn copy_opt(s: &Option<String>) -> (r: Option<String>)
    ensures
        match s {
            Some(x) => r is Some && r->0@ == x@,
            None => r is None,
        },
{
    match s {
        Some(x) => Some(x.clone()),
        None => None,
    }
}

impl Database {
    /// The index of the user called `name`, if there is one.
    pub fn find_username(&self, name: &str) -> (r: Option<usize>)
        ensures
            match r {
                Some(i) => i < self.users@.len() && self.users@[i as int].username@ == name@,
                None => !self.has_username(name@),
            },
    {
        let wanted = name.to_string();
        assert(wanted@ == name@);
        let mut i: usize = 0;
        while i < self.users.len()
            invariant
                i <= self.users@.len(),
                wanted@ == name@,
                forall|k: int| 0 <= k < i ==> (#[trigger] self.users@[k]).username@ != name@,
            decreases self.users@.len() - i,
        {
            if self.users[i].username == wanted {
                return Some(i);
            }
            i = i + 1;
        }
        None
    }

    /// The index of the session `token`, if there is one.
    pub fn find_session(&self, token: &str) -> (r: Option<usize>)
        ensures
            match r {
                Some(i) => i < self.sessions@.len() && self.sessions@[i as int].session_id@ == token@,
                None => !self.has_session(token@),
            },
    {
        let wanted = token.to_string();
        assert(wanted@ == token@);
        let mut i: usize = 0;
        while i < self.sessions.len()
            invariant
                i <= self.sessions@.len(),
                wanted@ == token@,
                forall|k: int| 0 <= k < i ==> (#[trigger] self.sessions@[k]).session_id@ != token@,
            decreases self.sessions@.len() - i,
        {
            if self.sessions[i].session_id == wanted {
                return Some(i);
            }
            i = i + 1;
        }
        None
    }

}

/// Adds the user `username` with a password hash and its salt; a taken name is a
/// conflict.
pub fn create_user(db: &mut Database, username: &str, hashed_password: &str, salt: &str) -> (r: Result<
    UserIdEntry,
    StoreError,
>)
    requires
        old(db).wf(),
    ensures
        final(db).wf(),
        match r {
            Ok(u) => {
                &&& !old(db).has_username(username@)
                &&& u.id == old(db).next_user_id
                &&& final(db).next_user_id == u.id + 1
                &&& final(db).users@.len() == old(db).users@.len() + 1
                &&& final(db).users@.drop_last() == old(db).users@
                &&& final(db).users@.last().id == u.id
                &&& final(db).users@.last().username@ == username@
                &&& final(db).users@.last().email is None
                &&& final(db).users@.last().password_hash@ == hashed_password@
                &&& final(db).users@.last().salt@ == salt@
                &&& final(db).articles == old(db).articles
                &&& final(db).tagging == old(db).tagging
                &&& final(db).sessions == old(db).sessions
                &&& final(db).next_article_id == old(db).next_article_id
            },
            Err(e) => {
                &&& *final(db) == *old(db)
                &&& (e == StoreError::Conflict) == old(db).has_username(username@)
                &&& (e == StoreError::Conflict || e == StoreError::Internal)
                &&& e == StoreError::Internal ==> old(db).next_user_id == i32::MAX
            },
        },
        !old(db).has_username(username@) && old(db).next_user_id < i32::MAX ==> r is Ok,
{
    if db.find_username(username).is_some() {
        return Err(StoreError::Conflict);
    }
    if db.next_user_id == i32::MAX {
        return Err(StoreError::Internal);
    }
    let uid = db.next_user_id;
    let ghost old_users = db.users@;
    db.users.push(
        UserEntry {
            id: uid,
            username: username.to_string(),
            email: None,
            password_hash: hashed_password.to_string(),
            salt: salt.to_string(),
        },
    );
    db.next_user_id = uid + 1;
    proof {
        assert(db.users@.drop_last() =~= old_users);
        assert forall|i: int| 0 <= i < old_users.len() implies #[trigger] db.users@[i] == old_users[i] by {}
        assert forall|a: int, b: int|
            0 <= a < db.users@.len() && 0 <= b < db.users@.len() && (#[trigger] db.users@[a]).id
                == (#[trigger] db.users@[b]).id implies a == b by {
            if a < old_users.len() {
                assert(db.users@[a] == old_users[a]);
            }
            if b < old_users.len() {
                assert(db.users@[b] == old_users[b]);
            }
        }
        assert forall|a: int, b: int|
            0 <= a < db.users@.len() && 0 <= b < db.users@.len() && (#[trigger] db.users@[a]).username@
                == (#[trigger] db.users@[b]).username@ implies a == b by {
            if a < old_users.len() {
                assert(db.users@[a] == old_users[a]);
            }
            if b < old_users.len() {
                assert(db.users@[b] == old_users[b]);
            }
        }
        assert forall|a: int| 0 <= a < db.users@.len() implies 0 <= (#[trigger] db.users@[a]).id
            < db.next_user_id by {
            if a < old_users.len() {
                assert(db.users@[a] == old_users[a]);
            }
        }
        assert forall|uid2: i32| old(db).has_user(uid2) implies db.has_user(uid2) by {
            let k = choose|k: int| 0 <= k < old_users.len() && (#[trigger] old_users[k]).id == uid2;
            assert(db.users@[k] == old_users[k]);
        }
    }
    Ok(UserIdEntry { id: uid })
}

/// The user called `username`.
pub fn get_user_by_username(db: &Database, username: &str) -> (r: Result<UserEntry, StoreError>)
    ensures
        match r {
            Ok(u) => exists|i: int|
                0 <= i < db.users@.len() && (#[trigger] db.users@[i]).username@ == username@
                    && u.id == db.users@[i].id && u.username@ == db.users@[i].username@
                    && u.password_hash@ == db.users@[i].password_hash@ && u.salt@
                    == db.users@[i].salt@,
            Err(e) => e == StoreError::NotFound && !db.has_username(username@),
        },
        db.has_username(username@) ==> r is Ok,
{
    match db.find_username(username) {
        Some(i) => {
            let row = &db.users[i];
            Ok(
                UserEntry {
                    id: row.id,
                    username: row.username.clone(),
                    email: copy_opt(&row.email),
                    password_hash: row.password_hash.clone(),
                    salt: row.salt.clone(),
                },
            )
        },
        None => Err(StoreError::NotFound),
    }
}

/// Records the session `session_id` of the user `user_id`, stamped `created_at`.
pub fn save_session_id_at(db: &mut Database, user_id: i32, session_id: &str, created_at: Timestamp) -> (r:
    Result<(), StoreError>)
    requires
        old(db).wf(),
    ensures
        final(db).wf(),
        match r {
            Ok(()) => {
                &&& old(db).has_user(user_id)
                &&& !old(db).has_session(session_id@)
                &&& final(db).sessions@.len() == old(db).sessions@.len() + 1
                &&& final(db).sessions@.drop_last() == old(db).sessions@
                &&& final(db).sessions@.last().session_id@ == session_id@
                &&& final(db).sessions@.last().user_id == user_id
                &&& final(db).sessions@.last().created_at == created_at
                &&& final(db).articles == old(db).articles
                &&& final(db).tagging == old(db).tagging
                &&& final(db).users == old(db).users
                &&& final(db).next_article_id == old(db).next_article_id
                &&& final(db).next_user_id == old(db).next_user_id
            },
            Err(e) => {
                &&& *final(db) == *old(db)
                &&& (e == StoreError::NotFound) == !old(db).has_user(user_id)
                &&& (e == StoreError::Conflict) == (old(db).has_user(user_id) && old(
                    db,
                ).has_session(session_id@))
                &&& (e == StoreError::NotFound || e == StoreError::Conflict)
            },
        },
        old(db).has_user(user_id) && !old(db).has_session(session_id@) ==> r is Ok,
{
    if db.find_user(user_id).is_none() {
        return Err(StoreError::NotFound);
    }
    if db.find_session(session_id).is_some() {
        return Err(StoreError::Conflict);
    }
    let ghost old_sessions = db.sessions@;
    db.sessions.push(SessionRecord { session_id: session_id.to_string(), user_id, created_at });
    proof {
        assert(db.sessions@.drop_last() =~= old_sessions);
        assert forall|i: int| 0 <= i < old_sessions.len() implies #[trigger] db.sessions@[i] == old_sessions[i] by {}
        assert forall|a: int, b: int|
            0 <= a < db.sessions@.len() && 0 <= b < db.sessions@.len() && (#[trigger] db.sessions@[a]).session_id@
                == (#[trigger] db.sessions@[b]).session_id@ implies a == b by {
            if a < old_sessions.len() {
                assert(db.sessions@[a] == old_sessions[a]);
            }
            if b < old_sessions.len() {
                assert(db.sessions@[b] == old_sessions[b]);
            }
        }
        assert forall|a: int| 0 <= a < db.sessions@.len() implies db.has_user((#[trigger] db.sessions@[a]).user_id) by {
            if a < old_sessions.len() {
                assert(db.sessions@[a] == old_sessions[a]);
            }
        }
    }
    Ok(())
}

/// Records the session `session_id` of the user `user_id`, stamped with the current
/// time; see `save_session_id_at`.
pub fn save_session_id(db: &mut Database, user_id: i32, session_id: &str) -> (r: Result<(), StoreError>)
    requires
        old(db).wf(),
    ensures
        final(db).wf(),
        match r {
            Ok(()) => {
                &&& old(db).has_user(user_id)
                &&& !old(db).has_session(session_id@)
                &&& final(db).sessions@.len() == old(db).sessions@.len() + 1
                &&& final(db).sessions@.drop_last() == old(db).sessions@
                &&& final(db).sessions@.last().session_id@ == session_id@
                &&& final(db).sessions@.last().user_id == user_id
                &&& final(db).articles == old(db).articles
                &&& final(db).tagging == old(db).tagging
                &&& final(db).users == old(db).users
                &&& final(db).next_user_id == old(db).next_user_id
            },
            Err(e) => {
                &&& *final(db) == *old(db)
                &&& (e == StoreError::NotFound) == !old(db).has_user(user_id)
                &&& (e == StoreError::Conflict) == (old(db).has_user(user_id) && old(
                    db,
                ).has_session(session_id@))
                &&& (e == StoreError::NotFound || e == StoreError::Conflict)
            },
        },
        old(db).has_user(user_id) && !old(db).has_session(session_id@) ==> r is Ok,
{
    let created_at = now();
    save_session_id_at(db, user_id, session_id, created_at)
}

/// The user whom the session `session_id` stands for.
pub fn get_session_by_id(db: &Database, session_id: &str) -> (r: Result<UserIdEntry, StoreError>)
    ensures
        match r {
            Ok(u) => db.session_of(session_id@, u.id),
            Err(e) => e == StoreError::NotFound && !db.has_session(session_id@),
        },
        db.has_session(session_id@) ==> r is Ok,
{
    match db.find_session(session_id) {
        Some(i) => Ok(UserIdEntry { id: db.sessions[i].user_id }),
        None => Err(StoreError::NotFound),
    }
}

/// Removes the session `session_id`, if it exists.
pub fn delete_session(db: &mut Database, session_id: &str) -> (r: Result<(), StoreError>)
    requires
        old(db).wf(),
    ensures
        final(db).wf(),
        r is Ok,
        !final(db).has_session(session_id@),
        forall|t: Seq<char>, u: i32|
            t != session_id@ ==> final(db).session_of(t, u) == old(db).session_of(t, u),
        final(db).articles == old(db).articles,
        final(db).tagging == old(db).tagging,
        final(db).users == old(db).users,
        final(db).next_article_id == old(db).next_article_id,
        final(db).next_user_id == old(db).next_user_id,
{
    match db.find_session(session_id) {
        Some(i) => {
            let ghost old_sessions = db.sessions@;
            db.sessions.remove(i);
            proof {
                assert forall|j: int| 0 <= j < db.sessions@.len() implies #[trigger] db.sessions@[j]
                    == (if j < i { old_sessions[j] } else { old_sessions[j + 1] }) by {}
                assert forall|a: int, b: int|
                    0 <= a < db.sessions@.len() && 0 <= b < db.sessions@.len() && (#[trigger] db.sessions@[a]).session_id@
                        == (#[trigger] db.sessions@[b]).session_id@ implies a == b by {
                    let oa = if a < i { a } else { a + 1 };
                    let ob = if b < i { b } else { b + 1 };
                    assert(old_sessions[oa].session_id@ == old_sessions[ob].session_id@);
                }
                assert forall|a: int| 0 <= a < db.sessions@.len() implies db.has_user((#[trigger] db.sessions@[a]).user_id) by {
                    let oa = if a < i { a } else { a + 1 };
                    assert(old_sessions[oa] == db.sessions@[a]);
                }
                assert forall|j: int| 0 <= j < old_sessions.len() && old_sessions[j].session_id@ == session_id@ implies j == i by {
                    assert(old_sessions[j].session_id@ == old_sessions[i as int].session_id@);
                }
                assert forall|t: Seq<char>, u: i32| t != session_id@ implies db.session_of(t, u) == old(db).session_of(t, u) by {
                    if old(db).session_of(t, u) {
                        let j = choose|j: int| 0 <= j < old_sessions.len() && (#[trigger] old_sessions[j]).session_id@ == t && old_sessions[j].user_id == u;
                        let nj = if j < i { j } else { j - 1 };
                        assert(db.sessions@[nj] == old_sessions[j]);
                    }
                    if db.session_of(t, u) {
                        let j = choose|j: int| 0 <= j < db.sessions@.len() && (#[trigger] db.sessions@[j]).session_id@ == t && db.sessions@[j].user_id == u;
                        let oj = if j < i { j } else { j + 1 };
                        assert(old_sessions[oj] == db.sessions@[j]);
                    }
                }
                assert(!db.has_session(session_id@)) by {
                    if db.has_session(session_id@) {
                        let j = choose|j: int| 0 <= j < db.sessions@.len() && (#[trigger] db.sessions@[j]).session_id@ == session_id@;
                        let oj = if j < i { j } else { j + 1 };
                        assert(old_sessions[oj] == db.sessions@[j]);
                    }
                }
            }
            Ok(())
        },
        None => Ok(()),
    }
}

} // verus!
