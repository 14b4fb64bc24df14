use vstd::prelude::*;

use crate::error::StoreError;
use crate::store::{ArticleId, ArticleRecord, Database};
use crate::strings::views;
use crate::tags::{new_names, reconciled};
use crate::time::{now, Timestamp};

verus! {

/// Creates an article by `author_id`, stamped `created_at`, with the tags `tag_names`
/// (duplicates count once), in one unit of work.
pub fn create_article_at(
    db: &mut Database,
    author_id: i32,
    title: &str,
    content: &str,
    tag_names: Vec<String>,
    created_at: Timestamp,
) -> (r: Result<ArticleId, StoreError>)
    requires
        old(db).wf(),
    ensures
        final(db).wf(),
        match r {
            Ok(a) => {
                &&& old(db).has_user(author_id)
                &&& a.id == old(db).next_article_id
                &&& final(db).next_article_id == a.id + 1
                &&& final(db).articles@.len() == old(db).articles@.len() + 1
                &&& final(db).articles@.drop_last() == old(db).articles@
                &&& final(db).articles@.last().id == a.id
                &&& final(db).articles@.last().author_id == author_id
                &&& final(db).articles@.last().title@ == title@
                &&& final(db).articles@.last().content@ == content@
                &&& final(db).articles@.last().created_at == created_at
                &&& reconciled(old(db).tagging, final(db).tagging, a.id, views(tag_names@))
                &&& final(db).tagging.next_tag_id == old(db).tagging.next_tag_id + new_names(
                    old(db).tagging.tags@,
                    views(tag_names@),
                ).len()
                &&& final(db).users == old(db).users
                &&& final(db).sessions == old(db).sessions
                &&& final(db).next_user_id == old(db).next_user_id
            },
            Err(e) => {
                &&& *final(db) == *old(db)
                &&& (e == StoreError::NotFound) == !old(db).has_user(author_id)
                &&& (e == StoreError::NotFound || e == StoreError::Internal)
                &&& e == StoreError::Internal ==> old(db).next_article_id == i32::MAX
                    || old(db).tagging.next_tag_id + tag_names@.len() > i32::MAX
            },
        },
        old(db).has_user(author_id) && old(db).next_article_id < i32::MAX
            && old(db).tagging.next_tag_id + tag_names@.len() <= i32::MAX ==> r is Ok,
        r is Ok <==> old(db).has_user(author_id) && old(db).next_article_id < i32::MAX
            && old(db).tagging.next_tag_id + new_names(old(db).tagging.tags@, views(tag_names@)).len()
            <= i32::MAX,
{
    if db.find_user(author_id).is_none() {
        return Err(StoreError::NotFound);
    }
    if db.next_article_id == i32::MAX {
        return Err(StoreError::Internal);
    }
    let aid = db.next_article_id;
    match db.tagging.reconcile(aid, &tag_names) {
        Ok(t) => {
            let ghost old_articles = db.articles@;
            let ghost old_tagging = db.tagging;
            db.articles.push(
                ArticleRecord {
                    id: aid,
                    author_id,
                    title: title.to_string(),
                    content: content.to_string(),
                    created_at,
                },
            );
            db.tagging = t;
            db.next_article_id = aid + 1;
            proof {
                assert(db.articles@.drop_last() =~= old_articles);
                assert forall|i: int| 0 <= i < old_articles.len() implies #[trigger] db.articles@[i] == old_articles[i] by {}
                assert(db.articles@[old_articles.len() as int].id == aid);
                assert forall|i: int| 0 <= i < db.tagging.article_tags@.len() implies db.has_article(
                    (#[trigger] db.tagging.article_tags@[i]).article_id,
                ) by {
                    let lk = db.tagging.article_tags@[i];
                    if lk.article_id != aid {
                        assert(db.tagging.linked(lk.article_id, lk.tag_id));
                        assert(old_tagging.linked(lk.article_id, lk.tag_id));
                        let k = choose|k: int| 0 <= k < old_tagging.article_tags@.len() && old_tagging.article_tags@[k] == lk;
                        assert(old(db).has_article(old_tagging.article_tags@[k].article_id));
                        let m = choose|m: int| 0 <= m < old_articles.len() && (#[trigger] old_articles[m]).id == lk.article_id;
                        assert(db.articles@[m] == old_articles[m]);
                    }
                }
                assert forall|i: int| 0 <= i < db.articles@.len() implies 0 <= (#[trigger] db.articles@[i]).id < db.next_article_id
                    && db.has_user(db.articles@[i].author_id) by {
                    if i < old_articles.len() {
                        assert(db.articles@[i] == old_articles[i]);
                    }
                }
                assert forall|i: int, j: int|
                    0 <= i < db.articles@.len() && 0 <= j < db.articles@.len() && (#[trigger] db.articles@[i]).id
                        == (#[trigger] db.articles@[j]).id implies i == j by {
                    if i < old_articles.len() {
                        assert(db.articles@[i] == old_articles[i]);
                    }
                    if j < old_articles.len() {
                        assert(db.articles@[j] == old_articles[j]);
                    }
                }
            }
            Ok(ArticleId { id: aid })
        },
        Err(e) => Err(e),
    }
}

/// Creates an article stamped with the current time; see `create_article_at`.
pub fn create_article(db: &mut Database, author_id: i32, title: &str, content: &str, tag_names: Vec<String>) -> (r:
    Result<ArticleId, StoreError>)
    requires
        old(db).wf(),
    ensures
        final(db).wf(),
        match r {
            Ok(a) => {
                &&& old(db).has_user(author_id)
                &&& a.id == old(db).next_article_id
                &&& final(db).articles@.len() == old(db).articles@.len() + 1
                &&& final(db).articles@.drop_last() == old(db).articles@
                &&& final(db).articles@.last().id == a.id
                &&& final(db).articles@.last().author_id == author_id
                &&& final(db).articles@.last().title@ == title@
                &&& final(db).articles@.last().content@ == content@
                &&& reconciled(old(db).tagging, final(db).tagging, a.id, views(tag_names@))
                &&& final(db).tagging.next_tag_id == old(db).tagging.next_tag_id + new_names(
                    old(db).tagging.tags@,
                    views(tag_names@),
                ).len()
                &&& final(db).users == old(db).users
                &&& final(db).sessions == old(db).sessions
            },
            Err(e) => {
                &&& *final(db) == *old(db)
                &&& (e == StoreError::NotFound) == !old(db).has_user(author_id)
                &&& (e == StoreError::NotFound || e == StoreError::Internal)
            },
        },
        old(db).has_user(author_id) && old(db).next_article_id < i32::MAX
            && old(db).tagging.next_tag_id + tag_names@.len() <= i32::MAX ==> r is Ok,
        r is Ok <==> old(db).has_user(author_id) && old(db).next_article_id < i32::MAX
            && old(db).tagging.next_tag_id + new_names(old(db).tagging.tags@, views(tag_names@)).len()
            <= i32::MAX,
{
    let created_at = now();
    create_article_at(db, author_id, title, content, tag_names, created_at)
}

/// Replaces the title, content and tags of the article `article_id`, in one unit of
/// work, if `author_id` wrote it.
pub fn update_article(
    db: &mut Database,
    author_id: i32,
    article_id: i32,
    title: &str,
    content: &str,
    tag_names: Vec<String>,
) -> (r: Result<(), StoreError>)
    requires
        old(db).wf(),
    ensures
        final(db).wf(),
        match r {
            Ok(()) => {
                &&& old(db).owns(author_id, article_id)
                &&& final(db).articles@.len() == old(db).articles@.len()
                &&& forall|j: int|
                    0 <= j < old(db).articles@.len() && old(db).articles@[j].id != article_id
                        ==> #[trigger] final(db).articles@[j] == old(db).articles@[j]
                &&& forall|j: int|
                    0 <= j < old(db).articles@.len() && old(db).articles@[j].id == article_id ==> {
                        &&& (#[trigger] final(db).articles@[j]).id == article_id
                        &&& final(db).articles@[j].author_id == author_id
                        &&& final(db).articles@[j].created_at == old(db).articles@[j].created_at
                        &&& final(db).articles@[j].title@ == title@
                        &&& final(db).articles@[j].content@ == content@
                    }
                &&& reconciled(old(db).tagging, final(db).tagging, article_id, views(tag_names@))
                &&& final(db).tagging.next_tag_id == old(db).tagging.next_tag_id + new_names(
                    old(db).tagging.tags@,
                    views(tag_names@),
                ).len()
                &&& final(db).users == old(db).users
                &&& final(db).sessions == old(db).sessions
                &&& final(db).next_article_id == old(db).next_article_id
                &&& final(db).next_user_id == old(db).next_user_id
            },
            Err(e) => {
                &&& *final(db) == *old(db)
                &&& (e == StoreError::NotFound) == !old(db).has_article(article_id)
                &&& (e == StoreError::Forbidden) == (old(db).has_article(article_id) && !old(
                    db,
                ).owns(author_id, article_id))
                &&& e != StoreError::Conflict
                &&& e == StoreError::Internal ==> old(db).tagging.next_tag_id + tag_names@.len()
                    > i32::MAX
            },
        },
        old(db).owns(author_id, article_id) && old(db).tagging.next_tag_id + tag_names@.len()
            <= i32::MAX ==> r is Ok,
        r is Ok <==> old(db).owns(author_id, article_id) && old(db).tagging.next_tag_id + new_names(
            old(db).tagging.tags@,
            views(tag_names@),
        ).len() <= i32::MAX,
        !old(db).owns(author_id, article_id) ==> *final(db) == *old(db) && (r == Err::<(), StoreError>(StoreError::Forbidden)
            || r == Err::<(), StoreError>(StoreError::NotFound)),
{
    let i = match db.find_article(article_id) {
        Some(i) => i,
        None => {
            return Err(StoreError::NotFound);
        },
    };
    if db.articles[i].author_id != author_id {
        proof {
            assert forall|j: int| 0 <= j < db.articles@.len() && (#[trigger] db.articles@[j]).id
                == article_id implies db.articles@[j].author_id != author_id by {
                assert(db.articles@[j].id == db.articles@[i as int].id);
            }
        }
        return Err(StoreError::Forbidden);
    }
    match db.tagging.reconcile(article_id, &tag_names) {
        Ok(t) => {
            let ghost old_articles = db.articles@;
            let ghost old_tagging = db.tagging;
            let created_at = db.articles[i].created_at;
            let rec = ArticleRecord {
                id: article_id,
                author_id,
                title: title.to_string(),
                content: content.to_string(),
                created_at,
            };
            db.articles[i] = rec;
            db.tagging = t;
            proof {
                assert forall|j: int| 0 <= j < old_articles.len() && j != i implies #[trigger] db.articles@[j]
                    == old_articles[j] by {}
                assert forall|j: int| 0 <= j < old_articles.len() && old_articles[j].id == article_id implies j
                    == i by {
                    assert(old_articles[j].id == old_articles[i as int].id);
                }
                assert forall|i2: int| 0 <= i2 < db.tagging.article_tags@.len() implies db.has_article(
                    (#[trigger] db.tagging.article_tags@[i2]).article_id,
                ) by {
                    let lk = db.tagging.article_tags@[i2];
                    if lk.article_id != article_id {
                        assert(db.tagging.linked(lk.article_id, lk.tag_id));
                        assert(old_tagging.linked(lk.article_id, lk.tag_id));
                        let k = choose|k: int| 0 <= k < old_tagging.article_tags@.len() && old_tagging.article_tags@[k] == lk;
                        assert(old(db).has_article(old_tagging.article_tags@[k].article_id));
                        let m = choose|m: int| 0 <= m < old_articles.len() && (#[trigger] old_articles[m]).id == lk.article_id;
                        assert(db.articles@[m].id == lk.article_id);
                    } else {
                        assert(db.articles@[i as int].id == article_id);
                    }
                }
                assert forall|a: int, b: int|
                    0 <= a < db.articles@.len() && 0 <= b < db.articles@.len() && (#[trigger] db.articles@[a]).id
                        == (#[trigger] db.articles@[b]).id implies a == b by {
                    assert(old_articles[a].id == db.articles@[a].id);
                    assert(old_articles[b].id == db.articles@[b].id);
                }
                assert forall|a: int| 0 <= a < db.articles@.len() implies 0 <= (#[trigger] db.articles@[a]).id < db.next_article_id
                    && db.has_user(db.articles@[a].author_id) by {
                    assert(old_articles[a].id == db.articles@[a].id);
                    assert(old_articles[a].author_id == db.articles@[a].author_id);
                }
            }
            Ok(())
        },
        Err(e) => Err(e),
    }
}

/// Deletes the article `article_id`, if `author_id` wrote it, with its associations;
/// tags that no other article carries go with them.
pub fn delete_article(db: &mut Database, author_id: i32, article_id: i32) -> (r: Result<(), StoreError>)
    requires
        old(db).wf(),
    ensures
        final(db).wf(),
        match r {
            Ok(()) => {
                &&& old(db).owns(author_id, article_id)
                &&& !final(db).has_article(article_id)
                &&& final(db).articles@.len() == old(db).articles@.len() - 1
                &&& forall|j: int|
                    0 <= j < old(db).articles@.len() && old(db).articles@[j].id != article_id
                        ==> final(db).articles@.contains(#[trigger] old(db).articles@[j])
                &&& forall|j: int|
                    0 <= j < final(db).articles@.len() ==> old(db).articles@.contains(
                        #[trigger] final(db).articles@[j],
                    )
                &&& reconciled(old(db).tagging, final(db).tagging, article_id, Seq::empty())
                &&& final(db).tagging.next_tag_id == old(db).tagging.next_tag_id
                &&& !final(db).tagging.mentions_article(article_id)
                &&& final(db).users == old(db).users
                &&& final(db).sessions == old(db).sessions
                &&& final(db).next_article_id == old(db).next_article_id
                &&& final(db).next_user_id == old(db).next_user_id
            },
            Err(e) => {
                &&& *final(db) == *old(db)
                &&& (e == StoreError::NotFound) == !old(db).has_article(article_id)
                &&& (e == StoreError::Forbidden) == (old(db).has_article(article_id) && !old(
                    db,
                ).owns(author_id, article_id))
                &&& (e == StoreError::NotFound || e == StoreError::Forbidden)
            },
        },
        old(db).owns(author_id, article_id) ==> r is Ok,
        !old(db).owns(author_id, article_id) ==> *final(db) == *old(db) && (r == Err::<(), StoreError>(StoreError::Forbidden)
            || r == Err::<(), StoreError>(StoreError::NotFound)),
{
    let i = match db.find_article(article_id) {
        Some(i) => i,
        None => {
            return Err(StoreError::NotFound);
        },
    };
    if db.articles[i].author_id != author_id {
        proof {
            assert forall|j: int| 0 <= j < db.articles@.len() && (#[trigger] db.articles@[j]).id
                == article_id implies db.articles@[j].author_id != author_id by {
                assert(db.articles@[j].id == db.articles@[i as int].id);
            }
        }
        return Err(StoreError::Forbidden);
    }
    let none: Vec<String> = Vec::new();
    proof {
        assert(views(none@) =~= Seq::<Seq<char>>::empty());
        assert(new_names(db.tagging.tags@, views(none@)) =~= Set::<Seq<char>>::empty());
    }
    match db.tagging.reconcile(article_id, &none) {
        Ok(t) => {
            let ghost old_articles = db.articles@;
            let ghost old_tagging = db.tagging;
            proof {
                assert(t.tag_names(article_id) =~= Set::<Seq<char>>::empty());
                crate::store::lemma_no_names_no_links(t, article_id);
            }
            db.articles.remove(i);
            db.tagging = t;
            proof {
                assert forall|j: int| 0 <= j < old_articles.len() && j != i implies (if j < i {
                    db.articles@[j] == old_articles[j]
                } else {
                    db.articles@[j - 1] == old_articles[j]
                }) by {}
                assert forall|j: int| 0 <= j < db.articles@.len() implies (if j < i {
                    #[trigger] db.articles@[j] == old_articles[j]
                } else {
                    db.articles@[j] == old_articles[j + 1]
                }) by {}
                assert forall|j: int| 0 <= j < old_articles.len() && old_articles[j].id == article_id implies j
                    == i by {
                    assert(old_articles[j].id == old_articles[i as int].id);
                }
                assert forall|j: int| 0 <= j < old_articles.len() && old_articles[j].id != article_id
                    implies db.articles@.contains(#[trigger] old_articles[j]) by {
                    if j < i {
                        assert(db.articles@[j] == old_articles[j]);
                    } else {
                        assert(db.articles@[j - 1] == old_articles[j]);
                    }
                }
                assert forall|j: int| 0 <= j < db.articles@.len() implies old_articles.contains(
                    #[trigger] db.articles@[j],
                ) by {
                    if j < i {
                        assert(old_articles[j] == db.articles@[j]);
                    } else {
                        assert(old_articles[j + 1] == db.articles@[j]);
                    }
                }
                assert forall|a: int, b: int|
                    0 <= a < db.articles@.len() && 0 <= b < db.articles@.len() && (#[trigger] db.articles@[a]).id
                        == (#[trigger] db.articles@[b]).id implies a == b by {
                    let oa = if a < i { a } else { a + 1 };
                    let ob = if b < i { b } else { b + 1 };
                    assert(old_articles[oa].id == old_articles[ob].id);
                }
                assert forall|a: int| 0 <= a < db.articles@.len() implies 0 <= (#[trigger] db.articles@[a]).id < db.next_article_id
                    && db.has_user(db.articles@[a].author_id) by {
                    let oa = if a < i { a } else { a + 1 };
                    assert(old_articles[oa] == db.articles@[a]);
                }
                assert forall|i2: int| 0 <= i2 < db.tagging.article_tags@.len() implies db.has_article(
                    (#[trigger] db.tagging.article_tags@[i2]).article_id,
                ) by {
                    let lk = db.tagging.article_tags@[i2];
                    assert(lk.article_id != article_id);
                    assert(db.tagging.linked(lk.article_id, lk.tag_id));
                    assert(old_tagging.linked(lk.article_id, lk.tag_id));
                    let k = choose|k: int| 0 <= k < old_tagging.article_tags@.len() && old_tagging.article_tags@[k] == lk;
                    assert(old(db).has_article(old_tagging.article_tags@[k].article_id));
                    let m = choose|m: int| 0 <= m < old_articles.len() && (#[trigger] old_articles[m]).id == lk.article_id;
                    assert(m != i);
                    let nm = if m < i { m } else { m - 1 };
                    assert(db.articles@[nm] == old_articles[m]);
                }
                assert(!db.has_article(article_id));
            }
            Ok(())
        },
        Err(e) => Err(e),
    }
}

} // verus!
