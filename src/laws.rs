use vstd::prelude::*;

use crate::credentials::{hashed_from, password_matches, salted};
use crate::mappers::presents;
use crate::queries::ArticleEntry;
use crate::service::AppState;
use crate::store::{lemma_no_names_no_links, Database};
use crate::tags::{has_id, lemma_one_id, lemma_one_name, lemma_row_at, lemma_row_index, reconciled, rows_of, TagTables};
use crate::time::{parsed_datetime_of, Timestamp, TIMESTAMP_FORMAT};
use crate::mappers::Article;

verus! {

/// After an article is written with the tag names `desired` (by `create_article_at`,
/// `create_article` or `update_article`, which all leave the tables `reconciled`), its tag
/// names are exactly `desired`, and every association of the article names a tag whose
/// name is in `desired`.
pub proof fn law_tags_match_request(before: TagTables, after: TagTables, aid: i32, desired: Seq<Seq<char>>)
    requires
        reconciled(before, after, aid, desired),
    ensures
        after.tag_names(aid) == desired.to_set(),
        forall|tid: i32|
            after.linked(aid, tid) ==> exists|n: Seq<char>| desired.contains(n) && after.has_tag(tid, n),
{
    assert forall|tid: i32| after.linked(aid, tid) implies exists|n: Seq<char>|
        desired.contains(n) && after.has_tag(tid, n) by {
        let i = choose|i: int|
            0 <= i < after.article_tags@.len() && after.article_tags@[i] == crate::tags::ArticleTag {
                article_id: aid,
                tag_id: tid,
            };
        assert(has_id(after.tags@, after.article_tags@[i].tag_id));
        let j = choose|j: int| 0 <= j < after.tags@.len() && (#[trigger] after.tags@[j]).id == tid;
        lemma_row_at(after.tags@, j);
        let n = after.tags@[j].name@;
        assert(after.tag_names(aid).contains(n));
        assert(desired.to_set().contains(n));
    }
}

/// After an article is deleted (`delete_article` leaves the tables `reconciled` with no
/// names), no association names it, a tag that only it carried is gone, and a tag that
/// another article carries keeps its row and that article's association.
pub proof fn law_delete_sweeps_orphans(before: TagTables, after: TagTables, aid: i32)
    requires
        before.wf(),
        reconciled(before, after, aid, Seq::empty()),
    ensures
        !after.mentions_article(aid),
        forall|tid: i32, n: Seq<char>|
            before.has_tag(tid, n) && (forall|b: i32| b != aid ==> !before.linked(b, tid))
                ==> !after.has_tag_named(n),
        forall|tid: i32, n: Seq<char>, b: i32|
            b != aid && before.has_tag(tid, n) && before.linked(b, tid) ==> after.has_tag(tid, n)
                && after.linked(b, tid),
{
    assert(after.tag_names(aid) =~= Set::<Seq<char>>::empty());
    lemma_no_names_no_links(after, aid);
    assert forall|tid: i32, n: Seq<char>|
        before.has_tag(tid, n) && (forall|b: i32| b != aid ==> !before.linked(b, tid))
            implies !after.has_tag_named(n) by {
        if after.has_tag_named(n) {
            let j = choose|j: int| 0 <= j < after.tags@.len() && (#[trigger] after.tags@[j]).name@ == n;
            lemma_row_at(after.tags@, j);
            let t2 = after.tags@[j].id;
            assert(before.has_tag(t2, n));
            lemma_one_id(before.tags@, tid, t2, n);
            assert(crate::tags::referenced_in(after.article_tags@, t2));
            let i = choose|i: int| 0 <= i < after.article_tags@.len() && (#[trigger] after.article_tags@[i]).tag_id == t2;
            let lk = after.article_tags@[i];
            assert(after.linked(lk.article_id, t2));
            assert(before.linked(lk.article_id, t2));
        }
    }
    assert forall|tid: i32, n: Seq<char>, b: i32|
        b != aid && before.has_tag(tid, n) && before.linked(b, tid) implies after.has_tag(tid, n)
            && after.linked(b, tid) by {
        assert(after.linked(b, tid));
        let i = choose|i: int|
            0 <= i < after.article_tags@.len() && after.article_tags@[i] == crate::tags::ArticleTag {
                article_id: b,
                tag_id: tid,
            };
        assert(has_id(after.tags@, after.article_tags@[i].tag_id));
        let j = choose|j: int| 0 <= j < after.tags@.len() && (#[trigger] after.tags@[j]).id == tid;
        lemma_row_at(after.tags@, j);
        assert(before.has_tag(tid, after.tags@[j].name@));
        lemma_one_name(before.tags@, tid, n, after.tags@[j].name@);
    }
}

/// Two articles that carry the same tag name carry the same tag row: one row has that
/// name, and both articles are linked to it.
pub proof fn law_shared_name_one_row(t: TagTables, a: i32, b: i32, n: Seq<char>)
    requires
        t.wf(),
        t.tag_names(a).contains(n),
        t.tag_names(b).contains(n),
    ensures
        exists|tid: i32|
            t.linked(a, tid) && t.linked(b, tid) && t.has_tag(tid, n) && forall|other: i32|
                t.has_tag(other, n) ==> other == tid,
{
    let ta = choose|tid: i32| t.linked(a, tid) && t.has_tag(tid, n);
    let tb = choose|tid: i32| t.linked(b, tid) && t.has_tag(tid, n);
    lemma_one_id(t.tags@, ta, tb, n);
    assert forall|other: i32| t.has_tag(other, n) implies other == ta by {
        lemma_one_id(t.tags@, ta, other, n);
    }
}

/// Where no two articles were created at the same instant, a page is strictly newest
/// first, and every article on it was created before the cursor.
pub proof fn law_page_strictly_newest_first(db: Database, v: Seq<ArticleEntry>, cursor: Timestamp, page_size: int)
    requires
        db.wf(),
        db.is_page(v, cursor, page_size),
        forall|i: int, j: int|
            0 <= i < db.articles@.len() && 0 <= j < db.articles@.len() && i != j ==> (#[trigger] db.articles@[i]).created_at
                != (#[trigger] db.articles@[j]).created_at,
    ensures
        forall|m: int| 0 <= m < v.len() - 1 ==> (#[trigger] v[m]).created_at.micros > v[m + 1].created_at.micros,
        forall|m: int| 0 <= m < v.len() ==> (#[trigger] v[m]).created_at.micros < cursor.micros,
{
    assert forall|m: int| 0 <= m < v.len() - 1 implies (#[trigger] v[m]).created_at.micros > v[m + 1].created_at.micros by {
        assert(db.shows_article_before(v[m], cursor));
        assert(db.shows_article_before(v[m + 1], cursor));
        let i = choose|i: int| 0 <= i < db.articles@.len() && db.before(i, cursor) && #[trigger] db.describes(v[m], db.articles@[i]);
        let j = choose|j: int| 0 <= j < db.articles@.len() && db.before(j, cursor) && #[trigger] db.describes(v[m + 1], db.articles@[j]);
        assert(v[m].id != v[m + 1].id);
        assert(i != j);
    }
    assert forall|m: int| 0 <= m < v.len() implies (#[trigger] v[m]).created_at.micros < cursor.micros by {
        assert(db.shows_article_before(v[m], cursor));
        let i = choose|i: int| 0 <= i < db.articles@.len() && db.before(i, cursor) && #[trigger] db.describes(v[m], db.articles@[i]);
    }
}

/// Where no two articles were created at the same instant, the articles that
/// `AppState::get_articles` returns are the entries of a page before its cursor (the parsed
/// `last_timestamp` where it parses) in strictly decreasing order of creation time.
#[verifier::rlimit(50)]
pub proof fn law_articles_strictly_newest_first(
    st: AppState,
    v: Seq<Article>,
    last_timestamp: Seq<char>,
    page_size: int,
)
    requires
        st.db.wf(),
        st.articles_page(v, last_timestamp, page_size),
        forall|i: int, j: int|
            0 <= i < st.db.articles@.len() && 0 <= j < st.db.articles@.len() && i != j ==> (#[trigger] st.db.articles@[i]).created_at
                != (#[trigger] st.db.articles@[j]).created_at,
    ensures
        exists|es: Seq<ArticleEntry>, c: Timestamp|
            #![trigger st.db.is_page(es, c, page_size)]
            st.db.is_page(es, c, page_size) && es.len() == v.len() && (forall|m: int|
                0 <= m < es.len() ==> presents(#[trigger] v[m], es[m])) && (forall|m: int|
                0 <= m < es.len() - 1 ==> (#[trigger] es[m]).created_at.micros > es[m + 1].created_at.micros)
                && (forall|m: int| 0 <= m < es.len() ==> (#[trigger] es[m]).created_at.micros < c.micros)
                && (parsed_datetime_of(last_timestamp, TIMESTAMP_FORMAT@) matches Some(micros)
                ==> c.micros == micros),
{
    let (es, c) = choose|es: Seq<ArticleEntry>, c: Timestamp|
        #![trigger st.db.is_page(es, c, page_size)]
        st.db.is_page(es, c, page_size) && es.len() == v.len() && (forall|m: int|
            0 <= m < es.len() ==> presents(#[trigger] v[m], es[m])) && (parsed_datetime_of(
            last_timestamp,
            TIMESTAMP_FORMAT@,
        ) matches Some(micros) ==> c.micros == micros);
    law_page_strictly_newest_first(st.db, es, c, page_size);
    assert(st.db.is_page(es, c, page_size) && es.len() == v.len());
}

/// A password hashed by `generate_password_hash` passes `verify_password` with the same
/// password, the stored hash and salt, and the same pepper.
pub proof fn law_password_round_trip(value: Seq<char>, salt: Seq<char>, password: Seq<char>, pepper: Seq<char>)
    requires
        hashed_from(value, salt, password, pepper),
    ensures
        password_matches(password, value, salt, pepper),
{
}

/// Under one salt and pepper, different passwords give different hash inputs; under one
/// password and pepper, different salts of one length give different hash inputs.
pub proof fn law_salted_input_distinguishes(
    salt1: Seq<char>,
    salt2: Seq<char>,
    password1: Seq<char>,
    password2: Seq<char>,
    pepper: Seq<char>,
)
    requires
        salt1.len() == salt2.len(),
        salted(salt1, password1, pepper) == salted(salt2, password2, pepper),
    ensures
        salt1 == salt2,
        password1 == password2,
{
    let s = salted(salt1, password1, pepper);
    let n = salt1.len() as int;
    assert(s.subrange(1, n + 1) =~= salt1);
    assert(salted(salt2, password2, pepper).subrange(1, n + 1) =~= salt2);
    assert(s.len() == n + 2 + password1.len() + pepper.len());
    assert(salted(salt2, password2, pepper).len() == n + 2 + password2.len() + pepper.len());
    assert(password1.len() == password2.len());
    let m = password1.len() as int;
    assert(s.subrange(n + 2, n + 2 + m) =~= password1);
    assert(salted(salt2, password2, pepper).subrange(n + 2, n + 2 + m) =~= password2);
}

} // verus!
