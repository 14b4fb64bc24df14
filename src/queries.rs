use vstd::prelude::*;

use crate::error::StoreError;
use crate::store::{ArticleRecord, Database};
use crate::strings::views;
use crate::tags::{has_id, lemma_one_name, lemma_row_at, lemma_row_index, rows_of, ArticleTag, Tag};
use crate::time::{now, Timestamp};

verus! {

/// An article as readers see it: its row, the names of its tags, and its author's name.
pub struct ArticleEntry {
    pub id: i32,
    pub author_id: i32,
    pub title: String,
    pub content: String,
    pub created_at: Timestamp,
    pub tags: Vec<String>,
    pub author_username: String,
}

/// The number of `false` entries.
pub open spec fn untaken(s: Seq<bool>) -> nat
    decreases s.len(),
{
    if s.len() == 0 {
        0
    } else {
        untaken(s.drop_last()) + if s.last() {
            0nat
        } else {
            1nat
        }
    }
}

/// Taking one more entry leaves one fewer untaken.
proof fn lemma_untaken_update(s: Seq<bool>, i: int)
    requires
        0 <= i < s.len(),
        !s[i],
    ensures
        untaken(s.update(i, true)) + 1 == untaken(s),
    decreases s.len(),
{
    if i == s.len() - 1 {
        assert(s.update(i, true).drop_last() =~= s.drop_last());
    } else {
        assert(s.update(i, true).drop_last() =~= s.drop_last().update(i, true));
        lemma_untaken_update(s.drop_last(), i);
    }
}

/// The name of the tag `tid`, if it exists.
fn tag_name_by_id(tags: &Vec<Tag>, tid: i32) -> (r: Option<String>)
    ensures
        match r {
            Some(n) => rows_of(tags@).contains((tid, n@)),
            None => !has_id(tags@, tid),
        },
{
    let mut j: usize = 0;
    while j < tags.len()
        invariant
            j <= tags@.len(),
            forall|k: int| 0 <= k < j ==> (#[trigger] tags@[k]).id != tid,
        decreases tags@.len() - j,
    {
        if tags[j].id == tid {
            proof {
                lemma_row_at(tags@, j as int);
            }
            return Some(tags[j].name.clone());
        }
        j = j + 1;
    }
    None
}

impl Database {
    /// `e` shows the article row `row`: its fields, the names of its tags, and the name of
    /// its author.
    pub open spec fn describes(&self, e: ArticleEntry, row: ArticleRecord) -> bool {
        &&& e.id == row.id
        &&& e.author_id == row.author_id
        &&& e.title@ == row.title@
        &&& e.content@ == row.content@
        &&& e.created_at == row.created_at
        &&& views(e.tags@).to_set() == self.tag_names(row.id)
        &&& exists|u: int|
            0 <= u < self.users@.len() && (#[trigger] self.users@[u]).id == row.author_id
                && self.users@[u].username@ == e.author_username@
    }

    /// The names of the tags of the article `aid`.
    fn names_of(&self, aid: i32) -> (r: Vec<String>)
        requires
            self.wf(),
        ensures
            views(r@).to_set() == self.tag_names(aid),
    {
        let links = &self.tagging.article_tags;
        let tags = &self.tagging.tags;
        let mut r: Vec<String> = Vec::new();
        let mut i: usize = 0;
        while i < links.len()
            invariant
                i <= links@.len(),
                self.wf(),
                links == &self.tagging.article_tags,
                tags == &self.tagging.tags,
                forall|n: Seq<char>| views(r@).contains(n) ==> self.tag_names(aid).contains(n),
                forall|k: int, n: Seq<char>|
                    #![trigger rows_of(tags@).contains((links@[k].tag_id, n))]
                    0 <= k < i && links@[k].article_id == aid && rows_of(tags@).contains(
                        (links@[k].tag_id, n),
                    ) ==> views(r@).contains(n),
            decreases links@.len() - i,
        {
            let lk = links[i];
            if lk.article_id == aid {
                match tag_name_by_id(tags, lk.tag_id) {
                    Some(n) => {
                        let ghost old_r = r@;
                        r.push(n);
                        proof {
                            assert(views(r@) =~= views(old_r).push(n@));
                            assert(links@.contains(lk)) by {
                                assert(links@[i as int] == lk);
                            }
                            assert(self.tagging.linked(aid, lk.tag_id));
                            assert forall|m: Seq<char>| views(r@).contains(m) implies self.tag_names(
                                aid,
                            ).contains(m) by {
                                let a = choose|a: int| 0 <= a < views(r@).len() && views(r@)[a] == m;
                                if a < old_r.len() {
                                    assert(views(old_r)[a] == m);
                                }
                            }
                            assert forall|k: int, m: Seq<char>|
                                #![trigger rows_of(tags@).contains((links@[k].tag_id, m))]
                                0 <= k < i + 1 && links@[k].article_id == aid && rows_of(
                                    tags@,
                                ).contains((links@[k].tag_id, m)) implies views(r@).contains(m) by {
                                if k < i {
                                    let a = choose|a: int| 0 <= a < views(old_r).len() && views(old_r)[a] == m;
                                    assert(views(r@)[a] == m);
                                } else {
                                    lemma_one_name(tags@, lk.tag_id, m, n@);
                                    assert(views(r@)[old_r.len() as int] == m);
                                }
                            }
                        }
                    },
                    None => {
                        proof {
                            assert(has_id(tags@, links@[i as int].tag_id));
                        }
                    },
                }
            }
            i = i + 1;
        }
        proof {
            assert forall|n: Seq<char>| self.tag_names(aid).contains(n) implies views(r@).contains(n) by {
                let tid = choose|tid: i32| self.tagging.linked(aid, tid) && self.tagging.has_tag(tid, n);
                let k = choose|k: int| 0 <= k < links@.len() && links@[k] == ArticleTag { article_id: aid, tag_id: tid };
                assert(links@[k].article_id == aid);
            }
            assert(views(r@).to_set() =~= self.tag_names(aid));
        }
        r
    }

    /// The entry for the article row at `i`.
    fn entry_at(&self, i: usize) -> (r: ArticleEntry)
        requires
            self.wf(),
            i < self.articles@.len(),
        ensures
            self.describes(r, self.articles@[i as int]),
    {
        let row = &self.articles[i];
        let tags = self.names_of(row.id);
        let author_username = match self.find_user(row.author_id) {
            Some(u) => self.users[u].username.clone(),
            None => {
                proof {
                    assert(self.has_user(self.articles@[i as int].author_id));
                }
                String::new()
            },
        };
        ArticleEntry {
            id: row.id,
            author_id: row.author_id,
            title: row.title.clone(),
            content: row.content.clone(),
            created_at: row.created_at,
            tags,
            author_username,
        }
    }

    /// The article row at `j` was created before `cursor`.
    pub open spec fn before(&self, j: int, cursor: Timestamp) -> bool {
        self.articles@[j].created_at.micros < cursor.micros
    }

    /// `e` shows an article created before `cursor`.
    pub open spec fn shows_article_before(&self, e: ArticleEntry, cursor: Timestamp) -> bool {
        exists|j: int|
            0 <= j < self.articles@.len() && self.before(j, cursor) && #[trigger] self.describes(
                e,
                self.articles@[j],
            )
    }

    /// `v` is a page of the articles created before `cursor`, at most `page_size` long,
    /// newest first: each entry shows such an article, no article comes twice, creation
    /// times do not increase along the page, the page is short only when it holds every
    /// such article, and an article left out is no newer than the last one on the page.
    pub open spec fn is_page(&self, v: Seq<ArticleEntry>, cursor: Timestamp, page_size: int) -> bool {
        &&& v.len() <= page_size
        &&& forall|m: int| 0 <= m < v.len() ==> self.shows_article_before(#[trigger] v[m], cursor)
        &&& forall|a: int, b: int| 0 <= a < v.len() && 0 <= b < v.len() && (#[trigger] v[a]).id == (#[trigger] v[b]).id ==> a == b
        &&& forall|m: int|
            0 <= m < v.len() - 1 ==> (#[trigger] v[m]).created_at.micros >= v[m + 1].created_at.micros
        &&& forall|j: int|
            0 <= j < self.articles@.len() && self.before(j, cursor) && (forall|m: int|
                0 <= m < v.len() ==> (#[trigger] v[m]).id != self.articles@[j].id) ==> v.len() == page_size
                && (v.len() > 0 ==> (#[trigger] self.articles@[j]).created_at.micros <= v.last().created_at.micros)
    }

}

/// The article `article_id` with its tags and author name.
pub fn get_article(db: &Database, article_id: i32) -> (r: Result<ArticleEntry, StoreError>)
    requires
        db.wf(),
    ensures
        match r {
            Ok(e) => exists|j: int|
                0 <= j < db.articles@.len() && (#[trigger] db.articles@[j]).id == article_id
                    && db.describes(e, db.articles@[j]),
            Err(e) => e == StoreError::NotFound && !db.has_article(article_id),
        },
        db.has_article(article_id) ==> r is Ok,
{
    match db.find_article(article_id) {
        Some(i) => {
            let e = db.entry_at(i);
            proof {
                assert(db.articles@[i as int].id == article_id);
            }
            Ok(e)
        },
        None => Err(StoreError::NotFound),
    }
}

/// Up to `page_size` articles created strictly before `cursor`, newest first. A
/// negative page size is refused.
pub fn get_articles_page_before(db: &Database, cursor: Timestamp, page_size: i64) -> (r: Result<
    Vec<ArticleEntry>,
    StoreError,
>)
    requires
        db.wf(),
    ensures
        match r {
            Ok(v) => db.is_page(v@, cursor, page_size as int),
            Err(e) => e == StoreError::Internal && page_size < 0,
        },
        page_size >= 0 ==> r is Ok,
{
    if page_size < 0 {
        return Err(StoreError::Internal);
    }
    let n = db.articles.len();
    let mut taken: Vec<bool> = Vec::new();
    let mut t: usize = 0;
    while t < n
        invariant
            t <= n,
            n == db.articles@.len(),
            taken@.len() == t,
            forall|k: int| 0 <= k < t ==> !(#[trigger] taken@[k]),
        decreases n - t,
    {
        taken.push(false);
        t = t + 1;
    }
    let mut v: Vec<ArticleEntry> = Vec::new();
    let mut count: i64 = 0;
    let mut done = false;
    let ghost mut chosen: Seq<int> = Seq::empty();
    while !done && count < page_size
        invariant
            db.wf(),
            n == db.articles@.len(),
            taken@.len() == n,
            0 <= count <= page_size,
            count == v@.len(),
            chosen.len() == v@.len(),
            forall|m: int|
                0 <= m < chosen.len() ==> 0 <= #[trigger] chosen[m] < n && db.before(chosen[m], cursor)
                    && taken@[chosen[m]] && db.describes(v@[m], db.articles@[chosen[m]]),
            forall|k: int| 0 <= k < n && #[trigger] taken@[k] ==> exists|m: int| 0 <= m < chosen.len() && chosen[m] == k,
            forall|a: int, b: int| 0 <= a < chosen.len() && 0 <= b < chosen.len() && #[trigger] chosen[a] == #[trigger] chosen[b] ==> a == b,
            forall|m: int|
                0 <= m < chosen.len() - 1 ==> db.articles@[#[trigger] chosen[m]].created_at.micros
                    >= db.articles@[chosen[m + 1]].created_at.micros,
            forall|k: int|
                0 <= k < n && db.before(k, cursor) && !(#[trigger] taken@[k]) ==> chosen.len() > 0
                    ==> db.articles@[k].created_at.micros <= db.articles@[chosen.last()].created_at.micros,
            done ==> forall|k: int| 0 <= k < n && db.before(k, cursor) ==> #[trigger] taken@[k],
        decreases untaken(taken@) + if done { 0nat } else { 1nat },
    {
        let mut best: Option<usize> = None;
        let mut j: usize = 0;
        while j < n
            invariant
                j <= n,
                n == db.articles@.len(),
                taken@.len() == n,
                match best {
                    Some(b) => b < j && !taken@[b as int] && db.before(b as int, cursor) && forall|k: int|
                        0 <= k < j && !(#[trigger] taken@[k]) && db.before(k, cursor)
                            ==> db.articles@[k].created_at.micros <= db.articles@[b as int].created_at.micros,
                    None => forall|k: int| 0 <= k < j && db.before(k, cursor) ==> #[trigger] taken@[k],
                },
            decreases n - j,
        {
            if !taken[j] && db.articles[j].created_at.micros < cursor.micros {
                match best {
                    Some(b) => {
                        if db.articles[j].created_at.micros > db.articles[b].created_at.micros {
                            best = Some(j);
                        }
                    },
                    None => {
                        best = Some(j);
                    },
                }
            }
            j = j + 1;
        }
        match best {
            Some(b) => {
                let e = db.entry_at(b);
                let ghost old_taken = taken@;
                let ghost old_chosen = chosen;
                let ghost old_v = v@;
                proof {
                    lemma_untaken_update(old_taken, b as int);
                }
                taken.set(b, true);
                v.push(e);
                count = count + 1;
                proof {
                    chosen = chosen.push(b as int);
                    assert forall|k: int| 0 <= k < n && #[trigger] taken@[k] implies exists|m: int|
                        0 <= m < chosen.len() && chosen[m] == k by {
                        if k == b {
                            assert(chosen[chosen.len() - 1] == k);
                        } else {
                            assert(old_taken[k]);
                            let m = choose|m: int| 0 <= m < old_chosen.len() && old_chosen[m] == k;
                            assert(chosen[m] == k);
                        }
                    }
                    assert forall|a: int, c: int| 0 <= a < chosen.len() && 0 <= c < chosen.len() && #[trigger] chosen[a] == #[trigger] chosen[c] implies a == c by {
                        if a < old_chosen.len() {
                            assert(old_taken[old_chosen[a]]);
                        }
                        if c < old_chosen.len() {
                            assert(old_taken[old_chosen[c]]);
                        }
                    }
                    assert forall|m: int| 0 <= m < chosen.len() implies 0 <= #[trigger] chosen[m] < n && db.before(chosen[m], cursor)
                        && taken@[chosen[m]] && db.describes(v@[m], db.articles@[chosen[m]]) by {
                        if m < old_chosen.len() {
                            assert(v@[m] == old_v[m]);
                        }
                    }
                }
            },
            None => {
                done = true;
            },
        }
    }
    proof {
        let vs = v@;
        assert forall|m: int| 0 <= m < vs.len() implies db.shows_article_before(#[trigger] vs[m], cursor) by {
            assert(db.describes(vs[m], db.articles@[chosen[m]]));
        }
        assert forall|a: int, b: int| 0 <= a < vs.len() && 0 <= b < vs.len() && (#[trigger] vs[a]).id == (#[trigger] vs[b]).id implies a == b by {
            assert(db.describes(vs[a], db.articles@[chosen[a]]));
            assert(db.describes(vs[b], db.articles@[chosen[b]]));
            assert(db.articles@[chosen[a]].id == db.articles@[chosen[b]].id);
        }
        assert forall|m: int| 0 <= m < vs.len() - 1 implies (#[trigger] vs[m]).created_at.micros >= vs[m + 1].created_at.micros by {
            assert(db.describes(vs[m], db.articles@[chosen[m]]));
            assert(db.describes(vs[m + 1], db.articles@[chosen[m + 1]]));
        }
        assert forall|j: int|
            0 <= j < db.articles@.len() && db.before(j, cursor) && (forall|m: int|
                0 <= m < vs.len() ==> (#[trigger] vs[m]).id != db.articles@[j].id) implies vs.len() == page_size
                && (vs.len() > 0 ==> (#[trigger] db.articles@[j]).created_at.micros <= vs.last().created_at.micros) by {
            if taken@[j] {
                let m = choose|m: int| 0 <= m < chosen.len() && chosen[m] == j;
                assert(db.describes(vs[m], db.articles@[chosen[m]]));
                assert(vs[m].id == db.articles@[j].id);
                assert(false);
            } else {
                assert(!done);
                assert(count >= page_size);
                if vs.len() > 0 {
                    assert(db.describes(vs[vs.len() - 1], db.articles@[chosen[chosen.len() - 1]]));
                    assert(vs.last() == vs[vs.len() - 1]);
                }
            }
        }
        assert(vs.len() <= page_size);
    }
    Ok(v)
}

/// Up to `page_size` articles created strictly before `last_timestamp`, or before now
/// where no cursor is given, newest first.
pub fn get_articles_page(db: &Database, last_timestamp: Option<Timestamp>, page_size: i64) -> (r: Result<
    Vec<ArticleEntry>,
    StoreError,
>)
    requires
        db.wf(),
    ensures
        match r {
            Ok(v) => match last_timestamp {
                Some(c) => db.is_page(v@, c, page_size as int),
                None => exists|c: Timestamp| db.is_page(v@, c, page_size as int),
            },
            Err(e) => e == StoreError::Internal && page_size < 0,
        },
        page_size >= 0 ==> r is Ok,
{
    let cursor = match last_timestamp {
        Some(c) => c,
        None => now(),
    };
    get_articles_page_before(db, cursor, page_size)
}

} // verus!
