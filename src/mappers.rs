use vstd::prelude::*;

use crate::queries::ArticleEntry;
use crate::strings::views;
use crate::time::{datetime_text_of, timestamp_text};

verus! {

/// An article as the service returns it.
pub struct Article {
    pub id: i32,
    pub author_username: String,
    pub title: String,
    pub content: String,
    pub created_at: String,
    pub tags: Vec<String>,
}

/// The text of a creation time, empty where it cannot be shown.
pub open spec fn created_text(micros: i64) -> Seq<char> {
    match datetime_text_of(micros) {
        Some(s) => s,
        None => Seq::empty(),
    }
}

/// `a` presents the entry `e`, with its creation time as text.
pub open spec fn presents(a: Article, e: ArticleEntry) -> bool {
    &&& a.id == e.id
    &&& a.author_username@ == e.author_username@
    &&& a.title@ == e.title@
    &&& a.content@ == e.content@
    &&& a.created_at@ == created_text(e.created_at.micros)
    &&& views(a.tags@) == views(e.tags@)
}

fn copy_strings(v: &Vec<String>) -> (r: Vec<String>)
    ensures
        views(r@) == views(v@),
{
    let mut r: Vec<String> = Vec::new();
    let mut i: usize = 0;
    while i < v.len()
        invariant
            i <= v@.len(),
            views(r@) == views(v@.subrange(0, i as int)),
        decreases v@.len() - i,
    {
        let ghost old_r = views(r@);
        r.push(v[i].clone());
        proof {
            assert(views(r@) =~= old_r.push(v@[i as int]@));
            assert(views(v@.subrange(0, i as int + 1)) =~= views(v@.subrange(0, i as int)).push(v@[i as int]@));
        }
        i = i + 1;
    }
    proof {
        assert(v@.subrange(0, v@.len() as int) =~= v@);
    }
    r
}

fn present(e: &ArticleEntry) -> (r: Article)
    ensures
        presents(r, *e),
{
    Article {
        id: e.id,
        author_username: e.author_username.clone(),
        title: e.title.clone(),
        content: e.content.clone(),
        created_at: timestamp_text(e.created_at),
        tags: copy_strings(&e.tags),
    }
}

/// The article that an entry shows.
pub fn into_article(article_entry: ArticleEntry) -> (r: Article)
    ensures
        presents(r, article_entry),
{
    present(&article_entry)
}

/// The articles that entries show, in order.
pub fn into_articles(article_entry: Vec<ArticleEntry>) -> (r: Vec<Article>)
    ensures
        r@.len() == article_entry@.len(),
        forall|m: int| 0 <= m < r@.len() ==> presents(#[trigger] r@[m], article_entry@[m]),
{
    let mut r: Vec<Article> = Vec::new();
    let mut i: usize = 0;
    while i < article_entry.len()
        invariant
            i <= article_entry@.len(),
            r@.len() == i,
            forall|m: int| 0 <= m < i ==> presents(#[trigger] r@[m], article_entry@[m]),
        decreases article_entry@.len() - i,
    {
        let a = present(&article_entry[i]);
        r.push(a);
        i = i + 1;
    }
    r
}

} // verus!
