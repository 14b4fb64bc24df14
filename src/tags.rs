use vstd::prelude::*;

use crate::error::StoreError;
use crate::strings::{contains_str, copy_string, views};

verus! {

/// A row of the tag table: a globally unique name with its identifier.
pub struct Tag {
    pub id: i32,
    pub name: String,
}

/// A row of the association table: the article `article_id` carries the tag `tag_id`.
#[derive(Clone, Copy, PartialEq, Eq, Structural, Debug)]
pub struct ArticleTag {
    pub article_id: i32,
    pub tag_id: i32,
}

/// The tag rows as `(id, name)` pairs.
pub open spec fn rows_of(tags: Seq<Tag>) -> Seq<(i32, Seq<char>)> {
    tags.map_values(|t: Tag| (t.id, t.name@))
}

/// Some association row names the tag `tid`.
pub open spec fn referenced_in(links: Seq<ArticleTag>, tid: i32) -> bool {
    exists|i: int| 0 <= i < links.len() && (#[trigger] links[i]).tag_id == tid
}

/// The tag `tid` exists and its name is one of `desired`.
pub open spec fn wanted(tags: Seq<Tag>, tid: i32, desired: Seq<Seq<char>>) -> bool {
    exists|j: int| 0 <= j < tags.len() && (#[trigger] tags[j]).id == tid && desired.contains(tags[j].name@)
}

/// No two tag rows share an id.
pub open spec fn ids_unique(tags: Seq<Tag>) -> bool {
    forall|i: int, j: int|
        0 <= i < tags.len() && 0 <= j < tags.len() && (#[trigger] tags[i]).id == (#[trigger] tags[j]).id
            ==> i == j
}

/// No two tag rows share a name.
pub open spec fn names_unique(tags: Seq<Tag>) -> bool {
    forall|i: int, j: int|
        0 <= i < tags.len() && 0 <= j < tags.len() && (#[trigger] tags[i]).name@ == (#[trigger] tags[j]).name@
            ==> i == j
}

/// No association row occurs twice.
pub open spec fn links_unique(links: Seq<ArticleTag>) -> bool {
    forall|i: int, j: int|
        0 <= i < links.len() && 0 <= j < links.len() && #[trigger] links[i] == #[trigger] links[j] ==> i == j
}

/// Some tag row has the id `id`.
pub open spec fn has_id(tags: Seq<Tag>, id: i32) -> bool {
    exists|j: int| 0 <= j < tags.len() && (#[trigger] tags[j]).id == id
}

/// Some tag row has the name `name`.
pub open spec fn has_name(tags: Seq<Tag>, name: Seq<char>) -> bool {
    exists|j: int| 0 <= j < tags.len() && (#[trigger] tags[j]).name@ == name
}

/// Ids and names of tags are unique, ids lie in `0..next`, each association is unique and
/// names an existing tag, and every tag is named by some association (no orphans).
pub open spec fn tables_wf(tags: Seq<Tag>, links: Seq<ArticleTag>, next: i32) -> bool {
    &&& ids_unique(tags)
    &&& names_unique(tags)
    &&& links_unique(links)
    &&& 0 <= next
    &&& forall|j: int| 0 <= j < tags.len() ==> 0 <= (#[trigger] tags[j]).id < next
    &&& forall|i: int| 0 <= i < links.len() ==> has_id(tags, (#[trigger] links[i]).tag_id)
    &&& forall|j: int| 0 <= j < tags.len() ==> referenced_in(links, (#[trigger] tags[j]).id)
}

/// The tag table together with the association table, and the next unused tag id.
pub struct TagTables {
    pub tags: Vec<Tag>,
    pub article_tags: Vec<ArticleTag>,
    pub next_tag_id: i32,
}

impl TagTables {
    /// The tag row `(id, name)` exists.
    pub open spec fn has_tag(&self, id: i32, name: Seq<char>) -> bool {
        rows_of(self.tags@).contains((id, name))
    }

    /// Some tag row has the name `name`.
    pub open spec fn has_tag_named(&self, name: Seq<char>) -> bool {
        has_name(self.tags@, name)
    }

    /// The article `aid` carries the tag `tid`.
    pub open spec fn linked(&self, aid: i32, tid: i32) -> bool {
        self.article_tags@.contains(ArticleTag { article_id: aid, tag_id: tid })
    }

    /// Some association row names the article `aid`.
    pub open spec fn mentions_article(&self, aid: i32) -> bool {
        exists|i: int|
            0 <= i < self.article_tags@.len() && (#[trigger] self.article_tags@[i]).article_id == aid
    }

    /// The names of the tags that the article `aid` carries.
    pub open spec fn tag_names(&self, aid: i32) -> Set<Seq<char>> {
        Set::new(|n: Seq<char>| exists|tid: i32| self.linked(aid, tid) && self.has_tag(tid, n))
    }

    /// See `tables_wf`.
    pub open spec fn wf(&self) -> bool {
        tables_wf(self.tags@, self.article_tags@, self.next_tag_id)
    }

    /// Empty tables.
    pub fn new() -> (r: TagTables)
        ensures
            r.wf(),
            r.tags@.len() == 0,
            r.article_tags@.len() == 0,
    {
        TagTables { tags: Vec::new(), article_tags: Vec::new(), next_tag_id: 0 }
    }
}

fn copy_tag(t: &Tag) -> (r: Tag)
    ensures
        r.id == t.id,
        r.name@ == t.name@,
{
    Tag { id: t.id, name: copy_string(&t.name) }
}

/// Whether the tag `tid` exists with a name among `desired`.
fn tag_wanted(tags: &Vec<Tag>, tid: i32, desired: &Vec<String>) -> (r: bool)
    requires
        ids_unique(tags@),
    ensures
        r == wanted(tags@, tid, views(desired@)),
{
    let mut j: usize = 0;
    while j < tags.len()
        invariant
            j <= tags.len(),
            ids_unique(tags@),
            forall|k: int| 0 <= k < j ==> (#[trigger] tags@[k]).id != tid,
        decreases tags.len() - j,
    {
        if tags[j].id == tid {
            let r = contains_str(desired, &tags[j].name);
            proof {
                if r {
                    assert(0 <= j < tags@.len() && tags@[j as int].id == tid && views(desired@).contains(tags@[j as int].name@));
                } else if wanted(tags@, tid, views(desired@)) {
                    let j2 = choose|j2: int| 0 <= j2 < tags@.len() && (#[trigger] tags@[j2]).id == tid && views(desired@).contains(tags@[j2].name@);
                    assert(tags@[j2].id == tags@[j as int].id);
                }
            }
            return r;
        }
        j = j + 1;
    }
    false
}

/// The associations that stay: those of other articles, and those of `aid` whose tag
/// name is among `desired`.
fn keep_wanted_links(links: &Vec<ArticleTag>, tags: &Vec<Tag>, aid: i32, desired: &Vec<String>) -> (r:
    Vec<ArticleTag>)
    requires
        ids_unique(tags@),
        links_unique(links@),
    ensures
        links_unique(r@),
        forall|l: ArticleTag|
            r@.contains(l) <==> links@.contains(l) && (l.article_id != aid || wanted(
                tags@,
                l.tag_id,
                views(desired@),
            )),
{
    let mut r: Vec<ArticleTag> = Vec::new();
    let mut i: usize = 0;
    while i < links.len()
        invariant
            i <= links.len(),
            links_unique(links@),
            ids_unique(tags@),
            links_unique(r@),
            forall|l: ArticleTag|
                r@.contains(l) <==> (exists|k: int| 0 <= k < i && links@[k] == l) && (l.article_id
                    != aid || wanted(tags@, l.tag_id, views(desired@))),
        decreases links.len() - i,
    {
        let l = links[i];
        let keep = l.article_id != aid || tag_wanted(tags, l.tag_id, desired);
        proof {
            assert(links@[i as int] == l);
        }
        let ghost old_r = r@;
        if keep {
            proof {
                assert forall|a: int| 0 <= a < r@.len() implies r@[a] != l by {
                    assert(r@.contains(r@[a]));
                }
            }
            r.push(l);
            proof {
                assert forall|x: ArticleTag|
                    r@.contains(x) <==> (exists|k: int| 0 <= k < i + 1 && links@[k] == x) && (
                    x.article_id != aid || wanted(tags@, x.tag_id, views(desired@))) by {
                    if r@.contains(x) {
                        let a = choose|a: int| 0 <= a < r@.len() && r@[a] == x;
                        if a < old_r.len() {
                            assert(old_r[a] == x);
                            assert(old_r.contains(x));
                        }
                    }
                    if (exists|k: int| 0 <= k < i + 1 && links@[k] == x) && (x.article_id != aid
                        || wanted(tags@, x.tag_id, views(desired@))) {
                        let k = choose|k: int| 0 <= k < i + 1 && links@[k] == x;
                        if k < i {
                            assert(old_r.contains(x));
                            let a = choose|a: int| 0 <= a < old_r.len() && old_r[a] == x;
                            assert(r@[a] == x);
                        } else {
                            assert(r@[r@.len() - 1] == x);
                        }
                    }
                }
            }
        } else {
            proof {
                assert forall|x: ArticleTag|
                    r@.contains(x) <==> (exists|k: int| 0 <= k < i + 1 && links@[k] == x) && (
                    x.article_id != aid || wanted(tags@, x.tag_id, views(desired@))) by {
                    if exists|k: int| 0 <= k < i + 1 && links@[k] == x {
                        let k = choose|k: int| 0 <= k < i + 1 && links@[k] == x;
                        if k < i {
                            assert(exists|k2: int| 0 <= k2 < i && links@[k2] == x);
                        }
                    }
                }
            }
        }
        i = i + 1;
    }
    proof {
        assert forall|l: ArticleTag| links@.contains(l) implies exists|k: int|
            0 <= k < links@.len() && links@[k] == l by {}
    }
    r
}

/// Whether some association names the tag `tid`.
fn is_referenced(links: &Vec<ArticleTag>, tid: i32) -> (r: bool)
    ensures
        r == referenced_in(links@, tid),
{
    let mut i: usize = 0;
    while i < links.len()
        invariant
            i <= links.len(),
            forall|k: int| 0 <= k < i ==> (#[trigger] links@[k]).tag_id != tid,
        decreases links.len() - i,
    {
        if links[i].tag_id == tid {
            proof {
                assert(links@[i as int].tag_id == tid);
            }
            return true;
        }
        i = i + 1;
    }
    false
}

/// The tags that some association still names; the others are orphans and go.
fn keep_referenced_tags(tags: &Vec<Tag>, links: &Vec<ArticleTag>) -> (r: Vec<Tag>)
    requires
        ids_unique(tags@),
        names_unique(tags@),
    ensures
        ids_unique(r@),
        names_unique(r@),
        forall|x: (i32, Seq<char>)|
            rows_of(r@).contains(x) <==> rows_of(tags@).contains(x) && referenced_in(links@, x.0),
{
    let mut r: Vec<Tag> = Vec::new();
    let mut i: usize = 0;
    while i < tags.len()
        invariant
            i <= tags.len(),
            ids_unique(tags@),
            names_unique(tags@),
            ids_unique(r@),
            names_unique(r@),
            forall|a: int|
                0 <= a < r@.len() ==> exists|k: int|
                    0 <= k < i && (#[trigger] r@[a]).id == tags@[k].id && r@[a].name@
                        == tags@[k].name@,
            forall|x: (i32, Seq<char>)|
                rows_of(r@).contains(x) <==> (exists|k: int| 0 <= k < i && rows_of(tags@)[k] == x)
                    && referenced_in(links@, x.0),
        decreases tags.len() - i,
    {
        let keep = is_referenced(links, tags[i].id);
        let ghost old_r = r@;
        let ghost row = rows_of(tags@)[i as int];
        if keep {
            let t = copy_tag(&tags[i]);
            proof {
                assert forall|a: int| 0 <= a < old_r.len() implies old_r[a].id != t.id
                    && old_r[a].name@ != t.name@ by {
                    let k = choose|k: int|
                        0 <= k < i && (#[trigger] old_r[a]).id == tags@[k].id && old_r[a].name@
                            == tags@[k].name@;
                    assert(tags@[k].id != tags@[i as int].id);
                    assert(tags@[k].name@ != tags@[i as int].name@);
                }
            }
            r.push(t);
            proof {
                assert(rows_of(r@) == rows_of(old_r).push(row));
                assert forall|x: (i32, Seq<char>)|
                    rows_of(r@).contains(x) <==> (exists|k: int|
                        0 <= k < i + 1 && rows_of(tags@)[k] == x) && referenced_in(links@, x.0) by {
                    if rows_of(r@).contains(x) {
                        let a = choose|a: int| 0 <= a < rows_of(r@).len() && rows_of(r@)[a] == x;
                        if a < old_r.len() {
                            assert(rows_of(old_r)[a] == x);
                            assert(rows_of(old_r).contains(x));
                        }
                    }
                    if (exists|k: int| 0 <= k < i + 1 && rows_of(tags@)[k] == x) && referenced_in(
                        links@,
                        x.0,
                    ) {
                        let k = choose|k: int| 0 <= k < i + 1 && rows_of(tags@)[k] == x;
                        if k < i {
                            assert(rows_of(old_r).contains(x));
                            let a = choose|a: int|
                                0 <= a < rows_of(old_r).len() && rows_of(old_r)[a] == x;
                            assert(rows_of(r@)[a] == x);
                        } else {
                            assert(rows_of(r@)[r@.len() - 1] == x);
                        }
                    }
                }
                assert forall|a: int| 0 <= a < r@.len() implies exists|k: int|
                    0 <= k < i + 1 && (#[trigger] r@[a]).id == tags@[k].id && r@[a].name@
                        == tags@[k].name@ by {
                    if a < old_r.len() {
                        assert(r@[a] == old_r[a]);
                    } else {
                        assert(r@[a].id == tags@[i as int].id);
                    }
                }
            }
        } else {
            proof {
                assert forall|x: (i32, Seq<char>)|
                    rows_of(r@).contains(x) <==> (exists|k: int|
                        0 <= k < i + 1 && rows_of(tags@)[k] == x) && referenced_in(links@, x.0) by {
                    if exists|k: int| 0 <= k < i + 1 && rows_of(tags@)[k] == x {
                        let k = choose|k: int| 0 <= k < i + 1 && rows_of(tags@)[k] == x;
                        if k < i {
                            assert(exists|k2: int| 0 <= k2 < i && rows_of(tags@)[k2] == x);
                        }
                    }
                }
            }
        }
        i = i + 1;
    }
    r
}

/// The index of the tag named `name`, if there is one.
fn find_tag_by_name(tags: &Vec<Tag>, name: &String) -> (r: Option<usize>)
    ensures
        match r {
            Some(j) => j < tags@.len() && tags@[j as int].name@ == name@,
            None => !has_name(tags@, name@),
        },
{
    let mut j: usize = 0;
    while j < tags.len()
        invariant
            j <= tags.len(),
            forall|k: int| 0 <= k < j ==> (#[trigger] tags@[k]).name@ != name@,
        decreases tags.len() - j,
    {
        if tags[j].name == *name {
            return Some(j);
        }
        j = j + 1;
    }
    None
}

/// What a sequence holds after a push.
proof fn lemma_push_contains<T>(s: Seq<T>, x: T, y: T)
    ensures
        s.push(x).contains(y) <==> (s.contains(y) || y == x),
{
    if s.push(x).contains(y) {
        let i = choose|i: int| 0 <= i < s.push(x).len() && s.push(x)[i] == y;
        if i < s.len() {
            assert(s[i] == y);
        }
    }
    if s.contains(y) {
        let i = choose|i: int| 0 <= i < s.len() && s[i] == y;
        assert(s.push(x)[i] == y);
    }
    if y == x {
        assert(s.push(x)[s.len() as int] == y);
    }
}

/// Whether the association `l` exists.
fn contains_link(links: &Vec<ArticleTag>, l: ArticleTag) -> (r: bool)
    ensures
        r == links@.contains(l),
{
    let mut i: usize = 0;
    while i < links.len()
        invariant
            i <= links.len(),
            forall|k: int| 0 <= k < i ==> links@[k] != l,
        decreases links.len() - i,
    {
        if links[i] == l {
            proof {
                assert(links@[i as int] == l);
            }
            return true;
        }
        i = i + 1;
    }
    false
}

/// The names among `desired` that no row of `tags` has.
pub open spec fn new_names(tags: Seq<Tag>, desired: Seq<Seq<char>>) -> Set<Seq<char>> {
    desired.to_set().filter(|x: Seq<char>| !has_name(tags, x))
}

/// There are no more new names than wanted names.
proof fn lemma_new_names_bounded(tags: Seq<Tag>, desired: Seq<Seq<char>>)
    ensures
        new_names(tags, desired).finite(),
        new_names(tags, desired).len() <= desired.len(),
{
    desired.to_set().lemma_len_filter(|x: Seq<char>| !has_name(tags, x));
    desired.lemma_cardinality_of_set();
}

/// How the new names grow by one more wanted name.
proof fn lemma_new_names_step(tags: Seq<Tag>, s: Seq<Seq<char>>, k: int)
    requires
        0 <= k < s.len(),
    ensures
        new_names(tags, s.subrange(0, k + 1)) == (if has_name(tags, s[k]) {
            new_names(tags, s.subrange(0, k))
        } else {
            new_names(tags, s.subrange(0, k)).insert(s[k])
        }),
{
    let a = s.subrange(0, k);
    let b = s.subrange(0, k + 1);
    assert(b =~= a.push(s[k]));
    assert forall|x: Seq<char>| b.contains(x) <==> (a.contains(x) || x == s[k]) by {
        if b.contains(x) {
            let i = choose|i: int| 0 <= i < b.len() && b[i] == x;
            if i < k {
                assert(a[i] == x);
            }
        }
        if a.contains(x) {
            let i = choose|i: int| 0 <= i < a.len() && a[i] == x;
            assert(b[i] == x);
        }
        if x == s[k] {
            assert(b[k] == x);
        }
    }
    if has_name(tags, s[k]) {
        assert(new_names(tags, b) =~= new_names(tags, a));
    } else {
        assert(new_names(tags, b) =~= new_names(tags, a).insert(s[k]));
    }
}

/// For each name of `desired`, reuses the tag of that name or creates it with a fresh id,
/// and links it to the article `aid` unless it is linked already. Fails when the tag id
/// space runs out.
fn attach_names(tags: Vec<Tag>, links: Vec<ArticleTag>, next: i32, aid: i32, desired: &Vec<String>) -> (r:
    Result<(Vec<Tag>, Vec<ArticleTag>, i32), StoreError>)
    requires
        tables_wf(tags@, links@, next),
    ensures
        match r {
            Ok((t, l, n)) => {
                &&& tables_wf(t@, l@, n)
                &&& next <= n
                &&& forall|x: (i32, Seq<char>)| rows_of(tags@).contains(x) ==> rows_of(t@).contains(x)
                &&& forall|x: (i32, Seq<char>)|
                    rows_of(t@).contains(x) ==> rows_of(tags@).contains(x) || (views(
                        desired@,
                    ).contains(x.1) && !has_name(tags@, x.1) && next <= x.0)
                &&& forall|lk: ArticleTag| links@.contains(lk) ==> l@.contains(lk)
                &&& forall|lk: ArticleTag|
                    l@.contains(lk) && !links@.contains(lk) ==> lk.article_id == aid && wanted(
                        t@,
                        lk.tag_id,
                        views(desired@),
                    )
                &&& forall|n: Seq<char>|
                    views(desired@).contains(n) ==> exists|tid: i32|
                        l@.contains(ArticleTag { article_id: aid, tag_id: tid }) && rows_of(
                            t@,
                        ).contains((tid, n))
                &&& n == next + new_names(tags@, views(desired@)).len()
            },
            Err(e) => e == StoreError::Internal && next + new_names(tags@, views(desired@)).len() > i32::MAX,
        },
{
    let ghost tags0 = tags@;
    let ghost links0 = links@;
    let mut t = tags;
    let mut l = links;
    let mut n = next;
    let mut k: usize = 0;
    proof {
        assert(views(desired@).subrange(0, 0) =~= Seq::<Seq<char>>::empty());
        assert(new_names(tags0, views(desired@).subrange(0, 0)) =~= Set::<Seq<char>>::empty());
    }
    while k < desired.len()
        invariant
            k <= desired.len(),
            tables_wf(t@, l@, n),
            next <= n <= next + k,
            tags0 == tags@,
            new_names(tags0, views(desired@).subrange(0, k as int)).finite(),
            n == next + new_names(tags0, views(desired@).subrange(0, k as int)).len(),
            forall|x: (i32, Seq<char>)|
                rows_of(t@).contains(x) && !rows_of(tags0).contains(x) ==> new_names(
                    tags0,
                    views(desired@).subrange(0, k as int),
                ).contains(x.1),
            forall|x: (i32, Seq<char>)| rows_of(tags0).contains(x) ==> rows_of(t@).contains(x),
            forall|x: (i32, Seq<char>)|
                rows_of(t@).contains(x) ==> rows_of(tags0).contains(x) || (views(
                    desired@,
                ).contains(x.1) && !has_name(tags0, x.1) && next <= x.0),
            forall|lk: ArticleTag| links0.contains(lk) ==> l@.contains(lk),
            forall|lk: ArticleTag|
                l@.contains(lk) && !links0.contains(lk) ==> lk.article_id == aid && wanted(
                    t@,
                    lk.tag_id,
                    views(desired@),
                ),
            forall|k2: int|
                0 <= k2 < k ==> exists|tid: i32|
                    l@.contains(ArticleTag { article_id: aid, tag_id: tid }) && rows_of(t@).contains(
                        (tid, #[trigger] views(desired@)[k2]),
                    ),
        decreases desired.len() - k,
    {
        let name = &desired[k];
        let ghost nm = name@;
        assert(views(desired@)[k as int] == nm);
        let ghost before = new_names(tags0, views(desired@).subrange(0, k as int));
        let ghost after = new_names(tags0, views(desired@).subrange(0, k as int + 1));
        proof {
            lemma_new_names_step(tags0, views(desired@), k as int);
        }
        match find_tag_by_name(&t, name) {
            Some(j) => {
                proof {
                    lemma_row_at(t@, j as int);
                    if !has_name(tags0, nm) {
                        if rows_of(tags0).contains((t@[j as int].id, nm)) {
                            let jj = lemma_row_index(tags0, (t@[j as int].id, nm));
                        }
                        assert(before.contains(nm));
                        assert(after =~= before);
                    }
                }
                let tid = t[j].id;
                let lk = ArticleTag { article_id: aid, tag_id: tid };
                assert(rows_of(t@)[j as int] == (tid, nm));
                assert(rows_of(t@).contains((tid, nm)));
                if !contains_link(&l, lk) {
                    let ghost old_l = l@;
                    l.push(lk);
                    proof {
                        assert forall|y: ArticleTag| l@.contains(y) <==> (old_l.contains(y) || y == lk) by {
                            lemma_push_contains(old_l, lk, y);
                        }
                        assert(wanted(t@, tid, views(desired@)));
                        assert forall|i: int| 0 <= i < l@.len() implies has_id(t@, (#[trigger] l@[i]).tag_id) by {
                            if i < old_l.len() {
                                assert(l@[i] == old_l[i]);
                            } else {
                                assert(t@[j as int].id == tid);
                            }
                        }
                        assert forall|jj: int| 0 <= jj < t@.len() implies referenced_in(l@, (#[trigger] t@[jj]).id) by {
                            assert(referenced_in(old_l, t@[jj].id));
                            let i = choose|i: int| 0 <= i < old_l.len() && (#[trigger] old_l[i]).tag_id == t@[jj].id;
                            assert(l@[i] == old_l[i]);
                        }
                        assert forall|a: int, b: int| 0 <= a < l@.len() && 0 <= b < l@.len() && #[trigger] l@[a] == #[trigger] l@[b] implies a == b by {
                            if a < old_l.len() && b < old_l.len() {
                                assert(old_l[a] == old_l[b]);
                            } else if a < old_l.len() {
                                assert(old_l.contains(old_l[a]));
                            } else if b < old_l.len() {
                                assert(old_l.contains(old_l[b]));
                            }
                        }
                    }
                }
                proof {
                    assert(l@.contains(lk));
                }
            },
            None => {
                proof {
                    if has_name(tags0, nm) {
                        let jj = choose|jj: int| 0 <= jj < tags0.len() && (#[trigger] tags0[jj]).name@ == nm;
                        lemma_row_at(tags0, jj);
                        let jt = lemma_row_index(t@, (tags0[jj].id, nm));
                    }
                    if before.contains(nm) {
                        let sub = views(desired@).subrange(0, k as int);
                        let k2 = choose|k2: int| 0 <= k2 < sub.len() && sub[k2] == nm;
                        assert(views(desired@)[k2] == nm);
                        let tid2 = choose|tid2: i32| l@.contains(ArticleTag { article_id: aid, tag_id: tid2 }) && rows_of(t@).contains(
                            (tid2, views(desired@)[k2]));
                        let jt = lemma_row_index(t@, (tid2, nm));
                    }
                    assert(after == before.insert(nm));
                    assert(after.len() == before.len() + 1);
                    lemma_new_names_bounded(tags0, views(desired@));
                    assert(after.subset_of(new_names(tags0, views(desired@)))) by {
                        assert forall|x: Seq<char>| after.contains(x) implies new_names(tags0, views(desired@)).contains(x) by {
                            let sub = views(desired@).subrange(0, k as int + 1);
                            let i = choose|i: int| 0 <= i < sub.len() && sub[i] == x;
                            assert(views(desired@)[i] == x);
                        }
                    }
                    vstd::set_lib::lemma_len_subset(after, new_names(tags0, views(desired@)));
                }
                if n == i32::MAX {
                    return Err(StoreError::Internal);
                }
                let tid = n;
                let ghost old_t = t@;
                let ghost old_l = l@;
                let tag = Tag { id: tid, name: copy_string(name) };
                let lk = ArticleTag { article_id: aid, tag_id: tid };
                t.push(tag);
                l.push(lk);
                n = n + 1;
                proof {
                    assert forall|i: int| 0 <= i < old_l.len() implies (#[trigger] old_l[i]).tag_id != tid by {
                        assert(has_id(old_t, old_l[i].tag_id));
                        let jj = choose|jj: int| 0 <= jj < old_t.len() && (#[trigger] old_t[jj]).id == old_l[i].tag_id;
                    }
                    assert forall|y: ArticleTag| l@.contains(y) <==> (old_l.contains(y) || y == lk) by {
                        lemma_push_contains(old_l, lk, y);
                    }
                    assert(rows_of(t@) =~= rows_of(old_t).push((tid, nm)));
                    assert forall|x: (i32, Seq<char>)| rows_of(t@).contains(x) <==> (rows_of(old_t).contains(x) || x == (tid, nm)) by {
                        lemma_push_contains(rows_of(old_t), (tid, nm), x);
                    }
                    assert(t@[old_t.len() as int].id == tid);
                    assert(t@[old_t.len() as int].name@ == nm);
                    assert(wanted(t@, tid, views(desired@)));
                    assert forall|a: int, b: int| 0 <= a < t@.len() && 0 <= b < t@.len() && (#[trigger] t@[a]).id == (#[trigger] t@[b]).id implies a == b by {
                        if a < old_t.len() {
                            assert(t@[a] == old_t[a]);
                        }
                        if b < old_t.len() {
                            assert(t@[b] == old_t[b]);
                        }
                    }
                    assert forall|a: int, b: int| 0 <= a < t@.len() && 0 <= b < t@.len() && (#[trigger] t@[a]).name@ == (#[trigger] t@[b]).name@ implies a == b by {
                        if a < old_t.len() {
                            assert(t@[a] == old_t[a]);
                        }
                        if b < old_t.len() {
                            assert(t@[b] == old_t[b]);
                        }
                    }
                    assert forall|jj: int| 0 <= jj < t@.len() implies 0 <= (#[trigger] t@[jj]).id < n by {
                        if jj < old_t.len() {
                            assert(t@[jj] == old_t[jj]);
                        }
                    }
                    assert forall|i: int| 0 <= i < l@.len() implies has_id(t@, (#[trigger] l@[i]).tag_id) by {
                        if i < old_l.len() {
                            assert(l@[i] == old_l[i]);
                            assert(has_id(old_t, old_l[i].tag_id));
                            let jj = choose|jj: int| 0 <= jj < old_t.len() && (#[trigger] old_t[jj]).id == old_l[i].tag_id;
                            assert(t@[jj] == old_t[jj]);
                        } else {
                            assert(t@[old_t.len() as int].id == tid);
                        }
                    }
                    assert forall|jj: int| 0 <= jj < t@.len() implies referenced_in(l@, (#[trigger] t@[jj]).id) by {
                        if jj < old_t.len() {
                            assert(t@[jj] == old_t[jj]);
                            assert(referenced_in(old_l, old_t[jj].id));
                            let i = choose|i: int| 0 <= i < old_l.len() && (#[trigger] old_l[i]).tag_id == old_t[jj].id;
                            assert(l@[i] == old_l[i]);
                        } else {
                            assert(l@[old_l.len() as int] == lk);
                        }
                    }
                    assert forall|a: int, b: int| 0 <= a < l@.len() && 0 <= b < l@.len() && #[trigger] l@[a] == #[trigger] l@[b] implies a == b by {
                        if a < old_l.len() && b < old_l.len() {
                            assert(old_l[a] == old_l[b]);
                        } else if a < old_l.len() {
                            assert(old_l[a].tag_id != tid);
                        } else if b < old_l.len() {
                            assert(old_l[b].tag_id != tid);
                        }
                    }
                    assert forall|x: (i32, Seq<char>)| rows_of(t@).contains(x) implies rows_of(tags0).contains(x) || (views(
                        desired@,
                    ).contains(x.1) && !has_name(tags0, x.1) && next <= x.0) by {
                        if x == (tid, nm) {
                            if has_name(tags0, nm) {
                                let jj = choose|jj: int| 0 <= jj < tags0.len() && (#[trigger] tags0[jj]).name@ == nm;
                                assert(rows_of(tags0)[jj] == (tags0[jj].id, nm));
                                assert(rows_of(tags0).contains((tags0[jj].id, nm)));
                                assert(rows_of(old_t).contains((tags0[jj].id, nm)));
                                let jj2 = choose|jj2: int| 0 <= jj2 < rows_of(old_t).len() && rows_of(old_t)[jj2] == (tags0[jj].id, nm);
                                assert(old_t[jj2].name@ == nm);
                            }
                        }
                    }
                    assert forall|k2: int| 0 <= k2 < k + 1 implies exists|tid2: i32|
                        l@.contains(ArticleTag { article_id: aid, tag_id: tid2 }) && rows_of(t@).contains(
                            (tid2, #[trigger] views(desired@)[k2]),
                        ) by {
                        if k2 < k {
                            let tid2 = choose|tid2: i32| old_l.contains(ArticleTag { article_id: aid, tag_id: tid2 }) && rows_of(old_t).contains(
                            (tid2, views(desired@)[k2]));
                            assert(l@.contains(ArticleTag { article_id: aid, tag_id: tid2 }));
                        } else {
                            assert(l@.contains(lk));
                            assert(rows_of(t@)[old_t.len() as int] == (tid, nm));
                            assert(rows_of(t@).contains((tid, nm)));
                        }
                    }
                }
            },
        }
        k = k + 1;
    }
    proof {
        assert(views(desired@).subrange(0, k as int) =~= views(desired@));
        assert forall|nm: Seq<char>| views(desired@).contains(nm) implies exists|tid: i32|
            l@.contains(ArticleTag { article_id: aid, tag_id: tid }) && rows_of(t@).contains((tid, nm)) by {
            let k2 = choose|k2: int| 0 <= k2 < views(desired@).len() && views(desired@)[k2] == nm;
            assert(0 <= k2 < k);
        }
    }
    Ok((t, l, n))
}

/// The index of a tag row given as a pair.
pub proof fn lemma_row_index(tags: Seq<Tag>, x: (i32, Seq<char>)) -> (j: int)
    requires
        rows_of(tags).contains(x),
    ensures
        0 <= j < tags.len(),
        tags[j].id == x.0,
        tags[j].name@ == x.1,
{
    let j = choose|j: int| 0 <= j < rows_of(tags).len() && rows_of(tags)[j] == x;
    j
}

/// A tag row, seen as a pair.
pub proof fn lemma_row_at(tags: Seq<Tag>, j: int)
    requires
        0 <= j < tags.len(),
    ensures
        rows_of(tags).contains((tags[j].id, tags[j].name@)),
{
    assert(rows_of(tags)[j] == (tags[j].id, tags[j].name@));
}

/// With unique ids, a tag id has one name.
pub proof fn lemma_one_name(tags: Seq<Tag>, tid: i32, n1: Seq<char>, n2: Seq<char>)
    requires
        ids_unique(tags),
        rows_of(tags).contains((tid, n1)),
        rows_of(tags).contains((tid, n2)),
    ensures
        n1 == n2,
{
    let a = lemma_row_index(tags, (tid, n1));
    let b = lemma_row_index(tags, (tid, n2));
    assert(tags[a].id == tags[b].id);
}

/// With unique names, a tag name has one id.
pub proof fn lemma_one_id(tags: Seq<Tag>, t1: i32, t2: i32, n: Seq<char>)
    requires
        names_unique(tags),
        rows_of(tags).contains((t1, n)),
        rows_of(tags).contains((t2, n)),
    ensures
        t1 == t2,
{
    let a = lemma_row_index(tags, (t1, n));
    let b = lemma_row_index(tags, (t2, n));
    assert(tags[a].name@ == tags[b].name@);
}

/// `after` is `before` with the tags of the article `aid` brought to exactly the names
/// `desired`: the tables stay well formed, other articles keep their associations and
/// names, a tag row is either kept as it was or dropped, and a new row has a fresh id and
/// a wanted name that had no row before.
pub open spec fn reconciled(before: TagTables, after: TagTables, aid: i32, desired: Seq<Seq<char>>) -> bool {
    &&& after.wf()
    &&& after.tag_names(aid) == desired.to_set()
    &&& forall|b: i32, tid: i32| b != aid ==> after.linked(b, tid) == before.linked(b, tid)
    &&& forall|b: i32| b != aid ==> after.tag_names(b) == before.tag_names(b)
    &&& forall|tid: i32, n: Seq<char>|
        after.has_tag(tid, n) ==> before.has_tag(tid, n) || (desired.contains(n)
            && !before.has_tag_named(n) && before.next_tag_id <= tid)
    &&& forall|tid: i32, n: Seq<char>|
        before.has_tag(tid, n) && after.has_tag_named(n) ==> after.has_tag(tid, n)
    &&& before.next_tag_id <= after.next_tag_id
}

impl TagTables {
    /// Brings the tags of the article `aid` to exactly the names in `desired`, as one unit
    /// of work: associations whose name is no longer wanted go, tags that no association
    /// names any more go, each wanted name reuses the tag of that name or gets a new tag
    /// with a fresh id, and missing associations are added. The result is the new state of
    /// the tables; on failure nothing is returned and the tables stay as they were.
    pub fn reconcile(&self, aid: i32, desired: &Vec<String>) -> (r: Result<TagTables, StoreError>)
        requires
            self.wf(),
        ensures
            match r {
                Ok(t) => reconciled(*self, t, aid, views(desired@)) && t.next_tag_id == self.next_tag_id
                    + new_names(self.tags@, views(desired@)).len(),
                Err(e) => e == StoreError::Internal,
            },
            r is Ok <==> self.next_tag_id + new_names(self.tags@, views(desired@)).len() <= i32::MAX,
            self.next_tag_id + desired@.len() <= i32::MAX ==> r is Ok,
    {
        let links1 = keep_wanted_links(&self.article_tags, &self.tags, aid, desired);
        let tags2 = keep_referenced_tags(&self.tags, &links1);
        let ghost t0 = self.tags@;
        let ghost l0 = self.article_tags@;
        let ghost d = views(desired@);
        let ghost next = self.next_tag_id;
        proof {
            assert forall|j: int| 0 <= j < tags2@.len() implies 0 <= (#[trigger] tags2@[j]).id < next by {
                lemma_row_at(tags2@, j);
                let k = lemma_row_index(t0, (tags2@[j].id, tags2@[j].name@));
                assert(0 <= t0[k].id < next);
            }
            assert forall|i: int| 0 <= i < links1@.len() implies has_id(tags2@, (#[trigger] links1@[i]).tag_id) by {
                let lk = links1@[i];
                assert(links1@.contains(lk));
                assert(l0.contains(lk));
                let i0 = choose|i0: int| 0 <= i0 < l0.len() && l0[i0] == lk;
                assert(has_id(t0, l0[i0].tag_id));
                let j = choose|j: int| 0 <= j < t0.len() && (#[trigger] t0[j]).id == lk.tag_id;
                lemma_row_at(t0, j);
                assert(referenced_in(links1@, lk.tag_id));
                assert(rows_of(tags2@).contains((t0[j].id, t0[j].name@)));
                let j2 = lemma_row_index(tags2@, (t0[j].id, t0[j].name@));
            }
            assert forall|j: int| 0 <= j < tags2@.len() implies referenced_in(links1@, (#[trigger] tags2@[j]).id) by {
                lemma_row_at(tags2@, j);
            }
            assert(tables_wf(tags2@, links1@, next));
            // a wanted name keeps its row through the sweep
            assert forall|nm: Seq<char>| d.contains(nm) implies (has_name(tags2@, nm) == has_name(t0, nm)) by {
                if has_name(tags2@, nm) {
                    let j = choose|j: int| 0 <= j < tags2@.len() && (#[trigger] tags2@[j]).name@ == nm;
                    lemma_row_at(tags2@, j);
                    let k = lemma_row_index(t0, (tags2@[j].id, nm));
                }
                if has_name(t0, nm) {
                    let j = choose|j: int| 0 <= j < t0.len() && (#[trigger] t0[j]).name@ == nm;
                    let tj = t0[j].id;
                    assert(referenced_in(l0, tj));
                    let i = choose|i: int| 0 <= i < l0.len() && (#[trigger] l0[i]).tag_id == tj;
                    let lk = l0[i];
                    assert(l0.contains(lk));
                    assert(wanted(t0, tj, d));
                    assert(links1@.contains(lk));
                    assert(referenced_in(links1@, tj)) by {
                        let a = choose|a: int| 0 <= a < links1@.len() && links1@[a] == lk;
                    }
                    lemma_row_at(t0, j);
                    assert(rows_of(tags2@).contains((tj, nm)));
                    let j2 = lemma_row_index(tags2@, (tj, nm));
                }
            }
            assert(new_names(tags2@, d) =~= new_names(t0, d));
            lemma_new_names_bounded(t0, d);
        }
        let ghost l1 = links1@;
        let ghost t2 = tags2@;
        match attach_names(tags2, links1, self.next_tag_id, aid, desired) {
            Ok((t, l, n)) => {
                let r = TagTables { tags: t, article_tags: l, next_tag_id: n };
                proof {
                    // rows of the result: kept rows of the old table, or fresh rows of new names
                    assert forall|tid: i32, nm: Seq<char>| r.has_tag(tid, nm) implies self.has_tag(tid, nm)
                        || (d.contains(nm) && !self.has_tag_named(nm) && next <= tid) by {
                        if !rows_of(t2).contains((tid, nm)) {
                            if self.has_tag_named(nm) {
                                let j = choose|j: int| 0 <= j < t0.len() && (#[trigger] t0[j]).name@ == nm;
                                let tj = t0[j].id;
                                assert(referenced_in(l0, tj));
                                let i = choose|i: int| 0 <= i < l0.len() && (#[trigger] l0[i]).tag_id == tj;
                                let lk = l0[i];
                                assert(l0.contains(lk));
                                assert(wanted(t0, tj, d));
                                assert(l1.contains(lk));
                                assert(referenced_in(l1, tj)) by {
                                    let a = choose|a: int| 0 <= a < l1.len() && l1[a] == lk;
                                }
                                lemma_row_at(t0, j);
                                assert(rows_of(t2).contains((tj, nm)));
                                let j2 = lemma_row_index(t2, (tj, nm));
                                assert(has_name(t2, nm));
                            }
                        }
                    }
                    assert forall|tid: i32, nm: Seq<char>| self.has_tag(tid, nm) && r.has_tag_named(nm)
                        implies r.has_tag(tid, nm) by {
                        let j = choose|j: int| 0 <= j < t@.len() && (#[trigger] t@[j]).name@ == nm;
                        lemma_row_at(t@, j);
                        let tj = t@[j].id;
                        if !self.has_tag(tj, nm) {
                            let k = lemma_row_index(t0, (tid, nm));
                            assert(self.has_tag_named(nm));
                        } else {
                            lemma_one_id(t0, tid, tj, nm);
                        }
                    }
                    // links of other articles are untouched
                    assert forall|b: i32, tid: i32| b != aid implies r.linked(b, tid) == self.linked(b, tid) by {
                        let lk = ArticleTag { article_id: b, tag_id: tid };
                        if self.linked(b, tid) {
                            assert(l1.contains(lk));
                        }
                    }
                    // the article's names are exactly the wanted ones
                    assert forall|nm: Seq<char>| r.tag_names(aid).contains(nm) <==> d.contains(nm) by {
                        if r.tag_names(aid).contains(nm) {
                            let tid = choose|tid: i32| r.linked(aid, tid) && r.has_tag(tid, nm);
                            let lk = ArticleTag { article_id: aid, tag_id: tid };
                            if l1.contains(lk) {
                                assert(wanted(t0, tid, d));
                                let j = choose|j: int| 0 <= j < t0.len() && (#[trigger] t0[j]).id == tid && d.contains(t0[j].name@);
                                lemma_row_at(t0, j);
                                assert(0 <= t0[j].id < next);
                                assert(self.has_tag(tid, nm));
                                lemma_one_name(t0, tid, nm, t0[j].name@);
                            } else {
                                assert(wanted(t@, tid, d));
                                let j = choose|j: int| 0 <= j < t@.len() && (#[trigger] t@[j]).id == tid && d.contains(t@[j].name@);
                                lemma_row_at(t@, j);
                                lemma_one_name(t@, tid, nm, t@[j].name@);
                            }
                        }
                        if d.contains(nm) {
                            let tid = choose|tid: i32| l@.contains(ArticleTag { article_id: aid, tag_id: tid }) && rows_of(t@).contains((tid, nm));
                            assert(r.linked(aid, tid) && r.has_tag(tid, nm));
                        }
                    }
                    assert(r.tag_names(aid) =~= d.to_set());
                    // the names of other articles are untouched
                    assert forall|b: i32| b != aid implies r.tag_names(b) == self.tag_names(b) by {
                        assert forall|nm: Seq<char>| r.tag_names(b).contains(nm) <==> self.tag_names(b).contains(nm) by {
                            if r.tag_names(b).contains(nm) {
                                let tid = choose|tid: i32| r.linked(b, tid) && r.has_tag(tid, nm);
                                assert(self.linked(b, tid));
                                let lk = ArticleTag { article_id: b, tag_id: tid };
                                let i = choose|i: int| 0 <= i < l0.len() && l0[i] == lk;
                                assert(has_id(t0, l0[i].tag_id));
                                let j = choose|j: int| 0 <= j < t0.len() && (#[trigger] t0[j]).id == tid;
                                assert(t0[j].id < next);
                                assert(self.has_tag(tid, nm));
                            }
                            if self.tag_names(b).contains(nm) {
                                let tid = choose|tid: i32| self.linked(b, tid) && self.has_tag(tid, nm);
                                assert(r.linked(b, tid));
                                let lk = ArticleTag { article_id: b, tag_id: tid };
                                let i = choose|i: int| 0 <= i < l@.len() && l@[i] == lk;
                                assert(has_id(t@, l@[i].tag_id));
                                let j = choose|j: int| 0 <= j < t@.len() && (#[trigger] t@[j]).id == tid;
                                lemma_row_at(t@, j);
                                let nj = t@[j].name@;
                                if self.has_tag(tid, nj) {
                                    lemma_one_name(t0, tid, nm, nj);
                                } else {
                                    let i0 = choose|i0: int| 0 <= i0 < l0.len() && l0[i0] == lk;
                                    assert(has_id(t0, l0[i0].tag_id));
                                    let j0 = choose|j0: int| 0 <= j0 < t0.len() && (#[trigger] t0[j0]).id == tid;
                                    assert(t0[j0].id < next);
                                }
                            }
                        }
                        assert(r.tag_names(b) =~= self.tag_names(b));
                    }
                }
                Ok(r)
            },
            Err(e) => Err(e),
        }
    }
}

} // verus!
