use vstd::prelude::*;

use crate::strings::{contains_str, views};

verus! {

/// The service's configuration.
pub struct Settings {
    pub database: DbSettings,
    pub app: AppSettings,
    pub auth: AuthSettings,
}

/// Access control settings: the comma-separated secure routes, the password pepper and
/// the key that session tokens are derived with.
pub struct AuthSettings {
    pub secure_routes: String,
    pub pass_pepper: String,
    pub secret_key: String,
}

/// Where the store lives.
pub struct DbSettings {
    pub uri: String,
}

/// Where the service listens.
pub struct AppSettings {
    pub host: String,
    pub port: i32,
}

/// The pieces of `s` between commas, in order; an empty text is one empty piece.
pub open spec fn split_commas(s: Seq<char>) -> Seq<Seq<char>>
    decreases s.len(),
{
    if s.len() == 0 {
        seq![Seq::empty()]
    } else {
        let init = split_commas(s.drop_last());
        if s.last() == ',' {
            init.push(Seq::empty())
        } else {
            init.update(init.len() - 1, init.last().push(s.last()))
        }
    }
}

/// Splitting always gives at least one piece.
pub proof fn lemma_split_nonempty(s: Seq<char>)
    ensures
        split_commas(s).len() >= 1,
    decreases s.len(),
{
    if s.len() > 0 {
        lemma_split_nonempty(s.drop_last());
    }
}

/// The pieces of `s` between commas, in order.
pub fn split_on_commas(s: &str) -> (r: Vec<String>)
    ensures
        views(r@) == split_commas(s@),
{
    let n = s.unicode_len();
    let mut pieces: Vec<String> = Vec::new();
    let mut start: usize = 0;
    let mut i: usize = 0;
    proof {
        assert(s@.subrange(0, 0) =~= Seq::<char>::empty());
        assert(views(pieces@).push(s@.subrange(0, 0)) =~= split_commas(s@.subrange(0, 0)));
    }
    while i < n
        invariant
            n == s@.len(),
            start <= i <= n,
            views(pieces@).push(s@.subrange(start as int, i as int)) == split_commas(
                s@.subrange(0, i as int),
            ),
        decreases n - i,
    {
        let c = s.get_char(i);
        let ghost prev = s@.subrange(0, i as int);
        let ghost next = s@.subrange(0, i as int + 1);
        proof {
            assert(next.drop_last() =~= prev);
            assert(next.last() == c);
            lemma_split_nonempty(prev);
        }
        if c == ',' {
            let piece = s.substring_char(start, i).to_string();
            let ghost old_pieces = pieces@;
            pieces.push(piece);
            start = i + 1;
            proof {
                assert(views(pieces@) =~= views(old_pieces).push(piece@));
                assert(s@.subrange(start as int, i as int + 1) =~= Seq::<char>::empty());
            }
        } else {
            proof {
                assert(s@.subrange(start as int, i as int + 1) =~= s@.subrange(start as int, i as int).push(c));
                assert(views(pieces@).push(s@.subrange(start as int, i as int + 1)) =~= split_commas(prev).update(
                    split_commas(prev).len() - 1,
                    split_commas(prev).last().push(c),
                ));
            }
        }
        i = i + 1;
    }
    let last = s.substring_char(start, n).to_string();
    let ghost old_pieces = pieces@;
    pieces.push(last);
    proof {
        assert(views(pieces@) =~= views(old_pieces).push(last@));
        assert(s@.subrange(0, n as int) =~= s@);
    }
    pieces
}

/// `v` without repeats, keeping first occurrences.
pub fn dedup_strings(v: &Vec<String>) -> (r: Vec<String>)
    ensures
        views(r@).to_set() == views(v@).to_set(),
        views(r@).no_duplicates(),
{
    let mut r: Vec<String> = Vec::new();
    let mut k: usize = 0;
    while k < v.len()
        invariant
            k <= v@.len(),
            views(r@).to_set() == views(v@.subrange(0, k as int)).to_set(),
            views(r@).no_duplicates(),
        decreases v@.len() - k,
    {
        let ghost before = views(v@.subrange(0, k as int));
        let ghost after = views(v@.subrange(0, k as int + 1));
        proof {
            assert(after =~= before.push(v@[k as int]@));
        }
        if !contains_str(&r, &v[k]) {
            let ghost old_r = views(r@);
            r.push(v[k].clone());
            proof {
                assert(views(r@) =~= old_r.push(v@[k as int]@));
                assert(views(r@).to_set() =~= after.to_set()) by {
                    assert forall|x: Seq<char>| views(r@).to_set().contains(x) <==> after.to_set().contains(x) by {
                        if views(r@).contains(x) {
                            let a = choose|a: int| 0 <= a < views(r@).len() && views(r@)[a] == x;
                            if a < old_r.len() {
                                assert(old_r[a] == x);
                                assert(old_r.to_set().contains(x));
                                let b = choose|b: int| 0 <= b < before.len() && before[b] == x;
                                assert(after[b] == x);
                            } else {
                                assert(after[k as int] == x);
                            }
                        }
                        if after.contains(x) {
                            let b = choose|b: int| 0 <= b < after.len() && after[b] == x;
                            if b < k {
                                assert(before[b] == x);
                                assert(before.to_set().contains(x));
                                let a = choose|a: int| 0 <= a < old_r.len() && old_r[a] == x;
                                assert(views(r@)[a] == x);
                            } else {
                                assert(views(r@)[old_r.len() as int] == x);
                            }
                        }
                    }
                }
            }
        } else {
            proof {
                assert(views(r@).to_set() =~= after.to_set()) by {
                    assert forall|x: Seq<char>| views(r@).to_set().contains(x) <==> after.to_set().contains(x) by {
                        if views(r@).contains(x) {
                            assert(before.to_set().contains(x));
                            let b = choose|b: int| 0 <= b < before.len() && before[b] == x;
                            assert(after[b] == x);
                        }
                        if after.contains(x) {
                            let b = choose|b: int| 0 <= b < after.len() && after[b] == x;
                            if b < k {
                                assert(before[b] == x);
                                assert(before.to_set().contains(x));
                            }
                        }
                    }
                }
            }
        }
        k = k + 1;
    }
    proof {
        assert(v@.subrange(0, v@.len() as int) =~= v@);
    }
    r
}

impl AuthSettings {
    /// The set of secure routes: the pieces of `secure_routes` between commas, each once.
    pub fn get_secure_routes(&self) -> (r: Vec<String>)
        ensures
            views(r@).to_set() == split_commas(self.secure_routes@).to_set(),
            views(r@).no_duplicates(),
    {
        let pieces = split_on_commas(self.secure_routes.as_str());
        dedup_strings(&pieces)
    }
}

} // verus!
