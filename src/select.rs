use vstd::prelude::*;
use crate::text::{after_last, text_after_last};

verus! {

/// Whether a pool file name is a build of package `p`: Debian file names are
/// `<package>_<version>_<arch>.deb`, so the name is `p` followed by `_`.
pub open spec fn names_package(file: Seq<char>, p: Seq<char>) -> bool {
    &&& p.len() < file.len()
    &&& file.take(p.len() as int) == p
    &&& file[p.len() as int] == '_'
}

/// The position of the first pattern from `k` on that the file name builds.
pub open spec fn score_from(file: Seq<char>, pats: Seq<Seq<char>>, k: int) -> Option<int>
    decreases pats.len() - k,
{
    if k < 0 || k >= pats.len() {
        None
    } else if names_package(file, pats[k]) {
        Some(k)
    } else {
        score_from(file, pats, k + 1)
    }
}

/// The score of a pool entry: the position of the first requested package
/// that its file name builds; lower is a better match. None when it builds
/// none of them.
pub open spec fn score(path: Seq<char>, pats: Seq<Seq<char>>) -> Option<int> {
    score_from(after_last(path, '/'), pats, 0)
}

/// The entries of `pool` with score `k`, in pool order.
pub open spec fn with_score(pool: Seq<Seq<char>>, pats: Seq<Seq<char>>, k: int) -> Seq<Seq<char>>
    decreases pool.len(),
{
    if pool.len() == 0 {
        Seq::empty()
    } else if score(pool.last(), pats) == Some(k) {
        with_score(pool.drop_last(), pats, k).push(pool.last())
    } else {
        with_score(pool.drop_last(), pats, k)
    }
}

/// The entries with a score below `k`: by ascending score, and in pool order
/// among equal scores.
pub open spec fn select_upto(pool: Seq<Seq<char>>, pats: Seq<Seq<char>>, k: int) -> Seq<Seq<char>>
    decreases k,
{
    if k <= 0 {
        Seq::empty()
    } else {
        select_upto(pool, pats, k - 1) + with_score(pool, pats, k - 1)
    }
}

/// The extra dependencies chosen from a pool listing.
pub open spec fn selection(pool: Seq<Seq<char>>, pats: Seq<Seq<char>>) -> Seq<Seq<char>> {
    select_upto(pool, pats, pats.len() as int)
}

fn builds_package(file: &str, p: &String) -> (r: bool)
    ensures
        r == names_package(file@, p@),
{
    let n = file.unicode_len();
    let m = p.as_str().unicode_len();
    if m >= n {
        return false;
    }
    let mut j: usize = 0;
    while j < m
        invariant
            n == file@.len(),
            m == p@.len(),
            m < n,
            j <= m,
            forall|t: int| 0 <= t < j ==> file@[t] == p@[t],
        decreases m - j,
    {
        if file.get_char(j) != p.as_str().get_char(j) {
            proof {
                assert(file@.take(m as int)[j as int] != p@[j as int]);
            }
            return false;
        }
        j = j + 1;
    }
    proof {
        assert(file@.take(m as int) =~= p@);
    }
    file.get_char(m) == '_'
}

fn score_of(path: &String, pats: &Vec<String>) -> (r: Option<usize>)
    ensures
        match r {
            Some(k) => score(path@, pats.deep_view()) == Some(k as int),
            None => score(path@, pats.deep_view()) is None,
        },
{
    let file = text_after_last(path.as_str(), '/');
    let ghost ps = pats.deep_view();
    let mut k: usize = pats.len();
    let mut found: Option<usize> = None;
    while k > 0
        invariant
            ps == pats.deep_view(),
            k <= pats.len(),
            file@ == after_last(path@, '/'),
            match found {
                Some(j) => score_from(file@, ps, k as int) == Some(j as int),
                None => score_from(file@, ps, k as int) is None,
            },
        decreases k,
    {
        k = k - 1;
        proof {
            assert(ps[k as int] == pats[k as int]@);
        }
        if builds_package(file.as_str(), &pats[k]) {
            found = Some(k);
        }
    }
    found
}

/// Chooses the extra dependencies of a build from the pool listing: each
/// entry that builds one of the requested packages, ordered by the position
/// of the first such package in `depends`, and in listing order among equals.
pub fn select_dependencies(pool: &Vec<String>, depends: &Vec<String>) -> (r: Vec<String>)
    ensures
        r.deep_view() == selection(pool.deep_view(), depends.deep_view()),
{
    let ghost pl = pool.deep_view();
    let ghost ps = depends.deep_view();
    let mut scores: Vec<Option<usize>> = Vec::new();
    let mut i: usize = 0;
    while i < pool.len()
        invariant
            pl == pool.deep_view(),
            ps == depends.deep_view(),
            i <= pool.len(),
            scores.len() == i,
            forall|t: int| 0 <= t < i ==> match #[trigger] scores@[t] {
                Some(k) => score(pl[t], ps) == Some(k as int),
                None => score(pl[t], ps) is None,
            },
        decreases pool.len() - i,
    {
        let s = score_of(&pool[i], depends);
        scores.push(s);
        i = i + 1;
    }
    let mut out: Vec<String> = Vec::new();
    let mut k: usize = 0;
    while k < depends.len()
        invariant
            pl == pool.deep_view(),
            ps == depends.deep_view(),
            scores.len() == pool.len(),
            forall|t: int| 0 <= t < pool.len() ==> match #[trigger] scores@[t] {
                Some(k) => score(pl[t], ps) == Some(k as int),
                None => score(pl[t], ps) is None,
            },
            k <= depends.len(),
            out.deep_view() == select_upto(pl, ps, k as int),
        decreases depends.len() - k,
    {
        let ghost base = out.deep_view();
        let mut i: usize = 0;
        while i < pool.len()
            invariant
                pl == pool.deep_view(),
                ps == depends.deep_view(),
                scores.len() == pool.len(),
                forall|t: int| 0 <= t < pool.len() ==> match #[trigger] scores@[t] {
                    Some(k) => score(pl[t], ps) == Some(k as int),
                    None => score(pl[t], ps) is None,
                },
                k < depends.len(),
                i <= pool.len(),
                out.deep_view() == base + with_score(pl.take(i as int), ps, k as int),
            decreases pool.len() - i,
        {
            proof {
                let t = pl.take(i + 1);
                assert(t.drop_last() =~= pl.take(i as int));
                assert(t.last() == pl[i as int]);
                assert(pl[i as int] == pool[i as int]@);
                let _ = scores@[i as int];
            }
            let ghost prev = out.deep_view();
            if scores[i] == Some(k) {
                out.push(pool[i].clone());
                proof {
                    assert(out.deep_view() =~= prev.push(pl[i as int]));
                    assert(base + with_score(pl.take(i as int), ps, k as int).push(pl[i as int])
                        =~= (base + with_score(pl.take(i as int), ps, k as int)).push(pl[i as int]));
                }
            }
            i = i + 1;
        }
        proof {
            assert(pl.take(pool.len() as int) =~= pl);
        }
        k = k + 1;
    }
    out
}

/// The selection depends on the pool listing and the requested packages
/// alone: over the same listing and the same packages, two selections are the
/// same list in the same order.
pub proof fn lemma_selection_deterministic(
    pool_a: Seq<Seq<char>>,
    pool_b: Seq<Seq<char>>,
    pats_a: Seq<Seq<char>>,
    pats_b: Seq<Seq<char>>,
)
    requires
        pool_a == pool_b,
        pats_a == pats_b,
    ensures
        selection(pool_a, pats_a) == selection(pool_b, pats_b),
{
}

/// The score of an entry as a number; -1 when it has none.
pub open spec fn rank(path: Seq<char>, pats: Seq<Seq<char>>) -> int {
    match score(path, pats) {
        Some(k) => k,
        None => -1,
    }
}

proof fn lemma_with_score(pool: Seq<Seq<char>>, pats: Seq<Seq<char>>, k: int)
    ensures
        forall|i: int| 0 <= i < with_score(pool, pats, k).len()
            ==> score(#[trigger] with_score(pool, pats, k)[i], pats) == Some(k),
    decreases pool.len(),
{
    if pool.len() > 0 {
        lemma_with_score(pool.drop_last(), pats, k);
    }
}

proof fn lemma_score_below(file: Seq<char>, pats: Seq<Seq<char>>, k: int)
    ensures
        match score_from(file, pats, k) {
            Some(j) => k <= j < pats.len(),
            None => true,
        },
    decreases pats.len() - k,
{
    if 0 <= k < pats.len() && !names_package(file, pats[k]) {
        lemma_score_below(file, pats, k + 1);
    }
}

proof fn lemma_select_upto(pool: Seq<Seq<char>>, pats: Seq<Seq<char>>, k: int)
    ensures
        forall|i: int| 0 <= i < select_upto(pool, pats, k).len()
            ==> 0 <= #[trigger] rank(select_upto(pool, pats, k)[i], pats) < k,
        forall|i: int, j: int| 0 <= i < j < select_upto(pool, pats, k).len()
            ==> rank(#[trigger] select_upto(pool, pats, k)[i], pats) <= rank(#[trigger] select_upto(pool, pats, k)[j], pats),
    decreases k,
{
    if k > 0 {
        lemma_select_upto(pool, pats, k - 1);
        lemma_with_score(pool, pats, k - 1);
        let a = select_upto(pool, pats, k - 1);
        let b = with_score(pool, pats, k - 1);
        let t = select_upto(pool, pats, k);
        assert(t == a + b);
        assert forall|i: int| 0 <= i < t.len() implies 0 <= #[trigger] rank(t[i], pats) < k by {
            if i < a.len() {
                assert(t[i] == a[i]);
            } else {
                assert(t[i] == b[i - a.len()]);
            }
        }
        assert forall|i: int, j: int| 0 <= i < j < t.len()
            implies rank(#[trigger] t[i], pats) <= rank(#[trigger] t[j], pats) by {
            if j < a.len() {
                assert(t[i] == a[i] && t[j] == a[j]);
            } else if i < a.len() {
                assert(t[i] == a[i] && t[j] == b[j - a.len()]);
                assert(0 <= rank(a[i], pats) < k - 1);
            } else {
                assert(t[i] == b[i - a.len()] && t[j] == b[j - a.len()]);
            }
        }
    }
}

/// Every chosen entry builds one of the requested packages, and the entries
/// come by ascending score: the best matches first.
pub proof fn lemma_selection_ranked(pool: Seq<Seq<char>>, pats: Seq<Seq<char>>)
    ensures
        forall|i: int| 0 <= i < selection(pool, pats).len()
            ==> (#[trigger] score(selection(pool, pats)[i], pats)) is Some,
        forall|i: int, j: int| 0 <= i < j < selection(pool, pats).len()
            ==> rank(#[trigger] selection(pool, pats)[i], pats) <= rank(#[trigger] selection(pool, pats)[j], pats),
{
    lemma_select_upto(pool, pats, pats.len() as int);
    let t = selection(pool, pats);
    assert forall|i: int| 0 <= i < t.len() implies (#[trigger] score(t[i], pats)) is Some by {
        assert(0 <= rank(t[i], pats));
    }
}

} // verus!
