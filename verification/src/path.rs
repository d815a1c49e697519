//! Finding the store: from a directory upwards, the nearest one holding `.cyberbrain/notes`.
//!
//! Paths are `/`-separated texts. A directory's parent is what `Path::parent` gives on
//! Unix: the path without its last component and the separators and `.` components before
//! it, the root for a path with one component under the root, the empty path for a
//! relative path of one component, and none for the root and for the empty path. A `.`
//! counts as a component only at the start of a relative path, as it does for `Path`.

use vstd::prelude::*;
use crate::config::STORE_DIR;
use crate::text::chars_of;

verus! {

/// `s` without what ends it and names no component: separators, and `.` components after
/// a separator.
pub open spec fn trim_end(s: Seq<char>) -> Seq<char>
    decreases s.len(),
{
    if s.len() > 0 && s.last() == '/' {
        trim_end(s.drop_last())
    } else if s.len() >= 2 && s.last() == '.' && s[s.len() - 2] == '/' {
        trim_end(s.drop_last())
    } else {
        s
    }
}

/// The position of the last separator in `s`, or -1.
pub open spec fn last_slash(s: Seq<char>) -> int
    decreases s.len(),
{
    if s.len() == 0 {
        -1
    } else if s.last() == '/' {
        s.len() - 1
    } else {
        last_slash(s.drop_last())
    }
}

/// The parent directory of `p`.
pub open spec fn parent(p: Seq<char>) -> Option<Seq<char>> {
    let q = trim_end(p);
    if q.len() == 0 {
        None
    } else {
        let k = last_slash(q);
        if k < 0 {
            Some(Seq::empty())
        } else {
            let r = trim_end(q.take(k));
            if r.len() == 0 {
                Some(seq!['/'])
            } else {
                Some(r)
            }
        }
    }
}

pub proof fn lemma_trim_end(s: Seq<char>)
    ensures
        trim_end(s).len() <= s.len(),
        trim_end(s) == s.take(trim_end(s).len() as int),
        trim_end(s).len() == 0 || trim_end(s).last() != '/',
        s.len() > 0 && trim_end(s).len() == 0 ==> s[0] == '/',
    decreases s.len(),
{
    if (s.len() > 0 && s.last() == '/') || (s.len() >= 2 && s.last() == '.' && s[s.len() - 2]
        == '/') {
        lemma_trim_end(s.drop_last());
        let r = trim_end(s.drop_last());
        assert(s.take(r.len() as int) =~= s.drop_last().take(r.len() as int));
        if s.len() > 1 {
            assert(s.drop_last()[0] == s[0]);
        }
    } else {
        assert(s.take(s.len() as int) =~= s);
    }
}

pub proof fn lemma_last_slash(s: Seq<char>)
    ensures
        -1 <= last_slash(s) < s.len(),
        last_slash(s) >= 0 ==> s[last_slash(s)] == '/',
        forall|j: int| last_slash(s) < j < s.len() ==> #[trigger] s[j] != '/',
    decreases s.len(),
{
    if s.len() > 0 && s.last() != '/' {
        lemma_last_slash(s.drop_last());
        assert forall|j: int| last_slash(s) < j < s.len() implies #[trigger] s[j] != '/' by {
            if j < s.len() - 1 {
                assert(s[j] == s.drop_last()[j]);
            }
        }
    }
}

/// The parent, when there is one, is a strictly shorter beginning of the path.
pub proof fn lemma_parent(p: Seq<char>)
    ensures
        parent(p) matches Some(r) ==> r.len() < p.len() && r == p.take(r.len() as int),
{
    let q = trim_end(p);
    lemma_trim_end(p);
    if q.len() > 0 {
        let k = last_slash(q);
        lemma_last_slash(q);
        if k >= 0 {
            let t = q.take(k);
            lemma_trim_end(t);
            let r = trim_end(t);
            if r.len() == 0 {
                assert(q[k] == '/');
                if k == 0 {
                    assert(p[0] == q[0]);
                } else {
                    assert(t[0] == '/');
                    assert(p[0] == t[0]);
                }
                assert(p.take(1) =~= seq!['/']);
                assert(q.last() != '/');
                assert(q.len() > 1);
            } else {
                assert(r =~= p.take(r.len() as int));
            }
        } else {
            assert(p.take(0) =~= Seq::<char>::empty());
        }
    }
}

/// The directory and every directory above it, nearest first.
pub open spec fn ancestors(p: Seq<char>) -> Seq<Seq<char>>
    decreases p.len(),
{
    match parent(p) {
        Some(r) => {
            proof {
                lemma_parent(p);
            }
            seq![p] + ancestors(r)
        },
        None => seq![p],
    }
}

/// `name` inside `dir`.
pub open spec fn join(dir: Seq<char>, name: Seq<char>) -> Seq<char> {
    if dir.len() == 0 {
        name
    } else if dir.last() == '/' {
        dir + name
    } else {
        dir + seq!['/'] + name
    }
}

/// Where a store would be, for `from` and each directory above it.
pub open spec fn candidates(from: Seq<char>) -> Seq<Seq<char>> {
    ancestors(from).map_values(|d: Seq<char>| join(d, STORE_DIR@))
}

/// Law: the search for a store starts at the directory itself and goes up one parent at a
/// time until a path that has none, looking for `.cyberbrain` in each directory on the way.
pub proof fn the_search_walks_up_to_the_top(from: Seq<char>)
    ensures
        ancestors(from).len() >= 1,
        ancestors(from)[0] == from,
        forall|i: int|
            0 <= i < ancestors(from).len() - 1 ==> parent(#[trigger] ancestors(from)[i]) == Some(
                ancestors(from)[i + 1],
            ),
        parent(ancestors(from).last()) is None,
        candidates(from).len() == ancestors(from).len(),
        forall|i: int|
            0 <= i < candidates(from).len() ==> #[trigger] candidates(from)[i] == join(
                ancestors(from)[i],
                STORE_DIR@,
            ),
    decreases from.len(),
{
    match parent(from) {
        Some(r) => {
            lemma_parent(from);
            the_search_walks_up_to_the_top(r);
            let a = ancestors(from);
            let b = ancestors(r);
            assert(a == seq![from] + b);
            assert forall|i: int| 0 <= i < a.len() - 1 implies parent(#[trigger] a[i]) == Some(
                a[i + 1],
            ) by {
                if i > 0 {
                    assert(a[i] == b[i - 1]);
                    assert(a[i + 1] == b[i]);
                }
            }
            assert(a.last() == b.last());
        },
        None => {},
    }
}

fn trim_end_len(c: &Vec<char>, end: usize) -> (m: usize)
    requires
        end <= c.len(),
    ensures
        m <= end,
        trim_end(c@.take(end as int)) == c@.take(m as int),
{
    let mut m = end;
    while m > 0 && (c[m - 1] == '/' || (m >= 2 && c[m - 1] == '.' && c[m - 2] == '/'))
        invariant
            m <= end <= c.len(),
            trim_end(c@.take(end as int)) == trim_end(c@.take(m as int)),
        decreases m,
    {
        assert(c@.take(m as int).drop_last() =~= c@.take(m - 1));
        m = m - 1;
    }
    assert(m == 0 ==> c@.take(0) =~= Seq::<char>::empty());
    m
}

fn last_slash_in(c: &Vec<char>, end: usize) -> (k: Option<usize>)
    requires
        end <= c.len(),
    ensures
        last_slash(c@.take(end as int)) < 0 <==> k is None,
        k matches Some(x) ==> x == last_slash(c@.take(end as int)),
{
    let mut i = end;
    while i > 0
        invariant
            i <= end <= c.len(),
            last_slash(c@.take(end as int)) == last_slash(c@.take(i as int)),
        decreases i,
    {
        assert(c@.take(i as int).drop_last() =~= c@.take(i - 1));
        if c[i - 1] == '/' {
            return Some(i - 1);
        }
        i = i - 1;
    }
    assert(c@.take(0) =~= Seq::<char>::empty());
    None
}

/// The parent directory of `p`, as `parent` has it.
pub fn parent_dir(p: &str) -> (r: Option<String>)
    ensures
        parent(p@) is None ==> r is None,
        parent(p@) matches Some(x) ==> (r matches Some(y) && y@ == x),
{
    let c = chars_of(p);
    let n = c.len();
    proof {
        assert(c@.take(n as int) =~= p@);
    }
    let e = trim_end_len(&c, n);
    if e == 0 {
        return None;
    }
    proof {
        lemma_trim_end(p@);
        lemma_last_slash(c@.take(e as int));
        assert(c@.take(e as int).take(e as int) =~= c@.take(e as int));
    }
    match last_slash_in(&c, e) {
        None => {
            proof {
                assert(trim_end(p@) == c@.take(e as int));
            }
            Some(String::new())
        },
        Some(k) => {
            assert(c@.take(e as int).take(k as int) =~= c@.take(k as int));
            let m = trim_end_len(&c, k);
            proof {
                reveal_strlit("/");
                assert(p@.subrange(0, m as int) =~= c@.take(m as int));
                let q = trim_end(p@);
                assert(q == c@.take(e as int));
                assert(last_slash(q) == k);
                assert(q.take(k as int) == c@.take(k as int));
                assert(trim_end(q.take(k as int)) == c@.take(m as int));
            }
            if m == 0 {
                assert("/"@ =~= seq!['/']);
                Some(String::from_str("/"))
            } else {
                Some(String::from_str(p.substring_char(0, m)))
            }
        },
    }
}

/// The directory and every directory above it, nearest first.
pub fn ancestor_dirs(from: &str) -> (v: Vec<String>)
    ensures
        v@.map_values(|s: String| s@) == ancestors(from@),
{
    let mut v: Vec<String> = Vec::new();
    let mut cur = String::from_str(from);
    loop
        invariant
            v@.map_values(|s: String| s@) + ancestors(cur@) == ancestors(from@),
        decreases cur@.len(),
    {
        let ghost before = v@;
        let ghost c = cur@;
        match parent_dir(cur.as_str()) {
            None => {
                v.push(cur);
                assert(v@.map_values(|s: String| s@) =~= before.map_values(|s: String| s@) + seq![
                    c,
                ]);
                assert(ancestors(c) == seq![c]);
                return v;
            },
            Some(r) => {
                proof {
                    lemma_parent(c);
                }
                v.push(cur);
                assert(v@.map_values(|s: String| s@) =~= before.map_values(|s: String| s@) + seq![
                    c,
                ]);
                assert(ancestors(c) == seq![c] + ancestors(r@));
                assert(v@.map_values(|s: String| s@) + ancestors(r@) =~= before.map_values(
                    |s: String| s@,
                ) + ancestors(c));
                cur = r;
            },
        }
    }
}

/// `name` inside `dir`.
pub fn join_dir(dir: &str, name: &str) -> (r: String)
    ensures
        r@ == join(dir@, name@),
{
    let n = dir.unicode_len();
    if n == 0 {
        String::from_str(name)
    } else if dir.get_char(n - 1) == '/' {
        let mut r = String::from_str(dir);
        r.append(name);
        r
    } else {
        let mut r = String::from_str(dir);
        r.append("/");
        r.append(name);
        proof {
            reveal_strlit("/");
            assert("/"@ =~= seq!['/']);
        }
        r
    }
}

/// Where a store would be, for `from` and each directory above it, nearest first.
pub fn store_candidates(from: &str) -> (v: Vec<String>)
    ensures
        v@.map_values(|s: String| s@) == candidates(from@),
{
    let dirs = ancestor_dirs(from);
    let mut v: Vec<String> = Vec::new();
    let mut i: usize = 0;
    while i < dirs.len()
        invariant
            i <= dirs.len(),
            dirs@.map_values(|s: String| s@) == ancestors(from@),
            v@.map_values(|s: String| s@) == ancestors(from@).take(i as int).map_values(
                |d: Seq<char>| join(d, STORE_DIR@),
            ),
        decreases dirs.len() - i,
    {
        let ghost before = v@;
        let c = join_dir(dirs[i].as_str(), STORE_DIR);
        let ghost cv = c@;
        v.push(c);
        proof {
            assert(v@.map_values(|s: String| s@) =~= before.map_values(|s: String| s@).push(cv));
            assert(dirs@.map_values(|s: String| s@)[i as int] == dirs@[i as int]@);
            assert(ancestors(from@).take((i + 1) as int) =~= ancestors(from@).take(i as int).push(
                dirs@[i as int]@,
            ));
            assert(v@.map_values(|s: String| s@) =~= ancestors(from@).take((i + 1) as int).map_values(
                |d: Seq<char>| join(d, STORE_DIR@),
            ));
        }
        i = i + 1;
    }
    proof {
        assert(dirs@.map_values(|s: String| s@).len() == dirs@.len());
        assert(ancestors(from@).take(i as int) =~= ancestors(from@));
    }
    v
}

/// The refusal when no store is found.
pub open spec fn no_store_message(from: Seq<char>) -> Seq<char> {
    "no store found in "@ + from
        + " or any directory above it; run `cbl init` in your project"@
}

/// Walk up from `from` looking for a store: an explicit store wins; otherwise the nearest
/// candidate that holds a notes directory. `is_store[i]` says whether the `i`-th of
/// `store_candidates(from)` does.
pub fn find_store(explicit: Option<String>, from: &str, is_store: &Vec<bool>) -> (r: Result<
    String,
    String,
>)
    ensures
        explicit matches Some(p) ==> (r matches Ok(s) && s@ == p@),
        explicit is None ==> ({
            let c = candidates(from@);
            match r {
                Ok(s) => exists|i: int|
                    0 <= i < c.len() && i < is_store@.len() && is_store@[i] && s@ == c[i]
                        && forall|j: int| 0 <= j < i ==> !#[trigger] is_store@[j],
                Err(m) => m@ == no_store_message(from@) && forall|i: int|
                    0 <= i < c.len() && i < is_store@.len() ==> !#[trigger] is_store@[i],
            }
        }),
{
    if let Some(p) = explicit {
        return Ok(p);
    }
    let c = store_candidates(from);
    let ghost cv = c@.map_values(|s: String| s@);
    let mut i: usize = 0;
    while i < c.len() && i < is_store.len()
        invariant
            i <= c.len(),
            explicit is None,
            cv == c@.map_values(|s: String| s@),
            cv == candidates(from@),
            forall|j: int| 0 <= j < i && j < is_store@.len() ==> !#[trigger] is_store@[j],
        decreases c.len() - i,
    {
        if is_store[i] {
            assert(cv[i as int] == c@[i as int]@);
            return Ok(String::from_str(c[i].as_str()));
        }
        i = i + 1;
    }
    let mut m = String::from_str("no store found in ");
    m.append(from);
    m.append(" or any directory above it; run `cbl init` in your project");
    Err(m)
}

} // verus!
