//! The rules a write follows before anything reaches the store: the name and tags it
//! records, the identity it keeps, and the one move it refuses.

use vstd::prelude::*;
use crate::cli::Kind;
use crate::text::{dec, decimal, trim, trimmed};

verus! {

/// A note to write.
#[derive(Debug)]
pub struct WriteRequest {
    pub ring: u8,
    pub kind: Kind,
    pub name: String,
    pub body: String,
    pub tags: Vec<String>,
}

/// An instant, as seconds and nanoseconds since the Unix epoch.
#[derive(Debug, Clone, Copy, PartialEq, Eq, Structural)]
pub struct Stamp {
    pub second: i64,
    pub nanosecond: i32,
}

/// What a write reports.
#[derive(Debug)]
pub struct Written {
    pub id: String,
    pub name: String,
    pub ring: u8,
    pub path: String,
    pub bytes: usize,
    pub created: bool,
    pub blocks: usize,
    pub links: usize,
    pub oversized: usize,
}

/// The name a note is written under: the given one without surrounding whitespace.
pub fn clean_name(name: &str) -> (r: String)
    ensures
        r@ == trimmed(name@),
{
    trim(name)
}

/// The tags a note records: each trimmed, empty ones dropped, and each kept once, where it
/// first appears.
pub open spec fn clean_tags_spec(tags: Seq<Seq<char>>) -> Seq<Seq<char>>
    decreases tags.len(),
{
    if tags.len() == 0 {
        Seq::empty()
    } else {
        let acc = clean_tags_spec(tags.drop_last());
        let t = trimmed(tags.last());
        if t.len() > 0 && !acc.contains(t) {
            acc.push(t)
        } else {
            acc
        }
    }
}

fn contains_str(v: &Vec<String>, s: &str) -> (r: bool)
    ensures
        r == v@.map_values(|x: String| x@).contains(s@),
{
    let mut i: usize = 0;
    while i < v.len()
        invariant
            i <= v.len(),
            forall|j: int| 0 <= j < i ==> v@[j]@ != s@,
        decreases v.len() - i,
    {
        if crate::text::str_eq(v[i].as_str(), s) {
            assert(v@.map_values(|x: String| x@)[i as int] == s@);
            return true;
        }
        i = i + 1;
    }
    proof {
        let vv = v@.map_values(|x: String| x@);
        if vv.contains(s@) {
            let k = choose|k: int| 0 <= k < vv.len() && #[trigger] vv[k] == s@;
            assert(v@[k]@ == s@);
        }
    }
    false
}

/// Clean a write's tags.
pub fn clean_tags(tags: &Vec<String>) -> (r: Vec<String>)
    ensures
        r@.map_values(|x: String| x@) == clean_tags_spec(tags@.map_values(|x: String| x@)),
{
    let ghost tv = tags@.map_values(|x: String| x@);
    let mut out: Vec<String> = Vec::new();
    let mut i: usize = 0;
    while i < tags.len()
        invariant
            i <= tags.len(),
            tv == tags@.map_values(|x: String| x@),
            out@.map_values(|x: String| x@) == clean_tags_spec(tv.take(i as int)),
        decreases tags.len() - i,
    {
        proof {
            assert(tv.take((i + 1) as int).drop_last() =~= tv.take(i as int));
            assert(tv.take((i + 1) as int).last() == tags@[i as int]@);
        }
        let t = trim(tags[i].as_str());
        if t.as_str().unicode_len() > 0 && !contains_str(&out, t.as_str()) {
            let ghost before = out@;
            out.push(t);
            assert(out@.map_values(|x: String| x@) =~= before.map_values(|x: String| x@).push(
                trimmed(tags@[i as int]@),
            ));
        }
        i = i + 1;
    }
    proof {
        assert(tv.take(tags.len() as int) =~= tv);
    }
    out
}

/// Law: the tags a write keeps have no repeats and no empty tag, and are never more than
/// the tags it was given.
pub proof fn clean_tags_are_distinct(tags: Seq<Seq<char>>)
    ensures
        clean_tags_spec(tags).no_duplicates(),
        forall|j: int|
            0 <= j < clean_tags_spec(tags).len() ==> #[trigger] clean_tags_spec(tags)[j].len() > 0,
        clean_tags_spec(tags).len() <= tags.len(),
    decreases tags.len(),
{
    if tags.len() > 0 {
        clean_tags_are_distinct(tags.drop_last());
        let acc = clean_tags_spec(tags.drop_last());
        let t = trimmed(tags.last());
        if t.len() > 0 && !acc.contains(t) {
            let r = acc.push(t);
            assert forall|a: int, b: int| 0 <= a < r.len() && 0 <= b < r.len() && a != b implies r[a]
                != r[b] by {
                if a == r.len() - 1 {
                    assert(r[b] == acc[b]);
                } else if b == r.len() - 1 {
                    assert(r[a] == acc[a]);
                } else {
                    assert(r[a] == acc[a]);
                    assert(r[b] == acc[b]);
                }
            }
            assert forall|j: int| 0 <= j < r.len() implies #[trigger] r[j].len() > 0 by {
                if j < r.len() - 1 {
                    assert(r[j] == acc[j]);
                }
            }
        }
    }
}

/// Whether a write to `requested` would move a note that exists in another ring.
pub open spec fn move_refused(existing: Option<u8>, requested: u8) -> bool {
    existing matches Some(e) && e != requested
}

/// Moving a note between rings changes what it may override; a write that would do it is
/// refused, with the way to do it on purpose.
pub fn ring_move_refusal(name: &str, existing: Option<u8>, requested: u8) -> (r: Option<String>)
    ensures
        r is Some <==> move_refused(existing, requested),
        match existing {
            Some(e) => if e != requested {
                r matches Some(m) && m@ == "`"@ + name@ + "` already exists in ring "@ + dec(
                    e as nat,
                ) + " and this write says ring "@ + dec(requested as nat) + "; `cbl forget "@
                    + name@ + "` first if the move is what you mean"@
            } else {
                r is None
            },
            None => r is None,
        },
{
    match existing {
        Some(e) => if e != requested {
            let mut m = String::from_str("`");
            m.append(name);
            m.append("` already exists in ring ");
            let a = decimal(e as u64);
            m.append(a.as_str());
            m.append(" and this write says ring ");
            let b = decimal(requested as u64);
            m.append(b.as_str());
            m.append("; `cbl forget ");
            m.append(name);
            m.append("` first if the move is what you mean");
            Some(m)
        } else {
            None
        },
        None => None,
    }
}

/// The id, creation and update instants of a note being written: an existing note keeps
/// its id and its creation instant; a new one takes the fresh id and now.
pub open spec fn identity_spec(existing: Option<(u128, Stamp)>, fresh: u128, now: Stamp) -> (
    u128,
    Stamp,
    Stamp,
) {
    match existing {
        Some((id, created)) => (id, created, now),
        None => (fresh, now, now),
    }
}

/// The identity of a note being written; see `identity_spec`.
pub fn note_identity(existing: Option<(u128, Stamp)>, fresh: u128, now: Stamp) -> (r: (
    u128,
    Stamp,
    Stamp,
))
    ensures
        r == identity_spec(existing, fresh, now),
{
    match existing {
        Some((id, created)) => (id, created, now),
        None => (fresh, now, now),
    }
}

/// Law: rewriting a name keeps its id and its creation instant. A note written new and
/// then written again under the same name has the identity of the first write, whatever
/// fresh id and instant the second write was offered; only the update instant moves.
pub proof fn rewrite_keeps_identity(fresh1: u128, now1: Stamp, fresh2: u128, now2: Stamp)
    ensures
        ({
            let first = identity_spec(None, fresh1, now1);
            let second = identity_spec(Some((first.0, first.1)), fresh2, now2);
            &&& second.0 == first.0
            &&& second.1 == first.1
            &&& second.2 == now2
        }),
{
}


/// Law: a write that is not refused keeps the note in the ring it names; rewriting an
/// existing note keeps its id and creation instant, a new note takes the fresh id and now,
/// and either way the update instant is now.
pub proof fn a_write_keeps_its_ring_and_identity(
    existing: Option<(u8, u128, Stamp)>,
    requested: u8,
    fresh: u128,
    now: Stamp,
)
    requires
        !move_refused(
            match existing {
                Some(e) => Some(e.0),
                None => None,
            },
            requested,
        ),
    ensures
        ({
            let known = match existing {
                Some(e) => Some((e.1, e.2)),
                None => None,
            };
            let r = identity_spec(known, fresh, now);
            &&& existing matches Some(e) ==> e.0 == requested && r.0 == e.1 && r.1 == e.2
            &&& existing is None ==> r.0 == fresh && r.1 == now
            &&& r.2 == now
        }),
{
}


/// Law: every tag given that is not blank is kept, trimmed, and every tag kept is one of the
/// given tags, trimmed.
pub proof fn every_given_tag_is_kept(tags: Seq<Seq<char>>)
    ensures
        forall|i: int|
            0 <= i < tags.len() && trimmed(tags[i]).len() > 0 ==> #[trigger] clean_tags_spec(
                tags,
            ).contains(trimmed(tags[i])),
        forall|j: int|
            0 <= j < clean_tags_spec(tags).len() ==> exists|i: int|
                0 <= i < tags.len() && #[trigger] clean_tags_spec(tags)[j] == trimmed(tags[i]),
    decreases tags.len(),
{
    if tags.len() > 0 {
        let init = tags.drop_last();
        every_given_tag_is_kept(init);
        let acc = clean_tags_spec(init);
        let r = clean_tags_spec(tags);
        let t = trimmed(tags.last());
        assert forall|i: int| 0 <= i < tags.len() && trimmed(tags[i]).len() > 0 implies #[trigger] r.contains(
            trimmed(tags[i]),
        ) by {
            if i < init.len() {
                assert(init[i] == tags[i]);
                assert(acc.contains(trimmed(init[i])));
                let k = choose|k: int| 0 <= k < acc.len() && acc[k] == trimmed(init[i]);
                if t.len() > 0 && !acc.contains(t) {
                    assert(r[k] == acc[k]);
                }
            } else {
                assert(tags[i] == tags.last());
                if !acc.contains(t) {
                    assert(r[acc.len() as int] == t);
                }
            }
        }
        assert forall|j: int| 0 <= j < r.len() implies exists|i: int|
            0 <= i < tags.len() && #[trigger] r[j] == trimmed(tags[i]) by {
            if j < acc.len() {
                assert(r[j] == acc[j]);
                let i = choose|i: int| 0 <= i < init.len() && acc[j] == trimmed(init[i]);
                assert(init[i] == tags[i]);
            } else {
                assert(r[j] == trimmed(tags[tags.len() - 1]));
            }
        }
    }
}

} // verus!
