//! What a search answers, and what a citation expands to, as the reader sees them.

use vstd::prelude::*;
use crate::text::{dec, decimal, first_k_lines, first_lines, has_prefix, starts_with, texts, trim,
    trimmed};

verus! {

/// The caveat every search carries: it matched words, not meaning.
pub const LEXICAL_CAVEAT: &'static str = "search is lexical: it matches the words in the text, not the meaning. Cyberbrain adds semantic search; Light does not have it.";

/// The caveats the index gives that speak of semantic search.
pub open spec fn about_semantic_search(c: Seq<char>) -> bool {
    has_prefix(c, "semantic search"@)
}

/// The caveats a search reports: the index's, less those about semantic search, which
/// read like a misconfiguration of a tool that has none, and then the lexical caveat.
pub open spec fn adjusted_caveats(cs: Seq<Seq<char>>) -> Seq<Seq<char>> {
    cs.filter(|c: Seq<char>| !about_semantic_search(c)).push(LEXICAL_CAVEAT@)
}

/// Say what the search actually is.
pub fn adjust_caveats(caveats: Vec<String>) -> (r: Vec<String>)
    ensures
        texts(r@) == adjusted_caveats(texts(caveats@)),
{
    let ghost cv = texts(caveats@);
    let ghost pred = |c: Seq<char>| !about_semantic_search(c);
    let mut out: Vec<String> = Vec::new();
    let mut i: usize = 0;
    proof {
        reveal(Seq::filter);
        assert(cv.take(0) =~= Seq::<Seq<char>>::empty());
    }
    while i < caveats.len()
        invariant
            i <= caveats.len(),
            cv == texts(caveats@),
            pred == (|c: Seq<char>| !about_semantic_search(c)),
            texts(out@) == cv.take(i as int).filter(pred),
        decreases caveats.len() - i,
    {
        proof {
            reveal(Seq::filter);
            assert(cv.take((i + 1) as int).drop_last() =~= cv.take(i as int));
            assert(cv.take((i + 1) as int).last() == caveats@[i as int]@);
        }
        if !starts_with(caveats[i].as_str(), "semantic search") {
            let ghost before = out@;
            out.push(String::from_str(caveats[i].as_str()));
            assert(texts(out@) =~= texts(before).push(caveats@[i as int]@));
        }
        i = i + 1;
    }
    proof {
        assert(cv.take(caveats.len() as int) =~= cv);
    }
    let ghost before = out@;
    out.push(String::from_str(LEXICAL_CAVEAT));
    assert(texts(out@) =~= texts(before).push(LEXICAL_CAVEAT@));
    out
}

/// Law: a search always says it was lexical, and never carries a caveat about semantic
/// search; every other caveat of the index is passed on.
pub proof fn recall_says_what_it_is_not_doing(cs: Seq<Seq<char>>)
    ensures
        adjusted_caveats(cs).contains(LEXICAL_CAVEAT@),
        forall|i: int|
            0 <= i < adjusted_caveats(cs).len() - 1 ==> !about_semantic_search(
                #[trigger] adjusted_caveats(cs)[i],
            ),
        forall|i: int|
            0 <= i < cs.len() && !about_semantic_search(cs[i]) ==> #[trigger] adjusted_caveats(
                cs,
            ).contains(cs[i]),
{
    let p = |c: Seq<char>| !about_semantic_search(c);
    let f = cs.filter(p);
    let a = adjusted_caveats(cs);
    assert(a[a.len() - 1] == LEXICAL_CAVEAT@);
    assert forall|i: int| 0 <= i < a.len() - 1 implies !about_semantic_search(#[trigger] a[i]) by {
        assert(a[i] == f[i]);
        cs.lemma_filter_pred(p, i);
    }
    assert forall|i: int| 0 <= i < cs.len() && !about_semantic_search(cs[i]) implies #[trigger] a.contains(
        cs[i],
    ) by {
        cs.lemma_filter_contains(p, i);
        let j = choose|j: int| 0 <= j < f.len() && f[j] == cs[i];
        assert(a[j] == f[j]);
    }
}

/// A citation expanded: the block it points at and the note it came from.
#[derive(Debug)]
pub struct Expanded {
    pub citation: String,
    pub name: String,
    pub ring: u8,
    pub block: String,
    pub body: String,
}

/// The refusal of a text that is not a citation.
pub fn not_a_citation(citation: &str) -> (m: String)
    ensures
        m@ == "`"@ + citation@ + "` is not a citation; they look like r2-a91f2c33e1bd"@,
{
    let mut m = String::from_str("`");
    m.append(citation);
    m.append("` is not a citation; they look like r2-a91f2c33e1bd");
    m
}

/// The refusal of a citation no block carries.
pub fn no_block_for(citation: &str) -> (m: String)
    ensures
        m@ == "no block carries the citation `"@ + citation@ + "`"@,
{
    let mut m = String::from_str("no block carries the citation `");
    m.append(citation);
    m.append("`");
    m
}

/// An expansion on the command line: citation, ring and name, then the note's body.
pub fn expanded_text(e: &Expanded) -> (r: String)
    ensures
        r@ == e.citation@ + "  r"@ + dec(e.ring as nat) + "  "@ + e.name@ + "\n\n"@ + trimmed(
            e.body@,
        ),
{
    let mut r = String::from_str(e.citation.as_str());
    r.append("  r");
    let d = decimal(e.ring as u64);
    r.append(d.as_str());
    r.append("  ");
    r.append(e.name.as_str());
    r.append("\n\n");
    let b = trim(e.body.as_str());
    r.append(b.as_str());
    r
}

/// An expansion as the `recall_id` tool answers it.
pub fn expanded_reply(e: &Expanded) -> (r: String)
    ensures
        r@ == e.citation@ + " r"@ + dec(e.ring as nat) + " `"@ + e.name@ + "`\n\n"@ + trimmed(
            e.body@,
        ),
{
    let mut r = String::from_str(e.citation.as_str());
    r.append(" r");
    let d = decimal(e.ring as u64);
    r.append(d.as_str());
    r.append(" `");
    r.append(e.name.as_str());
    r.append("`\n\n");
    let b = trim(e.body.as_str());
    r.append(b.as_str());
    r
}

/// A hit as the text output shows it. `share` is its score as a whole percentage of the
/// top hit's, already written out.
#[derive(Debug)]
pub struct HitView {
    pub citation: String,
    pub ring: u8,
    pub note_name: String,
    pub text: String,
    pub share: String,
}

/// Lines of a hit's text, each indented.
pub open spec fn indented(ls: Seq<Seq<char>>) -> Seq<char>
    decreases ls.len(),
{
    if ls.len() == 0 {
        Seq::empty()
    } else {
        indented(ls.drop_last()) + "     "@ + ls.last() + "\n"@
    }
}

/// The `k`-th hit: its number, citation, ring, note and share, then its first four lines.
pub open spec fn hit_entry(k: nat, h: HitView) -> Seq<char> {
    dec(k) + ". "@ + h.citation@ + "  r"@ + dec(h.ring as nat) + "  "@ + h.note_name@ + "  ("@
        + h.share@ + "% of top)\n"@ + indented(first_k_lines(h.text@, 4))
}

/// The hits, numbered from 1, each with its first four lines.
pub open spec fn hits_lines(hs: Seq<HitView>) -> Seq<char>
    decreases hs.len(),
{
    if hs.len() == 0 {
        Seq::empty()
    } else {
        hits_lines(hs.drop_last()) + hit_entry(hs.len(), hs.last())
    }
}

/// Law: the hits are written one numbered entry each, in order: the `i`-th hit adds exactly
/// its own entry, numbered `i + 1`, after the entries of the hits before it.
pub proof fn every_hit_is_one_numbered_entry(hs: Seq<HitView>, i: int)
    requires
        0 <= i < hs.len(),
    ensures
        hits_lines(hs.take(i + 1)) == hits_lines(hs.take(i)) + hit_entry((i + 1) as nat, hs[i]),
{
    assert(hs.take(i + 1).drop_last() =~= hs.take(i));
    assert(hs.take(i + 1).last() == hs[i]);
}

/// Law: with no hits, the text is "no hits" followed by the conflicts and the caveats.
pub proof fn no_hits_is_said(hs: Seq<HitView>, conflicts: Seq<Seq<char>>, caveats: Seq<Seq<char>>)
    ensures
        hs.len() == 0 ==> hits_text_spec(hs, conflicts, caveats) == "no hits\n"@ + labelled(
            "conflict: "@,
            conflicts,
        ) + labelled("caveat: "@, caveats),
{
    if hs.len() == 0 {
        assert(hits_lines(hs) =~= Seq::<char>::empty());
        assert(hits_text_spec(hs, conflicts, caveats) =~= "no hits\n"@ + labelled(
            "conflict: "@,
            conflicts,
        ) + labelled("caveat: "@, caveats));
    }
}

/// Texts, each after a label and followed by a line feed.
pub open spec fn labelled(label: Seq<char>, cs: Seq<Seq<char>>) -> Seq<char>
    decreases cs.len(),
{
    if cs.len() == 0 {
        Seq::empty()
    } else {
        labelled(label, cs.drop_last()) + label + cs.last() + "\n"@
    }
}

/// The text output of a search.
pub open spec fn hits_text_spec(
    hs: Seq<HitView>,
    conflicts: Seq<Seq<char>>,
    caveats: Seq<Seq<char>>,
) -> Seq<char> {
    (if hs.len() == 0 { "no hits\n"@ } else { Seq::empty() }) + hits_lines(hs) + labelled(
        "conflict: "@,
        conflicts,
    ) + labelled("caveat: "@, caveats)
}

fn append_labelled(out: &mut String, label: &str, cs: &Vec<String>)
    ensures
        final(out)@ == old(out)@ + labelled(label@, texts(cs@)),
{
    let mut i: usize = 0;
    while i < cs.len()
        invariant
            i <= cs.len(),
            out@ == old(out)@ + labelled(label@, texts(cs@).take(i as int)),
        decreases cs.len() - i,
    {
        assert(texts(cs@).take((i + 1) as int).drop_last() =~= texts(cs@).take(i as int));
        out.append(label);
        out.append(cs[i].as_str());
        out.append("\n");
        i = i + 1;
    }
    assert(texts(cs@).take(cs.len() as int) =~= texts(cs@));
}

fn append_indented(out: &mut String, ls: &Vec<String>)
    ensures
        final(out)@ == old(out)@ + indented(texts(ls@)),
{
    let mut i: usize = 0;
    while i < ls.len()
        invariant
            i <= ls.len(),
            out@ == old(out)@ + indented(texts(ls@).take(i as int)),
        decreases ls.len() - i,
    {
        assert(texts(ls@).take((i + 1) as int).drop_last() =~= texts(ls@).take(i as int));
        out.append("     ");
        out.append(ls[i].as_str());
        out.append("\n");
        i = i + 1;
    }
    assert(texts(ls@).take(ls.len() as int) =~= texts(ls@));
}

/// The text output of a search: each hit with its citation, ring, note and share of the top
/// score and its first four lines, then every conflict and every caveat.
pub fn hits_text(hits: &Vec<HitView>, conflicts: &Vec<String>, caveats: &Vec<String>) -> (r:
    String)
    requires
        hits.len() < u64::MAX,
    ensures
        r@ == hits_text_spec(hits@, texts(conflicts@), texts(caveats@)),
{
    let mut out = String::new();
    if hits.len() == 0 {
        out.append("no hits\n");
    }
    let ghost start = out@;
    let mut i: usize = 0;
    while i < hits.len()
        invariant
            i <= hits.len() < u64::MAX,
            out@ == start + hits_lines(hits@.take(i as int)),
        decreases hits.len() - i,
    {
        assert(hits@.take((i + 1) as int).drop_last() =~= hits@.take(i as int));
        let h = &hits[i];
        let num = decimal((i + 1) as u64);
        out.append(num.as_str());
        out.append(". ");
        out.append(h.citation.as_str());
        out.append("  r");
        let d = decimal(h.ring as u64);
        out.append(d.as_str());
        out.append("  ");
        out.append(h.note_name.as_str());
        out.append("  (");
        out.append(h.share.as_str());
        out.append("% of top)\n");
        let ls = first_lines(h.text.as_str(), 4);
        append_indented(&mut out, &ls);
        i = i + 1;
    }
    assert(hits@.take(hits.len() as int) =~= hits@);
    append_labelled(&mut out, "conflict: ", conflicts);
    append_labelled(&mut out, "caveat: ", caveats);
    out
}

} // verus!
