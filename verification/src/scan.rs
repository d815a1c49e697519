//! Rebuilding the index from the notes tree: what each file comes to, and the report.
//!
//! The caller walks the tree and talks to the store and the index; each decision it needs
//! is made here, and each file's outcome is recorded here.

use vstd::prelude::*;
use crate::text::{dec, decimal, texts};

verus! {

/// What the index says of itself.
#[derive(Debug)]
pub struct IndexStats {
    pub schema_version: u32,
    pub notes: usize,
    pub blocks: usize,
    pub links: usize,
    pub dangling_links: usize,
}

/// What a scan did.
#[derive(Debug)]
pub struct ScanReport {
    pub added: usize,
    pub updated: usize,
    pub unchanged: usize,
    pub removed: usize,
    pub blocks: usize,
    pub oversized: usize,
    pub links_written_back: usize,
    pub skipped: Vec<String>,
    pub ms: u64,
    pub stats: Option<IndexStats>,
}

/// What became of one file of the tree.
#[derive(Debug)]
pub enum Outcome {
    /// It could not be read; the text says why.
    Unreadable { path: String, error: String },
    /// Its id is already taken by a note seen earlier in this scan.
    DuplicateId { path: String, id: String },
    /// Its content hash is what the index already has.
    Unchanged,
    /// It was written into the index, replacing an earlier version or not.
    Indexed { replaced: bool, blocks: usize, oversized: usize },
}

/// The line a skipped file gets.
pub open spec fn skip_line(path: Seq<char>, reason: Seq<char>) -> Seq<char> {
    path + ": "@ + reason
}

pub fn skip_text(path: &str, reason: &str) -> (r: String)
    ensures
        r@ == skip_line(path@, reason@),
{
    let mut r = String::from_str(path);
    r.append(": ");
    r.append(reason);
    r
}

/// The line a file with a duplicate id gets.
pub open spec fn duplicate_line(path: Seq<char>, id: Seq<char>) -> Seq<char> {
    path + ": id "@ + id + " is already used by another note; ids are unique"@
}

/// A scan's counts after some outcomes.
pub struct Tally {
    pub added: nat,
    pub updated: nat,
    pub unchanged: nat,
    pub blocks: nat,
    pub oversized: nat,
    pub skipped: Seq<Seq<char>>,
}

pub open spec fn tally_step(t: Tally, o: Outcome) -> Tally {
    match o {
        Outcome::Unreadable { path, error } => Tally {
            skipped: t.skipped.push(skip_line(path@, error@)),
            ..t
        },
        Outcome::DuplicateId { path, id } => Tally {
            skipped: t.skipped.push(duplicate_line(path@, id@)),
            ..t
        },
        Outcome::Unchanged => Tally { unchanged: t.unchanged + 1, ..t },
        Outcome::Indexed { replaced, blocks, oversized } => Tally {
            added: if replaced { t.added } else { t.added + 1 },
            updated: if replaced { t.updated + 1 } else { t.updated },
            blocks: (t.blocks + blocks) as nat,
            oversized: (t.oversized + oversized) as nat,
            ..t
        },
    }
}

/// The counts after the outcomes, in order, starting from `t`.
pub open spec fn tally(t: Tally, os: Seq<Outcome>) -> Tally
    decreases os.len(),
{
    if os.len() == 0 {
        t
    } else {
        tally_step(tally(t, os.drop_last()), os.last())
    }
}

/// Law: every file of the tree is accounted for exactly once, as added, updated, unchanged
/// or skipped.
pub proof fn every_file_counted_once(t: Tally, os: Seq<Outcome>)
    ensures
        tally(t, os).added + tally(t, os).updated + tally(t, os).unchanged + tally(t, os).skipped.len()
            == t.added + t.updated + t.unchanged + t.skipped.len() + os.len(),
        tally(t, os).skipped.len() >= t.skipped.len(),
        tally(t, os).skipped.take(t.skipped.len() as int) == t.skipped,
    decreases os.len(),
{
    if os.len() > 0 {
        every_file_counted_once(t, os.drop_last());
        let p = tally(t, os.drop_last());
        assert(tally(t, os).skipped.take(t.skipped.len() as int) =~= p.skipped.take(
            t.skipped.len() as int,
        )) by {
            assert(p.skipped.len() >= t.skipped.len());
        }
    }
}

/// Law: a scan over a tree whose every note is as the index has it changes no count but
/// `unchanged`, which grows by one per note.
pub proof fn an_unchanged_tree_is_left_alone(t: Tally, os: Seq<Outcome>)
    requires
        forall|i: int| 0 <= i < os.len() ==> #[trigger] os[i] is Unchanged,
    ensures
        tally(t, os) == (Tally { unchanged: t.unchanged + os.len(), ..t }),
    decreases os.len(),
{
    if os.len() > 0 {
        let init = os.drop_last();
        assert forall|i: int| 0 <= i < init.len() implies #[trigger] init[i] is Unchanged by {
            assert(init[i] == os[i]);
        }
        an_unchanged_tree_is_left_alone(t, init);
        assert(os.last() == os[os.len() - 1]);
    }
}

/// Law: after the index was thrown away, every note read is written into it as new: the
/// notes are all counted as added, none as updated or unchanged.
pub proof fn a_rebuilt_index_adds_every_note(t: Tally, os: Seq<Outcome>)
    requires
        forall|i: int| 0 <= i < os.len() ==> (#[trigger] os[i] matches Outcome::Indexed {
            replaced,
            ..
        } && !replaced),
    ensures
        tally(t, os).added == t.added + os.len(),
        tally(t, os).updated == t.updated,
        tally(t, os).unchanged == t.unchanged,
        tally(t, os).skipped == t.skipped,
    decreases os.len(),
{
    if os.len() > 0 {
        let init = os.drop_last();
        assert forall|i: int| 0 <= i < init.len() implies (#[trigger] init[i] matches Outcome::Indexed {
            replaced,
            ..
        } && !replaced) by {
            assert(init[i] == os[i]);
        }
        a_rebuilt_index_adds_every_note(t, init);
        assert(os.last() == os[os.len() - 1]);
    }
}

/// Whether a note must be written into the index: always on a full scan, and otherwise
/// when the index does not hold its content hash.
pub open spec fn indexing_needed(full: bool, known: Option<Seq<char>>, hash: Seq<char>) -> bool {
    full || known != Some(hash)
}

/// Law: a full scan writes every note into the index, and an incremental one leaves alone
/// exactly the notes whose hash the index already holds.
pub proof fn only_a_changed_note_is_reindexed(known: Option<Seq<char>>, hash: Seq<char>)
    ensures
        indexing_needed(true, known, hash),
        !indexing_needed(false, known, hash) <==> known == Some(hash),
{
}

/// The counts a report holds.
pub open spec fn counts(r: ScanReport) -> Tally {
    Tally {
        added: r.added as nat,
        updated: r.updated as nat,
        unchanged: r.unchanged as nat,
        blocks: r.blocks as nat,
        oversized: r.oversized as nat,
        skipped: texts(r.skipped@),
    }
}

impl ScanReport {
    /// A report before any file: the listing's own skips, nothing else.
    pub fn start(skipped: Vec<String>) -> (r: ScanReport)
        ensures
            counts(r) == (Tally {
                added: 0,
                updated: 0,
                unchanged: 0,
                blocks: 0,
                oversized: 0,
                skipped: texts(skipped@),
            }),
            r.removed == 0,
            r.links_written_back == 0,
            r.ms == 0,
            r.stats is None,
    {
        ScanReport {
            added: 0,
            updated: 0,
            unchanged: 0,
            removed: 0,
            blocks: 0,
            oversized: 0,
            links_written_back: 0,
            skipped,
            ms: 0,
            stats: None,
        }
    }

    /// Record what became of one file.
    pub fn record(&mut self, o: Outcome)
        requires
            old(self).added < usize::MAX,
            old(self).updated < usize::MAX,
            old(self).unchanged < usize::MAX,
            o matches Outcome::Indexed { blocks, oversized, .. } ==> old(self).blocks + blocks
                <= usize::MAX && old(self).oversized + oversized <= usize::MAX,
        ensures
            counts(*final(self)) == tally_step(counts(*old(self)), o),
            final(self).removed == old(self).removed,
            final(self).links_written_back == old(self).links_written_back,
            final(self).ms == old(self).ms,
            final(self).stats == old(self).stats,
    {
        let ghost before = self.skipped@;
        match o {
            Outcome::Unreadable { path, error } => {
                let line = skip_text(path.as_str(), error.as_str());
                self.skipped.push(line);
                assert(texts(self.skipped@) =~= texts(before).push(skip_line(path@, error@)));
            },
            Outcome::DuplicateId { path, id } => {
                let mut line = String::from_str(path.as_str());
                line.append(": id ");
                line.append(id.as_str());
                line.append(" is already used by another note; ids are unique");
                self.skipped.push(line);
                assert(texts(self.skipped@) =~= texts(before).push(duplicate_line(path@, id@)));
            },
            Outcome::Unchanged => {
                self.unchanged = self.unchanged + 1;
            },
            Outcome::Indexed { replaced, blocks, oversized } => {
                if replaced {
                    self.updated = self.updated + 1;
                } else {
                    self.added = self.added + 1;
                }
                self.blocks = self.blocks + blocks;
                self.oversized = self.oversized + oversized;
            },
        }
    }

    /// Record that a note's links were written back into its file.
    pub fn record_links_written_back(&mut self)
        requires
            old(self).links_written_back < usize::MAX,
        ensures
            final(self).links_written_back == old(self).links_written_back + 1,
            counts(*final(self)) == counts(*old(self)),
            final(self).removed == old(self).removed,
            final(self).ms == old(self).ms,
            final(self).stats == old(self).stats,
    {
        self.links_written_back = self.links_written_back + 1;
    }

    /// Record that a note which left the tree left the index.
    pub fn record_removed(&mut self)
        requires
            old(self).removed < usize::MAX,
        ensures
            final(self).removed == old(self).removed + 1,
            counts(*final(self)) == counts(*old(self)),
            final(self).links_written_back == old(self).links_written_back,
            final(self).ms == old(self).ms,
            final(self).stats == old(self).stats,
    {
        self.removed = self.removed + 1;
    }
}

/// Ids are unique: the first note to carry one keeps it, and a later one is skipped.
/// Returns whether `id` is seen for the first time, and remembers it.
pub fn first_sighting(seen: &mut Vec<u128>, id: u128) -> (r: bool)
    ensures
        r == !old(seen)@.contains(id),
        final(seen)@ == if r { old(seen)@.push(id) } else { old(seen)@ },
{
    let mut i: usize = 0;
    while i < seen.len()
        invariant
            i <= seen.len(),
            seen@ == old(seen)@,
            forall|j: int| 0 <= j < i ==> seen@[j] != id,
        decreases seen.len() - i,
    {
        if seen[i] == id {
            return false;
        }
        i = i + 1;
    }
    seen.push(id);
    true
}

/// Links are derived from the body, never maintained by hand: whether the ones in the head
/// differ from the ones the body has, so that they must be written back.
pub fn links_differ(derived: &Vec<String>, recorded: &Vec<String>) -> (r: bool)
    ensures
        r == (texts(derived@) != texts(recorded@)),
{
    if derived.len() != recorded.len() {
        assert(texts(derived@).len() != texts(recorded@).len());
        return true;
    }
    let mut i: usize = 0;
    while i < derived.len()
        invariant
            i <= derived.len() == recorded.len(),
            forall|j: int| 0 <= j < i ==> derived@[j]@ == recorded@[j]@,
        decreases derived.len() - i,
    {
        if !crate::text::str_eq(derived[i].as_str(), recorded[i].as_str()) {
            assert(texts(derived@)[i as int] != texts(recorded@)[i as int]);
            return true;
        }
        i = i + 1;
    }
    assert(texts(derived@) =~= texts(recorded@));
    false
}

/// Whether a note must be written into the index; see `indexing_needed`.
pub fn needs_indexing(full: bool, known: &Option<String>, hash: &str) -> (r: bool)
    ensures
        r == indexing_needed(
            full,
            match known {
                Some(k) => Some(k@),
                None => None,
            },
            hash@,
        ),
{
    if full {
        return true;
    }
    match known {
        Some(k) => !crate::text::str_eq(k.as_str(), hash),
        None => true,
    }
}

/// The notes the index holds that the tree no longer does, in the index's order.
pub fn gone_ids(indexed: &Vec<u128>, seen: &Vec<u128>) -> (r: Vec<u128>)
    ensures
        r@ == indexed@.filter(|x: u128| !seen@.contains(x)),
{
    let ghost pred = |x: u128| !seen@.contains(x);
    let mut out: Vec<u128> = Vec::new();
    let mut i: usize = 0;
    proof {
        reveal(Seq::filter);
        assert(indexed@.take(0) =~= Seq::<u128>::empty());
    }
    while i < indexed.len()
        invariant
            i <= indexed.len(),
            pred == (|x: u128| !seen@.contains(x)),
            out@ == indexed@.take(i as int).filter(pred),
        decreases indexed.len() - i,
    {
        proof {
            reveal(Seq::filter);
            assert(indexed@.take((i + 1) as int).drop_last() =~= indexed@.take(i as int));
        }
        let x = indexed[i];
        let mut found = false;
        let mut j: usize = 0;
        while j < seen.len()
            invariant
                j <= seen.len(),
                found == (exists|k: int| 0 <= k < j && seen@[k] == x),
            decreases seen.len() - j,
        {
            if seen[j] == x {
                found = true;
            }
            j = j + 1;
        }
        if !found {
            out.push(x);
        }
        i = i + 1;
    }
    proof {
        assert(indexed@.take(indexed.len() as int) =~= indexed@);
    }
    out
}

/// Law: what leaves the index is exactly what the index holds and the scan did not see.
pub proof fn what_left_the_tree_leaves_the_index(indexed: Seq<u128>, seen: Seq<u128>, x: u128)
    ensures
        indexed.filter(|y: u128| !seen.contains(y)).contains(x) <==> (indexed.contains(x)
            && !seen.contains(x)),
{
    let p = |y: u128| !seen.contains(y);
    let f = indexed.filter(p);
    if f.contains(x) {
        let j = choose|j: int| 0 <= j < f.len() && f[j] == x;
        indexed.lemma_filter_pred(p, j);
        reveal(Seq::filter);
        assert(indexed.contains(x)) by {
            lemma_filter_subset(indexed, p, j);
        }
    }
    if indexed.contains(x) && !seen.contains(x) {
        let i = choose|i: int| 0 <= i < indexed.len() && indexed[i] == x;
        indexed.lemma_filter_contains(p, i);
    }
}

proof fn lemma_filter_subset(s: Seq<u128>, p: spec_fn(u128) -> bool, j: int)
    requires
        0 <= j < s.filter(p).len(),
    ensures
        s.contains(s.filter(p)[j]),
    decreases s.len(),
{
    reveal(Seq::filter);
    if s.len() > 0 {
        let sub = s.drop_last().filter(p);
        if j < sub.len() {
            lemma_filter_subset(s.drop_last(), p, j);
            let k = choose|k: int| 0 <= k < s.drop_last().len() && s.drop_last()[k] == sub[j];
            assert(s[k] == sub[j]);
            assert(s.filter(p)[j] == sub[j]);
        } else {
            assert(s.filter(p)[j] == s.last());
            assert(s[s.len() - 1] == s.last());
        }
    }
}

} // verus!

verus! {

/// The first line of a scan's report: the counts and the time.
pub open spec fn scan_head(r: ScanReport) -> Seq<char> {
    dec(r.added as nat) + " added, "@ + dec(r.updated as nat) + " updated, "@ + dec(
        r.unchanged as nat,
    ) + " unchanged, "@ + dec(r.removed as nat) + " removed; "@ + dec(r.blocks as nat)
        + " block(s) in "@ + dec(r.ms as nat) + " ms"@
}

/// The lines that appear only when there is something to say.
pub open spec fn scan_links(r: ScanReport) -> Seq<char> {
    if r.links_written_back > 0 {
        "\nlinks written back into "@ + dec(r.links_written_back as nat) + " note(s)"@
    } else {
        Seq::empty()
    }
}

pub open spec fn scan_oversized(r: ScanReport) -> Seq<char> {
    if r.oversized > 0 {
        "\n"@ + dec(r.oversized as nat) + " block(s) over the token limit were kept whole"@
    } else {
        Seq::empty()
    }
}

pub open spec fn scan_stats(r: ScanReport) -> Seq<char> {
    match r.stats {
        Some(st) => "\nindex now: "@ + dec(st.notes as nat) + " notes, "@ + dec(st.blocks as nat)
            + " blocks, "@ + dec(st.links as nat) + " links ("@ + dec(st.dangling_links as nat)
            + " dangling)"@,
        None => Seq::empty(),
    }
}

/// A scan's report as a person reads it.
pub open spec fn scan_text_spec(r: ScanReport) -> Seq<char> {
    scan_head(r) + scan_links(r) + scan_oversized(r) + skipped_lines(texts(r.skipped@))
        + scan_stats(r)
}

/// The skipped files, a line each.
pub open spec fn skipped_lines(ss: Seq<Seq<char>>) -> Seq<char>
    decreases ss.len(),
{
    if ss.len() == 0 {
        Seq::empty()
    } else {
        skipped_lines(ss.drop_last()) + "\nskipped "@ + ss.last()
    }
}

fn append_num(out: &mut String, n: u64)
    ensures
        final(out)@ == old(out)@ + dec(n as nat),
{
    let d = decimal(n);
    out.append(d.as_str());
}

fn append_head(out: &mut String, r: &ScanReport)
    ensures
        final(out)@ == old(out)@ + scan_head(*r),
{
    append_num(out, r.added as u64);
    out.append(" added, ");
    append_num(out, r.updated as u64);
    out.append(" updated, ");
    append_num(out, r.unchanged as u64);
    out.append(" unchanged, ");
    append_num(out, r.removed as u64);
    out.append(" removed; ");
    append_num(out, r.blocks as u64);
    out.append(" block(s) in ");
    append_num(out, r.ms);
    out.append(" ms");
}

fn append_extras(out: &mut String, r: &ScanReport)
    ensures
        final(out)@ == old(out)@ + scan_links(*r) + scan_oversized(*r),
{
    let ghost a = out@;
    if r.links_written_back > 0 {
        out.append("\nlinks written back into ");
        append_num(out, r.links_written_back as u64);
        out.append(" note(s)");
    }
    assert(out@ =~= a + scan_links(*r));
    let ghost b = out@;
    if r.oversized > 0 {
        out.append("\n");
        append_num(out, r.oversized as u64);
        out.append(" block(s) over the token limit were kept whole");
    }
    assert(out@ =~= b + scan_oversized(*r));
}

fn append_skipped(out: &mut String, skipped: &Vec<String>)
    ensures
        final(out)@ == old(out)@ + skipped_lines(texts(skipped@)),
{
    let mut i: usize = 0;
    while i < skipped.len()
        invariant
            i <= skipped.len(),
            out@ == old(out)@ + skipped_lines(texts(skipped@).take(i as int)),
        decreases skipped.len() - i,
    {
        assert(texts(skipped@).take((i + 1) as int).drop_last() =~= texts(skipped@).take(
            i as int,
        ));
        out.append("\nskipped ");
        out.append(skipped[i].as_str());
        i = i + 1;
    }
    assert(texts(skipped@).take(skipped.len() as int) =~= texts(skipped@));
}

fn append_stats(out: &mut String, r: &ScanReport)
    ensures
        final(out)@ == old(out)@ + scan_stats(*r),
{
    match &r.stats {
        Some(st) => {
            out.append("\nindex now: ");
            append_num(out, st.notes as u64);
            out.append(" notes, ");
            append_num(out, st.blocks as u64);
            out.append(" blocks, ");
            append_num(out, st.links as u64);
            out.append(" links (");
            append_num(out, st.dangling_links as u64);
            out.append(" dangling)");
        },
        None => {},
    }
}

/// What a scan did, in a few lines.
pub fn scan_text(r: &ScanReport) -> (s: String)
    ensures
        s@ == scan_text_spec(*r),
{
    let mut out = String::new();
    append_head(&mut out, r);
    append_extras(&mut out, r);
    append_skipped(&mut out, &r.skipped);
    append_stats(&mut out, r);
    assert(out@ =~= scan_text_spec(*r));
    out
}

} // verus!
