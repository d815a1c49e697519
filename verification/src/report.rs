//! What the store holds, what the doctor finds, and the short texts the other commands
//! print.

use vstd::prelude::*;
use crate::install::InstallReport;
use crate::note::Written;
use crate::scan::{IndexStats, ScanReport, scan_text, scan_text_spec};
use crate::text::{dec, decimal, digit_char, texts};

verus! {

/// How many of `rings` are `k`.
pub open spec fn count_ring(rings: Seq<u8>, k: u8) -> nat
    decreases rings.len(),
{
    if rings.len() == 0 {
        0
    } else {
        count_ring(rings.drop_last(), k) + if rings.last() == k { 1nat } else { 0nat }
    }
}

/// The notes on disk, per ring.
pub fn ring_counts(rings: &Vec<u8>) -> (r: Vec<usize>)
    requires
        forall|i: int| 0 <= i < rings.len() ==> #[trigger] rings@[i] < 5,
    ensures
        r@.len() == 5,
        forall|k: int| 0 <= k < 5 ==> #[trigger] r@[k] == count_ring(rings@, k as u8),
{
    let mut r: Vec<usize> = vec![0, 0, 0, 0, 0];
    let mut i: usize = 0;
    while i < rings.len()
        invariant
            i <= rings.len(),
            forall|j: int| 0 <= j < rings.len() ==> #[trigger] rings@[j] < 5,
            r@.len() == 5,
            forall|k: int| 0 <= k < 5 ==> #[trigger] r@[k] == count_ring(rings@.take(i as int), k as u8),
            forall|k: int| 0 <= k < 5 ==> #[trigger] r@[k] <= i,
        decreases rings.len() - i,
    {
        assert(rings@.take((i + 1) as int).drop_last() =~= rings@.take(i as int));
        let g = rings[i] as usize;
        let v = r[g];
        r.set(g, v + 1);
        i = i + 1;
    }
    assert(rings@.take(rings.len() as int) =~= rings@);
    r
}

/// Law: the notes per ring add up to the notes on disk.
pub proof fn ring_counts_add_up(rings: Seq<u8>)
    requires
        forall|i: int| 0 <= i < rings.len() ==> #[trigger] rings[i] < 5,
    ensures
        count_ring(rings, 0) + count_ring(rings, 1) + count_ring(rings, 2) + count_ring(rings, 3)
            + count_ring(rings, 4) == rings.len(),
    decreases rings.len(),
{
    if rings.len() > 0 {
        let init = rings.drop_last();
        assert forall|i: int| 0 <= i < init.len() implies #[trigger] init[i] < 5 by {
            assert(init[i] == rings[i]);
        }
        ring_counts_add_up(init);
        assert(rings.last() == rings[rings.len() - 1]);
    }
}

/// What the store holds and what the index knows.
#[derive(Debug)]
pub struct Status {
    pub root: String,
    pub notes: usize,
    pub by_ring: Vec<usize>,
    pub skipped: usize,
    pub resident_tokens: usize,
    pub resident_cap: usize,
    pub stats: IndexStats,
    pub db_bytes: u64,
}

pub open spec fn status_store_lines(s: Status) -> Seq<char> {
    "store: "@ + s.root@ + "\nnotes on disk: "@ + dec(s.notes as nat) + " (r0 "@ + dec(
        s.by_ring@[0] as nat,
    ) + ", r1 "@ + dec(s.by_ring@[1] as nat) + ", r2 "@ + dec(s.by_ring@[2] as nat) + ", r3 "@
        + dec(s.by_ring@[3] as nat) + ", r4 "@ + dec(s.by_ring@[4] as nat) + "); "@ + dec(
        s.skipped as nat,
    ) + " skipped"@
}

pub open spec fn status_index_lines(s: Status) -> Seq<char> {
    "\nresident rings 0+1: ~"@ + dec(s.resident_tokens as nat) + " of "@ + dec(
        s.resident_cap as nat,
    ) + " tokens\nindex: schema v"@ + dec(s.stats.schema_version as nat) + ", "@ + dec(
        s.stats.notes as nat,
    ) + " notes, "@ + dec(s.stats.blocks as nat) + " blocks, "@ + dec(s.stats.links as nat)
        + " links ("@ + dec(s.stats.dangling_links as nat) + " dangling), "@ + dec(
        (s.db_bytes / 1024) as nat,
    ) + " KB\nsearch: lexical only, by design. Cyberbrain is the one with a model."@
}

/// The status as a person reads it.
pub open spec fn status_text_spec(s: Status) -> Seq<char> {
    status_store_lines(s) + status_index_lines(s)
}

fn append_num(out: &mut String, n: u64)
    ensures
        final(out)@ == old(out)@ + dec(n as nat),
{
    let d = decimal(n);
    out.append(d.as_str());
}

#[verifier::rlimit(60)]
fn append_store_lines(out: &mut String, s: &Status)
    requires
        s.by_ring@.len() == 5,
    ensures
        final(out)@ == old(out)@ + status_store_lines(*s),
{
    out.append("store: ");
    out.append(s.root.as_str());
    out.append("\nnotes on disk: ");
    append_num(out, s.notes as u64);
    out.append(" (r0 ");
    append_num(out, s.by_ring[0] as u64);
    out.append(", r1 ");
    append_num(out, s.by_ring[1] as u64);
    out.append(", r2 ");
    append_num(out, s.by_ring[2] as u64);
    out.append(", r3 ");
    append_num(out, s.by_ring[3] as u64);
    out.append(", r4 ");
    append_num(out, s.by_ring[4] as u64);
    out.append("); ");
    append_num(out, s.skipped as u64);
    out.append(" skipped");
}

fn append_index_lines(out: &mut String, s: &Status)
    ensures
        final(out)@ == old(out)@ + status_index_lines(*s),
{
    out.append("\nresident rings 0+1: ~");
    append_num(out, s.resident_tokens as u64);
    out.append(" of ");
    append_num(out, s.resident_cap as u64);
    out.append(" tokens\nindex: schema v");
    append_num(out, s.stats.schema_version as u64);
    out.append(", ");
    append_num(out, s.stats.notes as u64);
    out.append(" notes, ");
    append_num(out, s.stats.blocks as u64);
    out.append(" blocks, ");
    append_num(out, s.stats.links as u64);
    out.append(" links (");
    append_num(out, s.stats.dangling_links as u64);
    out.append(" dangling), ");
    append_num(out, s.db_bytes / 1024);
    out.append(" KB\nsearch: lexical only, by design. Cyberbrain is the one with a model.");
}

/// The status: where the store is, the notes per ring, the resident budget, the index.
pub fn status_text(s: &Status) -> (r: String)
    requires
        s.by_ring@.len() == 5,
    ensures
        r@ == status_text_spec(*s),
{
    let mut out = String::new();
    append_store_lines(&mut out, s);
    append_index_lines(&mut out, s);
    assert(out@ =~= status_text_spec(*s));
    out
}

/// What the doctor found and did.
#[derive(Debug)]
pub struct Doctor {
    pub notes: usize,
    pub notes_bytes: u64,
    pub db_bytes_before: u64,
    pub db_bytes_after: u64,
    pub findings: Vec<String>,
    pub repaired: Option<ScanReport>,
}

/// How many notes on disk differ from what the index holds for them.
pub fn count_drift(in_sync: &Vec<bool>) -> (r: usize)
    ensures
        r == in_sync@.filter(|b: bool| !b).len(),
{
    let ghost pred = |b: bool| !b;
    let mut n: usize = 0;
    let mut i: usize = 0;
    proof {
        reveal(Seq::filter);
        assert(in_sync@.take(0) =~= Seq::<bool>::empty());
    }
    while i < in_sync.len()
        invariant
            i <= in_sync.len(),
            pred == (|b: bool| !b),
            n == in_sync@.take(i as int).filter(pred).len(),
            n <= i,
        decreases in_sync.len() - i,
    {
        proof {
            reveal(Seq::filter);
            assert(in_sync@.take((i + 1) as int).drop_last() =~= in_sync@.take(i as int));
        }
        if !in_sync[i] {
            n = n + 1;
        }
        i = i + 1;
    }
    assert(in_sync@.take(in_sync.len() as int) =~= in_sync@);
    n
}

/// How many distinct notes the index holds that are not on disk.
pub fn count_orphans(indexed: &Vec<u128>, on_disk: &Vec<u128>) -> (r: usize)
    ensures
        r == indexed@.to_set().difference(on_disk@.to_set()).len(),
{
    let mut orphans: Vec<u128> = Vec::new();
    let mut i: usize = 0;
    while i < indexed.len()
        invariant
            i <= indexed.len(),
            orphans@.no_duplicates(),
            orphans@.to_set() == indexed@.take(i as int).to_set().difference(on_disk@.to_set()),
            orphans@.len() <= i,
        decreases indexed.len() - i,
    {
        let x = indexed[i];
        let mut on = false;
        let mut j: usize = 0;
        while j < on_disk.len()
            invariant
                j <= on_disk.len(),
                on == (exists|k: int| 0 <= k < j && on_disk@[k] == x),
            decreases on_disk.len() - j,
        {
            if on_disk[j] == x {
                on = true;
            }
            j = j + 1;
        }
        let mut dup = false;
        let mut k: usize = 0;
        while k < orphans.len()
            invariant
                k <= orphans.len(),
                dup == (exists|m: int| 0 <= m < k && orphans@[m] == x),
            decreases orphans.len() - k,
        {
            if orphans[k] == x {
                dup = true;
            }
            k = k + 1;
        }
        let ghost before = orphans@;
        if !on && !dup {
            orphans.push(x);
            assert(orphans@.no_duplicates()) by {
                assert forall|a: int, b: int|
                    0 <= a < orphans@.len() && 0 <= b < orphans@.len() && a != b implies orphans@[a]
                    != orphans@[b] by {
                    if a < before.len() && b < before.len() {
                        assert(orphans@[a] == before[a]);
                        assert(orphans@[b] == before[b]);
                    }
                }
            }
        }
        proof {
            let ta = indexed@.take((i + 1) as int);
            let tb = indexed@.take(i as int);
            let d = on_disk@;
            assert(ta =~= tb.push(x));
            assert forall|y: u128| #[trigger] orphans@.to_set().contains(y) <==> ta.to_set().difference(
                d.to_set(),
            ).contains(y) by {
                lemma_set_contains(orphans@, y);
                lemma_set_contains(before, y);
                lemma_set_contains(ta, y);
                lemma_set_contains(tb, y);
                lemma_set_contains(d, y);
                assert(before.to_set().contains(y) == tb.to_set().difference(d.to_set()).contains(y));
                assert(ta.contains(y) <==> (tb.contains(y) || y == x)) by {
                    if ta.contains(y) {
                        let m = choose|m: int| 0 <= m < ta.len() && #[trigger] ta[m] == y;
                        if m < tb.len() {
                            assert(tb[m] == y);
                        }
                    }
                    if tb.contains(y) {
                        let m = choose|m: int| 0 <= m < tb.len() && #[trigger] tb[m] == y;
                        assert(ta[m] == y);
                    }
                    if y == x {
                        assert(ta[i as int] == x);
                    }
                }
                assert(orphans@.contains(y) <==> (before.contains(y) || (y == x && !on && !dup))) by {
                    if orphans@.contains(y) {
                        let m = choose|m: int| 0 <= m < orphans@.len() && #[trigger] orphans@[m] == y;
                        if m < before.len() {
                            assert(before[m] == y);
                        }
                    }
                    if before.contains(y) {
                        let m = choose|m: int| 0 <= m < before.len() && #[trigger] before[m] == y;
                        assert(orphans@[m] == y);
                    }
                    if y == x && !on && !dup {
                        assert(orphans@[orphans@.len() - 1] == x);
                    }
                }
                if y == x {
                    if on {
                        let kk = choose|kk: int| 0 <= kk < d.len() && d[kk] == x;
                        assert(d.contains(x));
                    }
                    if dup {
                        let m = choose|m: int| 0 <= m < before.len() && before[m] == x;
                        assert(before.contains(x));
                    }
                    if !on {
                        assert(!d.contains(x));
                    }
                }
            }
            assert(orphans@.to_set() =~= ta.to_set().difference(d.to_set()));
        }
        i = i + 1;
    }
    proof {
        assert(indexed@.take(indexed.len() as int) =~= indexed@);
        orphans@.unique_seq_to_set();
    }
    orphans.len()
}

proof fn lemma_set_contains(s: Seq<u128>, y: u128)
    ensures
        s.to_set().contains(y) == s.contains(y),
{
}

/// The doctor's findings: the index's own, then drift, then orphans, each only when there
/// is any.
pub open spec fn findings_spec(integrity: Seq<Seq<char>>, drifted: nat, orphaned: nat) -> Seq<
    Seq<char>,
> {
    integrity + (if drifted > 0 {
        seq![dec(drifted) + " note(s) on disk differ from the index"@]
    } else {
        seq![]
    }) + (if orphaned > 0 {
        seq![dec(orphaned) + " note(s) in the index no longer exist on disk"@]
    } else {
        seq![]
    })
}

/// Gather the findings.
pub fn findings(integrity: Vec<String>, drifted: usize, orphaned: usize) -> (r: Vec<String>)
    ensures
        texts(r@) == findings_spec(texts(integrity@), drifted as nat, orphaned as nat),
{
    let mut r = integrity;
    let ghost a = texts(r@);
    if drifted > 0 {
        let mut m = decimal(drifted as u64);
        m.append(" note(s) on disk differ from the index");
        let ghost before = r@;
        r.push(m);
        assert(texts(r@) =~= texts(before).push(m@));
    }
    let ghost b = texts(r@);
    assert(b =~= a + (if drifted > 0 {
        seq![dec(drifted as nat) + " note(s) on disk differ from the index"@]
    } else {
        seq![]
    }));
    if orphaned > 0 {
        let mut m = decimal(orphaned as u64);
        m.append(" note(s) in the index no longer exist on disk");
        let ghost before = r@;
        r.push(m);
        assert(texts(r@) =~= texts(before).push(m@));
    }
    assert(texts(r@) =~= findings_spec(a, drifted as nat, orphaned as nat));
    r
}

/// Law: a healthy store reports nothing. The findings are empty exactly when the index
/// reports nothing, no note drifted, and no note is orphaned.
pub proof fn healthy_store_reports_nothing(integrity: Seq<Seq<char>>, drifted: nat, orphaned: nat)
    ensures
        (findings_spec(integrity, drifted, orphaned).len() == 0) <==> (integrity.len() == 0
            && drifted == 0 && orphaned == 0),
{
}

/// Law: the findings are the index's own, then one line for drift exactly when a note
/// drifted, then one line for orphans exactly when a note is orphaned.
pub proof fn findings_name_what_is_wrong(integrity: Seq<Seq<char>>, drifted: nat, orphaned: nat)
    ensures
        ({
            let f = findings_spec(integrity, drifted, orphaned);
            let k = integrity.len();
            &&& f.take(k as int) == integrity
            &&& f.len() == k + (if drifted > 0 { 1int } else { 0 }) + (if orphaned > 0 { 1int } else { 0 })
            &&& drifted > 0 ==> f[k as int] == dec(drifted) + " note(s) on disk differ from the index"@
            &&& orphaned > 0 ==> f.last() == dec(orphaned) + " note(s) in the index no longer exist on disk"@
        }),
{
    let f = findings_spec(integrity, drifted, orphaned);
    assert(f.take(integrity.len() as int) =~= integrity);
}

/// The doctor repairs, when asked to, only when something drifted or was orphaned.
pub fn needs_repair(fix: bool, drifted: usize, orphaned: usize) -> (r: bool)
    ensures
        r == (fix && (drifted > 0 || orphaned > 0)),
{
    fix && (drifted > 0 || orphaned > 0)
}

/// The size of the notes on disk.
pub open spec fn sum(v: Seq<u64>) -> nat
    decreases v.len(),
{
    if v.len() == 0 {
        0
    } else {
        (sum(v.drop_last()) + v.last()) as nat
    }
}

/// Add up the sizes of the note files.
pub fn total_bytes(sizes: &Vec<u64>) -> (r: u64)
    requires
        sum(sizes@) <= u64::MAX,
    ensures
        r == sum(sizes@),
{
    let mut t: u64 = 0;
    let mut i: usize = 0;
    while i < sizes.len()
        invariant
            i <= sizes.len(),
            t == sum(sizes@.take(i as int)),
            sum(sizes@) <= u64::MAX,
        decreases sizes.len() - i,
    {
        assert(sizes@.take((i + 1) as int).drop_last() =~= sizes@.take(i as int));
        proof {
            lemma_sum_prefix(sizes@, i as int + 1);
        }
        t = t + sizes[i];
        i = i + 1;
    }
    assert(sizes@.take(sizes.len() as int) =~= sizes@);
    t
}

proof fn lemma_sum_prefix(v: Seq<u64>, k: int)
    requires
        0 <= k <= v.len(),
    ensures
        sum(v.take(k)) <= sum(v),
    decreases v.len(),
{
    if k < v.len() {
        assert(v.drop_last().take(k) =~= v.take(k));
        lemma_sum_prefix(v.drop_last(), k);
    } else {
        assert(v.take(k) =~= v);
    }
}

/// The doctor's report as a person reads it.
pub open spec fn doctor_head(d: Doctor) -> Seq<char> {
    "notes: "@ + dec(d.notes as nat) + " files, "@ + dec((d.notes_bytes / 1024) as nat)
        + " KB\nindex: "@ + dec((d.db_bytes_before / 1024) as nat) + " KB"@ + (if d.db_bytes_after
        != d.db_bytes_before {
        " -> "@ + dec((d.db_bytes_after / 1024) as nat) + " KB after compaction"@
    } else {
        Seq::empty()
    })
}

pub open spec fn finding_lines(fs: Seq<Seq<char>>) -> Seq<char>
    decreases fs.len(),
{
    if fs.len() == 0 {
        Seq::empty()
    } else {
        finding_lines(fs.drop_last()) + "\n- "@ + fs.last()
    }
}

/// Every line feed of `s` followed by two spaces.
pub open spec fn indent_lines(s: Seq<char>) -> Seq<char>
    decreases s.len(),
{
    if s.len() == 0 {
        Seq::empty()
    } else {
        indent_lines(s.drop_last()) + if s.last() == '\n' { "\n  "@ } else { seq![s.last()] }
    }
}

pub open spec fn doctor_text_spec(d: Doctor) -> Seq<char> {
    doctor_head(d) + (if d.findings@.len() == 0 { "\nnothing to report"@ } else { Seq::empty() })
        + finding_lines(texts(d.findings@)) + match d.repaired {
        Some(r) => "\nrepaired: "@ + indent_lines(scan_text_spec(r)),
        None => Seq::empty(),
    }
}

fn indent(s: &str) -> (r: String)
    ensures
        r@ == indent_lines(s@),
{
    let mut out = String::new();
    let mut i: usize = 0;
    let n = s.unicode_len();
    for c in it: s.chars()
        invariant
            it.seq() == s@,
            i == it.index(),
            n == s@.len(),
            out@ == indent_lines(s@.take(i as int)),
    {
        assert(s@.take((i + 1) as int).drop_last() =~= s@.take(i as int));
        assert(c == s@[i as int]);
        if c == '\n' {
            out.append("\n  ");
        } else {
            let one = s.substring_char(i, i + 1);
            assert(one@ =~= seq![c]);
            out.append(one);
        }
        i = i + 1;
    }
    assert(s@.take(n as int) =~= s@);
    out
}

fn append_doctor_head(out: &mut String, d: &Doctor)
    ensures
        final(out)@ == old(out)@ + doctor_head(*d),
{
    out.append("notes: ");
    append_num(out, d.notes as u64);
    out.append(" files, ");
    append_num(out, d.notes_bytes / 1024);
    out.append(" KB\nindex: ");
    append_num(out, d.db_bytes_before / 1024);
    out.append(" KB");
    if d.db_bytes_after != d.db_bytes_before {
        out.append(" -> ");
        append_num(out, d.db_bytes_after / 1024);
        out.append(" KB after compaction");
    }
}

/// The doctor's footprint, findings and repair.
pub fn doctor_text(d: &Doctor) -> (r: String)
    ensures
        r@ == doctor_text_spec(*d),
{
    let mut out = String::new();
    append_doctor_head(&mut out, d);
    let ghost a = out@;
    if d.findings.len() == 0 {
        out.append("\nnothing to report");
    }
    let ghost b = out@;
    let mut i: usize = 0;
    while i < d.findings.len()
        invariant
            i <= d.findings.len(),
            out@ == b + finding_lines(texts(d.findings@).take(i as int)),
        decreases d.findings.len() - i,
    {
        assert(texts(d.findings@).take((i + 1) as int).drop_last() =~= texts(d.findings@).take(
            i as int,
        ));
        out.append("\n- ");
        out.append(d.findings[i].as_str());
        i = i + 1;
    }
    assert(texts(d.findings@).take(d.findings.len() as int) =~= texts(d.findings@));
    let ghost c = out@;
    match &d.repaired {
        Some(r) => {
            out.append("\nrepaired: ");
            let t = scan_text(r);
            let t = indent(t.as_str());
            out.append(t.as_str());
        },
        None => {},
    }
    assert(out@ =~= doctor_text_spec(*d));
    out
}

/// What a forget removed.
#[derive(Debug)]
pub struct Forgotten {
    pub name: String,
    pub ring: u8,
    pub path: String,
    pub blocks: usize,
    pub links: usize,
}

/// What a forget removed, in one line.
pub fn forgotten_text(f: &Forgotten) -> (r: String)
    ensures
        r@ == "forgot "@ + f.name@ + " from r"@ + dec(f.ring as nat) + ": "@ + f.path@
            + " removed, "@ + dec(f.blocks as nat) + " block(s), "@ + dec(f.links as nat)
            + " link(s)"@,
{
    let mut out = String::from_str("forgot ");
    out.append(f.name.as_str());
    out.append(" from r");
    append_num(&mut out, f.ring as u64);
    out.append(": ");
    out.append(f.path.as_str());
    out.append(" removed, ");
    append_num(&mut out, f.blocks as u64);
    out.append(" block(s), ");
    append_num(&mut out, f.links as u64);
    out.append(" link(s)");
    out
}

/// What a write did, in a line, and a second one when blocks were kept over the limit.
pub open spec fn written_text_spec(w: Written) -> Seq<char> {
    (if w.created { "wrote"@ } else { "updated"@ }) + " "@ + w.name@ + " in ring r"@ + dec(
        w.ring as nat,
    ) + " as "@ + w.path@ + " ("@ + dec(w.bytes as nat) + " bytes, "@ + dec(w.blocks as nat)
        + " block(s), "@ + dec(w.links as nat) + " link(s))"@ + (if w.oversized > 0 {
        "\n"@ + dec(w.oversized as nat) + " block(s) over the token limit were kept whole"@
    } else {
        Seq::empty()
    })
}

pub fn written_text(w: &Written) -> (r: String)
    ensures
        r@ == written_text_spec(*w),
{
    let mut out = String::from_str(if w.created { "wrote" } else { "updated" });
    out.append(" ");
    out.append(w.name.as_str());
    out.append(" in ring r");
    append_num(&mut out, w.ring as u64);
    out.append(" as ");
    out.append(w.path.as_str());
    out.append(" (");
    append_num(&mut out, w.bytes as u64);
    out.append(" bytes, ");
    append_num(&mut out, w.blocks as u64);
    out.append(" block(s), ");
    append_num(&mut out, w.links as u64);
    out.append(" link(s))");
    let ghost a = out@;
    if w.oversized > 0 {
        out.append("\n");
        append_num(&mut out, w.oversized as u64);
        out.append(" block(s) over the token limit were kept whole");
    }
    assert(out@ =~= written_text_spec(*w));
    out
}

/// What `init` says: whether it created the store or kept one, and what to do next.
pub fn init_text(existed: bool, root: &str) -> (r: String)
    ensures
        r@ == (if existed { "kept"@ } else { "created"@ }) + " store at "@ + root@
            + "\nnext: cbl write --ring 2 --kind knowledge --name first-note --body 'what you learned', then cbl recall 'what you learned'"@,
{
    let mut out = String::from_str(if existed { "kept" } else { "created" });
    out.append(" store at ");
    out.append(root);
    out.append(
        "\nnext: cbl write --ring 2 --kind knowledge --name first-note --body 'what you learned', then cbl recall 'what you learned'",
    );
    out
}

/// What `install` says.
pub open spec fn install_text_spec(r: InstallReport, undo: bool) -> Seq<char> {
    if undo {
        "removed "@ + dec(r.removed@.len()) + " hook(s) from "@ + r.path@
    } else {
        dec(r.added@.len() + r.unchanged@.len()) + " hook(s) in "@ + r.path@ + " pointing at "@
            + r.binary@ + match r.backup {
            Some(b) => "\nprevious file kept as "@ + b@,
            None => Seq::empty(),
        }
    }
}

pub fn install_text(r: &InstallReport, undo: bool) -> (s: String)
    requires
        r.added@.len() + r.unchanged@.len() <= u64::MAX,
    ensures
        s@ == install_text_spec(*r, undo),
{
    if undo {
        let mut out = String::from_str("removed ");
        append_num(&mut out, r.removed.len() as u64);
        out.append(" hook(s) from ");
        out.append(r.path.as_str());
        out
    } else {
        let mut out = decimal(r.added.len() as u64 + r.unchanged.len() as u64);
        out.append(" hook(s) in ");
        out.append(r.path.as_str());
        out.append(" pointing at ");
        out.append(r.binary.as_str());
        match &r.backup {
            Some(b) => {
                out.append("\nprevious file kept as ");
                out.append(b.as_str());
            },
            None => {},
        }
        out
    }
}


/// The rings `0` to `n - 1`, each labelled `r` and its number and followed by its count in
/// `counts`, separated by commas.
pub open spec fn ring_entries(counts: Seq<usize>, n: nat) -> Seq<char>
    decreases n,
{
    if n == 0 {
        Seq::empty()
    } else {
        ring_entries(counts, (n - 1) as nat) + (if n > 1 {
            ", "@
        } else {
            Seq::empty()
        }) + "r"@ + dec((n - 1) as nat) + " "@ + dec(counts[n - 1] as nat)
    }
}

proof fn lemma_ring_entries_step(c: Seq<usize>, n: nat)
    requires
        n >= 1,
    ensures
        ring_entries(c, n) == ring_entries(c, (n - 1) as nat) + (if n > 1 {
            ", "@
        } else {
            Seq::empty()
        }) + "r"@ + dec((n - 1) as nat) + " "@ + dec(c[n - 1] as nat),
{
    reveal(ring_entries);
}

/// The entries of rings `0` to `n - 1` as the status line writes them, after its
/// opening parenthesis.
spec fn written_entries(c: Seq<usize>, n: nat) -> Seq<char>
    decreases n,
{
    if n <= 1 {
        " (r0 "@ + dec(c[0] as nat)
    } else if n == 2 {
        written_entries(c, 1) + ", r1 "@ + dec(c[1] as nat)
    } else if n == 3 {
        written_entries(c, 2) + ", r2 "@ + dec(c[2] as nat)
    } else if n == 4 {
        written_entries(c, 3) + ", r3 "@ + dec(c[3] as nat)
    } else {
        written_entries(c, 4) + ", r4 "@ + dec(c[4] as nat)
    }
}

#[verifier::spinoff_prover]
proof fn lemma_entries_written(c: Seq<usize>, n: nat)
    requires
        1 <= n <= 5,
    ensures
        " ("@ + ring_entries(c, n) == written_entries(c, n),
    decreases n,
{
    reveal_strlit(" (r0 ");
    reveal_strlit(", r1 ");
    reveal_strlit(", r2 ");
    reveal_strlit(", r3 ");
    reveal_strlit(", r4 ");
    reveal_strlit(" (");
    reveal_strlit(", ");
    reveal_strlit("r");
    reveal_strlit(" ");
    let k = (n - 1) as nat;
    lemma_ring_entries_step(c, n);
    assert(dec(k) =~= seq![digit_char(k)]);
    let x = dec(c[k as int] as nat);
    if n == 1 {
        assert(ring_entries(c, 0) =~= Seq::<char>::empty()) by {
            reveal(ring_entries);
        }
        assert(" ("@ + ring_entries(c, 1) =~= " (r0 "@ + x);
    } else {
        lemma_entries_written(c, k);
        let r = ring_entries(c, k);
        assert(" ("@ + ring_entries(c, n) =~= (" ("@ + r) + (", "@ + "r"@ + dec(k) + " "@ + x));
        let lit = if n == 2 {
            ", r1 "@
        } else if n == 3 {
            ", r2 "@
        } else if n == 4 {
            ", r3 "@
        } else {
            ", r4 "@
        };
        assert(", "@ + "r"@ + dec(k) + " "@ =~= lit);
    }
}

/// Law: the status shows every ring under its own number with its own count: the entry
/// labelled `rK` carries `by_ring[K]`, for each of the five rings in order.
#[verifier::spinoff_prover]
pub proof fn each_ring_is_shown_with_its_own_count(s: Status)
    requires
        s.by_ring@.len() == 5,
    ensures
        status_store_lines(s) == "store: "@ + s.root@ + "\nnotes on disk: "@ + dec(s.notes as nat)
            + " ("@ + ring_entries(s.by_ring@, 5) + "); "@ + dec(s.skipped as nat) + " skipped"@,
{
    let c = s.by_ring@;
    lemma_entries_written(c, 5);
    let w = written_entries(c, 5);
    reveal_with_fuel(written_entries, 5);
    assert(w == " (r0 "@ + dec(c[0] as nat) + ", r1 "@ + dec(c[1] as nat) + ", r2 "@ + dec(
        c[2] as nat,
    ) + ", r3 "@ + dec(c[3] as nat) + ", r4 "@ + dec(c[4] as nat));
    assert(status_store_lines(s) =~= "store: "@ + s.root@ + "\nnotes on disk: "@ + dec(s.notes as nat)
        + w + "); "@ + dec(s.skipped as nat) + " skipped"@);
}

} // verus!
