//! The rules around the store: writes, searches, scans and the doctor, on plain values.

use cyberbrain_light::note::{clean_name, clean_tags, note_identity, ring_move_refusal, Stamp, Written};
use cyberbrain_light::recall::{
    adjust_caveats, expanded_reply, expanded_text, hits_text, no_block_for, not_a_citation, Expanded,
    HitView, LEXICAL_CAVEAT,
};
use cyberbrain_light::report::{
    count_drift, count_orphans, doctor_text, findings, forgotten_text, init_text, install_text,
    needs_repair, ring_counts, status_text, total_bytes, written_text, Doctor, Forgotten, Status,
};
use cyberbrain_light::install::InstallReport;
use cyberbrain_light::scan::{
    first_sighting, gone_ids, links_differ, needs_indexing, scan_text, skip_text, IndexStats, Outcome,
    ScanReport,
};

fn s(t: &str) -> String {
    t.to_string()
}

// ----- writing -----------------------------------------------------------------------

#[test]
fn moving_a_note_between_rings_is_refused_rather_than_done_quietly() {
    let err = ring_move_refusal("note", Some(2), 0).expect("a move is refused");
    assert!(err.contains("already exists in ring 2"), "{err}");
    assert_eq!(
        err,
        "`note` already exists in ring 2 and this write says ring 0; `cbl forget note` first if the move is what you mean"
    );
    assert_eq!(ring_move_refusal("note", Some(2), 2), None);
    assert_eq!(ring_move_refusal("note", None, 0), None);
}

#[test]
fn rewriting_a_name_keeps_its_id_and_its_creation_date() {
    let t1 = Stamp { second: 1_700_000_000, nanosecond: 5 };
    let t2 = Stamp { second: 1_700_000_100, nanosecond: 0 };
    let first = note_identity(None, 0xabc, t1);
    assert_eq!(first.0, 0xabc);
    let second = note_identity(Some((first.0, first.1)), 0xdef, t2);
    assert_eq!(first.0, second.0, "the id survives an update");
    assert!(first.1 == second.1);
    assert!(second.2.second >= first.2.second);
}

#[test]
fn a_name_is_written_without_its_surrounding_whitespace() {
    assert_eq!(clean_name("  pg18-moves-pgdata \n"), "pg18-moves-pgdata");
    assert_eq!(clean_name("inner space"), "inner space");
}

#[test]
fn tags_are_trimmed_deduplicated_and_never_empty() {
    let tags = vec![s(" db "), s(""), s("db"), s("  "), s("ops"), s("db ")];
    assert_eq!(clean_tags(&tags), vec![s("db"), s("ops")]);
    assert!(clean_tags(&Vec::new()).is_empty());
}

// ----- recall ------------------------------------------------------------------------

#[test]
fn recall_says_what_it_is_not_doing() {
    let caveats = adjust_caveats(vec![
        s("semantic search skipped: no embedder configured"),
        s("2 blocks over the token limit"),
    ]);
    assert!(caveats.iter().any(|c| c.contains("lexical")), "a result has to say the search was literal: {:?}", caveats);
    assert!(
        !caveats.iter().any(|c| c.contains("no embedder")),
        "Light has no embedder to be missing; that caveat reads like a misconfiguration"
    );
    assert_eq!(caveats, vec![s("2 blocks over the token limit"), s(LEXICAL_CAVEAT)]);
}

#[test]
fn a_citation_that_does_not_resolve_is_refused_by_name() {
    assert_eq!(not_a_citation("not-a-citation"), "`not-a-citation` is not a citation; they look like r2-a91f2c33e1bd");
    assert_eq!(no_block_for("r2-000000000000"), "no block carries the citation `r2-000000000000`");
}

#[test]
fn an_expansion_shows_citation_ring_name_and_body() {
    let e = Expanded {
        citation: s("r2-a91f2c33e1bd"),
        name: s("pg18-moves-pgdata"),
        ring: 2,
        block: s("The postgres:18 image"),
        body: s("\nThe postgres:18 image puts the data directory somewhere else.\n\n"),
    };
    assert_eq!(
        expanded_text(&e),
        "r2-a91f2c33e1bd  r2  pg18-moves-pgdata\n\nThe postgres:18 image puts the data directory somewhere else."
    );
    assert_eq!(
        expanded_reply(&e),
        "r2-a91f2c33e1bd r2 `pg18-moves-pgdata`\n\nThe postgres:18 image puts the data directory somewhere else."
    );
}

#[test]
fn hits_are_numbered_and_show_four_lines() {
    let hits = vec![
        HitView { citation: s("r2-aaaaaaaaaaaa"), ring: 2, note_name: s("a"), text: s("1\n2\n3\n4\n5"), share: s("100") },
        HitView { citation: s("r3-bbbbbbbbbbbb"), ring: 3, note_name: s("b"), text: s("only"), share: s("42") },
    ];
    let text = hits_text(&hits, &vec![s("Conflict { a: 1 }")], &vec![s(LEXICAL_CAVEAT)]);
    let expected = format!(
        "1. r2-aaaaaaaaaaaa  r2  a  (100% of top)\n     1\n     2\n     3\n     4\n\
2. r3-bbbbbbbbbbbb  r3  b  (42% of top)\n     only\n\
conflict: Conflict {{ a: 1 }}\ncaveat: {LEXICAL_CAVEAT}\n"
    );
    assert_eq!(text, expected);
    assert_eq!(hits_text(&Vec::new(), &Vec::new(), &Vec::new()), "no hits\n");
}

// ----- scan --------------------------------------------------------------------------

#[test]
fn a_scan_counts_every_file_once() {
    let mut r = ScanReport::start(vec![s("notes/r2/x.txt: not a note")]);
    r.record(Outcome::Unchanged);
    r.record(Outcome::Unchanged);
    assert_eq!((r.added, r.updated, r.unchanged), (0, 0, 2));
    r.record(Outcome::Indexed { replaced: true, blocks: 3, oversized: 1 });
    r.record(Outcome::Indexed { replaced: false, blocks: 2, oversized: 0 });
    r.record(Outcome::Unreadable { path: s("notes/r2/bad.md"), error: s("no front matter") });
    r.record(Outcome::DuplicateId { path: s("notes/r2/copy.md"), id: s("01J0") });
    r.record_removed();
    r.record_links_written_back();
    assert_eq!((r.added, r.updated, r.unchanged, r.removed), (1, 1, 2, 1));
    assert_eq!((r.blocks, r.oversized, r.links_written_back), (5, 1, 1));
    assert_eq!(
        r.skipped,
        vec![
            s("notes/r2/x.txt: not a note"),
            s("notes/r2/bad.md: no front matter"),
            s("notes/r2/copy.md: id 01J0 is already used by another note; ids are unique"),
        ]
    );
    r.ms = 12;
    r.stats = Some(IndexStats { schema_version: 3, notes: 4, blocks: 5, links: 1, dangling_links: 1 });
    assert_eq!(
        scan_text(&r),
        "1 added, 1 updated, 2 unchanged, 1 removed; 5 block(s) in 12 ms\n\
links written back into 1 note(s)\n\
1 block(s) over the token limit were kept whole\n\
skipped notes/r2/x.txt: not a note\n\
skipped notes/r2/bad.md: no front matter\n\
skipped notes/r2/copy.md: id 01J0 is already used by another note; ids are unique\n\
index now: 4 notes, 5 blocks, 1 links (1 dangling)"
    );
}

#[test]
fn ids_are_unique_and_the_first_keeps_it() {
    let mut seen = Vec::new();
    assert!(first_sighting(&mut seen, 7));
    assert!(first_sighting(&mut seen, 9));
    assert!(!first_sighting(&mut seen, 7));
    assert_eq!(seen, vec![7, 9]);
}

#[test]
fn what_left_the_tree_leaves_the_index() {
    assert_eq!(gone_ids(&vec![1, 2, 3, 4], &vec![4, 2]), vec![1, 3]);
    assert!(gone_ids(&vec![5], &vec![5]).is_empty());
}

#[test]
fn an_unchanged_hash_is_left_alone_unless_the_scan_is_full() {
    assert!(!needs_indexing(false, &Some(s("abc")), "abc"));
    assert!(needs_indexing(false, &Some(s("abc")), "abd"));
    assert!(needs_indexing(false, &None, "abc"));
    assert!(needs_indexing(true, &Some(s("abc")), "abc"));
}

#[test]
fn links_are_written_back_only_when_they_differ() {
    assert!(!links_differ(&vec![s("target")], &vec![s("target")]));
    assert!(links_differ(&vec![s("target")], &vec![]));
    assert!(links_differ(&vec![s("a"), s("b")], &vec![s("b"), s("a")]));
    assert_eq!(skip_text("p.md", "why"), "p.md: why");
}

// ----- doctor and status ----------------------------------------------------------------

#[test]
fn doctor_reports_drift_and_fix_repairs_it() {
    assert!(findings(Vec::new(), 0, 0).is_empty(), "a healthy store reports nothing");
    let broken = findings(Vec::new(), count_drift(&vec![true, false]), 0);
    assert!(broken.iter().any(|f| f.contains("differ")), "{:?}", broken);
    assert!(needs_repair(true, 1, 0));
    assert!(!needs_repair(false, 1, 0));
    assert!(findings(Vec::new(), count_drift(&vec![true, true]), 0).is_empty(), "and stays fixed");
}

#[test]
fn the_doctor_counts_what_differs_and_what_is_orphaned() {
    assert_eq!(count_drift(&vec![true, false, false, true]), 2);
    assert_eq!(count_orphans(&vec![1, 2, 3, 2], &vec![3]), 2);
    assert_eq!(count_orphans(&vec![], &vec![3]), 0);
    assert_eq!(
        findings(vec![s("integrity: ok?")], 2, 1),
        vec![
            s("integrity: ok?"),
            s("2 note(s) on disk differ from the index"),
            s("1 note(s) in the index no longer exist on disk"),
        ]
    );
    assert_eq!(total_bytes(&vec![1024, 2048, 5]), 3077);
    assert!(!needs_repair(true, 0, 0));
}

#[test]
fn the_doctor_report_indents_the_repair() {
    let mut repaired = ScanReport::start(vec![s("x: y")]);
    repaired.record(Outcome::Unchanged);
    let d = Doctor {
        notes: 3,
        notes_bytes: 4096,
        db_bytes_before: 10240,
        db_bytes_after: 8192,
        findings: vec![s("1 note(s) on disk differ from the index")],
        repaired: Some(repaired),
    };
    assert_eq!(
        doctor_text(&d),
        "notes: 3 files, 4 KB\nindex: 10 KB -> 8 KB after compaction\n- 1 note(s) on disk differ from the index\nrepaired: 0 added, 0 updated, 1 unchanged, 0 removed; 0 block(s) in 0 ms\n  skipped x: y"
    );
    let healthy = Doctor { notes: 0, notes_bytes: 0, db_bytes_before: 0, db_bytes_after: 0, findings: vec![], repaired: None };
    assert_eq!(doctor_text(&healthy), "notes: 0 files, 0 KB\nindex: 0 KB\nnothing to report");
}

#[test]
fn the_notes_per_ring_add_up() {
    let by_ring = ring_counts(&vec![0, 2, 2, 4, 3, 2]);
    assert_eq!(by_ring, vec![1, 0, 3, 1, 1]);
    assert_eq!(by_ring.iter().sum::<usize>(), 6);
    let st = Status {
        root: s("/p/.cyberbrain"),
        notes: 6,
        by_ring,
        skipped: 0,
        resident_tokens: 120,
        resident_cap: 8192,
        stats: IndexStats { schema_version: 3, notes: 6, blocks: 9, links: 2, dangling_links: 0 },
        db_bytes: 65536,
    };
    assert_eq!(
        status_text(&st),
        "store: /p/.cyberbrain\nnotes on disk: 6 (r0 1, r1 0, r2 3, r3 1, r4 1); 0 skipped\n\
resident rings 0+1: ~120 of 8192 tokens\nindex: schema v3, 6 notes, 9 blocks, 2 links (0 dangling), 64 KB\n\
search: lexical only, by design. Cyberbrain is the one with a model."
    );
}

// ----- the short reports ----------------------------------------------------------------

#[test]
fn the_short_reports_read_as_sentences() {
    let w = Written {
        id: s("01J0"),
        name: s("note"),
        ring: 2,
        path: s("/p/notes/r2/note.md"),
        bytes: 300,
        created: true,
        blocks: 2,
        links: 1,
        oversized: 1,
    };
    assert_eq!(
        written_text(&w),
        "wrote note in ring r2 as /p/notes/r2/note.md (300 bytes, 2 block(s), 1 link(s))\n1 block(s) over the token limit were kept whole"
    );
    let f = Forgotten { name: s("gone"), ring: 3, path: s("/p/notes/r3/gone.md"), blocks: 1, links: 0 };
    assert_eq!(forgotten_text(&f), "forgot gone from r3: /p/notes/r3/gone.md removed, 1 block(s), 0 link(s)");
    assert!(init_text(true, "/p/.cyberbrain").starts_with("kept store at /p/.cyberbrain\nnext: cbl write"));
    assert!(init_text(false, "/p/.cyberbrain").starts_with("created store at"));
    let r = InstallReport {
        path: s("/p/settings.json"),
        backup: Some(s("/p/settings.json.bak")),
        added: vec![s("SessionStart")],
        removed: vec![],
        unchanged: vec![s("PreCompact")],
        binary: s("/usr/bin/cbl"),
    };
    assert_eq!(
        install_text(&r, false),
        "2 hook(s) in /p/settings.json pointing at /usr/bin/cbl\nprevious file kept as /p/settings.json.bak"
    );
    assert_eq!(install_text(&r, true), "removed 0 hook(s) from /p/settings.json");
}
