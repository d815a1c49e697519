//! The lifecycle hooks, on the values the program hands them.

use cyberbrain_light::cli::HookEvent;
use cyberbrain_light::hook::{
    message_text, no_store, payload_text, pre_compact, read_source, resident_context, resident_files, section_text,
    session_start, source_of, CitedBlock, HookMessage, PayloadFields, ResidentEntry,
    ResidentNote,
};
use serde_json::Value;

/// 2024-03-01T12:00:00Z.
const MARCH_FIRST: i64 = 1_709_294_400;

fn note(ring: u8, name: &str, cost: usize, blocks: &[(&str, &str)]) -> ResidentEntry {
    ResidentEntry::Read(ResidentNote {
        ring,
        name: name.to_string(),
        updated_second: MARCH_FIRST,
        updated_nanosecond: 0,
        cost,
        blocks: blocks
            .iter()
            .map(|(c, t)| CitedBlock { citation: c.to_string(), text: t.to_string() })
            .collect(),
    })
}

/// The JSON the program prints for a hook message.
fn printed(m: &HookMessage) -> Value {
    serde_json::from_str(&message_text(m)).expect("a hook prints JSON")
}

#[test]
fn session_start_injects_the_resident_rings_with_citations() {
    let entries = vec![note(0, "invariants", 6, &[("r0-a91f2c33e1bd", "Never deploy on a Friday.\n")])];
    let out = session_start(Vec::new(), &entries, 8192, None);
    let v = printed(out.stdout.as_ref().expect("a resident note is injected"));
    let ctx = v["hookSpecificOutput"]["additionalContext"].as_str().unwrap();
    assert!(ctx.contains("Never deploy on a Friday."));
    assert!(!ctx.contains("Not resident"), "ring 2 is not injected");
    assert!(ctx.contains("[r0-"), "every block carries its citation");
    assert_eq!(v["hookSpecificOutput"]["hookEventName"], "SessionStart");
}

#[test]
fn the_resident_cap_holds_and_is_reported() {
    let entries = vec![note(0, "big", 4000, &[("r0-000000000001", "word word word")])];
    let out = session_start(Vec::new(), &entries, 10, None);
    assert!(out.stdout.is_none(), "nothing fitted, so nothing is injected");
    assert!(out.notes.iter().any(|n| n.contains("resident cap")), "{:?}", out.notes);
}

#[test]
fn a_hook_survives_a_payload_that_is_not_json() {
    let mut notes = Vec::new();
    let source = read_source("not json at all", &mut notes);
    assert!(source.is_none());
    assert!(notes.iter().any(|n| n.contains("not JSON")));
}

#[test]
fn a_hook_on_a_directory_that_is_not_a_store_says_so_and_carries_on() {
    let out = no_store("/tmp/somewhere", "no store here");
    assert!(out.stdout.is_none());
    assert!(out.notes.iter().any(|n| n.contains("no usable store")));
}

#[test]
fn pre_compact_addresses_the_human_and_names_the_count() {
    let out = pre_compact(Vec::new(), 1);
    let v = printed(out.stdout.as_ref().unwrap());
    let msg = v["systemMessage"].as_str().unwrap();
    assert!(msg.contains("1 note(s)"), "{msg}");
}

#[test]
fn the_context_is_header_then_sections_in_order() {
    let entries = vec![
        note(0, "first", 3, &[("r0-aaaaaaaaaaaa", "  one  ")]),
        note(1, "second", 4, &[("r1-bbbbbbbbbbbb", "two"), ("r1-cccccccccccc", "three\n")]),
    ];
    let (ctx, notes) = resident_context(&entries, 100, Some("startup".to_string()));
    let expected = "# Cyberbrain Light\n\nRings 0 and 1 are resident: they apply to everything in this project. Every block below carries its citation; quote it when you rely on it, and expand one with `cbl recall --id <citation>`. Everything else is behind `cbl recall \"<question>\"`, which searches rings 2 to 4 by keyword.\n\n\
## r0 `first` (2024-03-01)\n\n[r0-aaaaaaaaaaaa]\none\n\n\
## r1 `second` (2024-03-01)\n\n[r1-bbbbbbbbbbbb]\ntwo\n\n[r1-cccccccccccc]\nthree\n\n";
    assert_eq!(ctx, expected);
    assert_eq!(notes, vec!["session-start source: startup", "2 resident note(s), ~7 tokens"]);
}

#[test]
fn a_note_over_the_remaining_budget_is_skipped_and_later_ones_still_fit() {
    let entries = vec![
        note(0, "a", 6, &[("r0-000000000001", "a")]),
        note(0, "b", 6, &[("r0-000000000002", "b")]),
        note(1, "c", 4, &[("r1-000000000003", "c")]),
    ];
    let (ctx, notes) = resident_context(&entries, 10, None);
    assert!(ctx.contains("`a`"));
    assert!(!ctx.contains("`b`"));
    assert!(ctx.contains("`c`"));
    assert_eq!(
        notes,
        vec![
            "the resident cap of 10 tokens was reached; some notes in r0/r1 were not injected",
            "2 resident note(s), ~10 tokens",
        ]
    );
}

#[test]
fn an_unreadable_resident_file_is_reported_not_skipped() {
    let entries = vec![ResidentEntry::Unreadable {
        path: "/s/notes/r0/broken.md".to_string(),
        error: "no front matter".to_string(),
    }];
    let out = session_start(vec!["earlier".to_string()], &entries, 8192, None);
    assert!(out.stdout.is_none());
    assert_eq!(
        out.notes,
        vec![
            "earlier",
            "/s/notes/r0/broken.md: unreadable, not injected (no front matter)",
            "0 resident note(s), ~0 tokens",
        ]
    );
}

#[test]
fn a_section_is_written_under_the_day_it_is_given() {
    let n = match note(1, "proto", 1, &[("r1-0123456789ab", "\tstep one\n")]) {
        ResidentEntry::Read(n) => n,
        _ => unreachable!(),
    };
    assert_eq!(section_text(&n, "1999-12-31"), "## r1 `proto` (1999-12-31)\n\n[r1-0123456789ab]\nstep one\n\n");
}

#[test]
fn the_payload_names_its_source_or_else_its_trigger() {
    let mut notes = Vec::new();
    let both = PayloadFields { source: Some(Some("resume".to_string())), trigger: Some(Some("auto".to_string())) };
    assert_eq!(source_of(Some(Ok(both)), &mut notes), Some("resume".to_string()));
    let trigger = PayloadFields { source: None, trigger: Some(Some("auto".to_string())) };
    assert_eq!(source_of(Some(Ok(trigger)), &mut notes), Some("auto".to_string()));
    let not_text = PayloadFields { source: Some(None), trigger: Some(Some("auto".to_string())) };
    assert_eq!(source_of(Some(Ok(not_text)), &mut notes), None);
    assert_eq!(source_of(None, &mut notes), None);
    assert!(notes.is_empty());
    assert_eq!(read_source(r#" {"source":"resume","trigger":"auto"} "#, &mut notes), Some("resume".to_string()));
    assert_eq!(read_source(r#"{"trigger":"auto"}"#, &mut notes), Some("auto".to_string()));
    assert_eq!(read_source(r#"{"source":5,"trigger":"auto"}"#, &mut notes), None);
    assert_eq!(read_source("[]", &mut notes), None);
    assert_eq!(read_source(" \n ", &mut notes), None);
    assert!(notes.is_empty());
    assert_eq!(payload_text("  \n\t "), None);
    assert_eq!(payload_text("  {} \n"), Some("{}".to_string()));
}

#[test]
fn pre_compact_says_exactly_what_is_kept() {
    let out = pre_compact(vec!["stdin is not JSON (x); proceeding without it".to_string()], 12);
    assert_eq!(out.notes.len(), 1);
    match out.stdout {
        Some(HookMessage::System { message }) => assert_eq!(
            message,
            "Cyberbrain Light: the context is being compacted. 12 note(s) are in the store and will be back at the next session start; anything learned in this one and not written with `cbl write` will not."
        ),
        _ => panic!("pre-compact speaks to the human"),
    }
}

#[test]
fn only_visible_markdown_files_are_resident_and_in_order() {
    let names = vec![
        "zeta.md".to_string(),
        ".hidden.md".to_string(),
        "notes.txt".to_string(),
        "alpha.md".to_string(),
        "md".to_string(),
    ];
    assert_eq!(resident_files(names), vec!["alpha.md".to_string(), "zeta.md".to_string()]);
}

#[test]
fn the_harness_names_the_events() {
    assert_eq!(HookEvent::SessionStart.as_str(), "session-start");
    assert_eq!(HookEvent::PreCompact.as_str(), "pre-compact");
    assert_eq!(cyberbrain_light::cli::harness_name(HookEvent::PreCompact), "PreCompact");
}

#[test]
fn a_hook_prints_what_serde_json_prints() {
    let m = HookMessage::Context { event: "SessionStart".to_string(), context: "a \"quoted\"\nline".to_string() };
    let expected = Value::Object(serde_json::Map::from_iter([(
        "hookSpecificOutput".to_string(),
        Value::Object(serde_json::Map::from_iter([
            ("hookEventName".to_string(), Value::String("SessionStart".to_string())),
            ("additionalContext".to_string(), Value::String("a \"quoted\"\nline".to_string())),
        ])),
    )]));
    assert_eq!(message_text(&m), expected.to_string());
    let s = HookMessage::System { message: "1 note(s)".to_string() };
    assert_eq!(message_text(&s), "{\"systemMessage\":\"1 note(s)\"}");
}
