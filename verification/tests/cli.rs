//! The decisions the command line makes on its arguments.

use cyberbrain_light::cli::{doctor_fails, parse_kind, recall_mode, Kind, RecallMode};

#[test]
fn a_citation_wins_over_a_query_and_neither_is_an_error() {
    match recall_mode(Some("r2-a91f2c33e1bd".to_string()), Some("postgres".to_string())) {
        Ok(RecallMode::Expand(c)) => assert_eq!(c, "r2-a91f2c33e1bd"),
        _ => panic!("--id expands"),
    }
    match recall_mode(None, Some("postgres".to_string())) {
        Ok(RecallMode::Search(q)) => assert_eq!(q, "postgres"),
        _ => panic!("a query searches"),
    }
    match recall_mode(None, None) {
        Err(m) => assert_eq!(m, "give a query, or --id to expand a citation"),
        _ => panic!("nothing to do is an error"),
    }
}

#[test]
fn the_doctor_fails_only_on_findings_left_unfixed() {
    assert!(doctor_fails(false, false));
    assert!(!doctor_fails(false, true));
    assert!(!doctor_fails(true, false));
    assert!(!doctor_fails(true, true));
}

#[test]
fn kinds_are_read_by_their_lowercase_names() {
    assert_eq!(parse_kind("bug"), Ok(Kind::Bug));
    assert_eq!(parse_kind("session"), Ok(Kind::Session));
    assert_eq!(parse_kind(""), Ok(Kind::Knowledge));
    assert_eq!(parse_kind("knowledge"), Ok(Kind::Knowledge));
    assert_eq!(parse_kind("Bug"), Err("unknown kind `Bug`".to_string()));
}
