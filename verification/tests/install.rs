//! The settings merge, run on settings text the way the command runs it.

use cyberbrain_light::install::{
    plan_install, EntryView, HookSlot, HooksView, InstallPlan, SettingsFile, SlotView, MANAGED_BY,
};
use cyberbrain_light::settings::install_settings;
use serde_json::Value;

const BINARY: &str = "/usr/local/bin/cbl";
const SETTINGS: &str = "/p/settings.json";

/// The install command on the settings text: the plan, and the text afterwards.
fn install(file: &mut Option<String>, undo: bool) -> Result<InstallPlan, String> {
    let (plan, out) = install_settings(file.as_deref(), SETTINGS, BINARY, undo)?;
    if let Some(t) = out {
        *file = Some(t);
    }
    Ok(plan)
}

fn parsed(file: &Option<String>) -> Value {
    serde_json::from_str(file.as_deref().unwrap()).unwrap()
}

fn text(t: &str) -> Value {
    Value::String(t.to_string())
}

#[test]
fn install_keeps_what_it_did_not_write_and_undoes_only_its_own() {
    let mut settings = Some(
        r#"{"permissions":{"allow":["Bash(ls:*)"]},
            "hooks":{"SessionStart":[{"matcher":"","hooks":[{"type":"command","command":"/usr/bin/true"}]}]}}"#
            .to_string(),
    );

    let r = install(&mut settings, false).unwrap();
    assert_eq!(r.added.len(), 2);
    let v = parsed(&settings);
    assert_eq!(v["permissions"]["allow"][0], "Bash(ls:*)");
    assert_eq!(
        v["hooks"]["SessionStart"].as_array().unwrap().len(),
        2,
        "the foreign SessionStart hook is still there next to ours"
    );

    // Running it twice changes nothing.
    let before = settings.clone();
    let again = install(&mut settings, false).unwrap();
    assert!(again.added.is_empty());
    assert_eq!(again.unchanged.len(), 2);
    assert_eq!(settings, before);

    let undone = install(&mut settings, true).unwrap();
    assert_eq!(undone.removed.len(), 2);
    let v = parsed(&settings);
    assert_eq!(
        v["hooks"]["SessionStart"].as_array().unwrap().len(),
        1,
        "the foreign hook survives the undo"
    );
    assert!(v["hooks"]["PreCompact"].is_null());
}

#[test]
fn install_refuses_a_settings_file_it_cannot_parse() {
    let mut settings = Some("{ this is not json".to_string());
    let err = install(&mut settings, false).unwrap_err();
    assert!(err.contains("not valid JSON"), "{err}");
    assert_eq!(settings.as_deref(), Some("{ this is not json"), "and leaves it exactly as it was");
}

#[test]
fn a_blank_file_is_an_empty_object() {
    let mut settings = Some("  \n".to_string());
    let r = install(&mut settings, false).unwrap();
    assert_eq!(r.added.len(), 2);
    let v = parsed(&settings);
    let ours = &v["hooks"]["PreCompact"][0];
    assert_eq!(ours["_managedBy"], MANAGED_BY);
    assert_eq!(ours["matcher"], "");
    assert_eq!(ours["hooks"][0]["type"], "command");
    assert_eq!(ours["hooks"][0]["command"], BINARY);
    assert_eq!(ours["hooks"][0]["args"], Value::Array(vec![text("hook"), text("pre-compact")]));
    assert!(settings.as_deref().unwrap().ends_with("}\n"));
    let mut none = None;
    install(&mut none, false).unwrap();
    assert_eq!(none, settings);
}

fn ours(same: bool) -> EntryView {
    EntryView { managed_by: Some(MANAGED_BY.to_string()), same_as_ours: same }
}

fn foreign(mark: Option<&str>) -> EntryView {
    EntryView { managed_by: mark.map(str::to_owned), same_as_ours: false }
}

fn slot(key: &str, list: Vec<EntryView>) -> HookSlot {
    HookSlot { key: key.to_string(), value: SlotView::List(list) }
}

#[test]
fn a_fresh_install_adds_both_events_and_writes() {
    let p = plan_install(&SettingsFile::Missing, "s.json", false).unwrap();
    assert_eq!(p.added, vec!["SessionStart".to_string(), "PreCompact".to_string()]);
    assert!(p.unchanged.is_empty() && p.removed.is_empty());
    assert!(p.write);
    assert_eq!(p.edits.len(), 2);
    assert!(p.edits.iter().all(|e| e.push && e.keep.is_empty()));
    assert!(p.drop_keys.is_empty());
    assert!(!p.drop_hooks);
}

#[test]
fn an_undo_without_a_file_is_an_error() {
    let e = plan_install(&SettingsFile::Missing, "/p/settings.json", true).unwrap_err();
    assert_eq!(e, "/p/settings.json does not exist; nothing to undo");
}

#[test]
fn hooks_that_are_not_an_object_or_not_lists_are_refused() {
    let e = plan_install(&SettingsFile::Object(HooksView::NotAnObject), "s", false).unwrap_err();
    assert_eq!(e, "`hooks` in settings.json is not an object");
    let slots = vec![HookSlot { key: "PreCompact".to_string(), value: SlotView::Other }];
    let e = plan_install(&SettingsFile::Object(HooksView::Object(slots)), "s", false).unwrap_err();
    assert_eq!(e, "`hooks.PreCompact` is not a list");
}

#[test]
fn an_outdated_entry_of_ours_is_replaced_and_counted_as_added() {
    let slots = vec![
        slot("SessionStart", vec![foreign(None), ours(false), foreign(Some("someone-else"))]),
        slot("PreCompact", vec![ours(true)]),
    ];
    let p = plan_install(&SettingsFile::Object(HooksView::Object(slots)), "s", false).unwrap();
    assert_eq!(p.edits[0].keep, vec![0, 2]);
    assert!(p.edits[0].push);
    assert!(p.edits[1].keep.is_empty());
    assert_eq!(p.added, vec!["SessionStart".to_string()]);
    assert_eq!(p.unchanged, vec!["PreCompact".to_string()]);
    assert!(p.write);
}

#[test]
fn an_undo_drops_only_the_lists_it_empties() {
    let slots = vec![
        slot("SessionStart", vec![ours(true)]),
        slot("Stop", vec![]),
        slot("PreCompact", vec![ours(true)]),
    ];
    let p = plan_install(&SettingsFile::Object(HooksView::Object(slots)), "s", true).unwrap();
    assert_eq!(p.removed, vec!["SessionStart".to_string(), "PreCompact".to_string()]);
    assert!(p.edits.iter().all(|e| !e.push && e.keep.is_empty()));
    assert_eq!(p.drop_keys, vec!["SessionStart".to_string(), "PreCompact".to_string()]);
    assert!(!p.drop_hooks, "an empty list this tool did not write stays");
    assert!(p.write);

    let only_ours = vec![slot("SessionStart", vec![ours(true)]), slot("PreCompact", vec![ours(true)])];
    let p = plan_install(&SettingsFile::Object(HooksView::Object(only_ours)), "s", true).unwrap();
    assert!(p.drop_hooks);
}

#[test]
fn an_empty_list_this_tool_did_not_write_is_copied_through() {
    let mut settings = Some(r#"{"hooks":{"Stop":[]}}"#.to_string());
    let r = install(&mut settings, false).unwrap();
    assert_eq!(r.added, vec!["SessionStart".to_string(), "PreCompact".to_string()]);
    let v = parsed(&settings);
    assert_eq!(v["hooks"]["Stop"], Value::Array(vec![]));
    install(&mut settings, true).unwrap();
    let v = parsed(&settings);
    assert_eq!(v["hooks"]["Stop"], Value::Array(vec![]));
    assert!(v["hooks"]["SessionStart"].is_null());
}

#[test]
fn a_second_install_writes_nothing() {
    let slots = vec![slot("SessionStart", vec![ours(true)]), slot("PreCompact", vec![ours(true)])];
    let p = plan_install(&SettingsFile::Object(HooksView::Object(slots)), "s", false).unwrap();
    assert!(!p.write);
    assert!(p.added.is_empty());
    assert_eq!(p.unchanged.len(), 2);
}

#[test]
fn every_other_setting_and_hook_is_carried_through() {
    let before = r#"{"z":{"deep":[1,2.5,null,"x"]},"a":true,"hooks":{"Stop":[{"k":"v"}],"SessionStart":[{"_managedBy":"someone-else"},{"_managedBy":"cyberbrain-light","old":1}]}}"#;
    let mut settings = Some(before.to_string());
    install(&mut settings, false).unwrap();
    let v = parsed(&settings);
    let b: Value = serde_json::from_str(before).unwrap();
    assert_eq!(v["z"], b["z"]);
    assert_eq!(v["a"], b["a"]);
    assert_eq!(v["hooks"]["Stop"], b["hooks"]["Stop"]);
    let ss = v["hooks"]["SessionStart"].as_array().unwrap();
    assert_eq!(ss.len(), 2);
    assert_eq!(ss[0], b["hooks"]["SessionStart"][0], "the foreign entry keeps its place");
    assert_eq!(ss[1]["_managedBy"], MANAGED_BY);
    assert!(ss[1].get("old").is_none(), "our outdated entry was replaced");
}

#[test]
fn a_file_that_is_not_an_object_is_refused() {
    let mut settings = Some("[1, 2]".to_string());
    let err = install(&mut settings, false).unwrap_err();
    assert_eq!(err, "/p/settings.json is not valid JSON; fix or move it, this tool will not overwrite it");
    let mut hooks_list = Some(r#"{"hooks":[]}"#.to_string());
    assert_eq!(install(&mut hooks_list, false).unwrap_err(), "`hooks` in settings.json is not an object");
    let mut not_a_list = Some(r#"{"hooks":{"PreCompact":{}}}"#.to_string());
    assert_eq!(install(&mut not_a_list, false).unwrap_err(), "`hooks.PreCompact` is not a list");
}
