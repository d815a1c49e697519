//! The settings file of `cbl install` as text: what the merge reads from it, and the text
//! written back. Everything that is not one of the two event lists is carried through as
//! the JSON it was.

use vstd::prelude::*;
use crate::install::{
    EntryView, HookSlot, HooksView, InstallPlan, MANAGED_BY, SettingsFile, SlotView, event_name,
    plan_install, plan_outcome,
};
use crate::json::{JsonShape, ShapeModel, members, json_at, json_pretty, json_quote, json_shape, opt_text,
    pretty, quote, shape_at, text_at, text_in};

use crate::text::{str_eq, texts, trim, trimmed};
use crate::cli::{HookEvent, event_arg, event_harness_name};

verus! {

/// The position of the first member named `key`, or -1.
pub open spec fn member_index(ms: Seq<(Seq<char>, Seq<char>)>, key: Seq<char>) -> int
    decreases ms.len(),
{
    if ms.len() == 0 {
        -1
    } else {
        let r = member_index(ms.drop_last(), key);
        if r >= 0 {
            r
        } else if ms.last().0 == key {
            ms.len() - 1
        } else {
            -1
        }
    }
}

/// The argument after `cbl hook` for the list under `key`.
pub open spec fn hook_arg(key: Seq<char>) -> Seq<char> {
    if key == event_name(0) {
        "session-start"@
    } else {
        "pre-compact"@
    }
}

/// The entry this install writes for the hook argument `arg`, as compact JSON with its keys
/// in order, as `serde_json` writes a value.
pub open spec fn ours_json(binary: Seq<char>, arg: Seq<char>) -> Seq<char> {
    "{\"_managedBy\":"@ + json_quote(MANAGED_BY@) + ",\"hooks\":[{\"args\":["@ + json_quote(
        "hook"@,
    ) + ","@ + json_quote(arg) + "],\"command\":"@ + json_quote(binary) + ",\"type\":"@
        + json_quote("command"@) + "}],\"matcher\":"@ + json_quote(""@) + "}"@
}

/// Whether an entry carries this tool's mark.
pub open spec fn marked_ours(entry: Seq<char>) -> bool {
    text_in(json_at(entry, "/_managedBy"@)) == Some(MANAGED_BY@)
}

/// An entry as the merge reads it: its mark, and whether it is exactly ours.
pub open spec fn entry_read(e: EntryView, entry: Seq<char>, ours: Seq<char>) -> bool {
    &&& opt_text(e.managed_by) == text_in(json_at(entry, "/_managedBy"@))
    &&& e.same_as_ours == (entry == ours)
}

/// A member of `hooks` as the merge reads it: a list of entries when its value is an array.
pub open spec fn slot_read(s: HookSlot, m: (Seq<char>, Seq<char>), binary: Seq<char>) -> bool {
    &&& s.key@ == m.0
    &&& match json_shape(m.1, ""@) {
        Ok(Some(ShapeModel::Array(items))) => s.value matches SlotView::List(es) && es@.len()
            == items.len() && forall|j: int|
            0 <= j < items.len() ==> entry_read(
                #[trigger] es@[j],
                items[j],
                ours_json(binary, hook_arg(m.0)),
            ),
        _ => s.value is Other,
    }
}

/// The `hooks` member of the settings as the merge reads it.
pub open spec fn hooks_read(h: HooksView, top: Seq<(Seq<char>, Seq<char>)>, binary: Seq<char>) -> bool {
    let k = member_index(top, "hooks"@);
    if k < 0 {
        h is Absent
    } else {
        match json_shape(top[k].1, ""@) {
            Ok(Some(ShapeModel::Object(ms))) => h matches HooksView::Object(slots) && slots@.len()
                == ms.len() && forall|j: int|
                0 <= j < ms.len() ==> slot_read(#[trigger] slots@[j], ms[j], binary),
            _ => h is NotAnObject,
        }
    }
}

/// The settings file as the merge reads it from its text, or from its absence.
pub open spec fn settings_read(f: SettingsFile, text: Option<Seq<char>>, binary: Seq<char>) -> bool {
    match text {
        None => f is Missing,
        Some(t) => if trimmed(t).len() == 0 {
            f is Blank
        } else {
            match json_shape(t, ""@) {
                Ok(Some(ShapeModel::Object(top))) => f matches SettingsFile::Object(h) && hooks_read(
                    h,
                    top,
                    binary,
                ),
                _ => f is Invalid,
            }
        },
    }
}

/// The members of the settings object: none when there is no object.
pub open spec fn top_members(text: Option<Seq<char>>) -> Seq<(Seq<char>, Seq<char>)> {
    match text {
        Some(t) => if trimmed(t).len() == 0 {
            Seq::empty()
        } else {
            match json_shape(t, ""@) {
                Ok(Some(ShapeModel::Object(top))) => top,
                _ => Seq::empty(),
            }
        },
        None => Seq::empty(),
    }
}

/// The members of `hooks`: none when it is absent or not an object.
pub open spec fn hooks_members(top: Seq<(Seq<char>, Seq<char>)>) -> Seq<(Seq<char>, Seq<char>)> {
    let k = member_index(top, "hooks"@);
    if k < 0 {
        Seq::empty()
    } else {
        match json_shape(top[k].1, ""@) {
            Ok(Some(ShapeModel::Object(ms))) => ms,
            _ => Seq::empty(),
        }
    }
}

/// The entries of an event's list: none when the list is absent or not an array.
pub open spec fn event_items(hm: Seq<(Seq<char>, Seq<char>)>, i: int) -> Seq<Seq<char>> {
    let k = member_index(hm, event_name(i));
    if k < 0 {
        Seq::empty()
    } else {
        match json_shape(hm[k].1, ""@) {
            Ok(Some(ShapeModel::Array(items))) => items,
            _ => Seq::empty(),
        }
    }
}

/// The entries without this tool's mark, in their order.
pub open spec fn foreign_items(items: Seq<Seq<char>>) -> Seq<Seq<char>>
    decreases items.len(),
{
    if items.len() == 0 {
        Seq::empty()
    } else {
        let init = foreign_items(items.drop_last());
        if marked_ours(items.last()) {
            init
        } else {
            init.push(items.last())
        }
    }
}

/// Texts separated by commas.
pub open spec fn joined(xs: Seq<Seq<char>>) -> Seq<char>
    decreases xs.len(),
{
    if xs.len() == 0 {
        Seq::empty()
    } else if xs.len() == 1 {
        xs[0]
    } else {
        joined(xs.drop_last()) + ","@ + xs.last()
    }
}

/// A JSON array of the given elements.
pub open spec fn array_text(xs: Seq<Seq<char>>) -> Seq<char> {
    "["@ + joined(xs) + "]"@
}

/// A member of a JSON object: its key as a JSON string, a colon, its value.
pub open spec fn member_text(m: (Seq<char>, Seq<char>)) -> Seq<char> {
    json_quote(m.0) + ":"@ + m.1
}

/// Members separated by commas.
pub open spec fn members_joined(ms: Seq<(Seq<char>, Seq<char>)>) -> Seq<char>
    decreases ms.len(),
{
    if ms.len() == 0 {
        Seq::empty()
    } else if ms.len() == 1 {
        member_text(ms[0])
    } else {
        members_joined(ms.drop_last()) + ","@ + member_text(ms.last())
    }
}

/// A JSON object of the given members.
pub open spec fn object_text(ms: Seq<(Seq<char>, Seq<char>)>) -> Seq<char> {
    "{"@ + members_joined(ms) + "}"@
}

/// An event's list after the merge: its foreign entries in order, then ours when the plan
/// appends it.
pub open spec fn list_out(hm: Seq<(Seq<char>, Seq<char>)>, i: int, push: bool, binary: Seq<char>) -> Seq<char> {
    array_text(
        foreign_items(event_items(hm, i)) + if push {
            seq![ours_json(binary, hook_arg(event_name(i)))]
        } else {
            Seq::empty()
        },
    )
}

/// The members of `hooks` after the merge, for the members already there: the dropped keys
/// go, the two events' lists are replaced, every other member stays as it was.
pub open spec fn kept_hooks(
    hm: Seq<(Seq<char>, Seq<char>)>,
    l0: Seq<char>,
    l1: Seq<char>,
    drops: Seq<Seq<char>>,
) -> Seq<(Seq<char>, Seq<char>)>
    decreases hm.len(),
{
    if hm.len() == 0 {
        Seq::empty()
    } else {
        let init = kept_hooks(hm.drop_last(), l0, l1, drops);
        let m = hm.last();
        if drops.contains(m.0) {
            init
        } else if m.0 == event_name(0) {
            init.push((m.0, l0))
        } else if m.0 == event_name(1) {
            init.push((m.0, l1))
        } else {
            init.push(m)
        }
    }
}

/// The members of `hooks` after the merge: those already there, then each event's list
/// that was not there and is not dropped.
pub open spec fn hooks_out(hm: Seq<(Seq<char>, Seq<char>)>, p: InstallPlan, binary: Seq<char>) -> Seq<
    (Seq<char>, Seq<char>),
> {
    let drops = texts(p.drop_keys@);
    let l0 = list_out(hm, 0, p.edits@[0].push, binary);
    let l1 = list_out(hm, 1, p.edits@[1].push, binary);
    let a = kept_hooks(hm, l0, l1, drops);
    let b = if member_index(hm, event_name(0)) < 0 && !drops.contains(event_name(0)) {
        a.push((event_name(0), l0))
    } else {
        a
    };
    if member_index(hm, event_name(1)) < 0 && !drops.contains(event_name(1)) {
        b.push((event_name(1), l1))
    } else {
        b
    }
}

/// The members of the settings object after the merge: every member but `hooks` as it was,
/// and `hooks` replaced, added when it was not there, or removed when the plan drops it.
pub open spec fn kept_top(top: Seq<(Seq<char>, Seq<char>)>, hooks: Seq<char>, drop_hooks: bool) -> Seq<
    (Seq<char>, Seq<char>),
>
    decreases top.len(),
{
    if top.len() == 0 {
        Seq::empty()
    } else {
        let init = kept_top(top.drop_last(), hooks, drop_hooks);
        let m = top.last();
        if m.0 == "hooks"@ {
            if drop_hooks {
                init
            } else {
                init.push((m.0, hooks))
            }
        } else {
            init.push(m)
        }
    }
}

/// The settings after the merge, as compact JSON.
pub open spec fn settings_out(text: Option<Seq<char>>, p: InstallPlan, binary: Seq<char>) -> Seq<char> {
    settings_out_of(top_members(text), p, binary)
}

/// The settings object with members `top` after the merge, as compact JSON.
pub open spec fn settings_out_of(top: Seq<(Seq<char>, Seq<char>)>, p: InstallPlan, binary: Seq<char>) -> Seq<char> {
    let h = object_text(hooks_out(hooks_members(top), p, binary));
    let t = kept_top(top, h, p.drop_hooks);
    object_text(
        if member_index(top, "hooks"@) < 0 && !p.drop_hooks {
            t.push(("hooks"@, h))
        } else {
            t
        },
    )
}

/// The members other than `key`, in order.
pub open spec fn others(ms: Seq<(Seq<char>, Seq<char>)>, key: Seq<char>) -> Seq<(Seq<char>, Seq<char>)>
    decreases ms.len(),
{
    if ms.len() == 0 {
        Seq::empty()
    } else if ms.last().0 == key {
        others(ms.drop_last(), key)
    } else {
        others(ms.drop_last(), key).push(ms.last())
    }
}

proof fn lemma_others_push(ms: Seq<(Seq<char>, Seq<char>)>, x: (Seq<char>, Seq<char>), key: Seq<char>)
    ensures
        others(ms.push(x), key) == if x.0 == key {
            others(ms, key)
        } else {
            others(ms, key).push(x)
        },
{
    assert(ms.push(x).drop_last() =~= ms);
}

/// Law: every member of the settings other than `hooks` is carried through as it was, in
/// its order.
pub proof fn install_keeps_every_other_setting(
    top: Seq<(Seq<char>, Seq<char>)>,
    hooks: Seq<char>,
    drop_hooks: bool,
)
    ensures
        others(kept_top(top, hooks, drop_hooks), "hooks"@) == others(top, "hooks"@),
        others(kept_top(top, hooks, drop_hooks).push(("hooks"@, hooks)), "hooks"@) == others(
            top,
            "hooks"@,
        ),
    decreases top.len(),
{
    let k = kept_top(top, hooks, drop_hooks);
    lemma_others_push(k, ("hooks"@, hooks), "hooks"@);
    if top.len() > 0 {
        install_keeps_every_other_setting(top.drop_last(), hooks, drop_hooks);
        let init = kept_top(top.drop_last(), hooks, drop_hooks);
        let m = top.last();
        lemma_others_push(top.drop_last(), m, "hooks"@);
        assert(top.drop_last().push(m) =~= top);
        if m.0 == "hooks"@ {
            if !drop_hooks {
                lemma_others_push(init, (m.0, hooks), "hooks"@);
            }
        } else {
            lemma_others_push(init, m, "hooks"@);
        }
    }
}

/// Law: under `hooks`, the merge carries every member other than the two events through as
/// it was, in its order, and drops no such member; each event's list it keeps is that
/// event's foreign entries in their order, followed by ours when the plan appends it.
pub proof fn install_keeps_every_other_hook(
    hm: Seq<(Seq<char>, Seq<char>)>,
    l0: Seq<char>,
    l1: Seq<char>,
    drops: Seq<Seq<char>>,
)
    requires
        forall|i: int| 0 <= i < drops.len() ==> #[trigger] drops[i] == event_name(0) || drops[i]
            == event_name(1),
    ensures
        others(others(kept_hooks(hm, l0, l1, drops), event_name(0)), event_name(1)) == others(
            others(hm, event_name(0)),
            event_name(1),
        ),
        forall|j: int|
            0 <= j < kept_hooks(hm, l0, l1, drops).len() ==> (#[trigger] kept_hooks(
                hm,
                l0,
                l1,
                drops,
            )[j].0 == event_name(0) ==> kept_hooks(hm, l0, l1, drops)[j].1 == l0),
        forall|j: int|
            0 <= j < kept_hooks(hm, l0, l1, drops).len() ==> (#[trigger] kept_hooks(
                hm,
                l0,
                l1,
                drops,
            )[j].0 == event_name(1) ==> kept_hooks(hm, l0, l1, drops)[j].1 == l1),
        forall|j: int|
            0 <= j < kept_hooks(hm, l0, l1, drops).len() ==> !drops.contains(
                #[trigger] kept_hooks(hm, l0, l1, drops)[j].0,
            ),
    decreases hm.len(),
{
    reveal_strlit("SessionStart");
    reveal_strlit("PreCompact");
    assert(event_name(0) != event_name(1)) by {
        assert(event_name(0)[0] != event_name(1)[0]);
    }
    if hm.len() > 0 {
        let init = kept_hooks(hm.drop_last(), l0, l1, drops);
        install_keeps_every_other_hook(hm.drop_last(), l0, l1, drops);
        let m = hm.last();
        let r = kept_hooks(hm, l0, l1, drops);
        let e0 = event_name(0);
        let e1 = event_name(1);
        let h0 = hm.drop_last();
        assert(h0.push(m) =~= hm);
        lemma_others_push(h0, m, e0);
        lemma_others_push(others(h0, e0), m, e1);
        if drops.contains(m.0) {
            let i = choose|i: int| 0 <= i < drops.len() && drops[i] == m.0;
            assert(drops[i] == event_name(0) || drops[i] == event_name(1));
        } else {
            let x = if m.0 == event_name(0) {
                (m.0, l0)
            } else if m.0 == event_name(1) {
                (m.0, l1)
            } else {
                m
            };
            assert(r == init.push(x));
            assert(r.drop_last() =~= init);
            lemma_others_push(init, x, e0);
            lemma_others_push(others(init, e0), x, e1);
            assert forall|j: int| 0 <= j < r.len() implies !drops.contains(#[trigger] r[j].0) by {
                if j < init.len() {
                    assert(r[j] == init[j]);
                }
            }
            assert forall|j: int| 0 <= j < r.len() && #[trigger] r[j].0 == event_name(0)
                implies r[j].1 == l0 by {
                if j < init.len() {
                    assert(r[j] == init[j]);
                }
            }
            assert forall|j: int| 0 <= j < r.len() && #[trigger] r[j].0 == event_name(1)
                implies r[j].1 == l1 by {
                if j < init.len() {
                    assert(r[j] == init[j]);
                }
            }
        }
    }
}

/// Law: the merge writes nothing under `hooks` but the two events' lists: every other
/// member of `hooks` is carried through as it was, in its order, whenever the plan drops no
/// key but the two events'.
pub proof fn install_touches_only_the_two_lists(
    hm: Seq<(Seq<char>, Seq<char>)>,
    p: InstallPlan,
    binary: Seq<char>,
)
    requires
        p.edits@.len() == 2,
        forall|i: int|
            0 <= i < p.drop_keys@.len() ==> #[trigger] p.drop_keys@[i]@ == event_name(0)
                || p.drop_keys@[i]@ == event_name(1),
    ensures
        others(others(hooks_out(hm, p, binary), event_name(0)), event_name(1)) == others(
            others(hm, event_name(0)),
            event_name(1),
        ),
{
    let drops = texts(p.drop_keys@);
    assert forall|i: int| 0 <= i < drops.len() implies #[trigger] drops[i] == event_name(0)
        || drops[i] == event_name(1) by {
        assert(drops[i] == p.drop_keys@[i]@);
    }
    let l0 = list_out(hm, 0, p.edits@[0].push, binary);
    let l1 = list_out(hm, 1, p.edits@[1].push, binary);
    let a = kept_hooks(hm, l0, l1, drops);
    install_keeps_every_other_hook(hm, l0, l1, drops);
    let x0 = (event_name(0), l0);
    let x1 = (event_name(1), l1);
    lemma_others_push(a, x0, event_name(0));
    lemma_others_push(others(a, event_name(0)), x0, event_name(1));
    let b = if member_index(hm, event_name(0)) < 0 && !drops.contains(event_name(0)) {
        a.push(x0)
    } else {
        a
    };
    lemma_others_push(b, x1, event_name(0));
    lemma_others_push(others(b, event_name(0)), x1, event_name(1));
}

/// Law: the entries an event's list keeps are exactly its entries without this tool's mark,
/// in their order.
pub proof fn foreign_entries_are_the_unmarked_ones(items: Seq<Seq<char>>)
    ensures
        foreign_items(items) == items.filter(|x: Seq<char>| !marked_ours(x)),
    decreases items.len(),
{
    reveal(Seq::filter);
    if items.len() > 0 {
        foreign_entries_are_the_unmarked_ones(items.drop_last());
    }
}

fn find_member(ms: &Vec<(String, String)>, key: &str) -> (r: Option<usize>)
    ensures
        member_index(members(ms@), key@) < 0 <==> r is None,
        r matches Some(k) ==> k == member_index(members(ms@), key@) && 0 <= k < ms@.len(),
{
    let mut found: Option<usize> = None;
    let mut i: usize = 0;
    while i < ms.len()
        invariant
            i <= ms.len(),
            match found {
                None => member_index(members(ms@.take(i as int)), key@) < 0,
                Some(k) => k == member_index(members(ms@.take(i as int)), key@) && k < i,
            },
            -1 <= member_index(members(ms@.take(i as int)), key@),
        decreases ms.len() - i,
    {
        proof {
            assert(members(ms@.take(i + 1)).drop_last() =~= members(ms@.take(i as int)));
            assert(members(ms@.take(i + 1)).last() == (ms@[i as int].0@, ms@[i as int].1@));
        }
        if found.is_none() && str_eq(ms[i].0.as_str(), key) {
            found = Some(i);
        }
        i = i + 1;
    }
    proof {
        assert(ms@.take(ms.len() as int) =~= ms@);
    }
    found
}

/// The entry this install writes for the hook argument `arg`.
fn ours_text(binary: &str, arg: &str) -> (r: String)
    ensures
        r@ == ours_json(binary@, arg@),
{
    let mut r = String::from_str("{\"_managedBy\":");
    r.append(quote(MANAGED_BY).as_str());
    r.append(",\"hooks\":[{\"args\":[");
    r.append(quote("hook").as_str());
    r.append(",");
    r.append(quote(arg).as_str());
    r.append("],\"command\":");
    r.append(quote(binary).as_str());
    r.append(",\"type\":");
    r.append(quote("command").as_str());
    r.append("}],\"matcher\":");
    r.append(quote("").as_str());
    r.append("}");
    r
}

fn arg_for(key: &str) -> (r: &'static str)
    ensures
        r@ == hook_arg(key@),
{
    proof {
        reveal_strlit("SessionStart");
    }
    if str_eq(key, "SessionStart") {
        "session-start"
    } else {
        "pre-compact"
    }
}

fn read_entries(items: &Vec<String>, ours: &str) -> (r: Vec<EntryView>)
    ensures
        r@.len() == items@.len(),
        forall|j: int| 0 <= j < items@.len() ==> entry_read(#[trigger] r@[j], items@[j]@, ours@),
{
    let mut r: Vec<EntryView> = Vec::new();
    let mut i: usize = 0;
    while i < items.len()
        invariant
            i <= items.len(),
            r@.len() == i,
            forall|j: int| 0 <= j < i ==> entry_read(#[trigger] r@[j], items@[j]@, ours@),
        decreases items.len() - i,
    {
        let managed_by = match text_at(items[i].as_str(), "/_managedBy") {
            Ok(t) => t,
            Err(_) => None,
        };
        r.push(EntryView { managed_by, same_as_ours: str_eq(items[i].as_str(), ours) });
        i = i + 1;
    }
    r
}

fn read_slots(ms: &Vec<(String, String)>, binary: &str) -> (r: Vec<HookSlot>)
    ensures
        r@.len() == ms@.len(),
        forall|j: int| 0 <= j < ms@.len() ==> slot_read(#[trigger] r@[j], members(ms@)[j], binary@),
{
    let mut r: Vec<HookSlot> = Vec::new();
    let mut i: usize = 0;
    while i < ms.len()
        invariant
            i <= ms.len(),
            r@.len() == i,
            forall|j: int| 0 <= j < i ==> slot_read(#[trigger] r@[j], members(ms@)[j], binary@),
        decreases ms.len() - i,
    {
        let key = ms[i].0.as_str();
        let value = match shape_at(ms[i].1.as_str(), "") {
            Ok(Some(JsonShape::Array(items))) => {
                let ours = ours_text(binary, arg_for(key));
                SlotView::List(read_entries(&items, ours.as_str()))
            },
            _ => SlotView::Other,
        };
        r.push(HookSlot { key: String::from_str(key), value });
        proof {
            assert(members(ms@)[i as int] == (ms@[i as int].0@, ms@[i as int].1@));
        }
        i = i + 1;
    }
    r
}

/// The settings as the merge reads them, with the members of the settings object.
fn read_settings(text: Option<&str>, binary: &str) -> (r: (SettingsFile, Vec<(String, String)>))
    ensures
        settings_read(r.0, match text {
            Some(t) => Some(t@),
            None => None,
        }, binary@),
        members(r.1@) == top_members(match text {
            Some(t) => Some(t@),
            None => None,
        }),
{
    match text {
        None => (SettingsFile::Missing, Vec::new()),
        Some(t) => {
            if trim(t).as_str().unicode_len() == 0 {
                return (SettingsFile::Blank, Vec::new());
            }
            assert(trimmed(t@).len() != 0);
            match shape_at(t, "") {
                Ok(Some(JsonShape::Object(top))) => {
                    let hooks = match find_member(&top, "hooks") {
                        None => HooksView::Absent,
                        Some(k) => match shape_at(top[k].1.as_str(), "") {
                            Ok(Some(JsonShape::Object(ms))) => {
                                let slots = read_slots(&ms, binary);
                                proof {
                                    assert(members(top@)[k as int].1 == top@[k as int].1@);
                                    assert(members(ms@).len() == ms@.len());
                                    assert(forall|j: int| 0 <= j < members(ms@).len() ==> slot_read(#[trigger] slots@[j], members(ms@)[j], binary@));
                                }
                                let h = HooksView::Object(slots);
                                assert(hooks_read(h, members(top@), binary@));
                                h
                            },
                            _ => {
                                proof {
                                    assert(members(top@)[k as int].1 == top@[k as int].1@);
                                }
                                HooksView::NotAnObject
                            },
                        },
                    };
                    assert(hooks_read(hooks, members(top@), binary@));
                    (SettingsFile::Object(hooks), top)
                },
                _ => (SettingsFile::Invalid, Vec::new()),
            }
        },
    }
}


fn join_texts(xs: &Vec<String>) -> (r: String)
    ensures
        r@ == joined(texts(xs@)),
{
    let mut r = String::new();
    let mut i: usize = 0;
    while i < xs.len()
        invariant
            i <= xs.len(),
            r@ == joined(texts(xs@).take(i as int)),
        decreases xs.len() - i,
    {
        proof {
            assert(texts(xs@).take(i + 1).drop_last() =~= texts(xs@).take(i as int));
            assert(texts(xs@).take(i + 1).last() == xs@[i as int]@);
            if i == 0 {
                assert(texts(xs@).take(1)[0] == xs@[0]@);
            }
        }
        if i > 0 {
            r.append(",");
        }
        r.append(xs[i].as_str());
        i = i + 1;
    }
    proof {
        assert(texts(xs@).take(xs.len() as int) =~= texts(xs@));
    }
    r
}

fn object_of(ms: &Vec<(String, String)>) -> (r: String)
    ensures
        r@ == object_text(members(ms@)),
{
    let mut r = String::from_str("{");
    let mut i: usize = 0;
    while i < ms.len()
        invariant
            i <= ms.len(),
            r@ == "{"@ + members_joined(members(ms@).take(i as int)),
        decreases ms.len() - i,
    {
        proof {
            assert(members(ms@).take(i + 1).drop_last() =~= members(ms@).take(i as int));
            assert(members(ms@).take(i + 1).last() == (ms@[i as int].0@, ms@[i as int].1@));
            if i == 0 {
                assert(members(ms@).take(1)[0] == (ms@[0].0@, ms@[0].1@));
                assert(members_joined(members(ms@).take(0)) =~= Seq::<char>::empty());
            }
        }
        if i > 0 {
            r.append(",");
        }
        r.append(quote(ms[i].0.as_str()).as_str());
        r.append(":");
        r.append(ms[i].1.as_str());
        i = i + 1;
    }
    proof {
        assert(members(ms@).take(ms.len() as int) =~= members(ms@));
    }
    r.append("}");
    r
}

fn is_marked(entry: &str) -> (r: bool)
    ensures
        r == marked_ours(entry@),
{
    match text_at(entry, "/_managedBy") {
        Ok(Some(t)) => str_eq(t.as_str(), MANAGED_BY),
        _ => false,
    }
}

fn foreign_of(items: &Vec<String>) -> (r: Vec<String>)
    ensures
        texts(r@) == foreign_items(texts(items@)),
{
    let mut r: Vec<String> = Vec::new();
    let mut i: usize = 0;
    while i < items.len()
        invariant
            i <= items.len(),
            texts(r@) == foreign_items(texts(items@).take(i as int)),
        decreases items.len() - i,
    {
        proof {
            assert(texts(items@).take(i + 1).drop_last() =~= texts(items@).take(i as int));
            assert(texts(items@).take(i + 1).last() == items@[i as int]@);
        }
        if !is_marked(items[i].as_str()) {
            let ghost before = r@;
            r.push(String::from_str(items[i].as_str()));
            assert(texts(r@) =~= texts(before).push(items@[i as int]@));
        }
        i = i + 1;
    }
    proof {
        assert(texts(items@).take(items.len() as int) =~= texts(items@));
    }
    r
}

fn list_for(hm: &Vec<(String, String)>, i: usize, name: &str, push: bool, binary: &str) -> (r: String)
    requires
        i < 2,
        name@ == event_name(i as int),
    ensures
        r@ == list_out(members(hm@), i as int, push, binary@),
{
    let items: Vec<String> = match find_member(hm, name) {
        None => Vec::new(),
        Some(k) => {
            proof {
                assert(members(hm@)[k as int].1 == hm@[k as int].1@);
            }
            match shape_at(hm[k].1.as_str(), "") {
                Ok(Some(JsonShape::Array(items))) => items,
                _ => Vec::new(),
            }
        },
    };
    assert(texts(items@) == event_items(members(hm@), i as int));
    let mut kept = foreign_of(&items);
    if push {
        let ghost before = kept@;
        kept.push(ours_text(binary, arg_for(name)));
        assert(texts(kept@) =~= texts(before).push(ours_json(binary@, hook_arg(event_name(i as int)))));
        assert(texts(kept@) =~= foreign_items(event_items(members(hm@), i as int)) + seq![ours_json(binary@, hook_arg(event_name(i as int)))]);
    } else {
        assert(texts(kept@) =~= foreign_items(event_items(members(hm@), i as int)) + Seq::<Seq<char>>::empty());
    }
    let mut r = String::from_str("[");
    r.append(join_texts(&kept).as_str());
    r.append("]");
    r
}

fn contains_text(v: &Vec<String>, s: &str) -> (r: bool)
    ensures
        r == texts(v@).contains(s@),
{
    let mut i: usize = 0;
    while i < v.len()
        invariant
            i <= v.len(),
            forall|j: int| 0 <= j < i ==> v@[j]@ != s@,
        decreases v.len() - i,
    {
        if str_eq(v[i].as_str(), s) {
            assert(texts(v@)[i as int] == s@);
            return true;
        }
        i = i + 1;
    }
    proof {
        if texts(v@).contains(s@) {
            let k = choose|k: int| 0 <= k < texts(v@).len() && texts(v@)[k] == s@;
            assert(v@[k]@ == s@);
        }
    }
    false
}

fn push_member(v: &mut Vec<(String, String)>, k: &str, x: &str)
    ensures
        members(final(v)@) == members(old(v)@).push((k@, x@)),
{
    let ghost before = v@;
    v.push((String::from_str(k), String::from_str(x)));
    assert(members(v@) =~= members(before).push((k@, x@)));
}

fn hooks_kept(hm: &Vec<(String, String)>, l0: &str, l1: &str, drops: &Vec<String>) -> (r: Vec<(String, String)>)
    ensures
        members(r@) == kept_hooks(members(hm@), l0@, l1@, texts(drops@)),
{
    proof {
        reveal_strlit("SessionStart");
        reveal_strlit("PreCompact");
    }
    let mut r: Vec<(String, String)> = Vec::new();
    let mut i: usize = 0;
    while i < hm.len()
        invariant
            i <= hm.len(),
            members(r@) == kept_hooks(members(hm@).take(i as int), l0@, l1@, texts(drops@)),
        decreases hm.len() - i,
    {
        proof {
            assert(members(hm@).take(i + 1).drop_last() =~= members(hm@).take(i as int));
            assert(members(hm@).take(i + 1).last() == (hm@[i as int].0@, hm@[i as int].1@));
        }
        let k = hm[i].0.as_str();
        if contains_text(drops, k) {
        } else if str_eq(k, "SessionStart") {
            push_member(&mut r, k, l0);
        } else if str_eq(k, "PreCompact") {
            push_member(&mut r, k, l1);
        } else {
            push_member(&mut r, k, hm[i].1.as_str());
        }
        i = i + 1;
    }
    proof {
        assert(members(hm@).take(hm.len() as int) =~= members(hm@));
    }
    r
}

fn top_kept(top: &Vec<(String, String)>, h: &str, drop_hooks: bool) -> (r: Vec<(String, String)>)
    ensures
        members(r@) == kept_top(members(top@), h@, drop_hooks),
{
    let mut r: Vec<(String, String)> = Vec::new();
    let mut i: usize = 0;
    while i < top.len()
        invariant
            i <= top.len(),
            members(r@) == kept_top(members(top@).take(i as int), h@, drop_hooks),
        decreases top.len() - i,
    {
        proof {
            assert(members(top@).take(i + 1).drop_last() =~= members(top@).take(i as int));
            assert(members(top@).take(i + 1).last() == (top@[i as int].0@, top@[i as int].1@));
        }
        let k = top[i].0.as_str();
        if str_eq(k, "hooks") {
            if !drop_hooks {
                push_member(&mut r, k, h);
            }
        } else {
            push_member(&mut r, k, top[i].1.as_str());
        }
        i = i + 1;
    }
    proof {
        assert(members(top@).take(top.len() as int) =~= members(top@));
    }
    r
}

/// The settings after the merge of `p`, as compact JSON.
fn write_settings(top: &Vec<(String, String)>, p: &InstallPlan, binary: &str) -> (r: String)
    requires
        p.edits@.len() == 2,
    ensures
        r@ == settings_out_of(members(top@), *p, binary@),
{
    let none: Vec<(String, String)> = Vec::new();
    let owned: Vec<(String, String)>;
    let hm: &Vec<(String, String)> = match find_member(top, "hooks") {
        None => &none,
        Some(k) => {
            proof {
                assert(members(top@)[k as int].1 == top@[k as int].1@);
            }
            match shape_at(top[k].1.as_str(), "") {
                Ok(Some(JsonShape::Object(ms))) => {
                    owned = ms;
                    &owned
                },
                _ => &none,
            }
        },
    };
    assert(members(hm@) == hooks_members(members(top@)));
    let l0 = list_for(hm, 0, "SessionStart", p.edits[0].push, binary);
    let l1 = list_for(hm, 1, "PreCompact", p.edits[1].push, binary);
    let mut hs = hooks_kept(hm, l0.as_str(), l1.as_str(), &p.drop_keys);
    if find_member(hm, "SessionStart").is_none() && !contains_text(&p.drop_keys, "SessionStart") {
        push_member(&mut hs, "SessionStart", l0.as_str());
    }
    if find_member(hm, "PreCompact").is_none() && !contains_text(&p.drop_keys, "PreCompact") {
        push_member(&mut hs, "PreCompact", l1.as_str());
    }
    let h = object_of(&hs);
    let mut t = top_kept(top, h.as_str(), p.drop_hooks);
    if find_member(top, "hooks").is_none() && !p.drop_hooks {
        push_member(&mut t, "hooks", h.as_str());
    }
    object_of(&t)
}

/// An optional text as plain values.
pub open spec fn text_view(text: Option<&str>) -> Option<Seq<char>> {
    match text {
        Some(t) => Some(t@),
        None => None,
    }
}

/// What `install_settings` answers, given the settings file as read and the merge's outcome.
pub open spec fn install_outcome(
    text: Option<Seq<char>>,
    path: Seq<char>,
    binary: Seq<char>,
    undo: bool,
    f: SettingsFile,
    pr: Result<InstallPlan, String>,
    r: Result<(InstallPlan, Option<String>), String>,
) -> bool {
    &&& settings_read(f, text, binary)
    &&& plan_outcome(f, path, undo, pr)
    &&& match pr {
        Err(m) => r matches Err(x) && x@ == m@,
        Ok(p) => if p.write {
            match json_pretty(settings_out(text, p, binary)) {
                Ok(t) => r matches Ok((q, Some(out))) && q == p && out@ == t + "\n"@,
                Err(e) => r matches Err(x) && x@ == e,
            }
        } else {
            r matches Ok((q, None)) && q == p
        },
    }
}

/// `cbl install` on the settings text, `None` when there is no file: the merge's plan, and
/// the text to write, when the plan writes, pretty as `serde_json` writes it and ending in a
/// line feed. The settings are read into the views the merge decides on (`settings_read`),
/// with our entry recognised by its exact JSON; the text written is `settings_out`, which
/// carries every member but the two events' lists through as it was.
pub fn install_settings(text: Option<&str>, path: &str, binary: &str, undo: bool) -> (r: Result<
    (InstallPlan, Option<String>),
    String,
>)
    ensures
        exists|f: SettingsFile, pr: Result<InstallPlan, String>|
            #[trigger] install_outcome(
                text_view(text),
                path@,
                binary@,
                undo,
                f,
                pr,
                r,
            ),
{
    let ghost tv = text_view(text);
    let (file, top) = read_settings(text, binary);
    let pr = plan_install(&file, path, undo);
    let ghost g = pr;
    let res = match pr {
        Err(m) => Err(m),
        Ok(p) => {
            proof {
                lemma_plan_has_two_edits(file, path@, undo, g);
            }
            if !p.write {
                Ok((p, None))
            } else {
                let doc = write_settings(&top, &p, binary);
                assert(doc@ == settings_out(tv, p, binary@));
                match pretty(doc.as_str()) {
                    Ok(t) => {
                        let mut out = t;
                        out.append("\n");
                        Ok((p, Some(out)))
                    },
                    Err(e) => Err(e),
                }
            }
        },
    };
    assert(install_outcome(tv, path@, binary@, undo, file, g, res));
    res
}

proof fn lemma_plan_has_two_edits(f: SettingsFile, path: Seq<char>, undo: bool, pr: Result<InstallPlan, String>)
    requires
        plan_outcome(f, path, undo, pr),
        pr is Ok,
    ensures
        pr->Ok_0.edits@.len() == 2,
{
}


/// Law: the entry written for each event runs that event's own hook: its argument after
/// `hook` is the event's name on the command line, and the list it goes into is the one
/// the harness names after that event.
pub proof fn each_event_runs_its_own_hook(e: HookEvent)
    ensures
        event_harness_name(e) == event_name(if e is SessionStart { 0int } else { 1int }),
        hook_arg(event_harness_name(e)) == event_arg(e),
{
    reveal_strlit("SessionStart");
    reveal_strlit("PreCompact");
    reveal_strlit("session-start");
    reveal_strlit("pre-compact");
    assert("PreCompact"@ != "SessionStart"@) by {
        assert("PreCompact"@[0] != "SessionStart"@[0]);
    }
}

} // verus!
