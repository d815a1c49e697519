//! `cbl install`: the merge of the two hook entries into a project's settings, and their
//! removal. The settings belong to the user: every entry that is not ours is kept, in its
//! place, and ours are found again by their `_managedBy` mark.
//!
//! The merge decides on the views below; `settings` reads them from the file's text and
//! writes the text back after the plan.

use vstd::prelude::*;
use crate::text::str_eq;

verus! {

/// The mark on every entry this tool writes.
pub const MANAGED_BY: &'static str = "cyberbrain-light";

/// The harness's name of each event, in the order the merge visits them.
pub open spec fn event_name(i: int) -> Seq<char> {
    if i == 0 { "SessionStart"@ } else { "PreCompact"@ }
}

/// One entry of a hook list, as the merge reads it.
#[derive(Debug)]
pub struct EntryView {
    /// Its `_managedBy` field, when that is a string.
    pub managed_by: Option<String>,
    /// Whether it is exactly the entry this install would write.
    pub same_as_ours: bool,
}

/// The value under a key of `hooks`.
#[derive(Debug)]
pub enum SlotView {
    List(Vec<EntryView>),
    /// Anything that is not a list.
    Other,
}

/// A key of `hooks` and its value.
#[derive(Debug)]
pub struct HookSlot {
    pub key: String,
    pub value: SlotView,
}

/// The `hooks` field of the settings.
#[derive(Debug)]
pub enum HooksView {
    Absent,
    NotAnObject,
    /// The keys, each once.
    Object(Vec<HookSlot>),
}

/// The settings file, as read.
#[derive(Debug)]
pub enum SettingsFile {
    /// There is no file.
    Missing,
    /// The file holds nothing but whitespace.
    Blank,
    /// The file is not a JSON object.
    Invalid,
    /// A JSON object, with its `hooks` field.
    Object(HooksView),
}

/// Whether this tool wrote an entry.
pub open spec fn is_ours(e: EntryView) -> bool {
    e.managed_by matches Some(m) && m@ == MANAGED_BY@
}

pub open spec fn not_ours(e: EntryView) -> bool {
    !is_ours(e)
}

/// The entries somebody else wrote, in their order.
pub open spec fn foreign(es: Seq<EntryView>) -> Seq<EntryView> {
    es.filter(|e: EntryView| not_ours(e))
}

pub open spec fn has_ours(es: Seq<EntryView>) -> bool {
    exists|i: int| 0 <= i < es.len() && is_ours(#[trigger] es[i])
}

/// Whether the first of our entries is exactly the one this install would write.
pub open spec fn first_ours_same(es: Seq<EntryView>) -> bool
    decreases es.len(),
{
    if es.len() == 0 {
        false
    } else if is_ours(es[0]) {
        es[0].same_as_ours
    } else {
        first_ours_same(es.drop_first())
    }
}

/// What to do with one event's list: keep these positions, in this order, and append our
/// entry or not.
#[derive(Debug)]
pub struct ListEdit {
    pub event: String,
    pub keep: Vec<usize>,
    pub push: bool,
}

/// Everything the merge decided.
#[derive(Debug)]
pub struct InstallPlan {
    /// One edit per event, `SessionStart` first.
    pub edits: Vec<ListEdit>,
    /// Event keys of `hooks` whose list the merge leaves empty, to be removed.
    pub drop_keys: Vec<String>,
    /// Whether `hooks` ends up empty, to be removed itself.
    pub drop_hooks: bool,
    /// Whether the file is written at all.
    pub write: bool,
    pub added: Vec<String>,
    pub removed: Vec<String>,
    pub unchanged: Vec<String>,
}

/// What the command reports.
#[derive(Debug)]
pub struct InstallReport {
    pub path: String,
    pub backup: Option<String>,
    pub added: Vec<String>,
    pub removed: Vec<String>,
    pub unchanged: Vec<String>,
    pub binary: String,
}

/// The positions a list keeps: exactly the foreign entries, in order.
pub open spec fn keeps_foreign(keep: Seq<usize>, es: Seq<EntryView>) -> bool {
    &&& forall|j: int| 0 <= j < keep.len() ==> #[trigger] keep[j] < es.len()
    &&& keep.map_values(|k: usize| es[k as int]) == foreign(es)
    &&& forall|a: int, b: int| 0 <= a < b < keep.len() ==> keep[a] < keep[b]
}

proof fn lemma_foreign_step(es: Seq<EntryView>, i: int)
    requires
        0 <= i < es.len(),
    ensures
        foreign(es.take(i + 1)) == if not_ours(es[i]) {
            foreign(es.take(i)).push(es[i])
        } else {
            foreign(es.take(i))
        },
{
    reveal(Seq::filter);
    assert(es.take(i + 1).drop_last() =~= es.take(i));
    assert(es.take(i + 1).last() == es[i]);
}

proof fn lemma_first_ours_skip(es: Seq<EntryView>, i: int)
    requires
        0 <= i < es.len(),
    ensures
        first_ours_same(es.skip(i)) == if is_ours(es[i]) {
            es[i].same_as_ours
        } else {
            first_ours_same(es.skip(i + 1))
        },
{
    assert(es.skip(i)[0] == es[i]);
    assert(es.skip(i).drop_first() =~= es.skip(i + 1));
}

/// Read one list: the positions of the foreign entries, whether any entry is ours, and
/// whether the first of ours is the one this install would write.
fn read_list(es: &Vec<EntryView>) -> (r: (Vec<usize>, bool, bool))
    ensures
        keeps_foreign(r.0@, es@),
        r.1 == has_ours(es@),
        r.2 == first_ours_same(es@),
{
    let mut keep: Vec<usize> = Vec::new();
    let mut any = false;
    let mut found = false;
    let mut same = false;
    let mut i: usize = 0;
    proof {
        reveal(Seq::filter);
        assert(es@.take(0) =~= Seq::<EntryView>::empty());
        assert(es@.skip(0) =~= es@);
    }
    while i < es.len()
        invariant
            i <= es.len(),
            forall|j: int| 0 <= j < keep.len() ==> #[trigger] keep@[j] < i,
            keep@.map_values(|k: usize| es@[k as int]) == foreign(es@.take(i as int)),
            forall|a: int, b: int| 0 <= a < b < keep.len() ==> keep@[a] < keep@[b],
            any == (exists|j: int| 0 <= j < i && is_ours(#[trigger] es@[j])),
            found == any,
            !found ==> !same,
            (if found { same } else { first_ours_same(es@.skip(i as int)) }) == first_ours_same(
                es@,
            ),
        decreases es.len() - i,
    {
        proof {
            lemma_foreign_step(es@, i as int);
            lemma_first_ours_skip(es@, i as int);
        }
        let ours = match &es[i].managed_by {
            Some(m) => str_eq(m.as_str(), MANAGED_BY),
            None => false,
        };
        if ours {
            if !found {
                found = true;
                same = es[i].same_as_ours;
            }
            any = true;
        } else {
            let ghost before = keep@;
            keep.push(i);
            assert(keep@.map_values(|k: usize| es@[k as int]) =~= before.map_values(
                |k: usize| es@[k as int],
            ).push(es@[i as int]));
        }
        i = i + 1;
    }
    proof {
        assert(es@.take(es.len() as int) =~= es@);
        assert(es@.skip(es.len() as int) =~= Seq::<EntryView>::empty());
    }
    (keep, any, same)
}

/// The first position of `key` among the slots, or -1.
pub open spec fn slot_index(slots: Seq<HookSlot>, key: Seq<char>) -> int
    decreases slots.len(),
{
    if slots.len() == 0 {
        -1
    } else if slots[0].key@ == key {
        0
    } else {
        let r = slot_index(slots.drop_first(), key);
        if r < 0 { -1 } else { r + 1 }
    }
}

proof fn lemma_slot_index(slots: Seq<HookSlot>, key: Seq<char>)
    ensures
        -1 <= slot_index(slots, key) < slots.len(),
        slot_index(slots, key) >= 0 ==> slots[slot_index(slots, key)].key@ == key,
        forall|j: int|
            0 <= j < slots.len() && (slot_index(slots, key) < 0 || j < slot_index(slots, key))
                ==> #[trigger] slots[j].key@ != key,
    decreases slots.len(),
{
    if slots.len() > 0 {
        lemma_slot_index(slots.drop_first(), key);
        assert forall|j: int|
            0 <= j < slots.len() && (slot_index(slots, key) < 0 || j < slot_index(slots, key))
                implies #[trigger] slots[j].key@ != key by {
            if j > 0 {
                assert(slots[j] == slots.drop_first()[j - 1]);
            }
        }
    }
}

/// The entries of an event's list before the merge: none when the key is absent, `None`
/// when its value is not a list.
pub open spec fn event_entries(slots: Seq<HookSlot>, i: int) -> Option<Seq<EntryView>> {
    let k = slot_index(slots, event_name(i));
    if k < 0 {
        Some(Seq::empty())
    } else {
        match slots[k].value {
            SlotView::List(es) => Some(es@),
            SlotView::Other => None,
        }
    }
}

/// The events this merge adds, in order.
pub open spec fn added_events(l0: Seq<EntryView>, l1: Seq<EntryView>, undo: bool) -> Seq<
    Seq<char>,
> {
    (if !undo && !first_ours_same(l0) { seq![event_name(0)] } else { seq![] }) + (if !undo
        && !first_ours_same(l1) {
        seq![event_name(1)]
    } else {
        seq![]
    })
}

/// The events whose entry was already there and is kept as it is.
pub open spec fn unchanged_events(l0: Seq<EntryView>, l1: Seq<EntryView>, undo: bool) -> Seq<
    Seq<char>,
> {
    (if !undo && first_ours_same(l0) { seq![event_name(0)] } else { seq![] }) + (if !undo
        && first_ours_same(l1) {
        seq![event_name(1)]
    } else {
        seq![]
    })
}

/// The events an undo took an entry out of.
pub open spec fn removed_events(l0: Seq<EntryView>, l1: Seq<EntryView>, undo: bool) -> Seq<
    Seq<char>,
> {
    (if undo && has_ours(l0) { seq![event_name(0)] } else { seq![] }) + (if undo && has_ours(
        l1,
    ) {
        seq![event_name(1)]
    } else {
        seq![]
    })
}

/// Whether a key of `hooks` is one of the two events whose list the merge leaves empty.
/// Every other key is copied through as it is, an empty list too.
pub open spec fn ends_empty(
    slot: HookSlot,
    l0: Seq<EntryView>,
    l1: Seq<EntryView>,
    undo: bool,
) -> bool {
    if slot.key@ == event_name(0) {
        undo && foreign(l0).len() == 0
    } else if slot.key@ == event_name(1) {
        undo && foreign(l1).len() == 0
    } else {
        false
    }
}

/// The keys to remove: the events' keys that the merge leaves empty, those that were there
/// first, in their order, then those the merge created.
pub open spec fn dropped_keys(
    slots: Seq<HookSlot>,
    l0: Seq<EntryView>,
    l1: Seq<EntryView>,
    undo: bool,
) -> Seq<Seq<char>> {
    slots.filter(|s: HookSlot| ends_empty(s, l0, l1, undo)).map_values(|s: HookSlot| s.key@) + (
    if undo && slot_index(slots, event_name(0)) < 0 {
        seq![event_name(0)]
    } else {
        seq![]
    }) + (if undo && slot_index(slots, event_name(1)) < 0 {
        seq![event_name(1)]
    } else {
        seq![]
    })
}

/// Whether nothing is left under `hooks`.
pub open spec fn hooks_end_empty(
    slots: Seq<HookSlot>,
    l0: Seq<EntryView>,
    l1: Seq<EntryView>,
    undo: bool,
) -> bool {
    &&& forall|j: int| 0 <= j < slots.len() ==> ends_empty(#[trigger] slots[j], l0, l1, undo)
    &&& (slot_index(slots, event_name(0)) < 0 ==> undo)
    &&& (slot_index(slots, event_name(1)) < 0 ==> undo)
}

/// The plan for `hooks` whose lists are `l0` and `l1`.
pub open spec fn plan_matches(
    p: InstallPlan,
    slots: Seq<HookSlot>,
    l0: Seq<EntryView>,
    l1: Seq<EntryView>,
    undo: bool,
) -> bool {
    &&& p.edits@.len() == 2
    &&& p.edits@[0].event@ == event_name(0)
    &&& p.edits@[1].event@ == event_name(1)
    &&& keeps_foreign(p.edits@[0].keep@, l0)
    &&& keeps_foreign(p.edits@[1].keep@, l1)
    &&& p.edits@[0].push == !undo
    &&& p.edits@[1].push == !undo
    &&& p.added@.map_values(|s: String| s@) == added_events(l0, l1, undo)
    &&& p.unchanged@.map_values(|s: String| s@) == unchanged_events(l0, l1, undo)
    &&& p.removed@.map_values(|s: String| s@) == removed_events(l0, l1, undo)
    &&& p.write == (undo || added_events(l0, l1, undo).len() > 0)
    &&& p.drop_keys@.map_values(|s: String| s@) == dropped_keys(slots, l0, l1, undo)
    &&& p.drop_hooks == hooks_end_empty(slots, l0, l1, undo)
}

fn find_slot(slots: &Vec<HookSlot>, key: &str) -> (r: Option<usize>)
    ensures
        slot_index(slots@, key@) < 0 ==> r is None,
        slot_index(slots@, key@) >= 0 ==> r is Some,
        r matches Some(k) ==> k == slot_index(slots@, key@),
{
    proof {
        lemma_slot_index(slots@, key@);
    }
    let mut i: usize = 0;
    while i < slots.len()
        invariant
            i <= slots.len(),
            forall|j: int| 0 <= j < i ==> #[trigger] slots@[j].key@ != key@,
            -1 <= slot_index(slots@, key@) < slots@.len(),
            slot_index(slots@, key@) >= 0 ==> slots@[slot_index(slots@, key@)].key@ == key@,
            forall|j: int|
                0 <= j < slots@.len() && (slot_index(slots@, key@) < 0 || j < slot_index(
                    slots@,
                    key@,
                )) ==> #[trigger] slots@[j].key@ != key@,
        decreases slots.len() - i,
    {
        if str_eq(slots[i].key.as_str(), key) {
            return Some(i);
        }
        i = i + 1;
    }
    None
}

fn empty_entries() -> (r: Vec<EntryView>)
    ensures
        r@.len() == 0,
{
    Vec::new()
}

/// The keys under `hooks` in a readable file; none when the file or the field is missing.
pub open spec fn settings_slots(file: SettingsFile) -> Seq<HookSlot> {
    match file {
        SettingsFile::Object(HooksView::Object(slots)) => slots@,
        _ => Seq::empty(),
    }
}

/// What the merge decides for `file`: the refusals, each with its message, and otherwise a
/// plan that `plan_matches` the settings.
pub open spec fn plan_outcome(
    file: SettingsFile,
    path: Seq<char>,
    undo: bool,
    r: Result<InstallPlan, String>,
) -> bool {
    &&& file is Invalid ==> (r matches Err(m) && m@ == path
        + " is not valid JSON; fix or move it, this tool will not overwrite it"@)
    &&& file is Missing && undo ==> (r matches Err(m) && m@ == path
        + " does not exist; nothing to undo"@)
    &&& file matches SettingsFile::Object(HooksView::NotAnObject) ==> (r matches Err(m) && m@
        == "`hooks` in settings.json is not an object"@)
    &&& (file is Blank || (file is Missing && !undo) || file matches SettingsFile::Object(
        HooksView::Absent,
    ) || file matches SettingsFile::Object(HooksView::Object(_))) ==> ({
        let slots = settings_slots(file);
        match (event_entries(slots, 0), event_entries(slots, 1)) {
            (None, _) => r matches Err(m) && m@ == "`hooks."@ + event_name(0)
                + "` is not a list"@,
            (Some(_), None) => r matches Err(m) && m@ == "`hooks."@ + event_name(1)
                + "` is not a list"@,
            (Some(l0), Some(l1)) => r matches Ok(p) && plan_matches(p, slots, l0, l1, undo),
        }
    })
}

fn list_of<'a>(slots: &'a Vec<HookSlot>, empty: &'a Vec<EntryView>, i: usize, name: &str) -> (r:
    Result<&'a Vec<EntryView>, String>)
    requires
        i < 2,
        name@ == event_name(i as int),
        empty@.len() == 0,
    ensures
        event_entries(slots@, i as int) matches Some(es) ==> (r matches Ok(v) && v@ == es),
        event_entries(slots@, i as int) is None ==> (r matches Err(m) && m@ == "`hooks."@
            + event_name(i as int) + "` is not a list"@),
{
    proof {
        lemma_slot_index(slots@, name@);
    }
    match find_slot(slots, name) {
        None => {
            assert(empty@ =~= Seq::<EntryView>::empty());
            Ok(empty)
        },
        Some(k) => match &slots[k].value {
            SlotView::List(es) => {
                assert(slots@[k as int].value == SlotView::List(*es));
                Ok(es)
            },
            SlotView::Other => {
                let mut m = String::from_str("`hooks.");
                m.append(name);
                m.append("` is not a list");
                Err(m)
            },
        },
    }
}

proof fn lemma_filter_slots_step(slots: Seq<HookSlot>, i: int, p: spec_fn(HookSlot) -> bool)
    requires
        0 <= i < slots.len(),
    ensures
        slots.take(i + 1).filter(p) == if p(slots[i]) {
            slots.take(i).filter(p).push(slots[i])
        } else {
            slots.take(i).filter(p)
        },
{
    reveal(Seq::filter);
    assert(slots.take(i + 1).drop_last() =~= slots.take(i));
    assert(slots.take(i + 1).last() == slots[i]);
}

fn push_name(v: &mut Vec<String>, name: &str)
    ensures
        final(v)@.map_values(|s: String| s@) == old(v)@.map_values(|s: String| s@).push(name@),
{
    let ghost before = v@;
    v.push(String::from_str(name));
    assert(v@.map_values(|s: String| s@) =~= before.map_values(|s: String| s@).push(name@));
}

/// Decide the merge: which entries of each event's list stay, whether ours is appended,
/// which keys are left empty, whether the file is written, and what is reported.
///
/// Every foreign entry stays, in its place; ours are replaced by the one this install
/// writes, or, with `undo`, taken out. A file that does not parse is never overwritten.
pub fn plan_install(file: &SettingsFile, path: &str, undo: bool) -> (r: Result<InstallPlan, String>)
    ensures
        plan_outcome(*file, path@, undo, r),
{
    let none: Vec<HookSlot> = Vec::new();
    let slots: &Vec<HookSlot> = match file {
        SettingsFile::Invalid => {
            let mut m = String::from_str(path);
            m.append(" is not valid JSON; fix or move it, this tool will not overwrite it");
            return Err(m);
        },
        SettingsFile::Missing => {
            if undo {
                let mut m = String::from_str(path);
                m.append(" does not exist; nothing to undo");
                return Err(m);
            }
            &none
        },
        SettingsFile::Blank => &none,
        SettingsFile::Object(HooksView::Absent) => &none,
        SettingsFile::Object(HooksView::NotAnObject) => {
            return Err(String::from_str("`hooks` in settings.json is not an object"));
        },
        SettingsFile::Object(HooksView::Object(s)) => s,
    };
    assert(slots@ == settings_slots(*file));
    proof {
        reveal_strlit("SessionStart");
        reveal_strlit("PreCompact");
        lemma_slot_index(slots@, event_name(0));
        lemma_slot_index(slots@, event_name(1));
    }
    let empty = empty_entries();
    let l0 = list_of(slots, &empty, 0, "SessionStart")?;
    let l1 = list_of(slots, &empty, 1, "PreCompact")?;
    let (keep0, any0, same0) = read_list(l0);
    let (keep1, any1, same1) = read_list(l1);

    let mut added: Vec<String> = Vec::new();
    let mut removed: Vec<String> = Vec::new();
    let mut unchanged: Vec<String> = Vec::new();
    if undo {
        if any0 {
            push_name(&mut removed, "SessionStart");
        }
        if any1 {
            push_name(&mut removed, "PreCompact");
        }
    } else {
        if same0 {
            push_name(&mut unchanged, "SessionStart");
        } else {
            push_name(&mut added, "SessionStart");
        }
        if same1 {
            push_name(&mut unchanged, "PreCompact");
        } else {
            push_name(&mut added, "PreCompact");
        }
    }
    assert(added@.map_values(|s: String| s@) =~= added_events(l0@, l1@, undo));
    assert(unchanged@.map_values(|s: String| s@) =~= unchanged_events(l0@, l1@, undo));
    assert(removed@.map_values(|s: String| s@) =~= removed_events(l0@, l1@, undo));

    // Which keys end up holding an empty list.
    let empty0 = undo && keep0.len() == 0;
    let empty1 = undo && keep1.len() == 0;
    proof {
        assert(keep0@.map_values(|k: usize| l0@[k as int]).len() == keep0@.len());
        assert(keep1@.map_values(|k: usize| l1@[k as int]).len() == keep1@.len());
    }
    let ghost pred = |s: HookSlot| ends_empty(s, l0@, l1@, undo);
    let mut drop_keys: Vec<String> = Vec::new();
    let mut all_empty = true;
    let mut j: usize = 0;
    proof {
        reveal(Seq::filter);
        assert(slots@.take(0) =~= Seq::<HookSlot>::empty());
    }
    while j < slots.len()
        invariant
            j <= slots.len(),
            empty0 == (undo && foreign(l0@).len() == 0),
            empty1 == (undo && foreign(l1@).len() == 0),
            pred == (|s: HookSlot| ends_empty(s, l0@, l1@, undo)),
            drop_keys@.map_values(|s: String| s@) == slots@.take(j as int).filter(pred).map_values(
                |s: HookSlot| s.key@,
            ),
            all_empty == (forall|x: int| 0 <= x < j ==> ends_empty(#[trigger] slots@[x], l0@, l1@, undo)),
        decreases slots.len() - j,
    {
        proof {
            lemma_filter_slots_step(slots@, j as int, pred);
        }
        let slot = &slots[j];
        let e = if str_eq(slot.key.as_str(), "SessionStart") {
            empty0
        } else if str_eq(slot.key.as_str(), "PreCompact") {
            empty1
        } else {
            false
        };
        if e {
            let ghost before = drop_keys@;
            drop_keys.push(String::from_str(slot.key.as_str()));
            assert(drop_keys@.map_values(|s: String| s@) =~= before.map_values(|s: String| s@).push(
                slot.key@,
            ));
            assert(slots@.take((j + 1) as int).filter(pred).map_values(|s: HookSlot| s.key@)
                =~= slots@.take(j as int).filter(pred).map_values(|s: HookSlot| s.key@).push(
                slot.key@,
            ));
        } else {
            all_empty = false;
        }
        j = j + 1;
    }
    proof {
        assert(slots@.take(slots.len() as int) =~= slots@);
    }
    let created0 = find_slot(slots, "SessionStart").is_none();
    let created1 = find_slot(slots, "PreCompact").is_none();
    if undo && created0 {
        push_name(&mut drop_keys, "SessionStart");
    }
    if undo && created1 {
        push_name(&mut drop_keys, "PreCompact");
    }
    assert(drop_keys@.map_values(|s: String| s@) =~= dropped_keys(slots@, l0@, l1@, undo));
    let drop_hooks = all_empty && (!created0 || undo) && (!created1 || undo);
    let write = undo || added.len() > 0;
    proof {
        assert(added@.map_values(|s: String| s@).len() == added@.len());
    }

    let mut edits: Vec<ListEdit> = Vec::new();
    edits.push(ListEdit { event: String::from_str("SessionStart"), keep: keep0, push: !undo });
    edits.push(ListEdit { event: String::from_str("PreCompact"), keep: keep1, push: !undo });
    Ok(InstallPlan { edits, drop_keys, drop_hooks, write, added, removed, unchanged })
}

/// An event's list after an install that wrote `ours`: the foreign entries, then ours.
pub open spec fn installed(es: Seq<EntryView>, ours: EntryView) -> Seq<EntryView> {
    foreign(es).push(ours)
}

proof fn lemma_foreign_of_foreign(es: Seq<EntryView>)
    ensures
        foreign(foreign(es)) == foreign(es),
        !has_ours(foreign(es)),
    decreases es.len(),
{
    reveal(Seq::filter);
    if es.len() > 0 {
        lemma_foreign_of_foreign(es.drop_last());
        let f = foreign(es.drop_last());
        if not_ours(es.last()) {
            assert(foreign(es) == f.push(es.last()));
            assert(foreign(es).drop_last() =~= f);
        } else {
            assert(foreign(es) == f);
        }
    }
    assert forall|i: int| 0 <= i < foreign(es).len() implies !is_ours(#[trigger] foreign(es)[i]) by {
        es.lemma_filter_pred(|e: EntryView| not_ours(e), i);
    }
}

proof fn lemma_first_ours_after_foreign(s: Seq<EntryView>, k: int)
    requires
        0 <= k <= s.len(),
        forall|j: int| 0 <= j < k ==> !is_ours(#[trigger] s[j]),
    ensures
        first_ours_same(s) == first_ours_same(s.skip(k)),
    decreases k,
{
    if k > 0 {
        let t = s.drop_first();
        assert forall|j: int| 0 <= j < k - 1 implies !is_ours(#[trigger] t[j]) by {
            assert(t[j] == s[j + 1]);
        }
        lemma_first_ours_after_foreign(t, k - 1);
        assert(t.skip(k - 1) =~= s.skip(k));
        assert(!is_ours(s[0]));
    } else {
        assert(s.skip(0) =~= s);
    }
}

/// Law: installing twice changes nothing. After an install, the second one finds its own
/// entry in place in both lists, reports both events unchanged, adds nothing, and therefore
/// writes nothing; the foreign entries are the same ones as before.
pub proof fn second_install_changes_nothing(l0: Seq<EntryView>, l1: Seq<EntryView>, ours: EntryView)
    requires
        is_ours(ours),
        ours.same_as_ours,
    ensures
        added_events(installed(l0, ours), installed(l1, ours), false).len() == 0,
        unchanged_events(installed(l0, ours), installed(l1, ours), false) == seq![
            event_name(0),
            event_name(1),
        ],
        foreign(installed(l0, ours)) == foreign(l0),
        foreign(installed(l1, ours)) == foreign(l1),
        installed(installed(l0, ours), ours) == installed(l0, ours),
        installed(installed(l1, ours), ours) == installed(l1, ours),
{
    lemma_installed(l0, ours);
    lemma_installed(l1, ours);
    assert(unchanged_events(installed(l0, ours), installed(l1, ours), false) =~= seq![
        event_name(0),
        event_name(1),
    ]);
}

proof fn lemma_installed(es: Seq<EntryView>, ours: EntryView)
    requires
        is_ours(ours),
    ensures
        foreign(installed(es, ours)) == foreign(es),
        ours.same_as_ours ==> first_ours_same(installed(es, ours)),
        has_ours(installed(es, ours)),
{
    reveal(Seq::filter);
    let once = installed(es, ours);
    lemma_foreign_of_foreign(es);
    assert(once.drop_last() =~= foreign(es));
    assert(foreign(once) == foreign(foreign(es)));
    let n = foreign(es).len() as int;
    assert forall|j: int| 0 <= j < n implies !is_ours(#[trigger] once[j]) by {
        assert(once[j] == foreign(es)[j]);
        assert(!is_ours(foreign(es)[j]));
    }
    lemma_first_ours_after_foreign(once, n);
    assert(once.skip(n) =~= seq![ours]);
    assert(once[n] == ours);
}

/// Law: an undo takes out exactly what an install put in. After an install, the undo
/// reports both events removed, and the lists it leaves hold the foreign entries, in their
/// order, and none of ours.
pub proof fn undo_takes_out_only_ours(l0: Seq<EntryView>, l1: Seq<EntryView>, ours: EntryView)
    requires
        is_ours(ours),
    ensures
        removed_events(installed(l0, ours), installed(l1, ours), true) == seq![
            event_name(0),
            event_name(1),
        ],
        foreign(installed(l0, ours)) == foreign(l0),
        foreign(installed(l1, ours)) == foreign(l1),
        !has_ours(foreign(l0)),
        !has_ours(foreign(l1)),
{
    lemma_installed(l0, ours);
    lemma_installed(l1, ours);
    lemma_foreign_of_foreign(l0);
    lemma_foreign_of_foreign(l1);
    assert(removed_events(installed(l0, ours), installed(l1, ours), true) =~= seq![
        event_name(0),
        event_name(1),
    ]);
}


/// Law: the merge touches nothing but its own two lists. Each edit is one of the two events'
/// lists and keeps exactly its foreign entries, in order; the keys it removes are only
/// those two; and `hooks` itself goes only when no other key is under it.
pub proof fn install_touches_only_its_own(
    p: InstallPlan,
    slots: Seq<HookSlot>,
    l0: Seq<EntryView>,
    l1: Seq<EntryView>,
    undo: bool,
)
    requires
        plan_matches(p, slots, l0, l1, undo),
    ensures
        p.edits@.len() == 2,
        p.edits@[0].event@ == event_name(0) && keeps_foreign(p.edits@[0].keep@, l0),
        p.edits@[1].event@ == event_name(1) && keeps_foreign(p.edits@[1].keep@, l1),
        forall|i: int|
            0 <= i < p.drop_keys@.len() ==> #[trigger] p.drop_keys@[i]@ == event_name(0)
                || p.drop_keys@[i]@ == event_name(1),
        p.drop_hooks ==> forall|j: int|
            0 <= j < slots.len() ==> #[trigger] slots[j].key@ == event_name(0) || slots[j].key@
                == event_name(1),
{
    let pred = |s: HookSlot| ends_empty(s, l0, l1, undo);
    let f = slots.filter(pred);
    let kept = f.map_values(|s: HookSlot| s.key@);
    let d = dropped_keys(slots, l0, l1, undo);
    assert forall|i: int| 0 <= i < p.drop_keys@.len() implies #[trigger] p.drop_keys@[i]@
        == event_name(0) || p.drop_keys@[i]@ == event_name(1) by {
        assert(p.drop_keys@.map_values(|s: String| s@)[i] == d[i]);
        let a = if undo && slot_index(slots, event_name(0)) < 0 {
            seq![event_name(0)]
        } else {
            Seq::<Seq<char>>::empty()
        };
        let b = if undo && slot_index(slots, event_name(1)) < 0 {
            seq![event_name(1)]
        } else {
            Seq::<Seq<char>>::empty()
        };
        assert(d == kept + a + b);
        if i < kept.len() {
            slots.lemma_filter_pred(pred, i);
            assert(d[i] == kept[i]);
            assert(kept[i] == f[i].key@);
        } else if i < kept.len() + a.len() {
            assert(d[i] == a[i - kept.len()]);
        } else {
            assert(d[i] == b[i - kept.len() - a.len()]);
        }
    }
}

} // verus!
