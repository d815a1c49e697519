//! The two lifecycle hooks. A hook may be useless, but it may never take the session down
//! with it: nothing here fails, and every problem becomes a note for the human on stderr.

use vstd::prelude::*;
use crate::cli::{HookEvent, event_harness_name, harness_name};
use crate::clock::{day_of, utc_day, valid_instant};
use crate::json::{json_at, json_quote, opt_text, quote, value_at};
use crate::text::{dec, decimal, ends_with, has_prefix, has_suffix, sort_texts, sorted, starts_with,
    texts, trim, trimmed};

verus! {

/// What a hook prints: the JSON message for the harness, if any, and notes for the human.
#[derive(Debug)]
pub struct HookOutput {
    pub stdout: Option<HookMessage>,
    pub notes: Vec<String>,
}

/// The two messages a hook can give the harness.
#[derive(Debug)]
pub enum HookMessage {
    /// `{"hookSpecificOutput": {"hookEventName": event, "additionalContext": context}}`.
    Context { event: String, context: String },
    /// `{"systemMessage": message}`, addressed to the human.
    System { message: String },
}

/// A block of a resident note: its citation and its text.
#[derive(Debug)]
pub struct CitedBlock {
    pub citation: String,
    pub text: String,
}

/// A note of ring 0 or 1 as the session-start hook reads it.
#[derive(Debug)]
pub struct ResidentNote {
    pub ring: u8,
    pub name: String,
    /// When the note was last updated, as seconds and nanoseconds since the Unix epoch.
    pub updated_second: i64,
    pub updated_nanosecond: i32,
    /// The approximate token count of the body.
    pub cost: usize,
    pub blocks: Vec<CitedBlock>,
}

/// One file of the resident rings: a note, or the reason it could not be read.
#[derive(Debug)]
pub enum ResidentEntry {
    Read(ResidentNote),
    Unreadable { path: String, error: String },
}

/// The text that opens the injected context.
pub open spec fn context_header() -> Seq<char> {
    "# Cyberbrain Light\n\nRings 0 and 1 are resident: they apply to everything in this project. Every block below carries its citation; quote it when you rely on it, and expand one with `cbl recall --id <citation>`. Everything else is behind `cbl recall \"<question>\"`, which searches rings 2 to 4 by keyword.\n\n"@
}

/// The blocks of a note, each under its citation.
pub open spec fn blocks_text(bs: Seq<CitedBlock>) -> Seq<char>
    decreases bs.len(),
{
    if bs.len() == 0 {
        Seq::empty()
    } else {
        blocks_text(bs.drop_last()) + "["@ + bs.last().citation@ + "]\n"@ + trimmed(
            bs.last().text@,
        ) + "\n\n"@
    }
}

/// A note's section of the context, given the day it was last updated: a heading with
/// ring, name and day, then its blocks.
pub open spec fn section_on(n: ResidentNote, day: Seq<char>) -> Seq<char> {
    "## r"@ + dec(n.ring as nat) + " `"@ + n.name@ + "` ("@ + day + ")\n\n"@ + blocks_text(
        n.blocks@,
    )
}

/// A note's section of the context, under the UTC day of its last update.
pub open spec fn note_section(n: ResidentNote) -> Seq<char> {
    section_on(n, utc_day(n.updated_second, n.updated_nanosecond))
}

/// What the session-start hook has gathered after some of the files.
pub struct ResidentState {
    pub out: Seq<char>,
    pub tokens: nat,
    pub count: nat,
    pub capped: bool,
    pub notes: Seq<Seq<char>>,
}

/// The note for a file that could not be read.
pub open spec fn unreadable_note(path: Seq<char>, error: Seq<char>) -> Seq<char> {
    path + ": unreadable, not injected ("@ + error + ")"@
}

/// One file: an unreadable one is reported, a note over the remaining budget is left out,
/// and any other note is added, after the header if it is the first.
pub open spec fn resident_step(st: ResidentState, e: ResidentEntry, cap: nat) -> ResidentState {
    match e {
        ResidentEntry::Unreadable { path, error } => ResidentState {
            notes: st.notes.push(unreadable_note(path@, error@)),
            ..st
        },
        ResidentEntry::Read(n) => if st.tokens + n.cost > cap {
            ResidentState { capped: true, ..st }
        } else {
            ResidentState {
                out: (if st.count == 0 { st.out + context_header() } else { st.out })
                    + note_section(n),
                tokens: (st.tokens + n.cost) as nat,
                count: st.count + 1,
                ..st
            }
        },
    }
}

/// The files, one after the other, in the order given.
pub open spec fn resident_fold(es: Seq<ResidentEntry>, cap: nat) -> ResidentState
    decreases es.len(),
{
    if es.len() == 0 {
        ResidentState {
            out: Seq::empty(),
            tokens: 0,
            count: 0,
            capped: false,
            notes: Seq::empty(),
        }
    } else {
        resident_step(resident_fold(es.drop_last(), cap), es.last(), cap)
    }
}

/// The notes that close the report: the cap, if it was reached, the payload's source, and
/// what was injected.
pub open spec fn closing_notes(st: ResidentState, cap: nat, source: Option<Seq<char>>) -> Seq<
    Seq<char>,
> {
    let a = if st.capped {
        st.notes.push(
            "the resident cap of "@ + dec(cap) + " tokens was reached; some notes in r0/r1 were not injected"@,
        )
    } else {
        st.notes
    };
    let b = match source {
        Some(s) => a.push("session-start source: "@ + s),
        None => a,
    };
    b.push(dec(st.count) + " resident note(s), ~"@ + dec(st.tokens) + " tokens"@)
}

/// Every note that can be read carries an instant `jiff` accepts.
pub open spec fn entries_valid(es: Seq<ResidentEntry>) -> bool {
    forall|i: int|
        0 <= i < es.len() ==> (#[trigger] es[i] matches ResidentEntry::Read(n) ==> valid_instant(
            n.updated_second,
            n.updated_nanosecond,
        ))
}

/// Law: whatever the files, the resident rings never cost more than the cap, and no more
/// notes are counted than there are files.
pub proof fn resident_cap_holds(es: Seq<ResidentEntry>, cap: nat)
    ensures
        resident_fold(es, cap).tokens <= cap,
        resident_fold(es, cap).count <= es.len(),
        resident_fold(es, cap).count == 0 ==> resident_fold(es, cap).out.len() == 0,
    decreases es.len(),
{
    if es.len() > 0 {
        resident_cap_holds(es.drop_last(), cap);
    }
}

/// Law: a note that is larger than the whole cap is never injected, so when no note fits
/// the cap, nothing is injected and the cap is reported.
pub proof fn nothing_fits_nothing_injected(es: Seq<ResidentEntry>, cap: nat)
    requires
        forall|i: int|
            0 <= i < es.len() ==> (#[trigger] es[i] matches ResidentEntry::Read(n) ==> n.cost
                > cap),
    ensures
        resident_fold(es, cap).out.len() == 0,
        resident_fold(es, cap).count == 0,
        resident_fold(es, cap).tokens == 0,
        (exists|i: int| 0 <= i < es.len() && es[i] is Read) ==> resident_fold(es, cap).capped,
    decreases es.len(),
{
    if es.len() > 0 {
        let init = es.drop_last();
        assert forall|i: int|
            0 <= i < init.len() implies (#[trigger] init[i] matches ResidentEntry::Read(n)
            ==> n.cost > cap) by {
            assert(init[i] == es[i]);
        }
        nothing_fits_nothing_injected(init, cap);
        if exists|i: int| 0 <= i < es.len() && es[i] is Read {
            let i = choose|i: int| 0 <= i < es.len() && es[i] is Read;
            if i < es.len() - 1 {
                assert(init[i] == es[i]);
            }
        }
    }
}

/// The sections of the notes that were injected, in order.
pub open spec fn injected_sections(es: Seq<ResidentEntry>, cap: nat) -> Seq<char>
    decreases es.len(),
{
    if es.len() == 0 {
        Seq::empty()
    } else {
        let before = resident_fold(es.drop_last(), cap);
        injected_sections(es.drop_last(), cap) + match es.last() {
            ResidentEntry::Read(n) => if before.tokens + n.cost <= cap {
                note_section(n)
            } else {
                Seq::empty()
            },
            ResidentEntry::Unreadable { .. } => Seq::empty(),
        }
    }
}

/// Law: a note is injected exactly when it fits in what is left of the cap after the
/// notes before it; one that does not fit is left out and only marks the cap as reached,
/// so a later, smaller note may still fit.
pub proof fn a_note_is_injected_iff_it_fits(es: Seq<ResidentEntry>, n: ResidentNote, cap: nat)
    ensures
        ({
            let before = resident_fold(es, cap);
            let after = resident_fold(es.push(ResidentEntry::Read(n)), cap);
            &&& (after.count == before.count + 1) <==> before.tokens + n.cost <= cap
            &&& before.tokens + n.cost <= cap ==> after.tokens == before.tokens + n.cost
                && after.capped == before.capped && after.out == (if before.count == 0 {
                before.out + context_header()
            } else {
                before.out
            }) + note_section(n)
            &&& before.tokens + n.cost > cap ==> after.count == before.count && after.tokens
                == before.tokens && after.out == before.out && after.capped
            &&& after.notes == before.notes
        }),
{
    assert(es.push(ResidentEntry::Read(n)).drop_last() =~= es);
}

/// Law: a file that cannot be read adds its note and nothing else; the files after it are
/// still considered.
pub proof fn an_unreadable_file_is_reported(es: Seq<ResidentEntry>, path: String, error: String, cap: nat)
    ensures
        ({
            let before = resident_fold(es, cap);
            let after = resident_fold(es.push(ResidentEntry::Unreadable { path, error }), cap);
            &&& after.out == before.out
            &&& after.tokens == before.tokens
            &&& after.count == before.count
            &&& after.capped == before.capped
            &&& after.notes == before.notes.push(unreadable_note(path@, error@))
        }),
{
    assert(es.push(ResidentEntry::Unreadable { path, error }).drop_last() =~= es);
}

/// Law: the cap is reported exactly when some note was left out for want of room.
pub proof fn the_cap_is_reported_iff_a_note_was_left_out(es: Seq<ResidentEntry>, cap: nat)
    ensures
        resident_fold(es, cap).capped <==> exists|i: int|
            0 <= i < es.len() && (#[trigger] es[i] matches ResidentEntry::Read(n)
                && resident_fold(es.take(i), cap).tokens + n.cost > cap),
    decreases es.len(),
{
    if es.len() > 0 {
        let init = es.drop_last();
        the_cap_is_reported_iff_a_note_was_left_out(init, cap);
        assert(es.take(es.len() - 1) =~= init);
        assert forall|i: int| 0 <= i < init.len() implies es.take(i) == init.take(i)
            && #[trigger] es[i] == init[i] by {
            assert(es.take(i) =~= init.take(i));
        }
        if resident_fold(es, cap).capped {
            if !resident_fold(init, cap).capped {
                let i = es.len() - 1;
                assert(es[i] == es.last());
            } else {
                let i = choose|i: int|
                    0 <= i < init.len() && (#[trigger] init[i] matches ResidentEntry::Read(n)
                        && resident_fold(init.take(i), cap).tokens + n.cost > cap);
                assert(es[i] == init[i]);
            }
        } else {
            assert forall|i: int| 0 <= i < es.len() implies !(#[trigger] es[i] matches ResidentEntry::Read(n)
                && resident_fold(es.take(i), cap).tokens + n.cost > cap) by {
                if i < init.len() {
                    assert(es[i] == init[i]);
                } else {
                    assert(es[i] == es.last());
                }
            }
        }
    }
}

/// Law: the injected text is empty when no note was injected, and otherwise the header
/// followed by the section of each injected note, in order.
pub proof fn the_context_is_the_header_and_the_injected_sections(es: Seq<ResidentEntry>, cap: nat)
    ensures
        resident_fold(es, cap).count == 0 ==> resident_fold(es, cap).out.len() == 0,
        resident_fold(es, cap).count > 0 ==> resident_fold(es, cap).out == context_header()
            + injected_sections(es, cap),
        resident_fold(es, cap).out.len() == 0 <==> resident_fold(es, cap).count == 0,
    decreases es.len(),
{
    reveal_strlit("# Cyberbrain Light\n\nRings 0 and 1 are resident: they apply to everything in this project. Every block below carries its citation; quote it when you rely on it, and expand one with `cbl recall --id <citation>`. Everything else is behind `cbl recall \"<question>\"`, which searches rings 2 to 4 by keyword.\n\n");
    if es.len() > 0 {
        let init = es.drop_last();
        the_context_is_the_header_and_the_injected_sections(init, cap);
        resident_cap_holds(init, cap);
        let b = resident_fold(init, cap);
        match es.last() {
            ResidentEntry::Read(n) => {
                if b.tokens + n.cost <= cap {
                    if b.count == 0 {
                        assert(b.out =~= Seq::<char>::empty());
                        assert(injected_sections(init, cap).len() == 0) by {
                            lemma_no_sections(init, cap);
                        }
                        assert(resident_fold(es, cap).out =~= context_header()
                            + injected_sections(es, cap));
                    } else {
                        assert(resident_fold(es, cap).out =~= context_header()
                            + injected_sections(es, cap));
                    }
                }
            },
            ResidentEntry::Unreadable { .. } => {},
        }
    }
}

proof fn lemma_no_sections(es: Seq<ResidentEntry>, cap: nat)
    requires
        resident_fold(es, cap).count == 0,
    ensures
        injected_sections(es, cap).len() == 0,
    decreases es.len(),
{
    if es.len() > 0 {
        let init = es.drop_last();
        resident_cap_holds(init, cap);
        lemma_count_grows(es, cap);
        lemma_no_sections(init, cap);
    }
}

proof fn lemma_count_grows(es: Seq<ResidentEntry>, cap: nat)
    requires
        es.len() > 0,
    ensures
        resident_fold(es.drop_last(), cap).count <= resident_fold(es, cap).count,
{
}

/// Law: the closing notes end with what was injected, and say the cap was reached when it
/// was.
pub proof fn the_closing_notes_say_what_happened(st: ResidentState, cap: nat, source: Option<Seq<char>>)
    ensures
        closing_notes(st, cap, source).last() == dec(st.count) + " resident note(s), ~"@ + dec(
            st.tokens,
        ) + " tokens"@,
        st.capped ==> closing_notes(st, cap, source).contains(
            "the resident cap of "@ + dec(cap) + " tokens was reached; some notes in r0/r1 were not injected"@,
        ),
        closing_notes(st, cap, source).take(st.notes.len() as int) == st.notes,
{
    let a = if st.capped {
        st.notes.push(
            "the resident cap of "@ + dec(cap) + " tokens was reached; some notes in r0/r1 were not injected"@,
        )
    } else {
        st.notes
    };
    let b = match source {
        Some(s) => a.push("session-start source: "@ + s),
        None => a,
    };
    assert(closing_notes(st, cap, source) == b.push(dec(st.count) + " resident note(s), ~"@ + dec(st.tokens) + " tokens"@));
    if st.capped {
        let k = st.notes.len() as int;
        assert(closing_notes(st, cap, source)[k] == a[k]);
    }
    assert(closing_notes(st, cap, source).take(st.notes.len() as int) =~= st.notes);
}

fn append_blocks(out: &mut String, blocks: &Vec<CitedBlock>)
    ensures
        final(out)@ == old(out)@ + blocks_text(blocks@),
{
    let mut i: usize = 0;
    while i < blocks.len()
        invariant
            i <= blocks.len(),
            out@ == old(out)@ + blocks_text(blocks@.take(i as int)),
        decreases blocks.len() - i,
    {
        assert(blocks@.take((i + 1) as int).drop_last() =~= blocks@.take(i as int));
        let b = &blocks[i];
        out.append("[");
        out.append(b.citation.as_str());
        out.append("]\n");
        let t = trim(b.text.as_str());
        out.append(t.as_str());
        out.append("\n\n");
        i = i + 1;
    }
    assert(blocks@.take(blocks.len() as int) =~= blocks@);
}

/// A note's section of the context, under `day`: the heading with ring, name and day, then
/// each block under its citation.
pub fn section_text(n: &ResidentNote, day: &str) -> (s: String)
    ensures
        s@ == section_on(*n, day@),
{
    let mut out = String::from_str("## r");
    let r = decimal(n.ring as u64);
    out.append(r.as_str());
    out.append(" `");
    out.append(n.name.as_str());
    out.append("` (");
    out.append(day);
    out.append(")\n\n");
    append_blocks(&mut out, &n.blocks);
    out
}

fn append_section(out: &mut String, n: &ResidentNote)
    requires
        valid_instant(n.updated_second, n.updated_nanosecond),
    ensures
        final(out)@ == old(out)@ + note_section(*n),
{
    let d = day_of(n.updated_second, n.updated_nanosecond);
    let sec = section_text(n, d.as_str());
    out.append(sec.as_str());
}

/// Rings 0 and 1, rendered with their citations, cut at the token cap.
///
/// `entries` are the files of `notes/r0` and then `notes/r1`, each ring in sorted order.
/// A note that would take the total over `cap` is left out and the ones after it are
/// still tried; a file that cannot be read is reported, not skipped in silence.
pub fn resident_context(entries: &Vec<ResidentEntry>, cap: usize, source: Option<String>) -> (r: (
    String,
    Vec<String>,
))
    requires
        entries_valid(entries@),
    ensures
        r.0@ == resident_fold(entries@, cap as nat).out,
        r.1@.map_values(|s: String| s@) == closing_notes(
            resident_fold(entries@, cap as nat),
            cap as nat,
            match source {
                Some(s) => Some(s@),
                None => None,
            },
        ),
{
    let mut out = String::new();
    let mut notes: Vec<String> = Vec::new();
    let mut tokens: usize = 0;
    let mut count: usize = 0;
    let mut capped = false;
    let mut i: usize = 0;
    while i < entries.len()
        invariant
            i <= entries.len(),
            entries_valid(entries@),
            ({
                let st = resident_fold(entries@.take(i as int), cap as nat);
                &&& out@ == st.out
                &&& tokens == st.tokens
                &&& count == st.count
                &&& capped == st.capped
                &&& notes@.map_values(|s: String| s@) == st.notes
            }),
            tokens <= cap,
            count <= i,
        decreases entries.len() - i,
    {
        proof {
            assert(entries@.take((i + 1) as int).drop_last() =~= entries@.take(i as int));
            assert(entries@.take((i + 1) as int).last() == entries@[i as int]);
            resident_cap_holds(entries@.take(i as int), cap as nat);
        }
        match &entries[i] {
            ResidentEntry::Unreadable { path, error } => {
                let mut m = String::from_str(path.as_str());
                m.append(": unreadable, not injected (");
                m.append(error.as_str());
                m.append(")");
                let ghost before = notes@;
                notes.push(m);
                assert(notes@.map_values(|s: String| s@) =~= before.map_values(|s: String| s@).push(
                    m@,
                ));
            },
            ResidentEntry::Read(n) => {
                if n.cost > cap - tokens {
                    capped = true;
                } else {
                    assert(entries@[i as int] matches ResidentEntry::Read(x) && x == *n);
                    if count == 0 {
                        out.append(
                            "# Cyberbrain Light\n\nRings 0 and 1 are resident: they apply to everything in this project. Every block below carries its citation; quote it when you rely on it, and expand one with `cbl recall --id <citation>`. Everything else is behind `cbl recall \"<question>\"`, which searches rings 2 to 4 by keyword.\n\n",
                        );
                    }
                    append_section(&mut out, n);
                    tokens = tokens + n.cost;
                    count = count + 1;
                }
            },
        }
        i = i + 1;
    }
    proof {
        assert(entries@.take(entries.len() as int) =~= entries@);
    }
    if capped {
        let mut m = String::from_str("the resident cap of ");
        let c = decimal(cap as u64);
        m.append(c.as_str());
        m.append(" tokens was reached; some notes in r0/r1 were not injected");
        let ghost before = notes@;
        notes.push(m);
        assert(notes@.map_values(|s: String| s@) =~= before.map_values(|s: String| s@).push(m@));
    }
    match source {
        Some(s) => {
            let mut m = String::from_str("session-start source: ");
            m.append(s.as_str());
            let ghost before = notes@;
            notes.push(m);
            assert(notes@.map_values(|s: String| s@) =~= before.map_values(|s: String| s@).push(
                m@,
            ));
        },
        None => {},
    }
    let mut m = decimal(count as u64);
    m.append(" resident note(s), ~");
    let t = decimal(tokens as u64);
    m.append(t.as_str());
    m.append(" tokens");
    let ghost before = notes@;
    notes.push(m);
    assert(notes@.map_values(|s: String| s@) =~= before.map_values(|s: String| s@).push(m@));
    (out, notes)
}

/// What the hook reads from its payload: the `source` and `trigger` fields, each `None`
/// when absent and `Some(None)` when present but not a string.
#[derive(Debug)]
pub struct PayloadFields {
    pub source: Option<Option<String>>,
    pub trigger: Option<Option<String>>,
}

/// The payload as it is worth parsing: the standard input without surrounding whitespace,
/// or nothing when that leaves nothing.
pub fn payload_text(stdin: &str) -> (r: Option<String>)
    ensures
        trimmed(stdin@).len() == 0 ==> r is None,
        trimmed(stdin@).len() > 0 ==> (r matches Some(t) && t@ == trimmed(stdin@)),
{
    let t = trim(stdin);
    if t.as_str().unicode_len() == 0 {
        None
    } else {
        Some(t)
    }
}

/// The source the payload names: `source` if the field is there, `trigger` otherwise, and
/// only when that field is a string.
pub open spec fn payload_source(f: PayloadFields) -> Option<Seq<char>> {
    match f.source {
        Some(v) => match v {
            Some(s) => Some(s@),
            None => None,
        },
        None => match f.trigger {
            Some(Some(s)) => Some(s@),
            _ => None,
        },
    }
}

/// Read the payload leniently. No payload is no source; a payload that does not parse is
/// not an error either, only a note saying so.
pub fn source_of(parsed: Option<Result<PayloadFields, String>>, notes: &mut Vec<String>) -> (r:
    Option<String>)
    ensures
        parsed is None ==> r is None && final(notes)@ == old(notes)@,
        parsed matches Some(Err(e)) ==> r is None && final(notes)@.len() == old(notes)@.len() + 1
            && final(notes)@.take(old(notes)@.len() as int) == old(notes)@ && final(notes)@.last()@
            == "stdin is not JSON ("@ + e@ + "); proceeding without it"@,
        parsed matches Some(Ok(f)) ==> final(notes)@ == old(notes)@ && match r {
            Some(s) => payload_source(f) == Some(s@),
            None => payload_source(f) is None,
        },
{
    match parsed {
        None => None,
        Some(Err(e)) => {
            let mut m = String::from_str("stdin is not JSON (");
            m.append(e.as_str());
            m.append("); proceeding without it");
            let ghost before = notes@;
            notes.push(m);
            assert(notes@.take(before.len() as int) =~= before);
            None
        },
        Some(Ok(f)) => match f.source {
            Some(v) => v,
            None => match f.trigger {
                Some(v) => v,
                None => None,
            },
        },
    }
}

/// A field of the payload as it was found: absent, or present with its text when it is a
/// string.
pub open spec fn field_read(
    o: Option<Option<String>>,
    l: Option<(Option<Seq<char>>, Option<u64>, Seq<char>)>,
) -> bool {
    match l {
        None => o is None,
        Some(v) => o matches Some(x) && opt_text(x) == v.0,
    }
}

/// The payload's `source` and `trigger` fields, read from its text with `serde_json`; the
/// parse error when the text is not JSON.
pub fn payload_fields(text: &str) -> (r: Result<PayloadFields, String>)
    ensures
        json_at(text@, "/source"@) matches Err(e) ==> (r matches Err(x) && x@ == e),
        json_at(text@, "/source"@) is Ok ==> (json_at(text@, "/trigger"@) matches Err(e) ==> (
        r matches Err(x) && x@ == e)),
        match (json_at(text@, "/source"@), json_at(text@, "/trigger"@)) {
            (Ok(s), Ok(t)) => r matches Ok(f) && field_read(f.source, s) && field_read(
                f.trigger,
                t,
            ),
            _ => true,
        },
{
    let source = match value_at(text, "/source") {
        Err(e) => return Err(e),
        Ok(v) => match v {
            None => None,
            Some(x) => Some(x.text),
        },
    };
    let trigger = match value_at(text, "/trigger") {
        Err(e) => return Err(e),
        Ok(v) => match v {
            None => None,
            Some(x) => Some(x.text),
        },
    };
    Ok(PayloadFields { source, trigger })
}

/// Read the payload leniently: blank input is no payload, and input that is not JSON is
/// not an error but a note for the human. The answer is the payload's `source`, or else
/// its `trigger`, when that is a string.
pub fn read_source(stdin: &str, notes: &mut Vec<String>) -> (r: Option<String>)
    ensures
        trimmed(stdin@).len() == 0 ==> r is None && final(notes)@ == old(notes)@,
        trimmed(stdin@).len() > 0 ==> ({
            let t = trimmed(stdin@);
            let parsed = match json_at(t, "/source"@) {
                Err(e) => Err(e),
                Ok(s) => match json_at(t, "/trigger"@) {
                    Err(e) => Err(e),
                    Ok(g) => Ok((s, g)),
                },
            };
            match parsed {
                Err(e) => r is None && final(notes)@.len() == old(notes)@.len() + 1
                    && final(notes)@.take(old(notes)@.len() as int) == old(notes)@
                    && final(notes)@.last()@ == "stdin is not JSON ("@ + e
                    + "); proceeding without it"@,
                Ok((s, g)) => final(notes)@ == old(notes)@ && opt_text(r) == match s {
                    Some(v) => v.0,
                    None => match g {
                        Some(w) => w.0,
                        None => None,
                    },
                },
            }
        }),
{
    let parsed = match payload_text(stdin) {
        None => None,
        Some(t) => Some(payload_fields(t.as_str())),
    };
    source_of(parsed, notes)
}

/// The answer when there is no usable store: nothing for the harness, one quiet note.
pub fn no_store(root: &str, error: &str) -> (o: HookOutput)
    ensures
        o.stdout is None,
        o.notes@.len() == 1,
        o.notes@[0]@ == "no usable store at "@ + root@ + ": "@ + error@,
{
    let mut m = String::from_str("no usable store at ");
    m.append(root);
    m.append(": ");
    m.append(error);
    let mut notes = Vec::new();
    notes.push(m);
    HookOutput { stdout: None, notes }
}

/// The session-start answer: rings 0 and 1 as context, or nothing when none fitted, after
/// the notes already gathered.
pub fn session_start(
    notes: Vec<String>,
    entries: &Vec<ResidentEntry>,
    cap: usize,
    source: Option<String>,
) -> (o: HookOutput)
    requires
        entries_valid(entries@),
    ensures
        ({
            let st = resident_fold(entries@, cap as nat);
            let src = match source {
                Some(s) => Some(s@),
                None => None,
            };
            &&& o.notes@.map_values(|s: String| s@) == notes@.map_values(|s: String| s@)
                + closing_notes(st, cap as nat, src)
            &&& st.out.len() == 0 ==> o.stdout is None
            &&& st.out.len() > 0 ==> (o.stdout matches Some(HookMessage::Context { event, context })
                && event@ == event_harness_name(HookEvent::SessionStart) && context@ == st.out)
        }),
{
    let (context, more) = resident_context(entries, cap, source);
    let mut all = notes;
    let ghost a = all@;
    let mut more = more;
    let ghost m = more@;
    all.append(&mut more);
    assert(all@ =~= a + m);
    assert(all@.map_values(|s: String| s@) =~= a.map_values(|s: String| s@) + m.map_values(
        |s: String| s@,
    ));
    if context.as_str().unicode_len() == 0 {
        HookOutput { stdout: None, notes: all }
    } else {
        let event = String::from_str(harness_name(HookEvent::SessionStart));
        HookOutput { stdout: Some(HookMessage::Context { event, context }), notes: all }
    }
}

/// The message the pre-compact hook gives the human.
pub open spec fn compact_message(notes: nat) -> Seq<char> {
    "Cyberbrain Light: the context is being compacted. "@ + dec(notes)
        + " note(s) are in the store and will be back at the next session start; anything learned in this one and not written with `cbl write` will not."@
}

/// The pre-compact answer: nothing can be injected now, so the hook tells the human how many
/// notes will be back and that the rest will not.
pub fn pre_compact(notes: Vec<String>, stored: usize) -> (o: HookOutput)
    ensures
        o.notes == notes,
        o.stdout matches Some(HookMessage::System { message }) && message@ == compact_message(
            stored as nat,
        ),
{
    let mut m = String::from_str("Cyberbrain Light: the context is being compacted. ");
    let c = decimal(stored as u64);
    m.append(c.as_str());
    m.append(
        " note(s) are in the store and will be back at the next session start; anything learned in this one and not written with `cbl write` will not.",
    );
    HookOutput { stdout: Some(HookMessage::System { message: m }), notes }
}

/// A file of a resident ring that holds a note: a Markdown file, not hidden.
pub open spec fn is_note_file(name: Seq<char>) -> bool {
    !has_prefix(name, "."@) && has_suffix(name, ".md"@)
}

/// The files of a resident ring's directory to read, in order: the Markdown files that are
/// not hidden, sorted.
pub fn resident_files(names: Vec<String>) -> (r: Vec<String>)
    ensures
        sorted(texts(r@)),
        texts(r@).to_multiset() == texts(names@).filter(|n: Seq<char>| is_note_file(n)).to_multiset(),
{
    let ghost pred = |n: Seq<char>| is_note_file(n);
    let ghost nv = texts(names@);
    let mut keep: Vec<String> = Vec::new();
    let mut i: usize = 0;
    proof {
        reveal(Seq::filter);
        assert(nv.take(0) =~= Seq::<Seq<char>>::empty());
    }
    while i < names.len()
        invariant
            i <= names.len(),
            nv == texts(names@),
            pred == (|n: Seq<char>| is_note_file(n)),
            texts(keep@) == nv.take(i as int).filter(pred),
        decreases names.len() - i,
    {
        proof {
            reveal(Seq::filter);
            assert(nv.take((i + 1) as int).drop_last() =~= nv.take(i as int));
            assert(nv.take((i + 1) as int).last() == names@[i as int]@);
        }
        let name = names[i].as_str();
        if !starts_with(name, ".") && ends_with(name, ".md") {
            let ghost before = keep@;
            keep.push(String::from_str(name));
            assert(texts(keep@) =~= texts(before).push(name@));
        }
        i = i + 1;
    }
    proof {
        assert(nv.take(names.len() as int) =~= nv);
    }
    sort_texts(keep)
}


/// The JSON line a hook message is printed as, compact and with its keys in order, as
/// `serde_json` writes it.
pub open spec fn message_json(m: HookMessage) -> Seq<char> {
    match m {
        HookMessage::Context { event, context } => "{\"hookSpecificOutput\":{\"additionalContext\":"@
            + json_quote(context@) + ",\"hookEventName\":"@ + json_quote(event@) + "}}"@,
        HookMessage::System { message } => "{\"systemMessage\":"@ + json_quote(message@) + "}"@,
    }
}

/// The line printed for a hook message.
pub fn message_text(m: &HookMessage) -> (r: String)
    ensures
        r@ == message_json(*m),
{
    match m {
        HookMessage::Context { event, context } => {
            let mut r = String::from_str("{\"hookSpecificOutput\":{\"additionalContext\":");
            r.append(quote(context.as_str()).as_str());
            r.append(",\"hookEventName\":");
            r.append(quote(event.as_str()).as_str());
            r.append("}}");
            r
        },
        HookMessage::System { message } => {
            let mut r = String::from_str("{\"systemMessage\":");
            r.append(quote(message.as_str()).as_str());
            r.append("}");
            r
        },
    }
}

} // verus!
