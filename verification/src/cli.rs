//! The command line as plain values: the commands, the note kinds, the two hook events,
//! and the few decisions `main` makes on them.

use vstd::prelude::*;

verus! {

/// The parsed command line.
#[derive(Debug)]
pub struct Cli {
    /// Store to operate on; `None` means search from the working directory upwards.
    pub store: Option<String>,
    /// Machine-readable output.
    pub json: bool,
    /// Print less.
    pub quiet: bool,
    pub cmd: Cmd,
}

/// One command of the command line.
#[allow(inconsistent_fields)]
#[derive(Debug)]
pub enum Cmd {
    /// Create a store in the current directory, with this token cap for rings 0 and 1.
    Init { cap: usize },
    /// Write a note; writing an existing name updates it and keeps its id.
    Write { ring: u8, kind: Kind, name: String, body: String, tags: Vec<String> },
    /// Rebuild the index from the notes tree.
    Scan { full: bool },
    /// Search the store, or expand a citation with `id`.
    Recall { query: Option<String>, id: Option<String>, n: usize, ring: Option<u8> },
    /// Delete a note, its blocks and its index rows.
    Forget { name: String },
    /// What the store holds and what the index knows.
    Status,
    /// Report the store's footprint and tidy it up.
    Doctor { fix: bool },
    /// Answer an agent lifecycle hook.
    Hook { event: HookEvent },
    /// Write the hook entries into a project's settings.
    Install { project: Option<String>, undo: bool },
    /// Speak the Model Context Protocol over stdio.
    Mcp,
}

/// What kind of thing a note records.
#[derive(Clone, Copy, Debug, PartialEq, Eq, Structural)]
pub enum Kind {
    Knowledge,
    Bug,
    Lesson,
    Decision,
    Reference,
    Session,
}

/// The two lifecycle events the hooks answer.
#[derive(Clone, Copy, Debug, PartialEq, Eq, Structural)]
pub enum HookEvent {
    SessionStart,
    PreCompact,
}

/// The argument name of an event on the command line.
pub open spec fn event_arg(e: HookEvent) -> Seq<char> {
    match e {
        HookEvent::SessionStart => "session-start"@,
        HookEvent::PreCompact => "pre-compact"@,
    }
}

/// What the agent harness calls an event.
pub open spec fn event_harness_name(e: HookEvent) -> Seq<char> {
    match e {
        HookEvent::SessionStart => "SessionStart"@,
        HookEvent::PreCompact => "PreCompact"@,
    }
}

impl HookEvent {
    /// The event as it is written after `cbl hook`.
    pub fn as_str(self) -> (s: &'static str)
        ensures
            s@ == event_arg(self),
    {
        match self {
            HookEvent::SessionStart => "session-start",
            HookEvent::PreCompact => "pre-compact",
        }
    }
}

/// What the harness calls the event in `hookSpecificOutput`.
pub fn harness_name(event: HookEvent) -> (s: &'static str)
    ensures
        s@ == event_harness_name(event),
{
    match event {
        HookEvent::SessionStart => "SessionStart",
        HookEvent::PreCompact => "PreCompact",
    }
}

/// The kind a name given over MCP stands for: the lowercase name of a kind, with the empty
/// name meaning knowledge.
pub open spec fn kind_named(s: Seq<char>) -> Option<Kind> {
    if s == "bug"@ {
        Some(Kind::Bug)
    } else if s == "lesson"@ {
        Some(Kind::Lesson)
    } else if s == "decision"@ {
        Some(Kind::Decision)
    } else if s == "reference"@ {
        Some(Kind::Reference)
    } else if s == "session"@ {
        Some(Kind::Session)
    } else if s == ""@ || s == "knowledge"@ {
        Some(Kind::Knowledge)
    } else {
        None
    }
}

/// Read a kind by its lowercase name; anything else is refused with the name in the message.
pub fn parse_kind(s: &str) -> (r: Result<Kind, String>)
    ensures
        kind_named(s@) matches Some(k) ==> r == Ok::<Kind, String>(k),
        kind_named(s@) is None ==> (r matches Err(m) && m@ == "unknown kind `"@ + s@ + "`"@),
{
    proof {
        reveal_strlit("bug");
        reveal_strlit("lesson");
        reveal_strlit("decision");
        reveal_strlit("reference");
        reveal_strlit("session");
        reveal_strlit("");
        reveal_strlit("knowledge");
    }
    if crate::text::str_eq(s, "bug") {
        Ok(Kind::Bug)
    } else if crate::text::str_eq(s, "lesson") {
        Ok(Kind::Lesson)
    } else if crate::text::str_eq(s, "decision") {
        Ok(Kind::Decision)
    } else if crate::text::str_eq(s, "reference") {
        Ok(Kind::Reference)
    } else if crate::text::str_eq(s, "session") {
        Ok(Kind::Session)
    } else if crate::text::str_eq(s, "") || crate::text::str_eq(s, "knowledge") {
        Ok(Kind::Knowledge)
    } else {
        let mut m = String::from_str("unknown kind `");
        m.append(s);
        m.append("`");
        Err(m)
    }
}

/// What `cbl recall` does with its arguments.
#[derive(Debug)]
pub enum RecallMode {
    /// Expand this citation to its note.
    Expand(String),
    /// Search for this query.
    Search(String),
}

/// A citation wins over a query; with neither there is nothing to do.
pub fn recall_mode(id: Option<String>, query: Option<String>) -> (r: Result<RecallMode, String>)
    ensures
        id matches Some(c) ==> (r matches Ok(RecallMode::Expand(x)) && x@ == c@),
        id is None ==> (query matches Some(q) ==> (r matches Ok(RecallMode::Search(x)) && x@
            == q@)),
        id is None ==> (query is None ==> (r matches Err(m) && m@
            == "give a query, or --id to expand a citation"@)),
{
    match (id, query) {
        (Some(c), _) => Ok(RecallMode::Expand(c)),
        (None, Some(q)) => Ok(RecallMode::Search(q)),
        (None, None) => Err(String::from_str("give a query, or --id to expand a citation")),
    }
}

/// `cbl doctor` exits non-zero when it found something and was not asked to fix it, so a
/// nightly run can fail instead of printing into the void.
pub fn doctor_fails(findings_empty: bool, fix: bool) -> (r: bool)
    ensures
        r == (!findings_empty && !fix),
{
    !findings_empty && !fix
}


/// The lowercase name of a kind, as the tool schema lists them.
pub open spec fn kind_name(k: Kind) -> Seq<char> {
    match k {
        Kind::Knowledge => "knowledge"@,
        Kind::Bug => "bug"@,
        Kind::Lesson => "lesson"@,
        Kind::Decision => "decision"@,
        Kind::Reference => "reference"@,
        Kind::Session => "session"@,
    }
}

/// Law: every kind reads back as itself from its own name, and distinct kinds have
/// distinct names.
pub proof fn every_kind_reads_back_by_its_name(k: Kind, j: Kind)
    ensures
        kind_named(kind_name(k)) == Some(k),
        kind_name(k) == kind_name(j) ==> k == j,
{
    reveal_strlit("bug");
    reveal_strlit("lesson");
    reveal_strlit("decision");
    reveal_strlit("reference");
    reveal_strlit("session");
    reveal_strlit("");
    reveal_strlit("knowledge");
    assert("reference"@[0] != "knowledge"@[0]);
    assert("lesson"@[0] != "bug"@[0]);
    assert("session"@[0] != "lesson"@[0]);
    assert("decision"@[0] != "reference"@[0]);
}

} // verus!
