//! The Model Context Protocol server: one JSON-RPC message per line, answered in order.
//!
//! The messages arrive here already parsed into what the server reads of them, and the
//! answers leave as values the caller writes out as JSON. A tool call is the one thing
//! the server cannot finish alone: it names the call, the caller runs it against the store,
//! and `finish_call` turns the outcome into the answer.

use vstd::prelude::*;
use crate::cli::{Kind, kind_named, parse_kind};
use crate::note::WriteRequest;
use crate::text::{dec, decimal, str_eq};
use crate::json::{compact, found, json_at, json_compact, json_quote, opt_text, quote, text_at, text_in,
    value_at, whole_at, whole_in};

verus! {

/// The protocol version answered when the client asks for one this server does not speak.
pub const LATEST_PROTOCOL: &'static str = "2025-06-18";

/// The server's name in the handshake.
pub const SERVER_NAME: &'static str = "cyberbrain-light";

/// The server's version in the handshake.
pub const SERVER_VERSION: &'static str = "0.1.0";

/// What the server tells the agent about itself.
pub const INSTRUCTIONS: &'static str = "Cyberbrain Light is this project's memory. Search it with `recall` before reading files or guessing; every hit carries a citation such as r2-a91f2c33e1bd that `recall_id` expands to the full note. Record what you learn with `write`: ring 2 for project knowledge, ring 3 for a session record. Rings 0 and 1 belong to the operator \u{2014} propose their text, never write them. Search is by keyword, not by meaning, so use the words that would be in the note.";

/// The protocol versions this server speaks.
pub open spec fn supported(v: Seq<char>) -> bool {
    v == "2025-06-18"@ || v == "2025-03-26"@ || v == "2024-11-05"@
}

/// The server. It holds nothing but where the store is.
#[derive(Debug)]
pub struct Server {
    pub store_root: String,
}

/// The arguments of a tool call: a text field when it is a string, a number when it is a
/// whole number that fits 64 bits.
#[derive(Debug)]
pub struct ToolArgs {
    pub query: Option<String>,
    pub n: Option<u64>,
    pub ring: Option<u64>,
    pub citation: Option<String>,
    pub kind: Option<String>,
    pub name: Option<String>,
    pub body: Option<String>,
}

/// What the server reads of a message.
#[derive(Debug)]
pub struct Message {
    /// Whether the message has an `id`; one without is a notification.
    pub has_id: bool,
    /// `method`, when it is a string.
    pub method: Option<String>,
    /// `params.protocolVersion`, when it is a string.
    pub protocol_version: Option<String>,
    /// `params.name`, when it is a string.
    pub tool: Option<String>,
    /// `params.arguments`.
    pub arguments: ToolArgs,
}

/// The handshake's answer.
#[derive(Debug)]
pub struct InitializeResult {
    pub protocol_version: String,
    pub list_changed: bool,
    pub name: String,
    pub title: String,
    pub version: String,
    pub instructions: String,
}

/// One input of a tool: its name, its JSON type and, where it has one, a description.
#[derive(Debug)]
pub struct ToolParam {
    pub name: String,
    pub kind: String,
    pub description: Option<String>,
}

/// A tool as `tools/list` describes it. Its input schema is a JSON schema of type
/// `input_type` whose `properties` are `params`, each with its type and description, and
/// whose `required` list is `required`, left out when empty.
#[derive(Debug)]
pub struct ToolSpec {
    pub name: String,
    pub input_type: String,
    pub title: String,
    pub description: String,
    pub params: Vec<ToolParam>,
    pub required: Vec<String>,
}

/// The `result` of an answer.
#[derive(Debug)]
pub enum Reply {
    Initialize(InitializeResult),
    /// `null`, the answer to a notification that carried an id.
    Null,
    /// `{}`.
    Empty,
    Tools(Vec<ToolSpec>),
    /// A tool's outcome: a text, and whether it is an error the model should see.
    Content { text: String, is_error: bool },
}

/// An answer: a result, or a JSON-RPC error.
#[derive(Debug)]
pub enum Answer {
    Result(Reply),
    Error { code: i64, message: String },
}

/// A tool call for the caller to run against the store.
#[derive(Debug)]
pub enum ToolCall {
    Recall { query: String, n: usize, ring: Option<u8> },
    RecallId { citation: String },
    Write(WriteRequest),
    Status,
    /// Open the store, then fail with this message.
    Fail(String),
    /// Fail with this message without opening anything.
    Unknown(String),
}

/// What the server does with one line.
#[derive(Debug)]
pub enum Step {
    /// Nothing is sent back.
    Silent,
    Answer(Answer),
    /// Run this call; when `answer` holds, send back what `finish_call` makes of it.
    Call { call: ToolCall, answer: bool },
}

/// A text field of the arguments, the empty text when it is absent.
pub open spec fn text_of(a: Option<String>) -> Seq<char> {
    match a {
        Some(s) => s@,
        None => Seq::empty(),
    }
}

fn text_or_empty(a: &Option<String>) -> (r: String)
    ensures
        r@ == text_of(*a),
{
    match a {
        Some(s) => String::from_str(s.as_str()),
        None => String::new(),
    }
}

/// How many hits a recall asks for: the given number, 8 without one, held to 1 to 50.
pub open spec fn hits_wanted(n: Option<u64>) -> int {
    let v = match n {
        Some(x) => x as int,
        None => 8,
    };
    if v < 1 {
        1
    } else if v > 50 {
        50
    } else {
        v
    }
}


/// The refusal of a ring that does not exist.
pub open spec fn bad_ring_message(b: int) -> Seq<char> {
    "ring "@ + dec(b as nat) + " does not exist; rings are 0 through 4"@
}

fn bad_ring(b: u64) -> (m: String)
    ensures
        m@ == bad_ring_message(b as int),
{
    let mut m = String::from_str("ring ");
    let d = decimal(b);
    m.append(d.as_str());
    m.append(" does not exist; rings are 0 through 4");
    m
}

/// The refusal of a write to an operator ring.
pub open spec fn operator_ring_message(b: int) -> Seq<char> {
    "rings 0 and 1 belong to the operator; propose the text instead of writing it, or ask them to run `cbl write --ring "@
        + dec(b as nat) + " \u{2026}` themselves"@
}

/// What a call of the tool `name` with `args` asks the store for.
pub open spec fn call_matches(c: ToolCall, name: Seq<char>, args: ToolArgs) -> bool {
    if name == "recall"@ {
        match args.ring {
            Some(r) if r > 4 => c matches ToolCall::Fail(m) && m@ == bad_ring_message(
                r as int,
            ),
            _ => c matches ToolCall::Recall { query, n, ring } && query@ == text_of(args.query)
                && n == hits_wanted(args.n) && ring == match args.ring {
                Some(r) => Some(r as u8),
                None => None,
            },
        }
    } else if name == "recall_id"@ {
        c matches ToolCall::RecallId { citation } && citation@ == text_of(args.citation)
    } else if name == "write"@ {
        match args.ring {
            None => c matches ToolCall::Fail(m) && m@ == "write needs `ring` (2, 3 or 4)"@,
            Some(r) => if r > 4 {
                c matches ToolCall::Fail(m) && m@ == bad_ring_message(r as int)
            } else if r < 2 {
                c matches ToolCall::Fail(m) && m@ == operator_ring_message(r as int)
            } else {
                match kind_named(text_of(args.kind)) {
                    None => c matches ToolCall::Fail(m) && m@ == "unknown kind `"@ + text_of(
                        args.kind,
                    ) + "`"@,
                    Some(k) => c matches ToolCall::Write(req) && req.ring == r
                        && req.kind == k && req.name@ == text_of(args.name) && req.body@
                        == text_of(args.body) && req.tags@.len() == 0,
                }
            },
        }
    } else if name == "status"@ {
        c is Status
    } else {
        c matches ToolCall::Unknown(m) && m@ == "unknown tool `"@ + name + "`"@
    }
}

/// Decide what a tool call asks for, refusing what must be refused: a ring that does not
/// exist, a write without a ring, and any write to the operator's rings 0 and 1.
pub fn decide_call(name: &str, args: &ToolArgs) -> (c: ToolCall)
    ensures
        call_matches(c, name@, *args),
{
    proof {
        reveal_strlit("recall");
        reveal_strlit("recall_id");
        reveal_strlit("write");
        reveal_strlit("status");
    }
    if str_eq(name, "recall") {
        let ring = match args.ring {
            None => None,
            Some(r) => {
                if r > 4 {
                    return ToolCall::Fail(bad_ring(r));
                }
                Some(r as u8)
            },
        };
        let v: u64 = match args.n {
            Some(x) => x,
            None => 8,
        };
        let n: usize = if v < 1 {
            1
        } else if v > 50 {
            50
        } else {
            v as usize
        };
        ToolCall::Recall { query: text_or_empty(&args.query), n, ring }
    } else if str_eq(name, "recall_id") {
        ToolCall::RecallId { citation: text_or_empty(&args.citation) }
    } else if str_eq(name, "write") {
        match args.ring {
            None => ToolCall::Fail(String::from_str("write needs `ring` (2, 3 or 4)")),
            Some(r) => {
                if r > 4 {
                    ToolCall::Fail(bad_ring(r))
                } else if r < 2 {
                    let mut m = String::from_str(
                        "rings 0 and 1 belong to the operator; propose the text instead of writing it, or ask them to run `cbl write --ring ",
                    );
                    let d = decimal(r);
                    m.append(d.as_str());
                    m.append(" \u{2026}` themselves");
                    ToolCall::Fail(m)
                } else {
                    let k = text_or_empty(&args.kind);
                    match parse_kind(k.as_str()) {
                        Err(m) => ToolCall::Fail(m),
                        Ok(kind) => ToolCall::Write(
                            WriteRequest {
                                ring: r as u8,
                                kind,
                                name: text_or_empty(&args.name),
                                body: text_or_empty(&args.body),
                                tags: Vec::new(),
                            },
                        ),
                    }
                }
            },
        }
    } else if str_eq(name, "status") {
        ToolCall::Status
    } else {
        let mut m = String::from_str("unknown tool `");
        m.append(name);
        m.append("`");
        ToolCall::Unknown(m)
    }
}

/// Law: no tool call ever writes to ring 0 or 1, or to a ring that does not exist. A write
/// goes to exactly the ring the call names, and a ring above 4, however large, is refused.
pub proof fn agents_never_write_operator_rings(c: ToolCall, name: Seq<char>, args: ToolArgs)
    requires
        call_matches(c, name, args),
    ensures
        c matches ToolCall::Write(req) ==> 2 <= req.ring <= 4 && args.ring == Some(
            req.ring as u64,
        ),
        (name == "write"@ || name == "recall"@) ==> match args.ring {
            Some(r) => r > 4 ==> c is Fail,
            None => true,
        },
{
    reveal_strlit("recall");
    reveal_strlit("recall_id");
    reveal_strlit("write");
    assert("write"@ != "recall"@) by {
        assert("write"@[0] != "recall"@[0]);
    }
    assert("write"@ != "recall_id"@) by {
        assert("write"@[0] != "recall_id"@[0]);
    }
}

/// The version answered to a client that asked for `asked`: its own when this server
/// speaks it, the latest otherwise.
pub open spec fn negotiated(asked: Seq<char>) -> Seq<char> {
    if supported(asked) {
        asked
    } else {
        LATEST_PROTOCOL@
    }
}

fn negotiate(asked: &str) -> (r: String)
    ensures
        r@ == negotiated(asked@),
{
    if str_eq(asked, "2025-06-18") || str_eq(asked, "2025-03-26") || str_eq(asked, "2024-11-05") {
        String::from_str(asked)
    } else {
        String::from_str(LATEST_PROTOCOL)
    }
}

/// The handshake: the negotiated version, the server's name, and its instructions.
pub fn initialize(protocol_version: &Option<String>) -> (r: InitializeResult)
    ensures
        r.protocol_version@ == negotiated(text_of(*protocol_version)),
        r.name@ == SERVER_NAME@,
        r.title@ == "Cyberbrain Light"@,
        r.version@ == SERVER_VERSION@,
        r.instructions@ == INSTRUCTIONS@,
        !r.list_changed,
{
    let asked = text_or_empty(protocol_version);
    InitializeResult {
        protocol_version: negotiate(asked.as_str()),
        list_changed: false,
        name: String::from_str(SERVER_NAME),
        title: String::from_str("Cyberbrain Light"),
        version: String::from_str(SERVER_VERSION),
        instructions: String::from_str(INSTRUCTIONS),
    }
}

/// A tool as a specification reads it: name, the type of its input schema, title,
/// description, its inputs, and which of them are required.
pub struct ToolView {
    pub name: Seq<char>,
    pub input_type: Seq<char>,
    pub title: Seq<char>,
    pub description: Seq<char>,
    pub params: Seq<(Seq<char>, Seq<char>, Option<Seq<char>>)>,
    pub required: Seq<Seq<char>>,
}

pub open spec fn param_view(p: ToolParam) -> (Seq<char>, Seq<char>, Option<Seq<char>>) {
    (p.name@, p.kind@, match p.description {
        Some(d) => Some(d@),
        None => None,
    })
}

pub open spec fn tool_view(t: ToolSpec) -> ToolView {
    ToolView {
        name: t.name@,
        input_type: t.input_type@,
        title: t.title@,
        description: t.description@,
        params: t.params@.map_values(|p: ToolParam| param_view(p)),
        required: t.required@.map_values(|s: String| s@),
    }
}

/// The four tools, which is the whole surface an agent needs.
pub open spec fn tools_spec() -> Seq<ToolView> {
    seq![
        ToolView {
            name: "recall"@,
            input_type: "object"@,
            title: "Search the project memory"@,
            description: "Keyword search over rings 2 to 4. Returns hits with a citation, a ring and a score, plus what was not checked. Use the words that would appear in the note; there is no semantic search."@,
            params: seq![
                ("query"@, "string"@, Some("the question, in the words a note would use"@)),
                ("n"@, "integer"@, Some("hits to return (default 8)"@)),
                ("ring"@, "integer"@, Some("restrict to exactly this ring"@)),
            ],
            required: seq!["query"@],
        },
        ToolView {
            name: "recall_id"@,
            input_type: "object"@,
            title: "Expand a citation"@,
            description: "Give back the whole note behind a citation such as r2-a91f2c33e1bd."@,
            params: seq![("citation"@, "string"@, None)],
            required: seq!["citation"@],
        },
        ToolView {
            name: "write"@,
            input_type: "object"@,
            title: "Record what was learned"@,
            description: "Write a note. Ring 2 is project knowledge, ring 3 a session record, ring 4 unverified material. Rings 0 and 1 are the operator's and are refused here."@,
            params: seq![
                ("ring"@, "integer"@, Some("2, 3 or 4"@)),
                ("kind"@, "string"@, Some("knowledge, bug, lesson, decision, reference or session"@)),
                ("name"@, "string"@, Some("kebab-case slug, unique in the store"@)),
                ("body"@, "string"@, Some("Markdown. Link other notes with [[their-name]]."@)),
            ],
            required: seq!["ring"@, "kind"@, "name"@, "body"@],
        },
        ToolView {
            name: "status"@,
            input_type: "object"@,
            title: "What the store holds"@,
            description: "Note counts per ring, the index, and the resident token budget."@,
            params: seq![],
            required: seq![],
        },
    ]
}

fn param(name: &str, kind: &str, description: Option<&str>) -> (p: ToolParam)
    ensures
        param_view(p) == (name@, kind@, match description {
            Some(d) => Some(d@),
            None => None::<Seq<char>>,
        }),
{
    ToolParam {
        name: String::from_str(name),
        kind: String::from_str(kind),
        description: match description {
            Some(d) => Some(String::from_str(d)),
            None => None,
        },
    }
}

fn push_param(v: &mut Vec<ToolParam>, p: ToolParam)
    ensures
        final(v)@.map_values(|q: ToolParam| param_view(q)) == old(v)@.map_values(
            |q: ToolParam| param_view(q),
        ).push(param_view(p)),
{
    let ghost before = v@;
    v.push(p);
    assert(v@.map_values(|q: ToolParam| param_view(q)) =~= before.map_values(
        |q: ToolParam| param_view(q),
    ).push(param_view(p)));
}

fn push_text(v: &mut Vec<String>, s: &str)
    ensures
        final(v)@.map_values(|q: String| q@) == old(v)@.map_values(|q: String| q@).push(s@),
{
    let ghost before = v@;
    v.push(String::from_str(s));
    assert(v@.map_values(|q: String| q@) =~= before.map_values(|q: String| q@).push(s@));
}

fn push_tool(v: &mut Vec<ToolSpec>, t: ToolSpec)
    ensures
        final(v)@.map_values(|q: ToolSpec| tool_view(q)) == old(v)@.map_values(
            |q: ToolSpec| tool_view(q),
        ).push(tool_view(t)),
{
    let ghost before = v@;
    v.push(t);
    assert(v@.map_values(|q: ToolSpec| tool_view(q)) =~= before.map_values(
        |q: ToolSpec| tool_view(q),
    ).push(tool_view(t)));
}

/// The answer to `tools/list`.
pub fn tool_list() -> (r: Vec<ToolSpec>)
    ensures
        r@.map_values(|t: ToolSpec| tool_view(t)) == tools_spec(),
{
    let mut tools: Vec<ToolSpec> = Vec::new();

    let mut p: Vec<ToolParam> = Vec::new();
    push_param(&mut p, param("query", "string", Some("the question, in the words a note would use")));
    push_param(&mut p, param("n", "integer", Some("hits to return (default 8)")));
    push_param(&mut p, param("ring", "integer", Some("restrict to exactly this ring")));
    let mut req: Vec<String> = Vec::new();
    push_text(&mut req, "query");
    let t = ToolSpec {
        name: String::from_str("recall"),
        input_type: String::from_str("object"),
        title: String::from_str("Search the project memory"),
        description: String::from_str(
            "Keyword search over rings 2 to 4. Returns hits with a citation, a ring and a score, plus what was not checked. Use the words that would appear in the note; there is no semantic search.",
        ),
        params: p,
        required: req,
    };
    assert(tool_view(t).params =~= tools_spec()[0].params);
    assert(tool_view(t).required =~= tools_spec()[0].required);
    push_tool(&mut tools, t);

    let mut p: Vec<ToolParam> = Vec::new();
    push_param(&mut p, param("citation", "string", None));
    let mut req: Vec<String> = Vec::new();
    push_text(&mut req, "citation");
    let t = ToolSpec {
        name: String::from_str("recall_id"),
        input_type: String::from_str("object"),
        title: String::from_str("Expand a citation"),
        description: String::from_str(
            "Give back the whole note behind a citation such as r2-a91f2c33e1bd.",
        ),
        params: p,
        required: req,
    };
    assert(tool_view(t).params =~= tools_spec()[1].params);
    assert(tool_view(t).required =~= tools_spec()[1].required);
    push_tool(&mut tools, t);

    let mut p: Vec<ToolParam> = Vec::new();
    push_param(&mut p, param("ring", "integer", Some("2, 3 or 4")));
    push_param(
        &mut p,
        param("kind", "string", Some("knowledge, bug, lesson, decision, reference or session")),
    );
    push_param(&mut p, param("name", "string", Some("kebab-case slug, unique in the store")));
    push_param(&mut p, param("body", "string", Some("Markdown. Link other notes with [[their-name]].")));
    let mut req: Vec<String> = Vec::new();
    push_text(&mut req, "ring");
    push_text(&mut req, "kind");
    push_text(&mut req, "name");
    push_text(&mut req, "body");
    let t = ToolSpec {
        name: String::from_str("write"),
        input_type: String::from_str("object"),
        title: String::from_str("Record what was learned"),
        description: String::from_str(
            "Write a note. Ring 2 is project knowledge, ring 3 a session record, ring 4 unverified material. Rings 0 and 1 are the operator's and are refused here.",
        ),
        params: p,
        required: req,
    };
    assert(tool_view(t).params =~= tools_spec()[2].params);
    assert(tool_view(t).required =~= tools_spec()[2].required);
    push_tool(&mut tools, t);

    let t = ToolSpec {
        name: String::from_str("status"),
        input_type: String::from_str("object"),
        title: String::from_str("What the store holds"),
        description: String::from_str(
            "Note counts per ring, the index, and the resident token budget.",
        ),
        params: Vec::new(),
        required: Vec::new(),
    };
    assert(tool_view(t).params =~= tools_spec()[3].params);
    assert(tool_view(t).required =~= tools_spec()[3].required);
    push_tool(&mut tools, t);
    assert(tools@.map_values(|t: ToolSpec| tool_view(t)) =~= tools_spec());
    tools
}

/// The answer to a method other than `tools/call`.
pub open spec fn answer_matches(a: Answer, method: Seq<char>, msg: Message) -> bool {
    if method == "initialize"@ {
        a matches Answer::Result(Reply::Initialize(r)) && r.protocol_version@ == negotiated(
            text_of(msg.protocol_version),
        ) && r.name@ == SERVER_NAME@ && r.title@ == "Cyberbrain Light"@ && r.version@
            == SERVER_VERSION@ && r.instructions@ == INSTRUCTIONS@ && !r.list_changed
    } else if method == "notifications/initialized"@ || method == "notifications/cancelled"@ {
        a matches Answer::Result(Reply::Null)
    } else if method == "ping"@ {
        a matches Answer::Result(Reply::Empty)
    } else if method == "tools/list"@ {
        a matches Answer::Result(Reply::Tools(v)) && v@.map_values(|t: ToolSpec| tool_view(t))
            == tools_spec()
    } else {
        a matches Answer::Error { code, message } && code == -32601 && message@
            == "unknown method `"@ + method + "`"@
    }
}

/// What the server does with a message.
pub open spec fn step_matches(st: Step, msg: Message) -> bool {
    let method = text_of(msg.method);
    if method == "tools/call"@ {
        match msg.tool {
            None => if msg.has_id {
                st matches Step::Answer(Answer::Error { code, message }) && code == -32602
                    && message@ == "tools/call needs a `name`"@
            } else {
                st is Silent
            },
            Some(t) => st matches Step::Call { call, answer } && answer == msg.has_id
                && call_matches(call, t@, msg.arguments),
        }
    } else if msg.has_id {
        st matches Step::Answer(a) && answer_matches(a, method, msg)
    } else {
        st is Silent
    }
}

/// A lookup's parse error, if it has one.
pub open spec fn error_of(l: Result<Option<(Option<Seq<char>>, Option<u64>, Seq<char>)>, Seq<char>>) -> Option<
    Seq<char>,
> {
    match l {
        Err(e) => Some(e),
        Ok(_) => None,
    }
}

/// The first of two outcomes that is an error.
pub open spec fn first_of(a: Option<Seq<char>>, b: Option<Seq<char>>) -> Option<Seq<char>> {
    match a {
        Some(e) => Some(e),
        None => b,
    }
}

/// The parse error of a line, as the first of its lookups in reading order reports it.
pub open spec fn line_error(line: Seq<char>) -> Option<Seq<char>> {
    first_of(error_of(json_at(line, "/id"@)), first_of(error_of(json_at(line, "/method"@)), first_of(
        error_of(json_at(line, "/params/protocolVersion"@)),
        first_of(error_of(json_at(line, "/params/name"@)), arguments_error(line)),
    )))
}

pub open spec fn arguments_error(line: Seq<char>) -> Option<Seq<char>> {
    first_of(error_of(json_at(line, "/params/arguments/query"@)), first_of(error_of(json_at(line, "/params/arguments/n"@)), first_of(
        error_of(json_at(line, "/params/arguments/ring"@)),
        first_of(error_of(json_at(line, "/params/arguments/citation"@)), first_of(
            error_of(json_at(line, "/params/arguments/kind"@)),
            first_of(error_of(json_at(line, "/params/arguments/name"@)), error_of(
                json_at(line, "/params/arguments/body"@),
            )),
        )),
    )))
}

/// The id of a line as JSON text: what is at `id`, and `null` when nothing is.
pub open spec fn id_text(line: Seq<char>) -> Seq<char> {
    match json_at(line, "/id"@) {
        Ok(Some(v)) => v.2,
        _ => "null"@,
    }
}

/// The arguments of a tool call as they are found in a line.
pub open spec fn arguments_read(a: ToolArgs, line: Seq<char>) -> bool {
    &&& opt_text(a.query) == text_in(json_at(line, "/params/arguments/query"@))
    &&& a.n == whole_in(json_at(line, "/params/arguments/n"@))
    &&& a.ring == whole_in(json_at(line, "/params/arguments/ring"@))
    &&& opt_text(a.citation) == text_in(json_at(line, "/params/arguments/citation"@))
    &&& opt_text(a.kind) == text_in(json_at(line, "/params/arguments/kind"@))
    &&& opt_text(a.name) == text_in(json_at(line, "/params/arguments/name"@))
    &&& opt_text(a.body) == text_in(json_at(line, "/params/arguments/body"@))
}

/// A message as it is found in a line.
pub open spec fn message_read(m: Message, line: Seq<char>) -> bool {
    &&& m.has_id == found(json_at(line, "/id"@))
    &&& opt_text(m.method) == text_in(json_at(line, "/method"@))
    &&& opt_text(m.protocol_version) == text_in(json_at(line, "/params/protocolVersion"@))
    &&& opt_text(m.tool) == text_in(json_at(line, "/params/name"@))
    &&& arguments_read(m.arguments, line)
}

fn read_arguments(line: &str) -> (r: Result<ToolArgs, String>)
    ensures
        arguments_error(line@) matches Some(e) ==> (r matches Err(x) && x@ == e),
        arguments_error(line@) is None ==> (r matches Ok(a) && arguments_read(a, line@)),
{
    let query = match text_at(line, "/params/arguments/query") {
        Err(e) => return Err(e),
        Ok(t) => t,
    };
    let n = match whole_at(line, "/params/arguments/n") {
        Err(e) => return Err(e),
        Ok(t) => t,
    };
    let ring = match whole_at(line, "/params/arguments/ring") {
        Err(e) => return Err(e),
        Ok(t) => t,
    };
    let citation = match text_at(line, "/params/arguments/citation") {
        Err(e) => return Err(e),
        Ok(t) => t,
    };
    let kind = match text_at(line, "/params/arguments/kind") {
        Err(e) => return Err(e),
        Ok(t) => t,
    };
    let name = match text_at(line, "/params/arguments/name") {
        Err(e) => return Err(e),
        Ok(t) => t,
    };
    let body = match text_at(line, "/params/arguments/body") {
        Err(e) => return Err(e),
        Ok(t) => t,
    };
    Ok(ToolArgs { query, n, ring, citation, kind, name, body })
}

/// Read a line of JSON into the message the server answers, and the message's id as
/// JSON text; the parse error when the line is not JSON.
pub fn read_message(line: &str) -> (r: Result<(Message, String), String>)
    ensures
        line_error(line@) matches Some(e) ==> (r matches Err(x) && x@ == e),
        line_error(line@) is None ==> (r matches Ok((m, id)) && message_read(m, line@) && id@
            == id_text(line@)),
{
    let id = match value_at(line, "/id") {
        Err(e) => return Err(e),
        Ok(v) => v,
    };
    let method = match text_at(line, "/method") {
        Err(e) => return Err(e),
        Ok(t) => t,
    };
    let protocol_version = match text_at(line, "/params/protocolVersion") {
        Err(e) => return Err(e),
        Ok(t) => t,
    };
    let tool = match text_at(line, "/params/name") {
        Err(e) => return Err(e),
        Ok(t) => t,
    };
    let arguments = match read_arguments(line) {
        Err(e) => return Err(e),
        Ok(a) => a,
    };
    let (has_id, id_json) = match id {
        Some(v) => (true, v.json),
        None => (false, String::from_str("null")),
    };
    Ok((Message { has_id, method, protocol_version, tool, arguments }, id_json))
}

impl Server {
    /// Handle one line of JSON: the step to take, and the id to answer under as JSON text.
    /// A line that is not JSON is answered with a parse error under a `null` id.
    pub fn handle_line(&mut self, line: &str) -> (r: (Step, String))
        ensures
            line_error(line@) matches Some(e) ==> (r.0 matches Step::Answer(
                Answer::Error { code, message },
            ) && code == -32700 && message@ == "parse error: "@ + e && r.1@ == "null"@),
            line_error(line@) is None ==> (exists|m: Message|
                message_read(m, line@) && #[trigger] step_matches(r.0, m)) && r.1@ == id_text(
                line@,
            ),
    {
        match read_message(line) {
            Err(e) => {
                let st = self.handle_message(Err(e));
                (st, String::from_str("null"))
            },
            Ok((m, id)) => {
                let ghost g = m;
                let st = self.handle_message(Ok(m));
                assert(message_read(g, line@) && step_matches(st, g));
                (st, id)
            },
        }
    }

    /// Handle one message, already read. A line that did not parse is answered with a
    /// parse error; a notification, which has no id, is never answered, though a tool it
    /// calls still runs.
    pub fn handle_message(&mut self, line: Result<Message, String>) -> (st: Step)
        ensures
            line matches Err(e) ==> (st matches Step::Answer(Answer::Error { code, message })
                && code == -32700 && message@ == "parse error: "@ + e@),
            line matches Ok(msg) ==> step_matches(st, msg),
    {
        proof {
            reveal_strlit("tools/call");
            reveal_strlit("initialize");
            reveal_strlit("notifications/initialized");
            reveal_strlit("notifications/cancelled");
            reveal_strlit("ping");
            reveal_strlit("tools/list");
        }
        let msg = match line {
            Err(e) => {
                let mut m = String::from_str("parse error: ");
                m.append(e.as_str());
                return Step::Answer(Answer::Error { code: -32700, message: m });
            },
            Ok(m) => m,
        };
        let method = text_or_empty(&msg.method);
        let method = method.as_str();
        if str_eq(method, "tools/call") {
            return match &msg.tool {
                None => if msg.has_id {
                    Step::Answer(
                        Answer::Error {
                            code: -32602,
                            message: String::from_str("tools/call needs a `name`"),
                        },
                    )
                } else {
                    Step::Silent
                },
                Some(t) => Step::Call {
                    call: decide_call(t.as_str(), &msg.arguments),
                    answer: msg.has_id,
                },
            };
        }
        let a = if str_eq(method, "initialize") {
            Answer::Result(Reply::Initialize(initialize(&msg.protocol_version)))
        } else if str_eq(method, "notifications/initialized") || str_eq(
            method,
            "notifications/cancelled",
        ) {
            Answer::Result(Reply::Null)
        } else if str_eq(method, "ping") {
            Answer::Result(Reply::Empty)
        } else if str_eq(method, "tools/list") {
            Answer::Result(Reply::Tools(tool_list()))
        } else {
            let mut m = String::from_str("unknown method `");
            m.append(method);
            m.append("`");
            Answer::Error { code: -32601, message: m }
        };
        if msg.has_id {
            Step::Answer(a)
        } else {
            Step::Silent
        }
    }
}

/// A tool's outcome as the model sees it. A tool that fails is not a protocol error: the
/// model is told what went wrong and the session goes on.
pub fn finish_call(outcome: Result<String, String>) -> (a: Answer)
    ensures
        outcome matches Ok(t) ==> (a matches Answer::Result(Reply::Content { text, is_error })
            && text@ == t@ && !is_error),
        outcome matches Err(e) ==> (a matches Answer::Result(Reply::Content { text, is_error })
            && text@ == e@ && is_error),
{
    match outcome {
        Ok(t) => Answer::Result(Reply::Content { text: t, is_error: false }),
        Err(e) => Answer::Result(Reply::Content { text: e, is_error: true }),
    }
}

/// Law: a notification is never answered, whatever it asks for.
pub proof fn notifications_get_no_answer(st: Step, msg: Message)
    requires
        step_matches(st, msg),
        !msg.has_id,
    ensures
        st is Silent || (st matches Step::Call { answer, .. } && !answer),
{
}

/// Law: a request, which has an id, is always answered: with an answer decided here, or
/// with the outcome of the tool it calls.
pub proof fn requests_get_an_answer(st: Step, msg: Message)
    requires
        step_matches(st, msg),
        msg.has_id,
    ensures
        st is Answer || (st matches Step::Call { answer, .. } && answer),
{
}

/// Law: a request for a method this server does not have is answered with a JSON-RPC
/// error naming it, and a tool call without a tool's name with an invalid-params error.
pub proof fn unknown_methods_get_an_error(st: Step, msg: Message)
    requires
        step_matches(st, msg),
        msg.has_id,
    ensures
        ({
            let m = text_of(msg.method);
            &&& (m != "initialize"@ && m != "notifications/initialized"@ && m
                != "notifications/cancelled"@ && m != "ping"@ && m != "tools/list"@ && m
                != "tools/call"@) ==> (st matches Step::Answer(Answer::Error { code, message })
                && code == -32601 && message@ == "unknown method `"@ + m + "`"@)
            &&& (m == "tools/call"@ && msg.tool is None) ==> (st matches Step::Answer(
                Answer::Error { code, .. },
            ) && code == -32602)
        }),
{
}

/// The text the `write` tool answers with.
pub fn write_reply(created: bool, name: &str, ring: u8, blocks: usize) -> (r: String)
    ensures
        r@ == (if created { "wrote"@ } else { "updated"@ }) + " `"@ + name@ + "` in r"@ + dec(
            ring as nat,
        ) + " ("@ + dec(blocks as nat) + " block(s))"@,
{
    let mut r = String::from_str(if created { "wrote" } else { "updated" });
    r.append(" `");
    r.append(name);
    r.append("` in r");
    let a = decimal(ring as u64);
    r.append(a.as_str());
    r.append(" (");
    let b = decimal(blocks as u64);
    r.append(b.as_str());
    r.append(" block(s))");
    r
}


/// `true` or `false`.
pub open spec fn bool_json(b: bool) -> Seq<char> {
    if b {
        "true"@
    } else {
        "false"@
    }
}

/// An integer as JSON writes it.
pub open spec fn int_json(c: i64) -> Seq<char> {
    if c < 0 {
        "-"@ + dec((-(c as int)) as nat)
    } else {
        dec(c as nat)
    }
}

/// One input of a tool's schema, as a member of `properties`.
pub open spec fn param_json(p: (Seq<char>, Seq<char>, Option<Seq<char>>)) -> Seq<char> {
    json_quote(p.0) + ":{\"type\":"@ + json_quote(p.1) + match p.2 {
        Some(d) => ",\"description\":"@ + json_quote(d),
        None => Seq::empty(),
    } + "}"@
}

/// The inputs of a tool's schema, separated by commas.
pub open spec fn params_json(ps: Seq<(Seq<char>, Seq<char>, Option<Seq<char>>)>) -> Seq<char>
    decreases ps.len(),
{
    if ps.len() == 0 {
        Seq::empty()
    } else if ps.len() == 1 {
        param_json(ps[0])
    } else {
        params_json(ps.drop_last()) + ","@ + param_json(ps.last())
    }
}

/// Texts as JSON strings, separated by commas.
pub open spec fn strings_json(xs: Seq<Seq<char>>) -> Seq<char>
    decreases xs.len(),
{
    if xs.len() == 0 {
        Seq::empty()
    } else if xs.len() == 1 {
        json_quote(xs[0])
    } else {
        strings_json(xs.drop_last()) + ","@ + json_quote(xs.last())
    }
}

/// A tool as `tools/list` gives it: name, title, description, and an input schema of its
/// type whose `properties` are its inputs and whose `required` list, when not empty, is
/// the inputs it requires.
pub open spec fn tool_json(t: ToolView) -> Seq<char> {
    "{\"name\":"@ + json_quote(t.name) + ",\"title\":"@ + json_quote(t.title)
        + ",\"description\":"@ + json_quote(t.description) + ",\"inputSchema\":{\"type\":"@
        + json_quote(t.input_type) + ",\"properties\":{"@ + params_json(t.params) + "}"@ + (
    if t.required.len() == 0 {
        Seq::empty()
    } else {
        ",\"required\":["@ + strings_json(t.required) + "]"@
    }) + "}}"@
}

/// The tools, separated by commas.
pub open spec fn tools_json(ts: Seq<ToolSpec>) -> Seq<char>
    decreases ts.len(),
{
    if ts.len() == 0 {
        Seq::empty()
    } else if ts.len() == 1 {
        tool_json(tool_view(ts[0]))
    } else {
        tools_json(ts.drop_last()) + ","@ + tool_json(tool_view(ts.last()))
    }
}

/// The `result` of an answer as JSON.
pub open spec fn reply_json(r: Reply) -> Seq<char> {
    match r {
        Reply::Initialize(i) => "{\"protocolVersion\":"@ + json_quote(i.protocol_version@)
            + ",\"capabilities\":{\"tools\":{\"listChanged\":"@ + bool_json(i.list_changed)
            + "}},\"serverInfo\":{\"name\":"@ + json_quote(i.name@) + ",\"title\":"@ + json_quote(
            i.title@,
        ) + ",\"version\":"@ + json_quote(i.version@) + "},\"instructions\":"@ + json_quote(
            i.instructions@,
        ) + "}"@,
        Reply::Null => "null"@,
        Reply::Empty => "{}"@,
        Reply::Tools(ts) => "{\"tools\":["@ + tools_json(ts@) + "]}"@,
        Reply::Content { text, is_error } => "{\"content\":[{\"type\":\"text\",\"text\":"@
            + json_quote(text@) + "}],\"isError\":"@ + bool_json(is_error) + "}"@,
    }
}

/// A JSON-RPC answer under the id `id`, given as JSON text.
pub open spec fn answer_json(id: Seq<char>, a: Answer) -> Seq<char> {
    "{\"jsonrpc\":\"2.0\",\"id\":"@ + id + match a {
        Answer::Result(r) => ",\"result\":"@ + reply_json(r),
        Answer::Error { code, message } => ",\"error\":{\"code\":"@ + int_json(code)
            + ",\"message\":"@ + json_quote(message@) + "}"@,
    } + "}"@
}

fn append_bool(out: &mut String, b: bool)
    ensures
        final(out)@ == old(out)@ + bool_json(b),
{
    if b {
        out.append("true");
    } else {
        out.append("false");
    }
}

fn append_quoted(out: &mut String, s: &str)
    ensures
        final(out)@ == old(out)@ + json_quote(s@),
{
    let q = quote(s);
    out.append(q.as_str());
}

fn append_tool(out: &mut String, t: &ToolSpec)
    ensures
        final(out)@ == old(out)@ + tool_json(tool_view(*t)),
{
    let ghost start = out@;
    out.append("{\"name\":");
    append_quoted(out, t.name.as_str());
    out.append(",\"title\":");
    append_quoted(out, t.title.as_str());
    out.append(",\"description\":");
    append_quoted(out, t.description.as_str());
    out.append(",\"inputSchema\":{\"type\":");
    append_quoted(out, t.input_type.as_str());
    out.append(",\"properties\":{");
    let ghost mid = out@;
    let ghost pv = t.params@.map_values(|p: ToolParam| param_view(p));
    let mut i: usize = 0;
    while i < t.params.len()
        invariant
            i <= t.params.len(),
            pv == t.params@.map_values(|p: ToolParam| param_view(p)),
            out@ == mid + params_json(pv.take(i as int)),
        decreases t.params.len() - i,
    {
        proof {
            assert(pv.take(i + 1).drop_last() =~= pv.take(i as int));
            assert(pv.take(i + 1).last() == param_view(t.params@[i as int]));
            if i == 0 {
                assert(pv.take(1)[0] == param_view(t.params@[0]));
            }
        }
        if i > 0 {
            out.append(",");
        }
        let p = &t.params[i];
        append_quoted(out, p.name.as_str());
        out.append(":{\"type\":");
        append_quoted(out, p.kind.as_str());
        match &p.description {
            Some(d) => {
                out.append(",\"description\":");
                append_quoted(out, d.as_str());
            },
            None => {},
        }
        out.append("}");
        i = i + 1;
    }
    proof {
        assert(pv.take(t.params.len() as int) =~= pv);
    }
    out.append("}");
    let ghost before_req = out@;
    if t.required.len() > 0 {
        out.append(",\"required\":[");
        let ghost mid2 = out@;
        let ghost rv = t.required@.map_values(|s: String| s@);
        let mut j: usize = 0;
        while j < t.required.len()
            invariant
                j <= t.required.len(),
                rv == t.required@.map_values(|s: String| s@),
                out@ == mid2 + strings_json(rv.take(j as int)),
            decreases t.required.len() - j,
        {
            proof {
                assert(rv.take(j + 1).drop_last() =~= rv.take(j as int));
                assert(rv.take(j + 1).last() == t.required@[j as int]@);
                if j == 0 {
                    assert(rv.take(1)[0] == t.required@[0]@);
                }
            }
            if j > 0 {
                out.append(",");
            }
            append_quoted(out, t.required[j].as_str());
            j = j + 1;
        }
        proof {
            assert(rv.take(t.required.len() as int) =~= rv);
        }
        out.append("]");
    }
    out.append("}}");
}

fn append_reply(out: &mut String, r: &Reply)
    ensures
        final(out)@ == old(out)@ + reply_json(*r),
{
    match r {
        Reply::Initialize(i) => {
            out.append("{\"protocolVersion\":");
            append_quoted(out, i.protocol_version.as_str());
            out.append(",\"capabilities\":{\"tools\":{\"listChanged\":");
            append_bool(out, i.list_changed);
            out.append("}},\"serverInfo\":{\"name\":");
            append_quoted(out, i.name.as_str());
            out.append(",\"title\":");
            append_quoted(out, i.title.as_str());
            out.append(",\"version\":");
            append_quoted(out, i.version.as_str());
            out.append("},\"instructions\":");
            append_quoted(out, i.instructions.as_str());
            out.append("}");
        },
        Reply::Null => out.append("null"),
        Reply::Empty => out.append("{}"),
        Reply::Tools(ts) => {
            out.append("{\"tools\":[");
            let ghost mid = out@;
            let mut i: usize = 0;
            while i < ts.len()
                invariant
                    i <= ts.len(),
                    out@ == mid + tools_json(ts@.take(i as int)),
                decreases ts.len() - i,
            {
                proof {
                    assert(ts@.take(i + 1).drop_last() =~= ts@.take(i as int));
                    assert(ts@.take(i + 1).last() == ts@[i as int]);
                    if i == 0 {
                        assert(ts@.take(1)[0] == ts@[0]);
                    }
                }
                if i > 0 {
                    out.append(",");
                }
                append_tool(out, &ts[i]);
                i = i + 1;
            }
            proof {
                assert(ts@.take(ts.len() as int) =~= ts@);
            }
            out.append("]}");
        },
        Reply::Content { text, is_error } => {
            out.append("{\"content\":[{\"type\":\"text\",\"text\":");
            append_quoted(out, text.as_str());
            out.append("}],\"isError\":");
            append_bool(out, *is_error);
            out.append("}");
        },
    }
}

/// The JSON-RPC answer `a` under the id `id`, given as JSON text: the line the server
/// sends, compact and with its keys in order, as `serde_json` writes it.
pub fn answer_text(id: &str, a: &Answer) -> (r: Result<String, String>)
    ensures
        match r {
            Ok(t) => json_compact(answer_json(id@, *a)) == Ok::<Seq<char>, Seq<char>>(t@),
            Err(e) => json_compact(answer_json(id@, *a)) == Err::<Seq<char>, Seq<char>>(e@),
        },
{
    let mut out = String::from_str("{\"jsonrpc\":\"2.0\",\"id\":");
    out.append(id);
    match a {
        Answer::Result(r) => {
            out.append(",\"result\":");
            append_reply(&mut out, r);
        },
        Answer::Error { code, message } => {
            out.append(",\"error\":{\"code\":");
            if *code < 0 {
                out.append("-");
                let n: u64 = (-(*code + 1)) as u64 + 1;
                assert(n as int == -(*code as int));
                out.append(decimal(n).as_str());
            } else {
                out.append(decimal(*code as u64).as_str());
            }
            out.append(",\"message\":");
            append_quoted(&mut out, message.as_str());
            out.append("}");
        },
    }
    out.append("}");
    assert(out@ == answer_json(id@, *a));
    compact(out.as_str())
}


/// Law: a recall without `n` asks for the number of hits the tool's own schema announces as
/// its default, and a recall with `n` asks for exactly `n` when it is 1 to 50, and for the
/// nearer bound otherwise.
pub proof fn recall_asks_for_what_the_schema_promises(x: u64)
    ensures
        tools_spec()[0].params[1].0 == "n"@,
        tools_spec()[0].params[1].2 == Some(
            "hits to return (default "@ + dec(hits_wanted(None) as nat) + ")"@,
        ),
        1 <= x <= 50 ==> hits_wanted(Some(x)) == x,
        x < 1 ==> hits_wanted(Some(x)) == 1,
        x > 50 ==> hits_wanted(Some(x)) == 50,
{
    reveal_strlit("hits to return (default 8)");
    reveal_strlit("hits to return (default ");
    reveal_strlit(")");
    assert(dec(8) =~= seq!['8']);
    assert("hits to return (default 8)"@ =~= "hits to return (default "@ + dec(8) + ")"@);
}

} // verus!
