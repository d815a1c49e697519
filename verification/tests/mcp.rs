//! The MCP server's answers, read back as the JSON a client sees.

use cyberbrain_light::mcp::{
    answer_text, decide_call, finish_call, read_message, Answer, Server, Step, ToolArgs, ToolCall,
    LATEST_PROTOCOL,
};
use serde_json::Value;

/// The line the server sends for an answer, read back as JSON.
fn answer_json(id: &str, a: Answer) -> Value {
    serde_json::from_str(&answer_text(id, &a).expect("an answer is written")).expect("an answer is JSON")
}

fn rpc(server: &mut Server, line: &str) -> Option<Value> {
    let (step, id) = server.handle_line(line);
    match step {
        Step::Silent => None,
        Step::Answer(a) => Some(answer_json(&id, a)),
        Step::Call { .. } => panic!("a tool call needs the store"),
    }
}

fn mcp_server(root: &str) -> Server {
    Server { store_root: root.to_string() }
}

#[test]
fn mcp_answers_the_handshake_and_lists_four_tools() {
    let mut s = mcp_server("/tmp/project/.cyberbrain");
    let init = rpc(
        &mut s,
        r#"{"jsonrpc":"2.0","id":1,"method":"initialize","params":{"protocolVersion":"2025-03-26"}}"#,
    )
    .unwrap();
    assert_eq!(
        init["result"]["protocolVersion"], "2025-03-26",
        "a supported version the client asked for is the one it gets"
    );
    assert_eq!(init["result"]["serverInfo"]["name"], "cyberbrain-light");

    let asked_nonsense = rpc(
        &mut s,
        r#"{"jsonrpc":"2.0","id":1,"method":"initialize","params":{"protocolVersion":"1999-01-01"}}"#,
    )
    .unwrap();
    assert_eq!(
        asked_nonsense["result"]["protocolVersion"],
        LATEST_PROTOCOL,
        "an unknown version is answered with what we do speak, not with an error"
    );

    let tools = rpc(&mut s, r#"{"jsonrpc":"2.0","id":2,"method":"tools/list"}"#).unwrap();
    let names: Vec<&str> = tools["result"]["tools"]
        .as_array()
        .unwrap()
        .iter()
        .map(|t| t["name"].as_str().unwrap())
        .collect();
    assert_eq!(names, ["recall", "recall_id", "write", "status"]);
    for t in tools["result"]["tools"].as_array().unwrap() {
        assert_eq!(t["inputSchema"]["type"], "object");
    }
}

#[test]
fn mcp_notifications_get_no_answer_and_unknown_methods_get_an_error() {
    let mut s = mcp_server("/tmp/project/.cyberbrain");
    assert!(
        rpc(&mut s, r#"{"jsonrpc":"2.0","method":"notifications/initialized"}"#).is_none(),
        "a notification has no id and must not be answered"
    );
    let err = rpc(&mut s, r#"{"jsonrpc":"2.0","id":9,"method":"nope"}"#).unwrap();
    assert_eq!(err["error"]["code"], -32601);
    let parse = rpc(&mut s, "{not json").unwrap();
    assert_eq!(parse["error"]["code"], -32700);
}

fn call_of(server: &mut Server, line: &str) -> (ToolCall, bool) {
    match server.handle_line(line).0 {
        Step::Call { call, answer } => (call, answer),
        _ => panic!("expected a tool call"),
    }
}

#[test]
fn mcp_writes_and_reads_the_same_store_and_refuses_the_operator_rings() {
    let mut s = Server { store_root: "/tmp/store".to_string() };
    let (call, answer) = call_of(
        &mut s,
        r#"{"jsonrpc":"2.0","id":1,"method":"tools/call","params":{"name":"write","arguments":
            {"ring":2,"kind":"lesson","name":"from-the-agent","body":"A lesson learned in a session."}}}"#,
    );
    assert!(answer);
    match call {
        ToolCall::Write(req) => {
            assert_eq!(req.ring, 2);
            assert_eq!(req.name, "from-the-agent");
            assert_eq!(req.body, "A lesson learned in a session.");
            assert!(req.tags.is_empty());
        }
        _ => panic!("a ring 2 write is a write"),
    }

    let (call, _) = call_of(
        &mut s,
        r#"{"jsonrpc":"2.0","id":3,"method":"tools/call","params":{"name":"write","arguments":
            {"ring":0,"kind":"decision","name":"sneaky","body":"An invariant I gave myself."}}}"#,
    );
    let message = match call {
        ToolCall::Fail(m) => m,
        _ => panic!("an agent may not write ring 0"),
    };
    assert!(message.starts_with("rings 0 and 1 belong to the operator"), "{message}");
    let refused = answer_json("null", finish_call(Err(message)));
    assert_eq!(refused["result"]["isError"], true);
    assert!(refused["error"].is_null());
}

#[test]
fn mcp_recall_arguments_are_held_to_their_limits() {
    let args = ToolArgs {
        query: Some("lesson learned".to_string()),
        n: Some(500),
        ring: Some(3),
        citation: None,
        kind: None,
        name: None,
        body: None,
    };
    match decide_call("recall", &args) {
        ToolCall::Recall { query, n, ring } => {
            assert_eq!(query, "lesson learned");
            assert_eq!(n, 50);
            assert_eq!(ring, Some(3));
        }
        _ => panic!("recall is a recall"),
    }
    let none = ToolArgs { query: None, n: Some(0), ring: None, citation: None, kind: None, name: None, body: None };
    match decide_call("recall", &none) {
        ToolCall::Recall { query, n, ring } => {
            assert_eq!(query, "");
            assert_eq!(n, 1);
            assert_eq!(ring, None);
        }
        _ => panic!("recall is a recall"),
    }
    let bad = ToolArgs { query: None, n: None, ring: Some(9), citation: None, kind: None, name: None, body: None };
    match decide_call("recall", &bad) {
        ToolCall::Fail(m) => assert_eq!(m, "ring 9 does not exist; rings are 0 through 4"),
        _ => panic!("ring 9 does not exist"),
    }
    match decide_call("delete_everything", &bad) {
        ToolCall::Unknown(m) => assert_eq!(m, "unknown tool `delete_everything`"),
        _ => panic!("an unknown tool is unknown"),
    }
}

#[test]
fn mcp_write_needs_a_ring_and_a_known_kind() {
    let mut args = ToolArgs { query: None, n: None, ring: None, citation: None, kind: None, name: None, body: None };
    match decide_call("write", &args) {
        ToolCall::Fail(m) => assert_eq!(m, "write needs `ring` (2, 3 or 4)"),
        _ => panic!("a write without a ring fails"),
    }
    args.ring = Some(2);
    args.kind = Some("poem".to_string());
    match decide_call("write", &args) {
        ToolCall::Fail(m) => assert_eq!(m, "unknown kind `poem`"),
        _ => panic!("an unknown kind fails"),
    }
    args.ring = Some(257);
    match decide_call("write", &args) {
        ToolCall::Fail(m) => assert_eq!(m, "ring 257 does not exist; rings are 0 through 4"),
        _ => panic!("257 is no ring"),
    }
    args.ring = Some(258);
    args.kind = Some("knowledge".to_string());
    match decide_call("write", &args) {
        ToolCall::Fail(m) => assert_eq!(m, "ring 258 does not exist; rings are 0 through 4"),
        _ => panic!("258 is no ring, not ring 2"),
    }
    args.ring = Some(u64::MAX);
    assert!(matches!(decide_call("recall", &args), ToolCall::Fail(_)));
}

#[test]
fn mcp_tool_outcomes_are_content_not_protocol_errors() {
    let ok = answer_json("4", finish_call(Ok("wrote `x` in r2 (1 block(s))".to_string())));
    assert_eq!(ok["result"]["isError"], false);
    assert_eq!(ok["result"]["content"][0]["text"], "wrote `x` in r2 (1 block(s))");
    let bad = answer_json("4", finish_call(Err("no block carries the citation `r2-000000000000`".to_string())));
    assert_eq!(bad["result"]["isError"], true);
    assert!(bad["error"].is_null());
}

#[test]
fn mcp_a_call_without_a_tool_name_is_a_protocol_error() {
    let mut s = Server { store_root: String::new() };
    let e = rpc(&mut s, r#"{"jsonrpc":"2.0","id":5,"method":"tools/call","params":{}}"#).unwrap();
    assert_eq!(e["error"]["code"], -32602);
    assert_eq!(e["error"]["message"], "tools/call needs a `name`");
    let p = rpc(&mut s, r#"{"jsonrpc":"2.0","id":6,"method":"ping"}"#).unwrap();
    assert!(p["result"].as_object().unwrap().is_empty());
}

#[test]
fn mcp_a_line_is_read_field_by_field() {
    let (m, id) = read_message(
        r#"{"jsonrpc":"2.0","id":"a-1","method":"tools/call","params":{"name":"recall","arguments":{"query":"q","n":3,"ring":-1,"kind":7}}}"#,
    )
    .unwrap();
    assert_eq!(id, "\"a-1\"");
    assert!(m.has_id);
    assert_eq!(m.method.as_deref(), Some("tools/call"));
    assert_eq!(m.tool.as_deref(), Some("recall"));
    assert_eq!(m.protocol_version, None);
    assert_eq!(m.arguments.query.as_deref(), Some("q"));
    assert_eq!(m.arguments.n, Some(3));
    assert_eq!(m.arguments.ring, None, "a negative number is no ring");
    assert_eq!(m.arguments.kind, None, "a number is no kind");
    let (n, id) = read_message(r#"[1, 2]"#).unwrap();
    assert!(!n.has_id && n.method.is_none());
    assert_eq!(id, "null");
    let e = read_message("{not json").unwrap_err();
    let (step, id) = Server { store_root: String::new() }.handle_line("{not json");
    assert_eq!(id, "null");
    match step {
        Step::Answer(Answer::Error { code, message }) => {
            assert_eq!(code, -32700);
            assert_eq!(message, format!("parse error: {e}"));
        }
        _ => panic!("a line that is not JSON is a parse error"),
    }
}

#[test]
fn mcp_answers_are_written_as_serde_json_writes_them() {
    let text = answer_text("7", &Answer::Error { code: -32601, message: "unknown method `nope`".to_string() }).unwrap();
    assert_eq!(text, r#"{"error":{"code":-32601,"message":"unknown method `nope`"},"id":7,"jsonrpc":"2.0"}"#);
    let tools = answer_text("2", &Answer::Result(cyberbrain_light::mcp::Reply::Tools(cyberbrain_light::mcp::tool_list()))).unwrap();
    let v: Value = serde_json::from_str(&tools).unwrap();
    assert_eq!(v["result"]["tools"][0]["inputSchema"]["required"][0], "query");
    assert!(v["result"]["tools"][3]["inputSchema"].get("required").is_none());
    assert_eq!(v["result"]["tools"][0]["inputSchema"]["properties"]["n"]["type"], "integer");
    assert_eq!(tools, v.to_string(), "compact, keys in order");
}
