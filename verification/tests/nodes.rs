use agent_graph_mcp::json::JsonValue;
use agent_graph_mcp::nodes::{
    approval_request, approval_step, choose_route, goto_label, ledger_receipts, legacy_router, llm_backend,
    llm_model, mcp_initialize, mcp_initialized, mcp_tool_call, predicate, render_prompt, route_for,
    tool_lease, tool_name, tool_reply, tool_writes, transform_reads, transform_update, value_text,
    LlmBackend, Route, StateUpdate, ToolReplyError, TransformOp,
};

fn json(text: &str) -> JsonValue {
    JsonValue::parse(text).expect("valid JSON")
}

fn op(name: &str, value: JsonValue) -> TransformOp {
    TransformOp {
        op: name.into(),
        path: "p".into(),
        from: None,
        value,
        values: Vec::new(),
        template: None,
    }
}

fn written(update: Result<StateUpdate, String>) -> String {
    match update {
        Ok(StateUpdate::Put(v)) => v.to_json_string(),
        Ok(StateUpdate::Remove) => "<remove>".into(),
        Ok(StateUpdate::Increment) => "<increment>".into(),
        Err(e) => format!("error: {e}"),
    }
}

#[test]
fn transforms_write_what_their_operation_says() {
    let none = Vec::new();
    assert_eq!(written(transform_update(&op("set", json("3")), &JsonValue::Null, &none)), "3");
    assert_eq!(written(transform_update(&op("append", json("3")), &json("[1]"), &none)), "[1,3]");
    assert_eq!(written(transform_update(&op("append", json("3")), &json("1"), &none)), "[1,3]");
    assert_eq!(written(transform_update(&op("append", json("3")), &JsonValue::Null, &none)), "[3]");
    assert_eq!(
        written(transform_update(&op("merge", json(r#"{"b":2,"a":9}"#)), &json(r#"{"a":1,"c":3}"#), &none)),
        r#"{"a":9,"b":2,"c":3}"#
    );
    assert_eq!(
        written(transform_update(&op("merge_object", json("1")), &JsonValue::Null, &none)),
        "error: merge value must be object"
    );
    assert_eq!(written(transform_update(&op("compare", json(r#"{"x":1}"#)), &json(r#"{"x":1}"#), &none)), "true");
    assert_eq!(written(transform_update(&op("delete", JsonValue::Null), &JsonValue::Null, &none)), "<remove>");
    assert_eq!(written(transform_update(&op("increment", json("1")), &json("2"), &none)), "<increment>");
    assert_eq!(
        written(transform_update(&op("rotate", JsonValue::Null), &JsonValue::Null, &none)),
        "error: unsupported transform operation 'rotate'"
    );
    assert_eq!(written(transform_update(&op("copy", JsonValue::Null), &JsonValue::Null, &none)), "error: copy requires from");
}

#[test]
fn select_and_format_use_the_values_read() {
    let mut select = op("select", JsonValue::Null);
    select.values = vec!["z".into(), "a".into(), "missing".into()];
    assert_eq!(transform_reads(&select), vec!["z".to_owned(), "a".to_owned(), "missing".to_owned()]);
    let looked = vec![Some(json("1")), Some(json(r#""x""#)), None];
    assert_eq!(written(transform_update(&select, &JsonValue::Null, &looked)), r#"{"a":"x","z":1}"#);

    let mut format = op("format", JsonValue::Null);
    format.template = Some("Hello {name}, {name}! n={n} {missing}".into());
    format.values = vec!["name".into(), "n".into(), "missing".into()];
    let looked = vec![Some(json(r#""Ada""#)), Some(json("[1,2]")), None];
    assert_eq!(
        written(transform_update(&format, &JsonValue::Null, &looked)),
        r#""Hello Ada, Ada! n=[1,2] null""#
    );

    let mut copy = op("copy", JsonValue::Null);
    copy.from = Some("src".into());
    assert_eq!(transform_reads(&copy), vec!["src".to_owned()]);
    assert_eq!(written(transform_update(&copy, &JsonValue::Null, &vec![Some(json("7"))])), "7");
    assert_eq!(written(transform_update(&copy, &JsonValue::Null, &vec![None])), "null");
}

#[test]
fn routing_picks_first_match_or_default() {
    let router = legacy_router(&vec![("urgent".into(), "triage".into()), ("bug".into(), "fix".into())]);
    assert_eq!(router.rules.len(), 2);
    let input = json(r#""an urgent bug""#);
    let verdicts: Vec<bool> = router.rules.iter().map(|r| predicate(r, &input).unwrap()).collect();
    assert_eq!(verdicts, vec![true, true]);
    assert!(matches!(choose_route(&router, &verdicts), Route::Node(n) if n == "triage"));
    assert!(matches!(choose_route(&router, &vec![false, false]), Route::End));
    assert_eq!(goto_label(&route_for(&vec!["a".into(), "b".into()])).to_json_string(), r#"["a","b"]"#);
    assert_eq!(goto_label(&route_for(&vec!["END".into()])).to_json_string(), r#""END""#);
    assert_eq!(value_text(&json(r#"{"k":"v"}"#)), r#"{"k":"v"}"#);
    assert_eq!(value_text(&json(r#""plain""#)), "plain");
}

#[test]
fn prompt_renders_input_as_compact_json() {
    let input = json(r#"{"b":[1,2],"a":"x"}"#);
    assert_eq!(
        render_prompt("Summarize {input} then {input}.", &input),
        r#"Summarize {"a":"x","b":[1,2]} then {"a":"x","b":[1,2]}."#
    );
    assert_eq!(render_prompt("no placeholder", &JsonValue::Null), "no placeholder");
    assert_eq!(render_prompt("{input}", &JsonValue::Null), "null");
}

#[test]
fn llm_backend_and_model_selection() {
    assert_eq!(llm_backend("codex-app-server://"), LlmBackend::CodexAppServer);
    assert_eq!(llm_backend("http://127.0.0.1:8080"), LlmBackend::Http);
    assert_eq!(llm_model(&Some("m1".into()), &"default".into()), "m1");
    assert_eq!(llm_model(&None, &"default".into()), "default");
}

#[test]
fn approval_request_and_interrupt() {
    let req = approval_request(
        json(r#""ship it?""#),
        &vec!["ops".to_string()],
        &vec!["approve".to_string(), "reject".to_string()],
        60000,
        "2026-01-01T00:00:00+00:00",
    );
    assert_eq!(
        req.to_json_string(),
        r#"{"allowed_decisions":["approve","reject"],"audience":["ops"],"expiry_ms":60000,"issued_at":"2026-01-01T00:00:00+00:00","prompt":"ship it?","status":"pending"}"#
    );
    assert!(approval_step(&Some(json(r#""approve""#)), "p").is_ok());
    let interrupt = approval_step(&Some(JsonValue::Null), "prompt").unwrap_err();
    assert_eq!(interrupt.to_json_string(), r#"{"approval_required":true,"prompt_key":"prompt"}"#);
    assert!(approval_step(&None, "prompt").is_err());
}

#[test]
fn default_lease_is_read_only_and_bounded() {
    let lease = tool_lease(&JsonValue::Null, "n1", "2026-01-01T00:00:00+00:00", "2026-01-01T01:00:00+00:00");
    assert_eq!(
        lease.to_json_string(),
        r#"{"active_stack":[],"agent_depth":1,"counters":{"children":0,"recursive_calls":0,"tool_calls":0},"effect_allowlist":["read_only"],"expires_at":"2026-01-01T01:00:00+00:00","graph_depth":1,"graph_id":"auto","graph_version":"auto","issued_at":"2026-01-01T00:00:00+00:00","lease_id":"auto-n1","lineage_id":"lineage-n1","max_agent_depth":1,"max_children":0,"max_graph_depth":1,"max_recursive_calls":0,"max_tool_calls":20,"node_id":"n1","parent_receipt_digest":null,"protocol":"agent_graph.tool_lease.v1","run_id":"auto","tool_allowlist":["*"]}"#
    );
    let configured = json(r#"{"lease_id":"given"}"#);
    assert_eq!(tool_lease(&configured, "n1", "a", "b"), configured);
}

#[test]
fn tool_call_requests() {
    assert_eq!(tool_name(&None), "read_file");
    assert_eq!(tool_name(&Some(json("3"))), "read_file");
    assert_eq!(tool_name(&Some(json(r#""search""#))), "search");
    assert_eq!(
        mcp_initialize().to_json_string(),
        r#"{"id":1,"jsonrpc":"2.0","method":"initialize","params":{"capabilities":{},"clientInfo":{"name":"agent-graph-tool-node","version":"0.1"},"protocolVersion":"2024-11-05"}}"#
    );
    assert_eq!(mcp_initialized().to_json_string(), r#"{"jsonrpc":"2.0","method":"notifications/initialized"}"#);
    assert_eq!(
        mcp_tool_call("read_file", json(r#"{"path":"a.txt"}"#)).to_json_string(),
        r#"{"id":2,"jsonrpc":"2.0","method":"tools/call","params":{"arguments":{"path":"a.txt"},"name":"read_file"}}"#
    );
}

#[test]
fn tool_replies_are_read() {
    let ok = tool_reply("read_file", "{\"jsonrpc\":\"2.0\",\"id\":2,\"result\":{\"content\":[{\"type\":\"text\",\"text\":\"body\"}]}}\n");
    assert_eq!(ok.unwrap(), json(r#""body""#));
    let empty = tool_reply("read_file", r#"{"result":{"content":[]}}"#);
    assert_eq!(empty.unwrap(), JsonValue::Null);
    let failed = tool_reply("read_file", r#"{"error":{"code":-1}}"#);
    assert_eq!(failed.unwrap_err(), ToolReplyError::Failed(r#"tool 'read_file' failed: {"code":-1}"#.into()));
    assert!(matches!(tool_reply("read_file", "not json"), Err(ToolReplyError::Unparsable(_))));
}

#[test]
fn ledger_keeps_lines_that_parse() {
    let receipts = ledger_receipts("{\"a\":1}\r\nbroken\n[2]\n\n");
    assert_eq!(receipts.to_json_string(), r#"[{"a":1},[2]]"#);
    assert_eq!(ledger_receipts("").to_json_string(), "[]");
    let writes = tool_writes(json(r#""out""#), receipts);
    let keys: Vec<&str> = writes.iter().map(|(k, _)| k.as_str()).collect();
    assert_eq!(keys, vec!["__tool_result__", "__tool_receipts__", "__tool_success__"]);
    assert_eq!(writes[2].1, JsonValue::Bool(true));
}
