use agent_graph_mcp::json::JsonValue;
use agent_graph_mcp::tool_exec::{forwarded_result, tool_descriptor, tool_descriptors};

fn json(text: &str) -> JsonValue {
    JsonValue::parse(text).expect("valid JSON")
}

#[test]
fn wrapped_function_becomes_descriptor() {
    let entry = json(r#"{"type":"function","function":{"name":"read_file","description":"Read a file.","parameters":{"type":"object","required":["path"]}}}"#);
    let d = tool_descriptor(&entry).unwrap();
    assert_eq!(
        d.to_json_string(),
        format!(
            "{}{}{}",
            r#"{"approval_kind":"none","backend_kind":"local_function","description":"Read a file.","exposure_mode":"public","idempotency_class":"idempotent","input_schema":{"required":["path"],"type":"object"},"mcp_surface_kind":"none","name":"read_file","output_mode":"structured_json","provider_payload":"#,
            entry.to_json_string(),
            r#","read_only":true,"side_effect_class":"none","timeout_ms":120000,"version":"1"}"#
        )
    );
}

#[test]
fn bare_function_defaults() {
    let d = tool_descriptor(&json(r#"{"name":"ping"}"#)).unwrap();
    assert_eq!(d.get("description"), Some(&JsonValue::Null));
    assert_eq!(d.get("input_schema").unwrap().to_json_string(), r#"{"type":"object"}"#);
    assert_eq!(d.get("name").unwrap().as_str().unwrap(), "ping");
}

#[test]
fn nameless_entry_refuses_the_set() {
    assert_eq!(
        tool_descriptor(&json(r#"{"function":{"description":"x"}}"#)).unwrap_err(),
        "tool definition missing function.name"
    );
    let ok = vec![json(r#"{"name":"a"}"#), json(r#"{"name":"b"}"#)];
    assert_eq!(tool_descriptors(&ok).unwrap().len(), 2);
    let bad = vec![json(r#"{"name":"a"}"#), json(r#"{"name":3}"#)];
    assert!(tool_descriptors(&bad).is_err());
}

#[test]
fn forwarded_answer_names_the_tool() {
    let answer = forwarded_result("read_file", json(r#"{"path":"a"}"#));
    assert_eq!(
        answer.to_json_string(),
        r#"{"arguments":{"path":"a"},"note":"graph tool execution delegated to MCP runtime","status":"forwarded","tool":"read_file"}"#
    );
}
