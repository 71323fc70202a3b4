use agent_graph_mcp::json::JsonValue;

#[test]
fn parse_and_print_roundtrip_compact_sorted_text() {
    let v = JsonValue::parse(r#"{ "b": [1, 2.5, -3], "a": {"s": "q\"\n\u0001"}, "n": null, "t": true }"#).unwrap();
    assert_eq!(
        v.to_json_string(),
        r#"{"a":{"s":"q\"\n\u0001"},"b":[1,2.5,-3],"n":null,"t":true}"#
    );
    assert_eq!(v.path_get("a.s").unwrap().as_str().unwrap(), "q\"\n\u{1}");
    assert!(v.path_get("a.x").is_none());
    assert_eq!(v.get("b").unwrap().as_array().unwrap().len(), 3);
    assert!(JsonValue::parse("{").is_err());
    assert_eq!(JsonValue::parse("18446744073709551615").unwrap().as_u64(), Some(u64::MAX));
}

#[test]
fn compact_text_matches_serde_json() {
    let texts = [
        r#"{"z":1,"a":[true,false,null],"m":{"y":"x","b":-7}}"#,
        r#"["tab\there","quote\"back\\slash","ctl\u0001\u001f\b\f\r\n","slash/é✓😀"]"#,
        r#"{"n":[0,1.5,-2.25,12345678901234,1e21,0.000001]}"#,
        r#""just a string""#,
        r#"{}"#,
        r#"[]"#,
    ];
    for t in texts {
        let ours = JsonValue::parse(t).unwrap().to_json_string();
        let theirs = serde_json::to_string(&serde_json::from_str::<serde_json::Value>(t).unwrap()).unwrap();
        assert_eq!(ours, theirs, "{t}");
    }
    let built = JsonValue::Object(vec![
        ("a".to_string(), JsonValue::string("\u{7f}\u{1b}")),
        ("b".to_string(), JsonValue::number_i64(-42)),
        ("c".to_string(), JsonValue::number_u64(u64::MAX)),
    ]);
    let reparsed = serde_json::from_str::<serde_json::Value>(&built.to_json_string()).unwrap();
    assert_eq!(serde_json::to_string(&reparsed).unwrap(), built.to_json_string());
}
