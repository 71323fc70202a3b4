use agent_graph_mcp::compiler::{
    compile_plan, EdgeSpecModel, EdgeTarget, GraphSpecModel, NodeKind, NodePlan, NodeSpecModel, ReducerKind,
    approval_settings, llm_settings, loop_settings, retry_settings, subgraph_settings, tool_settings,
    join_plan, run_join, strategy_join_contradiction_matrix, strategy_join_dedupe,
    strategy_join_minority_report, strategy_join_proof_carrying, JoinStrategy,
};
use agent_graph_mcp::json::JsonValue;

fn json(text: &str) -> JsonValue {
    JsonValue::parse(text).expect("valid JSON")
}

fn artifact(key: &str, value: JsonValue) -> (String, JsonValue) {
    (key.to_owned(), value)
}

fn field<'a>(v: &'a JsonValue, key: &str) -> &'a JsonValue {
    v.get(key).expect("field present")
}

fn text(v: &JsonValue) -> &str {
    v.as_str().expect("a string").as_str()
}

#[test]
fn dedupe_collapses_duplicate_identities() {
    let values = vec![
        artifact("a", json(r#"{"claim": {"id": "C1"}, "finding": "x"}"#)),
        artifact("b", json(r#"{"claim": {"id": "C1"}, "finding": "x"}"#)),
        artifact("c", json(r#"{"claim": {"id": "C2"}, "finding": "y"}"#)),
    ];
    let envelope = strategy_join_dedupe(values, Some("claim.id")).unwrap();
    assert_eq!(text(field(&envelope, "join")), "dedupe_by_identity");
    assert_eq!(text(field(&envelope, "certification")), "pass");
    assert_eq!(field(&envelope, "value").as_array().unwrap().len(), 2);
}

#[test]
fn dedupe_rejects_missing_identity_path() {
    let values = vec![artifact("a", json(r#"{"finding": "x"}"#))];
    let err = strategy_join_dedupe(values, Some("claim.id")).unwrap_err();
    assert!(err.contains("missing identity path"));
}

#[test]
fn contradiction_matrix_exposes_and_quarantines_when_strict() {
    let values = vec![
        artifact("a", json(r#"{"scope": "s1", "time": "2026-08-06", "claim": "true"}"#)),
        artifact("b", json(r#"{"scope": "s1", "time": "2026-08-06", "claim": "false"}"#)),
    ];
    let envelope =
        strategy_join_contradiction_matrix(values, "scope", "claim", "time", true).unwrap();
    assert_eq!(text(field(&envelope, "certification")), "quarantine");
    assert_eq!(field(&envelope, "contradictions").as_array().unwrap().len(), 1);
}

#[test]
fn contradiction_matrix_temporal_mismatch_is_not_contradictory() {
    let values = vec![
        artifact("a", json(r#"{"scope": "s1", "time": "2026-08-06", "claim": "true"}"#)),
        artifact("b", json(r#"{"scope": "s1", "time": "2026-08-07", "claim": "false"}"#)),
    ];
    let envelope =
        strategy_join_contradiction_matrix(values, "scope", "claim", "time", true).unwrap();
    assert_eq!(text(field(&envelope, "certification")), "pass");
    assert!(field(&envelope, "contradictions").as_array().unwrap().is_empty());
}

#[test]
fn minority_report_preserves_dissent() {
    let values = vec![
        artifact("a", json(r#"{"dissent": false, "claim": "x"}"#)),
        artifact("b", json(r#"{"dissent": true, "claim": "y"}"#)),
    ];
    let envelope = strategy_join_minority_report(values, "dissent").unwrap();
    assert_eq!(field(&envelope, "value").as_array().unwrap().len(), 1);
    assert_eq!(field(&envelope, "minority_report").as_array().unwrap().len(), 1);
    assert_eq!(
        text(field(&field(&envelope, "minority_report").as_array().unwrap()[0], "claim")),
        "y"
    );
}

#[test]
fn proof_carrying_passes_valid_and_quarantines_invalid_evidence() {
    let required: Vec<String> = vec!["evidence".into(), "checks".into(), "receipt".into()];
    let valid = vec![artifact(
        "a",
        json(
            r#"{
                "evidence": [{"witness_id": "w1", "digest": "sha256:abc"}],
                "checks": [{"status": "passed"}],
                "receipt": "receipt:r1"
            }"#,
        ),
    )];
    let envelope = strategy_join_proof_carrying(valid, &required).unwrap();
    assert_eq!(text(field(&envelope, "certification")), "pass");

    let invalid = vec![artifact(
        "b",
        json(
            r#"{
                "evidence": [{"locator": "https://example.com/x"}],
                "checks": [{"status": "passed"}],
                "receipt": "receipt:r2"
            }"#,
        ),
    )];
    let envelope = strategy_join_proof_carrying(invalid, &required).unwrap();
    assert_eq!(text(field(&envelope, "certification")), "quarantine");
    assert!(field(&envelope, "value").as_array().unwrap().is_empty());
    assert!(field(&envelope, "notes")
        .as_array()
        .unwrap()
        .iter()
        .any(|n| text(n).contains("quarantined")));
}

#[test]
fn strategy_joins_reject_empty_inputs() {
    assert!(strategy_join_dedupe(Vec::new(), None).is_err());
    assert!(strategy_join_contradiction_matrix(Vec::new(), "s", "c", "t", false).is_err());
    assert!(strategy_join_minority_report(Vec::new(), "dissent").is_err());
    assert!(strategy_join_proof_carrying(Vec::new(), &[]).is_err());
}

#[test]
fn dedupe_falls_back_to_branch_key_and_keeps_first() {
    let values = vec![
        artifact("a", json(r#"{"n": 1}"#)),
        artifact("a", json(r#"{"n": 2}"#)),
        artifact("b", json(r#"{"n": 3}"#)),
    ];
    let envelope = strategy_join_dedupe(values, None).unwrap();
    assert_eq!(
        envelope.to_json_string(),
        r#"{"certification":"pass","contradictions":[],"join":"dedupe_by_identity","minority_report":[],"notes":[],"value":[{"n":1},{"n":3}]}"#
    );
}

#[test]
fn contradiction_entries_name_both_sides_and_notes_count_them() {
    let values = vec![
        artifact("a", json(r#"{"scope": "s", "time": 1, "claim": {"v": 1}}"#)),
        artifact("b", json(r#"{"scope": "s", "time": 1, "claim": {"v": 2}}"#)),
        artifact("c", json(r#"{"scope": "s", "time": 1, "claim": {"v": 1}}"#)),
    ];
    let envelope = strategy_join_contradiction_matrix(values, "scope", "claim", "time", false).unwrap();
    assert_eq!(
        field(&envelope, "contradictions").to_json_string(),
        r#"[{"left":"a","left_claim":"{\"v\":1}","right":"b","right_claim":"{\"v\":2}","scope":"s","time":1},{"left":"b","left_claim":"{\"v\":2}","right":"c","right_claim":"{\"v\":1}","scope":"s","time":1}]"#
    );
    assert_eq!(text(field(&envelope, "certification")), "pass");
    assert_eq!(
        field(&envelope, "notes").to_json_string(),
        r#"["2 contradiction pair(s) exposed"]"#
    );
}

#[test]
fn proof_carrying_reports_every_reason() {
    let values = vec![artifact("z", json(r#"{"checks": [], "evidence": [{"witness_id": "", "digest": "d"}]}"#))];
    let required: Vec<String> = vec!["receipt".into()];
    let envelope = strategy_join_proof_carrying(values, &required).unwrap();
    assert_eq!(
        field(&envelope, "notes").to_json_string(),
        r#"["artifact 'z' quarantined: missing required field 'receipt'; evidence entry must carry non-empty witness_id and digest; checks must not be empty"]"#
    );
}

#[test]
fn join_plan_reads_modes_and_defaults() {
    let plan = join_plan("j", &json(r#"{"inputs": ["a", 3, "b"], "output": "out", "mode": "quorum", "required": 2}"#)).unwrap();
    assert_eq!(plan.inputs, vec!["a".to_owned(), "b".to_owned()]);
    assert_eq!(plan.output, "out");
    assert!(matches!(plan.strategy, JoinStrategy::Quorum { required: 2 }));
    let plan = join_plan("j", &json(r#"{"inputs": [], "output": "o"}"#)).unwrap();
    assert!(matches!(plan.strategy, JoinStrategy::CollectArray));
    assert_eq!(
        join_plan("j", &json(r#"{"output": "o"}"#)).err().unwrap(),
        "join 'j' requires inputs"
    );
    assert_eq!(
        join_plan("j", &json(r#"{"inputs": []}"#)).err().unwrap(),
        "join 'j' requires output"
    );
    assert_eq!(
        join_plan("j", &json(r#"{"inputs": [], "output": "o", "mode": "vote"}"#)).err().unwrap(),
        "unsupported join mode 'vote'"
    );
    let plan = join_plan("j", &json(r#"{"inputs": [], "output": "o", "mode": "proof_carrying_join", "required_fields": []}"#)).unwrap();
    match plan.strategy {
        JoinStrategy::ProofCarrying { required_fields } => {
            assert_eq!(required_fields, vec!["evidence".to_owned(), "checks".to_owned(), "receipt".to_owned()])
        }
        _ => panic!("expected proof carrying"),
    }
}

#[test]
fn simple_joins_compute_their_results() {
    let values = vec![
        artifact("a", JsonValue::Null),
        artifact("b", json(r#"true"#)),
        artifact("c", json(r#"{"success": true}"#)),
    ];
    let first = run_join(&JoinStrategy::FirstNonNull, values).unwrap().unwrap();
    assert_eq!(first.to_json_string(), "true");
    let values = vec![artifact("b", json("true")), artifact("c", json(r#"{"success": true}"#))];
    let all = run_join(&JoinStrategy::AllSuccess, values).unwrap().unwrap();
    assert_eq!(all.to_json_string(), r#"{"all_success":true,"values":[true,{"success":true}]}"#);
    let values = vec![artifact("b", json("true")), artifact("c", json("false")), artifact("d", json("true"))];
    let quorum = run_join(&JoinStrategy::Quorum { required: 3 }, values).unwrap().unwrap();
    assert_eq!(quorum.to_json_string(), r#"{"approvals":2,"met":false,"required":3}"#);
    assert!(run_join(&JoinStrategy::CollectArray, Vec::new()).is_none());
}

#[test]
fn llm_node_settings_defaults_and_overrides() {
    let d = llm_settings(&None, &json("{}"));
    assert_eq!(d.prompt, "{input}");
    assert_eq!(d.input_key, "__input__");
    assert_eq!(d.output_key, "__input__");
    assert_eq!(d.context_file, None);
    assert!(d.tools.is_empty());
    assert_eq!(d.timeout_ms, 120000);
    let c = json(r#"{"prompt":"from config","input_key":"in","output_key":"out","context_file":"ctx.md","tools":[{"type":"function"}],"timeout_ms":5}"#);
    let s = llm_settings(&None, &c);
    assert_eq!(s.prompt, "from config");
    assert_eq!((s.input_key.as_str(), s.output_key.as_str()), ("in", "out"));
    assert_eq!(s.context_file.as_deref(), Some("ctx.md"));
    assert_eq!(s.tools, vec![json(r#"{"type":"function"}"#)]);
    assert_eq!(s.timeout_ms, 5);
    assert_eq!(llm_settings(&Some("own".into()), &c).prompt, "own");
}

#[test]
fn loop_and_subgraph_settings() {
    let l = loop_settings("n7", &json("{}"));
    assert_eq!((l.entry.as_str(), l.exit.as_str(), l.max_iterations), ("", "END", 1));
    assert_eq!(l.counter_key, "__loop__:n7");
    let l = loop_settings("n7", &json(r#"{"entry":"a","exit":"b","max_iterations":4,"counter_key":"k"}"#));
    assert_eq!((l.entry.as_str(), l.exit.as_str(), l.max_iterations, l.counter_key.as_str()), ("a", "b", 4, "k"));
    let s = subgraph_settings(&json(r#"{"graph_name":"child"}"#));
    assert_eq!((s.graph_name.as_str(), s.input_key.as_str(), s.output_key.as_str()), ("child", "__input__", "__subgraph_output__"));
}

#[test]
fn approval_and_tool_settings() {
    let a = approval_settings(&json("{}"));
    assert_eq!(a.prompt_key, "__approval_prompt__");
    assert_eq!(a.output_key, "__approval_decision__");
    assert!(a.audience.is_empty());
    assert_eq!(a.allowed_decisions, vec!["approve".to_string(), "reject".to_string()]);
    assert_eq!(a.expiry_ms, 300000);
    let a = approval_settings(&json(r#"{"audience":["ops",3],"allowed_decisions":[],"expiry_ms":10}"#));
    assert_eq!(a.audience, vec!["ops".to_string()]);
    assert!(a.allowed_decisions.is_empty());
    assert_eq!(a.expiry_ms, 10);
    let t = tool_settings(&json("{}"));
    assert_eq!(t.python, "python3");
    assert_eq!(t.hermes_source, "/home/sikmindz/.hermes/hermes-agent");
    assert_eq!(t.lease, JsonValue::Null);
    assert_eq!(t.receipt_dir, "/tmp/agent-graph-tool-receipts");
    assert_eq!(t.timeout_ms, 120000);
    let t = tool_settings(&json(r#"{"lease":{"lease_id":"l"},"timeout_ms":9}"#));
    assert_eq!(t.lease, json(r#"{"lease_id":"l"}"#));
    assert_eq!(t.timeout_ms, 9);
}

#[test]
fn retry_settings_only_when_configured() {
    assert!(retry_settings(&json("{}")).is_none());
    let r = retry_settings(&json(r#"{"retry":{}}"#)).unwrap();
    assert_eq!((r.max_attempts, r.initial_delay_ms, r.max_delay_ms, r.jitter), (3, 250, 5000, false));
    let r = retry_settings(&json(r#"{"retry":{"max_attempts":5,"jitter":true,"max_delay_ms":100}}"#)).unwrap();
    assert_eq!((r.max_attempts, r.initial_delay_ms, r.max_delay_ms, r.jitter), (5, 250, 100, true));
}

fn node(id: &str, kind: NodeKind, config: &str) -> NodeSpecModel {
    NodeSpecModel {
        id: id.into(),
        node_type: kind,
        config: json(config),
        prompt: None,
        model: None,
        json_mode: false,
        evidence_required: false,
        max_tokens: None,
        routes: None,
    }
}

fn spec(nodes: Vec<NodeSpecModel>) -> GraphSpecModel {
    GraphSpecModel {
        name: "g".into(),
        max_iterations: None,
        nodes,
        entry: "a".into(),
        edges: vec![
            EdgeSpecModel { from: "a".into(), to: "b".into() },
            EdgeSpecModel { from: "b".into(), to: "END".into() },
        ],
        reducers: vec![("log".into(), ReducerKind::Append)],
    }
}

#[test]
fn compile_plan_builds_each_node_and_maps_end() {
    let mut llm = node("b", NodeKind::Llm, r#"{"retry":{"max_attempts":2}}"#);
    llm.prompt = Some("Summarize {input}".into());
    let plan = compile_plan(&spec(vec![node("a", NodeKind::Parallel, "{}"), llm])).unwrap();
    assert_eq!(plan.name, "g");
    assert_eq!(plan.max_iterations, 64);
    assert_eq!(plan.entry, "a");
    assert!(matches!(plan.nodes[0].plan, NodePlan::Passthrough));
    assert!(plan.nodes[0].retry.is_none());
    match &plan.nodes[1].plan {
        NodePlan::Llm { settings, .. } => assert_eq!(settings.prompt, "Summarize {input}"),
        _ => panic!("llm plan expected"),
    }
    assert_eq!(plan.nodes[1].retry.as_ref().unwrap().max_attempts, 2);
    assert!(matches!(&plan.edges[0].1, EdgeTarget::Node(n) if n == "b"));
    assert!(matches!(plan.edges[1].1, EdgeTarget::End));
    assert_eq!(plan.reducers, vec![("log".to_string(), ReducerKind::Append)]);
}

#[test]
fn compile_plan_refuses_the_first_bad_node() {
    let nodes = vec![
        node("a", NodeKind::Passthrough, "{}"),
        node("j", NodeKind::Join, r#"{"output":"x"}"#),
        node("ext", NodeKind::External, "{}"),
    ];
    assert_eq!(compile_plan(&spec(nodes)).err().unwrap(), "join 'j' requires inputs");
    let nodes = vec![node("ext", NodeKind::External, "{}"), node("j", NodeKind::Join, "{}")];
    assert_eq!(
        compile_plan(&spec(nodes)).err().unwrap(),
        "node 'ext' is not executable by this local runtime"
    );
}

#[test]
fn compile_plan_routers_and_joins() {
    let mut legacy = node("r", NodeKind::Router, "{}");
    legacy.routes = Some(vec![("bug".into(), "fix".into())]);
    let join = node("j", NodeKind::Join, r#"{"inputs":["a","b"],"output":"o","mode":"quorum","required":2}"#);
    let plan = compile_plan(&spec(vec![legacy, join, node("c", NodeKind::Router, r#"{"rules":[],"default":[]}"#)])).unwrap();
    match &plan.nodes[0].plan {
        NodePlan::LegacyRouter { config } => assert_eq!(config.rules[0].targets, vec!["fix".to_string()]),
        _ => panic!("legacy router expected"),
    }
    match &plan.nodes[1].plan {
        NodePlan::Join { plan } => assert!(matches!(plan.strategy, JoinStrategy::Quorum { required: 2 })),
        _ => panic!("join expected"),
    }
    assert!(matches!(plan.nodes[2].plan, NodePlan::ConfiguredRouter { .. }));
}

fn fan_out(n: usize) -> String {
    let ids: Vec<String> = (0..n).map(|i| format!("\"b{i}\"")).collect();
    format!("{{\"branches\":[{}]}}", ids.join(","))
}

#[test]
fn parallel_fan_out_is_limited_to_sixteen_branches() {
    let ok = compile_plan(&spec(vec![node("a", NodeKind::Parallel, &fan_out(16)), node("b", NodeKind::Passthrough, "{}")]));
    assert!(matches!(ok.unwrap().nodes[0].plan, NodePlan::Passthrough));
    let err = compile_plan(&spec(vec![node("a", NodeKind::Parallel, &fan_out(17)), node("b", NodeKind::Passthrough, "{}")]));
    assert_eq!(err.err().unwrap(), "node 'a': a parallel fan-out takes at most 16 branches");
}
