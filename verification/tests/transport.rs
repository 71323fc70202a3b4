use agent_graph_mcp::json::JsonValue;
use agent_graph_mcp::transport::{
    frame_length, frame_prefix, hello_frame, interpret_hello, parse_hello_response, read_frame,
    write_frame, FrameError, MAX_FRAME, PROTOCOL_VERSION,
};

#[test]
fn hello_roundtrip() {
    let frame = hello_frame();
    let parsed = JsonValue::parse_bytes(&frame).unwrap();
    assert_eq!(
        parsed
            .get("hello")
            .and_then(|h| h.get("protocol_version"))
            .and_then(|v| v.as_u64()),
        Some(PROTOCOL_VERSION)
    );
    // Daemon accepts it.
    match interpret_hello(&frame) {
        Some(Ok(reply)) => assert!(parse_hello_response(&reply).is_ok()),
        other => panic!("expected Some(Ok), got {other:?}"),
    }
}

#[test]
fn version_mismatch_rejected() {
    let bad = br#"{"hello":{"protocol_version":999,"crate_version":"0.0.0"}}"#.to_vec();
    match interpret_hello(&bad) {
        Some(Err(reason)) => {
            assert!(reason.contains("PROTOCOL_VERSION_MISMATCH"));
            // Proxy side surfaces the same mismatch.
            let reply = r#"{"hello_error":{"protocol_version":1,"crate_version":"x","reason":"PROTOCOL_VERSION_MISMATCH"}}"#;
            assert!(parse_hello_response(reply.as_bytes()).is_err());
        }
        other => panic!("expected Some(Err), got {other:?}"),
    }
}

#[test]
fn legacy_frame_not_hello() {
    // An MCP JSON-RPC message is not a hello; the daemon must forward it.
    let mcp = br#"{"jsonrpc":"2.0","id":1,"method":"initialize","params":{}}"#;
    assert!(interpret_hello(mcp).is_none());
    // Garbage bytes are also not a hello.
    assert!(interpret_hello(b"\x00\xffgarbage").is_none());
}

#[test]
fn hello_frame_is_exact_json() {
    assert_eq!(
        String::from_utf8(hello_frame()).unwrap(),
        r#"{"hello":{"crate_version":"0.2.6","protocol_version":1}}"#
    );
    let refusal = interpret_hello(br#"{"hello":{}}"#).unwrap().unwrap_err();
    assert_eq!(
        refusal,
        r#"{"hello_error":{"crate_version":"0.2.6","protocol_version":1,"reason":"PROTOCOL_VERSION_MISMATCH"}}"#
    );
}

#[test]
fn hello_response_errors_are_typed() {
    assert_eq!(
        parse_hello_response(br#"{"hello_error":{"reason":"X"}}"#).unwrap_err(),
        r#"daemon rejected handshake: {"reason":"X"}"#
    );
    assert_eq!(
        parse_hello_response(br#"{"other":1}"#).unwrap_err(),
        "unexpected hello response shape"
    );
    assert!(parse_hello_response(b"not json")
        .unwrap_err()
        .starts_with("not a hello response: "));
}

#[test]
fn frame_prefix_roundtrips_and_bounds() {
    let prefix = frame_prefix(300).unwrap();
    assert_eq!(prefix, vec![0, 0, 1, 44]);
    assert_eq!(frame_length(&prefix).unwrap(), 300);
    assert!(matches!(frame_prefix(MAX_FRAME + 1), Err(FrameError::TooLarge)));
    assert!(matches!(frame_length(&[0, 0x10, 0, 1]), Err(FrameError::TooLarge)));
    assert_eq!(frame_length(&[0, 0x10, 0, 0]).unwrap(), MAX_FRAME);
    assert_eq!(FrameError::TooLarge.message(), "frame exceeds maximum size");
}

#[test]
fn frames_roundtrip_through_a_stream() {
    let mut wire: Vec<u8> = Vec::new();
    write_frame(&mut wire, b"hello").unwrap();
    write_frame(&mut wire, b"").unwrap();
    assert_eq!(wire, vec![0, 0, 0, 5, b'h', b'e', b'l', b'l', b'o', 0, 0, 0, 0]);
    let mut reader = std::io::Cursor::new(wire);
    assert_eq!(read_frame(&mut reader).unwrap(), b"hello".to_vec());
    assert_eq!(read_frame(&mut reader).unwrap(), Vec::<u8>::new());
    assert!(matches!(read_frame(&mut reader), Err(FrameError::Io(_))));
}

#[test]
fn oversized_frames_are_refused_before_io() {
    let big = vec![0u8; MAX_FRAME + 1];
    let mut wire: Vec<u8> = Vec::new();
    assert!(matches!(write_frame(&mut wire, &big), Err(FrameError::TooLarge)));
    assert!(wire.is_empty());
    let mut reader = std::io::Cursor::new(vec![0u8, 0x10, 0, 1, 9, 9]);
    assert!(matches!(read_frame(&mut reader), Err(FrameError::TooLarge)));
}

#[test]
fn truncated_payload_is_an_io_error() {
    let mut reader = std::io::Cursor::new(vec![0u8, 0, 0, 4, 1, 2]);
    assert!(matches!(read_frame(&mut reader), Err(FrameError::Io(_))));
}

#[test]
fn encoded_frame_is_prefix_then_payload_and_reads_back() {
    let f = agent_graph_mcp::transport::encode_frame(b"abc").unwrap();
    assert_eq!(f, vec![0, 0, 0, 3, b'a', b'b', b'c']);
    let big = vec![7u8; agent_graph_mcp::transport::MAX_FRAME + 1];
    assert!(matches!(
        agent_graph_mcp::transport::encode_frame(&big),
        Err(agent_graph_mcp::transport::FrameError::TooLarge)
    ));
    let mut out: Vec<u8> = Vec::new();
    assert!(matches!(
        agent_graph_mcp::transport::write_frame(&mut out, &big),
        Err(agent_graph_mcp::transport::FrameError::TooLarge)
    ));
    assert!(out.is_empty());
    let exact = vec![1u8; agent_graph_mcp::transport::MAX_FRAME];
    agent_graph_mcp::transport::write_frame(&mut out, &exact).unwrap();
    agent_graph_mcp::transport::write_frame(&mut out, b"tail").unwrap();
    let mut r: &[u8] = &out;
    assert_eq!(agent_graph_mcp::transport::read_frame(&mut r).unwrap(), exact);
    assert_eq!(agent_graph_mcp::transport::read_frame(&mut r).unwrap(), b"tail".to_vec());
    assert!(r.is_empty());
}
