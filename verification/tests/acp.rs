use acp_pipe::acp::{inspect, inspect_document, split_frames, take_frames, RpcId};
use acp_pipe::json::{quote, Json};

#[test]
fn extracts_session_id_from_params() {
    let f = br#"{"jsonrpc":"2.0","id":2,"method":"session/prompt","params":{"sessionId":"sess_abc","prompt":[]}}"#;
    let info = inspect(f);
    assert_eq!(info.session_id.as_deref(), Some("sess_abc"));
    assert!(info.is_prompt_request);
    assert_eq!(info.id, Some(RpcId::Num(2)));
    assert!(info.stop_reason.is_none());
    assert!(info.has_method);
}

#[test]
fn extracts_session_id_from_result() {
    let f = br#"{"jsonrpc":"2.0","id":1,"result":{"sessionId":"sess_new"}}"#;
    let info = inspect(f);
    assert_eq!(info.session_id.as_deref(), Some("sess_new"));
    assert_eq!(info.id, Some(RpcId::Num(1)));
    assert!(!info.is_prompt_request);
    assert!(!info.has_method);
}

#[test]
fn detects_stop_reason_close() {
    let f = br#"{"jsonrpc":"2.0","id":2,"result":{"stopReason":"end_turn"}}"#;
    let info = inspect(f);
    assert_eq!(info.stop_reason.as_deref(), Some("end_turn"));
    assert_eq!(info.id, Some(RpcId::Num(2)));
    assert!(info.session_id.is_none());
}

#[test]
fn session_update_notification_has_session_no_id() {
    let f = br#"{"jsonrpc":"2.0","method":"session/update","params":{"sessionId":"sess_x","update":{"sessionUpdate":"agent_message_chunk"}}}"#;
    let info = inspect(f);
    assert_eq!(info.session_id.as_deref(), Some("sess_x"));
    assert!(info.id.is_none());
    assert!(!info.is_prompt_request);
}

#[test]
fn string_ids_supported() {
    let f = br#"{"jsonrpc":"2.0","id":"req-7","method":"session/prompt","params":{"sessionId":"s"}}"#;
    let info = inspect(f);
    assert_eq!(info.id, Some(RpcId::Str("req-7".into())));
}

#[test]
fn fs_request_is_not_a_prompt() {
    let f = br#"{"jsonrpc":"2.0","id":9,"method":"fs/read_text_file","params":{"sessionId":"s","path":"/x"}}"#;
    let info = inspect(f);
    assert!(!info.is_prompt_request);
    assert_eq!(info.session_id.as_deref(), Some("s"));
    assert!(info.has_method);
}

#[test]
fn unparseable_frame_yields_default() {
    let info = inspect(b"this is not json\n");
    assert!(info.session_id.is_none());
    assert!(info.id.is_none());
    assert!(!info.is_prompt_request);
    assert!(!info.has_method);
    assert!(info.stop_reason.is_none());
}

#[test]
fn split_frames_handles_partial_trailing() {
    let buf = b"{\"a\":1}\n{\"b\":2}\n{\"partial\":";
    let (frames, consumed) = split_frames(buf);
    assert_eq!(frames.len(), 2);
    assert_eq!(frames[0], b"{\"a\":1}\n");
    assert_eq!(frames[1], b"{\"b\":2}\n");
    assert_eq!(consumed, 16);
}

#[test]
fn split_frames_empty_on_no_newline() {
    let (frames, consumed) = split_frames(b"{\"no\":\"newline yet\"}");
    assert!(frames.is_empty());
    assert_eq!(consumed, 0);
}

#[test]
fn a_document_that_is_no_object_teaches_nothing() {
    for bytes in [&b"[1,2]"[..], b"\"session/prompt\"", b"7", b"null", b"true"] {
        let info = inspect(bytes);
        assert!(info.id.is_none());
        assert!(info.session_id.is_none());
        assert!(!info.has_method);
    }
}

#[test]
fn params_session_id_that_is_no_string_hides_the_result() {
    let f = br#"{"id":1,"params":{"sessionId":5},"result":{"sessionId":"s"}}"#;
    assert!(inspect(f).session_id.is_none());
}

#[test]
fn ids_that_are_not_integers_or_strings_are_no_ids() {
    assert!(inspect(br#"{"id":1.5}"#).id.is_none());
    assert!(inspect(br#"{"id":null}"#).id.is_none());
    assert!(inspect(br#"{"id":18446744073709551615}"#).id.is_none());
    assert_eq!(inspect(br#"{"id":-3}"#).id, Some(RpcId::Num(-3)));
}

#[test]
fn a_null_method_is_still_a_method() {
    let info = inspect(br#"{"id":1,"method":null}"#);
    assert!(info.has_method);
    assert!(!info.is_prompt_request);
}

#[test]
fn inspection_of_a_tree_agrees_with_inspection_of_bytes() {
    let bytes = br#"{"id":"x","method":"session/prompt","params":{"sessionId":"s"}}"#;
    let tree = Json::parse(bytes).unwrap();
    let info = inspect_document(&tree);
    assert!(info.is_prompt_request);
    assert_eq!(info.session_id.as_deref(), Some("s"));
    assert_eq!(info.id, Some(RpcId::Str("x".to_string())));
}

#[test]
fn frames_survive_any_cut_into_reads() {
    let stream = b"one\ntwo\n\nthree\nrest";
    let mut whole = Vec::new();
    let expected = take_frames(&mut whole, stream);
    assert_eq!(expected.len(), 4);
    assert_eq!(expected[2], b"\n");
    assert_eq!(whole, b"rest");
    for cut in 0..stream.len() {
        let mut buf = Vec::new();
        let mut got = take_frames(&mut buf, &stream[..cut]);
        got.extend(take_frames(&mut buf, &stream[cut..]));
        assert_eq!(got, expected);
        assert_eq!(buf, b"rest");
        let mut joined: Vec<u8> = got.concat();
        joined.extend_from_slice(&buf);
        assert_eq!(joined, stream);
    }
}

#[test]
fn json_members_are_found_by_key() {
    let v = Json::parse(br#"{"b":true,"a":"x","n":{"k":[null,false,"deep"]}}"#).unwrap();
    assert_eq!(v.get_text("a").as_deref(), Some("x"));
    assert_eq!(v.get_bool("b"), Some(true));
    assert_eq!(v.get_bool("a"), None);
    assert!(v.get("missing").is_none());
    assert!(v.get("n").unwrap().is_object());
    match v.get("n").unwrap().get("k").unwrap() {
        Json::Array(items) => {
            assert_eq!(items.len(), 3);
            assert!(matches!(items[0], Json::Null));
            assert!(matches!(items[1], Json::Bool(false)));
            assert_eq!(items[2].as_str().map(|s| s.as_str()), Some("deep"));
        }
        _ => panic!("not an array"),
    }
    assert!(Json::parse(b"{").is_none());
}

#[test]
fn quoting_escapes_what_json_escapes() {
    assert_eq!(quote("plain"), "\"plain\"");
    assert_eq!(quote(""), "\"\"");
    assert_eq!(quote("a\"b\\c"), "\"a\\\"b\\\\c\"");
    assert_eq!(quote("\n\r\t\u{8}\u{c}"), "\"\\n\\r\\t\\b\\f\"");
    assert_eq!(quote("\u{0}\u{1f}\u{7f}"), "\"\\u0000\\u001f\u{7f}\"");
    assert_eq!(quote("é—/日"), "\"é—/日\"");
    let back = Json::parse(quote("line\nbreak \"q\" \u{1}").as_bytes()).unwrap();
    assert_eq!(back.as_str().map(|s| s.as_str()), Some("line\nbreak \"q\" \u{1}"));
}

#[test]
fn a_trailing_newline_makes_no_difference() {
    for f in [&br#"{"id":3,"method":"session/prompt","params":{"sessionId":"s"}}"#[..], b"noise", b"", b"{\"id\":3} "] {
        let bare = inspect(f);
        let mut ended = f.to_vec();
        for _ in 0..2 {
            ended.push(b'\n');
            let info = inspect(&ended);
            assert_eq!(info.id, bare.id);
            assert_eq!(info.session_id, bare.session_id);
            assert_eq!(info.stop_reason, bare.stop_reason);
            assert_eq!(info.is_prompt_request, bare.is_prompt_request);
            assert_eq!(info.has_method, bare.has_method);
        }
    }
}
