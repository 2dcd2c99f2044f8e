use redclaw::codec::{decode_session, encode_session, load_session};
use redclaw::msg::{Message, Role, Session, ToolCallRequest};

fn full_session() -> Session {
    Session {
        messages: vec![
            Message {
                role: Role::System,
                content: Some("be \"helpful\"\nand brief\ttoo \\ ok".to_string()),
                name: None,
                tool_call_id: None,
                tool_calls: None,
            },
            Message {
                role: Role::User,
                content: Some("what files are in /tmp? — ünïcode".to_string()),
                name: None,
                tool_call_id: None,
                tool_calls: None,
            },
            Message {
                role: Role::Assistant,
                content: None,
                name: None,
                tool_call_id: None,
                tool_calls: Some(vec![
                    ToolCallRequest {
                        id: "call_1".to_string(),
                        name: "list_dir".to_string(),
                        arguments: "{\"path\":\"/tmp\"}".to_string(),
                    },
                    ToolCallRequest {
                        id: "call_2".to_string(),
                        name: "read_file".to_string(),
                        arguments: "{\"path\":\"/tmp/a\"}".to_string(),
                    },
                ]),
            },
            Message {
                role: Role::Tool,
                content: Some("FILE: a\n".to_string()),
                name: Some("list_dir".to_string()),
                tool_call_id: Some("call_1".to_string()),
                tool_calls: None,
            },
        ],
    }
}

#[test]
fn round_trip_full_session() {
    let original = full_session();
    let text = encode_session(&original);
    let decoded = decode_session(&text).expect("an encoded session must decode");
    assert_eq!(decoded, original);
}

#[test]
fn round_trip_empty_session() {
    let original = Session::empty();
    let text = encode_session(&original);
    assert_eq!(text, "{\"messages\":[]}");
    let decoded = decode_session(&text).expect("an encoded session must decode");
    assert_eq!(decoded, original);
}

#[test]
fn round_trip_empty_tool_call_array() {
    let original = Session {
        messages: vec![Message {
            role: Role::Assistant,
            content: Some("nothing to run".to_string()),
            name: None,
            tool_call_id: None,
            tool_calls: Some(vec![]),
        }],
    };
    let text = encode_session(&original);
    let decoded = decode_session(&text).expect("an encoded session must decode");
    assert_eq!(decoded, original);
}

#[test]
fn encoded_shape_of_simple_session() {
    let s = Session {
        messages: vec![Message {
            role: Role::User,
            content: Some("hi".to_string()),
            name: None,
            tool_call_id: None,
            tool_calls: None,
        }],
    };
    assert_eq!(
        encode_session(&s),
        "{\"messages\":[{\"role\":\"user\",\"content\":\"hi\",\"name\":null,\"tool_call_id\":null,\"tool_calls\":null}]}"
    );
}

#[test]
fn corrupt_or_missing_file_loads_empty() {
    assert_eq!(load_session(None).messages.len(), 0);
    assert_eq!(load_session(Some("not json at all")).messages.len(), 0);
    assert_eq!(load_session(Some("{\"messages\":[")).messages.len(), 0);
    assert_eq!(load_session(Some("")).messages.len(), 0);
    // Trailing garbage after a valid document is refused too.
    assert_eq!(load_session(Some("{\"messages\":[]}x")).messages.len(), 0);
}

#[test]
fn load_reads_back_a_saved_session() {
    let original = full_session();
    let text = encode_session(&original);
    let loaded = load_session(Some(&text));
    assert_eq!(loaded, original);
}
