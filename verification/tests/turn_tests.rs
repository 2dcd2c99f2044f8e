use redclaw::agent::{Turn, TurnStep};
use redclaw::builtin::ListDirTool;
use redclaw::msg::{Message, Role, Session, ToolCallRequest};
use redclaw::registry::ToolRegistry;

fn text_msg(role: Role, content: &str) -> Message {
    Message {
        role,
        content: Some(content.to_string()),
        name: None,
        tool_call_id: None,
        tool_calls: None,
    }
}

fn tool_call_reply(id: &str, name: &str, arguments: &str) -> Message {
    Message {
        role: Role::Assistant,
        content: None,
        name: None,
        tool_call_id: None,
        tool_calls: Some(vec![ToolCallRequest {
            id: id.to_string(),
            name: name.to_string(),
            arguments: arguments.to_string(),
        }]),
    }
}

#[test]
fn single_round_trip_returns_reply_content() {
    let session = Session::empty();
    let (mut turn, step) = Turn::start(
        session,
        "system prompt".to_string(),
        "hello".to_string(),
        10,
        10,
    );
    assert!(matches!(step, TurnStep::CallModel { with_tools: true }));
    let step = turn.on_model_reply(text_msg(Role::Assistant, "hi there"));
    match step {
        TurnStep::Finish { answer, note } => {
            assert_eq!(answer, "hi there");
            assert_eq!(note, Some("User: hello\nAssistant: hi there\n".to_string()));
        }
        _ => panic!("expected the turn to finish in one round-trip"),
    }
    assert_eq!(turn.round_trips, 1);
    assert_eq!(turn.tool_results, 0);
    assert_eq!(turn.session.messages.len(), 2);
    assert_eq!(turn.session.messages[0].role, Role::User);
    assert_eq!(turn.session.messages[1].role, Role::Assistant);
}

#[test]
fn list_dir_scenario_persists_four_messages() {
    let mut registry = ToolRegistry::new();
    registry.register(ListDirTool.definition());

    let session = Session::empty();
    let (mut turn, step) = Turn::start(
        session,
        "system prompt".to_string(),
        "list files in /tmp".to_string(),
        10,
        10,
    );
    assert!(matches!(step, TurnStep::CallModel { with_tools: true }));

    let step = turn.on_model_reply(tool_call_reply("call_1", "list_dir", "{\"path\":\"/tmp\"}"));
    assert!(matches!(step, TurnStep::Continue));

    let step = turn.proceed(&registry).unwrap();
    let call = match step {
        TurnStep::RunTool { call, .. } => call,
        _ => panic!("expected the registered tool to be handed out"),
    };
    assert_eq!(call.name, "list_dir");
    assert_eq!(call.id, "call_1");

    let step = turn.on_tool_result(Ok("FILE: a.txt\nDIR:  sub\n".to_string()));
    assert!(matches!(step, TurnStep::Continue));

    let step = turn.proceed(&registry).unwrap();
    assert!(matches!(step, TurnStep::CallModel { with_tools: true }));

    let step = turn.on_model_reply(text_msg(Role::Assistant, "Here are the files: a.txt, sub"));
    match step {
        TurnStep::Finish { answer, .. } => {
            assert_eq!(answer, "Here are the files: a.txt, sub");
        }
        _ => panic!("expected the final reply to end the turn"),
    }

    let roles: Vec<Role> = turn.session.messages.iter().map(|m| m.role).collect();
    assert_eq!(roles, vec![Role::User, Role::Assistant, Role::Tool, Role::Assistant]);
    assert_eq!(turn.session.messages.len(), 4);
    let tool_msg = &turn.session.messages[2];
    assert_eq!(tool_msg.tool_call_id, Some("call_1".to_string()));
    assert_eq!(tool_msg.name, Some("list_dir".to_string()));
    assert_eq!(tool_msg.content, Some("FILE: a.txt\nDIR:  sub\n".to_string()));
    // Message accounting: pre-turn count, plus the user message, one per
    // round-trip, one per executed tool call.
    assert_eq!(
        turn.session.messages.len(),
        turn.start_len + 1 + turn.round_trips + turn.tool_results
    );
}

#[test]
fn iteration_cap_forces_one_tools_disabled_round_trip() {
    let registry = ToolRegistry::new();
    let session = Session::empty();
    let (mut turn, step) = Turn::start(
        session,
        "system".to_string(),
        "do something".to_string(),
        2,
        10,
    );
    assert!(matches!(step, TurnStep::CallModel { with_tools: true }));

    let mut with_tools_calls = 1;
    for i in 0..2 {
        let step = turn.on_model_reply(tool_call_reply(
            &format!("call_{}", i),
            "missing_tool",
            "{}",
        ));
        assert!(matches!(step, TurnStep::Continue));
        // The unregistered tool is answered with an error tool message.
        let step = turn.proceed(&registry).unwrap();
        assert!(matches!(step, TurnStep::Continue));
        let step = turn.proceed(&registry).unwrap();
        match step {
            TurnStep::CallModel { with_tools } => {
                if with_tools {
                    with_tools_calls += 1;
                } else {
                    assert_eq!(i, 1, "tools are only disabled after the cap");
                }
            }
            _ => panic!("expected another model call"),
        }
    }
    // Exactly two tool-offering round-trips happened; the next call is the
    // forced tools-disabled completion.
    assert_eq!(with_tools_calls, 2);
    let step = turn.on_model_reply(text_msg(Role::Assistant, "ran out of budget"));
    match step {
        TurnStep::Finish { answer, .. } => assert_eq!(answer, "ran out of budget"),
        _ => panic!("expected the forced completion to end the turn"),
    }
    assert_eq!(turn.round_trips, 3);
    assert_eq!(turn.tool_results, 2);
    // user + 2 replies + 2 error tool results + 1 forced assistant message
    assert_eq!(turn.session.messages.len(), 6);
    let error_msg = &turn.session.messages[2];
    assert_eq!(error_msg.role, Role::Tool);
    assert_eq!(
        error_msg.content,
        Some("Error: Tool missing_tool not found".to_string())
    );
}

#[test]
fn an_empty_tool_call_list_is_no_request() {
    // A reply whose tool-call list is present but empty carries no
    // requests: its content is the final answer, in one round-trip.
    let session = Session::empty();
    let (mut turn, _) = Turn::start(session, "s".to_string(), "u".to_string(), 10, 10);
    let reply = Message {
        role: Role::Assistant,
        content: Some("nothing to run".to_string()),
        name: None,
        tool_call_id: None,
        tool_calls: Some(vec![]),
    };
    match turn.on_model_reply(reply) {
        TurnStep::Finish { answer, .. } => assert_eq!(answer, "nothing to run"),
        _ => panic!("an empty tool-call list must not start a tool batch"),
    }
    assert_eq!(turn.round_trips, 1);
    assert_eq!(turn.session.messages.len(), 2);
}

#[test]
fn empty_reply_under_cap_ends_with_empty_answer() {
    let session = Session::empty();
    let (mut turn, _) = Turn::start(session, "s".to_string(), "u".to_string(), 10, 10);
    let reply = Message {
        role: Role::Assistant,
        content: None,
        name: None,
        tool_call_id: None,
        tool_calls: None,
    };
    match turn.on_model_reply(reply) {
        TurnStep::Finish { answer, note } => {
            assert_eq!(answer, "");
            assert!(note.is_none());
        }
        _ => panic!("an empty reply under the cap ends the turn"),
    }
}

#[test]
fn model_failure_in_tool_loop_aborts_turn() {
    let session = Session::empty();
    let (mut turn, _) = Turn::start(session, "s".to_string(), "u".to_string(), 10, 10);
    let before = turn.session.messages.len();
    assert!(turn.on_model_failure().is_none());
    assert_eq!(turn.session.messages.len(), before);
}

#[test]
fn bad_tool_arguments_abort_the_turn() {
    let registry = ToolRegistry::new();
    let session = Session::empty();
    let (mut turn, _) = Turn::start(session, "s".to_string(), "u".to_string(), 10, 10);
    let step = turn.on_model_reply(tool_call_reply("c", "list_dir", "this is not json"));
    assert!(matches!(step, TurnStep::Continue));
    assert!(turn.proceed(&registry).is_err());
}
