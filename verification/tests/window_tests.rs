use redclaw::agent::{build_system_prompt, format_messages, summarize_prompt, Agent};
use redclaw::channels::outbound_reply;
use redclaw::config::{expand_home, ProviderConfig};
use redclaw::errors::AgentError;
use redclaw::llm::{interpret_chat_payload, ChatPayload, ErrorInfo, LLMClient};
use redclaw::memory::MemoryStore;
use redclaw::msg::{sanitize_messages, window_start, Message, Role, Session};
use redclaw::registry::ToolRegistry;

fn msg(role: Role, content: &str) -> Message {
    Message {
        role,
        content: Some(content.to_string()),
        name: None,
        tool_call_id: None,
        tool_calls: None,
    }
}

fn tool_msg(id: &str) -> Message {
    Message {
        role: Role::Tool,
        content: Some("result".to_string()),
        name: Some("t".to_string()),
        tool_call_id: Some(id.to_string()),
        tool_calls: None,
    }
}

#[test]
fn window_keeps_at_most_the_last_ten_messages() {
    let mut messages = Vec::new();
    for i in 0..14 {
        messages.push(msg(Role::User, &format!("m{}", i)));
    }
    let session = Session { messages };
    assert_eq!(window_start(&session, 10), 4);
}

#[test]
fn window_never_starts_on_a_tool_message() {
    // Twelve messages; the plain cut would start at index 2, which is a
    // tool message, so the window moves forward past it.
    let mut messages = vec![msg(Role::User, "a"), msg(Role::Assistant, "b")];
    messages.push(tool_msg("c1"));
    messages.push(tool_msg("c2"));
    for i in 0..8 {
        messages.push(msg(Role::User, &format!("m{}", i)));
    }
    let session = Session { messages };
    assert_eq!(window_start(&session, 10), 4);
}

#[test]
fn short_histories_are_kept_whole() {
    let session = Session {
        messages: vec![msg(Role::User, "a"), msg(Role::Assistant, "b")],
    };
    assert_eq!(window_start(&session, 10), 0);
}

#[test]
fn sanitize_fills_in_empty_content() {
    let bare = Message {
        role: Role::Assistant,
        content: None,
        name: None,
        tool_call_id: None,
        tool_calls: None,
    };
    let keeps = msg(Role::User, "hi");
    let out = sanitize_messages(&vec![bare, keeps]);
    assert_eq!(out[0].content, Some("".to_string()));
    assert_eq!(out[1].content, Some("hi".to_string()));
}

#[test]
fn provider_error_carries_code_and_message() {
    let payload = ChatPayload {
        error: Some(ErrorInfo {
            code: Some("429".to_string()),
            message: Some("rate limited".to_string()),
        }),
        choices: vec![],
    };
    match interpret_chat_payload(payload) {
        Err(AgentError::ProviderError { code, message }) => {
            assert_eq!(code, "429");
            assert_eq!(message, "rate limited");
        }
        _ => panic!("a structured error must become ProviderError"),
    }
}

#[test]
fn provider_error_defaults_are_filled_in() {
    let payload = ChatPayload {
        error: Some(ErrorInfo { code: None, message: None }),
        choices: vec![],
    };
    match interpret_chat_payload(payload) {
        Err(AgentError::ProviderError { code, message }) => {
            assert_eq!(code, "no code");
            assert_eq!(message, "Unknown API Error");
        }
        _ => panic!("a structured error must become ProviderError"),
    }
}

#[test]
fn missing_choices_are_a_protocol_error() {
    let payload = ChatPayload { error: None, choices: vec![] };
    assert!(matches!(
        interpret_chat_payload(payload),
        Err(AgentError::ProtocolError { .. })
    ));
}

#[test]
fn the_first_choice_is_returned_unmodified() {
    let payload = ChatPayload {
        error: None,
        choices: vec![msg(Role::Assistant, "answer"), msg(Role::Assistant, "other")],
    };
    let m = interpret_chat_payload(payload).unwrap();
    assert_eq!(m.content, Some("answer".to_string()));
}

#[test]
fn client_takes_the_default_base_only_when_none_is_set() {
    let with_base = ProviderConfig {
        api_key: "k".to_string(),
        api_base: Some("https://own.example/v1".to_string()),
    };
    let c = LLMClient::new(&with_base, "https://fallback.example/v1", "m1");
    assert_eq!(c.api_base, "https://own.example/v1");
    assert_eq!(c.chat_url(), "https://own.example/v1/chat/completions");

    let without = ProviderConfig { api_key: "k".to_string(), api_base: None };
    let c = LLMClient::new(&without, "https://fallback.example/v1", "m1");
    assert_eq!(c.api_base, "https://fallback.example/v1");
    assert_eq!(c.model, "m1");
}

#[test]
fn home_expansion_applies_only_to_tilde_paths() {
    assert_eq!(expand_home("~/ws", Some("/home/me")), "/home/me/ws");
    assert_eq!(expand_home("/abs/path", Some("/home/me")), "/abs/path");
    assert_eq!(expand_home("~/ws", None), "~/ws");
    assert_eq!(expand_home("~", Some("/home/me")), "~");
}

#[test]
fn system_prompt_holds_persona_bootstrap_and_memory() {
    let sections = vec![("USER.md".to_string(), "about the user".to_string())];
    let prompt = build_system_prompt(&sections, "# Memory\n\nnotes");
    assert!(prompt.starts_with("You are RedClaw"));
    assert!(prompt.contains("## USER.md\n\nabout the user\n\n"));
    assert!(prompt.ends_with("# Memory\n\nnotes"));
}

#[test]
fn summaries_see_only_user_and_assistant_lines() {
    let messages = vec![
        msg(Role::System, "sys"),
        msg(Role::User, "question"),
        tool_msg("c"),
        msg(Role::Assistant, "reply"),
    ];
    assert_eq!(format_messages(&messages), "user: question\nassistant: reply");
    let prompt = summarize_prompt(&messages);
    assert!(prompt.starts_with("Provide a very concise summary"));
    assert!(prompt.ends_with("CONVERSATION:\nuser: question\nassistant: reply"));
}

#[test]
fn failures_are_described_in_one_line() {
    let e = AgentError::ProviderError { code: "429".to_string(), message: "slow down".to_string() };
    assert_eq!(e.describe(), "LLM Provider Error (429): slow down");
    let e = AgentError::ToolNotFound { name: "nope".to_string() };
    assert_eq!(e.describe(), "Tool nope not found");
    let e = AgentError::NetworkError { detail: "timed out".to_string() };
    assert_eq!(e.describe(), "Network error: timed out");
    let e = AgentError::ProtocolError { detail: "bad json".to_string() };
    assert_eq!(e.describe(), "Protocol error: bad json");
}

#[test]
fn an_empty_answer_gets_the_fixed_notice() {
    assert_eq!(outbound_reply("all done"), "all done");
    assert_eq!(
        outbound_reply(""),
        "I processed your request but have no text response."
    );
}

#[test]
fn agents_start_on_the_default_session() {
    let client = LLMClient::new(
        &ProviderConfig { api_key: "k".to_string(), api_base: None },
        "https://api.example/v1",
        "m",
    );
    let memory = MemoryStore::new("/tmp/agent-ws");
    let mut agent = Agent::new(client, memory, ToolRegistry::new(), 10);
    assert_eq!(agent.session_key, "default");
    assert_eq!(agent.get_session_path(), "/tmp/agent-ws/sessions/default.json");
    agent.set_session("12345");
    assert_eq!(agent.get_session_path(), "/tmp/agent-ws/sessions/12345.json");
}
