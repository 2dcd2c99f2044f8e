use redclaw::channels::{chunk_message, parse_mode_for_attempt, TelegramBot};

#[test]
fn nine_thousand_chars_split_into_three_chunks() {
    let text: String = "a".repeat(9000);
    let chunks = chunk_message(&text, 4000);
    assert_eq!(chunks.len(), 3);
    for c in &chunks {
        assert!(c.chars().count() <= 4000);
        assert!(!c.is_empty());
    }
    // With no whitespace in the text, nothing is trimmed at the
    // boundaries: the concatenation reproduces the original exactly.
    let joined: String = chunks.concat();
    assert_eq!(joined, text);
    assert_eq!(chunks[0].len(), 4000);
    assert_eq!(chunks[1].len(), 4000);
    assert_eq!(chunks[2].len(), 1000);
}

#[test]
fn short_reply_is_delivered_unchanged() {
    let chunks = chunk_message("short reply\nwith a newline", 4000);
    assert_eq!(chunks, vec!["short reply\nwith a newline".to_string()]);
}

#[test]
fn a_late_newline_is_preferred_as_the_break() {
    // 3500 chars, a newline, then more text: the newline lies past three
    // quarters of the 4000 limit, so the first chunk ends there.
    let mut text = "b".repeat(3500);
    text.push('\n');
    text.push_str(&"c".repeat(1500));
    let chunks = chunk_message(&text, 4000);
    assert_eq!(chunks.len(), 2);
    assert_eq!(chunks[0], "b".repeat(3500));
    assert_eq!(chunks[1], "c".repeat(1500));
}

#[test]
fn an_early_newline_does_not_shorten_the_chunk() {
    // The only newline sits well before three quarters of the limit, so
    // the chunk is cut at the size limit instead.
    let mut text = "d".repeat(100);
    text.push('\n');
    text.push_str(&"e".repeat(4500));
    let chunks = chunk_message(&text, 4000);
    assert_eq!(chunks[0].chars().count(), 4000);
}

#[test]
fn whitespace_between_chunks_is_dropped() {
    let mut text = "f".repeat(4000);
    text.push_str("   \n  ");
    text.push_str(&"g".repeat(10));
    let chunks = chunk_message(&text, 4000);
    assert_eq!(chunks.len(), 2);
    assert_eq!(chunks[0], "f".repeat(4000));
    assert_eq!(chunks[1], "g".repeat(10));
}

#[test]
fn formatting_ladder_gets_progressively_plainer() {
    assert_eq!(parse_mode_for_attempt(0), Some(Some("MarkdownV2")));
    assert_eq!(parse_mode_for_attempt(1), Some(Some("Markdown")));
    assert_eq!(parse_mode_for_attempt(2), Some(None));
    assert_eq!(parse_mode_for_attempt(3), None);
}

#[test]
fn empty_allow_list_admits_anyone_and_a_list_is_exact() {
    let open_bot = TelegramBot::new("tok".to_string(), vec![]);
    assert!(open_bot.is_authorized("123", "someone"));

    let bot = TelegramBot::new(
        "tok".to_string(),
        vec!["42".to_string(), "alice".to_string()],
    );
    assert!(bot.is_authorized("42", "unknown"));
    assert!(bot.is_authorized("7", "alice"));
    assert!(!bot.is_authorized("7", "bob"));
}
