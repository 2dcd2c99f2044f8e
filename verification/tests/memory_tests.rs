use redclaw::memory::{
    append_today_content, format_date_dashed, get_memory_context, MemoryStore,
};

#[test]
fn note_paths_are_bucketed_by_month() {
    let store = MemoryStore::new("/home/agent/workspace");
    assert_eq!(store.workspace(), "/home/agent/workspace");
    assert_eq!(store.memory_dir(), "/home/agent/workspace/memory");
    assert_eq!(store.memory_file(), "/home/agent/workspace/memory/MEMORY.md");
    assert_eq!(
        store.today_file(2026, 3, 7),
        "/home/agent/workspace/memory/202603/20260307.md"
    );
}

#[test]
fn dashed_dates_are_zero_padded() {
    assert_eq!(format_date_dashed(2026, 3, 7), "2026-03-07");
    assert_eq!(format_date_dashed(999, 12, 31), "0999-12-31");
}

#[test]
fn first_write_of_a_day_gets_a_heading() {
    assert_eq!(
        append_today_content("", 2026, 1, 2, "User: hi\nAssistant: hello\n"),
        "# 2026-01-02\n\nUser: hi\nAssistant: hello\n"
    );
}

#[test]
fn later_writes_append_after_a_newline() {
    assert_eq!(
        append_today_content("# 2026-01-02\n\nfirst\n", 2026, 1, 2, "second\n"),
        "# 2026-01-02\n\nfirst\n\nsecond\n"
    );
}

#[test]
fn context_block_is_empty_when_nothing_exists() {
    assert_eq!(get_memory_context("", &vec![]), "");
}

#[test]
fn context_block_with_only_long_term_notes() {
    assert_eq!(
        get_memory_context("remember the keys", &vec![]),
        "# Memory\n\n## Long-term Memory\n\nremember the keys"
    );
}

#[test]
fn context_block_with_both_sections_joins_days_oldest_first() {
    let notes = vec!["day one".to_string(), "day two".to_string()];
    assert_eq!(
        get_memory_context("keys", &notes),
        "# Memory\n\n## Long-term Memory\n\nkeys\n\n---\n\n## Recent Daily Notes\n\nday one\n\n---\n\nday two"
    );
}

#[test]
fn context_block_with_only_daily_notes() {
    let notes = vec!["just today".to_string()];
    assert_eq!(
        get_memory_context("", &notes),
        "# Memory\n\n## Recent Daily Notes\n\njust today"
    );
}
