use redclaw::builtin::{
    format_dir_listing, format_search_results, guard_command, read_file_report, web_fetch_text,
    ExecTool, ListDirTool, ReadFileTool, SearchResult, SysInfoTool, WebFetchTool, WebSearchTool,
    WriteFileTool,
};
use redclaw::utils::rss_kb_from_statm;

#[test]
fn dangerous_commands_are_blocked_with_the_pattern_named() {
    let msg = guard_command("rm -rf /").expect("rm -rf must be blocked");
    assert_eq!(
        msg,
        "Security Error: Command blocked. Dangerous pattern 'rm -rf' detected."
    );
    assert!(guard_command("sudo SHUTDOWN now").is_some());
    assert!(guard_command("echo mkfs.ext4").is_some());
    assert!(guard_command("ls -la /tmp").is_none());
    assert!(guard_command("cargo build").is_none());
}

#[test]
fn the_first_matching_pattern_wins() {
    // `rm -rf` precedes `rm -r` in the list and both occur.
    let msg = guard_command("rm -rf x").unwrap();
    assert!(msg.contains("'rm -rf'"));
}

#[test]
fn read_reports_are_truncated_only_over_the_limit() {
    assert_eq!(read_file_report("abc", false), "abc");
    assert_eq!(
        read_file_report("abc", true),
        "abc\n... (truncated: file exceeds 256KB safety limit)"
    );
}

#[test]
fn dir_listings_mark_directories_and_files() {
    let entries = vec![
        (true, "sub".to_string()),
        (false, "a.txt".to_string()),
    ];
    assert_eq!(format_dir_listing(&entries), "DIR:  sub\nFILE: a.txt\n");
    assert_eq!(format_dir_listing(&vec![]), "");
}

#[test]
fn search_reports_number_results_from_one() {
    let results = vec![
        SearchResult {
            title: "First".to_string(),
            url: "https://one.example".to_string(),
            description: "the first hit".to_string(),
        },
        SearchResult {
            title: "Second".to_string(),
            url: "https://two.example".to_string(),
            description: "the second hit".to_string(),
        },
    ];
    assert_eq!(
        format_search_results("verus", &results),
        "Results for: verus\n1. First\n   https://one.example\n   the first hit\n2. Second\n   https://two.example\n   the second hit\n"
    );
}

#[test]
fn fetched_pages_lose_markup_and_extra_whitespace() {
    assert_eq!(
        web_fetch_text("<html><body><p>Hello   brave\n world</p></body></html>"),
        "Hello brave world"
    );
    assert_eq!(web_fetch_text("no markup at all"), "no markup at all");
    assert_eq!(web_fetch_text("a>b<c"), "b c");
}

#[test]
fn long_fetched_pages_are_cut_with_a_note() {
    let page = "x".repeat(6000);
    let text = web_fetch_text(&page);
    assert_eq!(text.len(), 5000 + "... (truncated)".len());
    assert!(text.ends_with("... (truncated)"));
}

#[test]
fn statm_pages_are_reported_as_kilobytes() {
    assert_eq!(rss_kb_from_statm("8222 1249 1078 12 0 720 0"), 4996);
    assert_eq!(rss_kb_from_statm("8222"), 0);
    assert_eq!(rss_kb_from_statm(""), 0);
    assert_eq!(rss_kb_from_statm("8222 not-a-number 3"), 0);
    assert_eq!(rss_kb_from_statm("1 99999999999999999999999999 3"), 0);
}

#[test]
fn declared_tools_carry_their_schemas() {
    assert_eq!(ReadFileTool.name(), "read_file");
    assert_eq!(WriteFileTool.name(), "write_file");
    assert_eq!(ListDirTool.name(), "list_dir");
    let exec = ExecTool { working_dir: "/tmp".to_string() };
    assert_eq!(exec.name(), "exec");
    assert!(exec.guard("rm -rf /").is_some());
    assert!(exec.guard("ls").is_none());
    let search = WebSearchTool { api_key: "k".to_string(), max_results: 5 };
    assert_eq!(search.name(), "web_search");
    assert_eq!(WebFetchTool.name(), "web_fetch");
    assert_eq!(SysInfoTool.name(), "get_sys_info");
    assert_eq!(SysInfoTool.parameters(), "{}");
    let d = ListDirTool.definition();
    assert_eq!(d.function.name, "list_dir");
    assert!(d.function.parameters.contains("\"path\""));
}
