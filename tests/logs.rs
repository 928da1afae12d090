use hersir::logs::{lines_matching, text_contains, LogEntry, LogLevel};

fn entry(level: LogLevel, message: &str) -> LogEntry {
    LogEntry { level, message: message.to_string() }
}

#[test]
fn lines_at_level_matching_text() {
    let entries = vec![
        entry(LogLevel::Info, "protocol handshake with peer failed: unsupported protocol version"),
        entry(LogLevel::Error, "connection to peer failed: Block0Mismatch"),
        entry(LogLevel::Info, "connection to peer failed: Block0Mismatch"),
        entry(LogLevel::Info, "bootstrapped"),
    ];
    assert_eq!(
        lines_matching(&entries, LogLevel::Info, "Block0Mismatch"),
        vec!["connection to peer failed: Block0Mismatch".to_string()]
    );
    assert_eq!(lines_matching(&entries, LogLevel::Error, ""), vec!["connection to peer failed: Block0Mismatch".to_string()]);
    assert!(lines_matching(&entries, LogLevel::Warn, "").is_empty());
    assert_eq!(lines_matching(&entries, LogLevel::Info, "").len(), 3);
}

#[test]
fn text_search() {
    assert!(text_contains("unsupported protocol version", "protocol"));
    assert!(text_contains("abc", ""));
    assert!(text_contains("abc", "abc"));
    assert!(!text_contains("abc", "abcd"));
    assert!(!text_contains("abcabd", "abe"));
    assert!(text_contains("aaab", "aab"));
    assert!(text_contains("héllo wörld", "ö"));
}
