use cmux::resume_command::literal_arguments;
use cmux::scrollback::replay_text;

/// Plain words joined by single spaces read as those words; NUL, empty and quote-only commands
/// are refused.
#[test]
fn plain_words_and_refusals() {
    assert_eq!(
        literal_arguments("git log --oneline -n:5"),
        Some(vec!["git".to_string(), "log".to_string(), "--oneline".to_string(), "-n:5".to_string()])
    );
    assert_eq!(literal_arguments("a\0b"), None);
    assert_eq!(literal_arguments(""), None);
    assert_eq!(literal_arguments("''"), None);
    assert_eq!(literal_arguments("'' x"), None);
}

/// Control-free text replays unchanged between resets.
#[test]
fn plain_text_replays_unchanged() {
    assert_eq!(replay_text("hello\tworld\r\n").as_deref(), Some("\x1b[0mhello\tworld\r\n\x1b[0m"));
}
