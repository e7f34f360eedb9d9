use cmux::scrollback::{replay_text, validate_session, validate_tree, HistoryTree, MAX_BYTES};

/// Replay retains wide/combining text and rich styling while suppressing effectful terminal commands.
#[test]
fn replay_filters_control_channels_and_keeps_styles() {
    let source = "\x1b]11;#ffffff\x07\x1b]52;c;clipboard\x1b\\\x1b]9;notification\x07\x1bPsecret\x1b\\\x1b[2J\x1b[?2004h\x1b[38:2::1:2:3m界e\u{301}\tbold\r\n\x1b[0m";
    let filtered = replay_text(source).unwrap();
    assert_eq!(
        filtered,
        "\x1b[0m\x1b[38:2::1:2:3m界e\u{301}\tbold\r\n\x1b[0m\x1b[0m"
    );
    for unfinished in [
        "visible\x1b]52;c;secret",
        "visible\x1b[38;2;",
        "visible\x1bPprivate",
    ] {
        assert_eq!(replay_text(unfinished).unwrap(), "\x1b[0mvisible\x1b[0m");
    }
}

/// Loaded histories share a budget and edited effectful bytes are removed before widget ownership.
#[test]
fn loaded_history_is_normalized_and_aggregate_bounded() {
    let mut tree = HistoryTree::Pane {
        histories: vec![
            Some("\u{1b}]52;c;secret\u{7}visible".to_string()),
            Some("too much remaining history".to_string()),
        ],
    };
    let mut budget = 16;
    validate_tree(&mut tree, &mut budget, 0);
    let HistoryTree::Pane { histories } = tree else {
        panic!("pane");
    };
    assert_eq!(histories[0].as_deref(), Some("\x1b[0mvisible\x1b[0m"));
    assert!(histories[1].is_none());
    assert_eq!(budget, 1);
}

/// Output caps include resets and never split multibyte characters or complete styling sequences.
#[test]
fn replay_budget_includes_boundaries() {
    assert!(replay_text(&"x".repeat(MAX_BYTES + 1)).is_none());
    let text = replay_text(&"界".repeat(MAX_BYTES / 3)).unwrap();
    assert!(text.len() <= MAX_BYTES && text.ends_with("\x1b[0m"));
    assert_eq!(text.matches('界').count(), (MAX_BYTES - 8) / 3);
}

/// Intermediate-byte escapes and lone controls disappear; tabs and line breaks stay.
#[test]
fn replay_drops_other_escapes_and_controls() {
    assert_eq!(replay_text("a\x1b(Bb\x07c\x00d\te").unwrap(), "\x1b[0mabcd\te\x1b[0m");
    assert_eq!(replay_text("").unwrap(), "\x1b[0m\x1b[0m");
    let long_sgr = format!("\x1b[{}m", "1;".repeat(200));
    assert_eq!(replay_text(&long_sgr).unwrap(), "\x1b[0m\x1b[0m");
}

/// Subtrees deeper than the restore limit are left as they are; splits share one budget.
#[test]
fn session_budget_is_shared_across_workspaces() {
    let pane = |text: &str| HistoryTree::Pane { histories: vec![Some(text.to_string())] };
    let mut layouts = vec![
        HistoryTree::Split { start: Box::new(pane("one")), end: Box::new(HistoryTree::Leaf) },
        pane("two\x07"),
    ];
    validate_session(&mut layouts);
    let HistoryTree::Split { start, .. } = &layouts[0] else {
        panic!("split");
    };
    let HistoryTree::Pane { histories } = start.as_ref() else {
        panic!("pane");
    };
    assert_eq!(histories[0].as_deref(), Some("\x1b[0mone\x1b[0m"));
    let HistoryTree::Pane { histories } = &layouts[1] else {
        panic!("pane");
    };
    assert_eq!(histories[0].as_deref(), Some("\x1b[0mtwo\x1b[0m"));
    let mut deep = pane("\x1b]52;c;x\x07kept as is");
    for _ in 0..17 {
        deep = HistoryTree::Split { start: Box::new(HistoryTree::Leaf), end: Box::new(deep) };
    }
    let mut budget = 1000;
    validate_tree(&mut deep, &mut budget, 0);
    assert_eq!(budget, 1000);
}
