use cmux::remote_transport::{mosh_command, validate_tmux_session, TerminalProfile};

#[test]
fn mosh_builder_probes_and_preserves_remote_intent() {
    let command = mosh_command(
        "dev@example",
        Some("/opt/team repo"),
        &TerminalProfile::Tmux,
        Some("agent-main"),
    )
    .unwrap();
    assert!(command.contains("--experimental-remote-ip=proxy"));
    assert!(command.contains("mosh-server"));
    assert!(command.contains("agent-main"));
    assert!(command.contains("/opt/team repo"));
    assert!(command.contains("continuing over SSH"));
    assert!(!command.contains("eval"));
}

#[test]
fn mosh_builder_rejects_ambiguous_inputs() {
    assert!(mosh_command("host; touch /tmp/no", None, &TerminalProfile::Shell, None).is_err());
    assert!(mosh_command("host", Some("tmp"), &TerminalProfile::Shell, None).is_err());
    assert!(mosh_command("host", None, &TerminalProfile::Tmux, Some("bad session")).is_err());
}

/// Session names are bounded literal tokens.
#[test]
fn tmux_session_names() {
    assert!(validate_tmux_session("agent-main").is_ok());
    assert!(validate_tmux_session("").is_err());
    assert!(validate_tmux_session("a b").is_err());
}
