use cmux::environment::Environment;
use cmux::resume::ResumeBinding;
use cmux::resume_command::literal_arguments;
use cmux::resume_policy::ResumePolicy;

const KEY: [u8; 32] = [73; 32];

fn environment(entries: &[(&str, &str)]) -> Environment {
    let mut env = Environment::new();
    for (key, value) in entries {
        env.insert(key.to_string(), value.to_string());
    }
    env
}

fn binding(command: &str, cwd: Option<&str>, env: &[(&str, &str)]) -> ResumeBinding {
    ResumeBinding {
        command: command.to_string(),
        name: None,
        kind: None,
        cwd: cwd.map(str::to_string),
        checkpoint_id: None,
        environment: environment(env),
    }
}

/// Token matching respects quotes and empty arguments, while rejecting shell execution escapes.
#[test]
fn literal_prefix_arguments() {
    assert_eq!(
        literal_arguments("'/opt/agent cli' --resume 'id '\\''quoted' ''").unwrap(),
        ["/opt/agent cli", "--resume", "id 'quoted", ""]
    );
    assert_eq!(
        literal_arguments(r#"agent "a\q" '\$HOME'"#).unwrap(),
        ["agent", r"a\q", r"\$HOME"]
    );
    for unsafe_command in [
        "agent x; true",
        "agent x|true",
        "agent $(true)",
        "agent \"$HOME\"",
        "agent `true`",
        "agent x\ntrue",
        "agent *",
        "agent ~/x",
        "agent #comment",
        "agent 'open",
        "agent \\",
        "agent \\\ntrue",
    ] {
        assert!(
            literal_arguments(unsafe_command).is_none(),
            "{unsafe_command:?}"
        );
    }
}

/// Literal metadata validates and invalid launch inputs are rejected.
#[test]
fn binding_roundtrip_and_limits() {
    let mut binding = ResumeBinding {
        command: "tmux attach -t 'a b'".to_string(),
        name: None,
        kind: None,
        cwd: None,
        checkpoint_id: Some("a b".to_string()),
        environment: environment(&[("PROJECT", "value with $ and quotes '")]),
    };
    binding.validate().unwrap();
    let copy = binding.clone();
    assert_eq!(copy.command, binding.command);
    assert_eq!(copy.checkpoint_id, binding.checkpoint_id);
    assert!(copy.environment.same_as(&binding.environment));
    binding.environment.insert("BAD=KEY".into(), "value".into());
    assert!(binding.validate().is_err());
    binding.environment.clear();
    binding.command = "x".repeat(16385);
    assert!(binding.validate().is_err());
    binding.command = "bad\0command".into();
    assert!(binding.validate().is_err());
}

/// Persisted overrides omit secrets and routing identities.
#[test]
fn environment_sanitization() {
    let mut binding = binding("true", None, &[]);
    assert_eq!(binding.environment.len(), 0);
    binding.environment.insert("SERVICE_API_KEY".into(), "secret".into());
    binding.environment.insert("CMUX_SOCKET".into(), "/wrong".into());
    binding.environment.insert("CLAUDE_SECURESTORAGE_CONFIG_DIR".into(), "/settings".into());
    binding.sanitize_environment();
    assert!(binding
        .environment
        .same_as(&environment(&[("CLAUDE_SECURESTORAGE_CONFIG_DIR", "/settings")])));
}

/// Prefix authority permits a new checkpoint but not changed executables, context or shell control.
#[test]
fn signed_prefix_scope_and_integrity() {
    let key = Some(&KEY);
    let mut binding = binding(
        "'/opt/agent cli' --resume 'session one'",
        Some("/tmp/project"),
        &[("PROJECT", "literal $HOME")],
    );
    let mut policy = ResumePolicy::default();
    policy
        .approve_prefix(&binding, "'/opt/agent cli' --resume", key)
        .unwrap();
    binding.command = "'/opt/agent cli' --resume 'session two'".into();
    assert!(policy.allows(&binding, key));
    let restored = policy.clone();
    assert!(restored.validated(key).allows(&binding, key));
    for command in [
        "'/opt/agent cli-other' --resume id",
        "'/opt/agent cli' --resume id; true",
        "'/opt/agent cli' --resume $(true)",
        "'/opt/agent cli' --resume id | true",
    ] {
        let mut changed = binding.clone();
        changed.command = command.into();
        assert!(!policy.allows(&changed, key));
    }
    let mut changed = binding.clone();
    changed.cwd = Some("/other".into());
    assert!(!policy.allows(&changed, key));
    changed = binding.clone();
    changed.environment.clear();
    assert!(!policy.allows(&changed, key));
    policy.approvals[0].command_prefix = Some(vec!["/opt/agent cli".into()]);
    assert!(
        !policy.allows(&binding, key),
        "changing a persisted prefix must invalidate its signature"
    );
}

/// Changing any execution input invalidates approval; copies retain valid authority only.
#[test]
fn signed_approval_matches_exact_launch_and_rejects_tampering() {
    let key = Some(&KEY);
    let binding = binding(
        "agent --resume 'native session'",
        Some("/tmp/project"),
        &[("PROJECT", "literal $HOME")],
    );
    let mut policy = ResumePolicy::default();
    assert!(!policy.allows(&binding, key));
    policy.approve(&binding, key).unwrap();
    policy.approve(&binding, key).unwrap();
    assert_eq!(policy.len(), 1);
    let restored = policy.clone();
    assert!(restored.validated(key).allows(&binding, key));
    for field in ["command", "cwd", "environment"] {
        let mut changed = binding.clone();
        match field {
            "command" => changed.command.push_str("; touch /tmp/unapproved"),
            "cwd" => changed.cwd = Some("/other/project".into()),
            _ => {
                changed.environment.insert("EXTRA".into(), "value".into());
            }
        }
        assert!(!policy.allows(&changed, key));
        let mut tampered = policy.clone();
        tampered.approvals[0].command = changed.command.clone();
        tampered.approvals[0].cwd = changed.cwd.clone().unwrap();
        tampered.approvals[0].environment = changed.environment.clone();
        assert!(!tampered.allows(&changed, key));
        assert_eq!(tampered.validated(key).len(), 0);
    }
    policy.revoke_all();
    assert!(!policy.allows(&binding, key));
    let mut invalid = binding;
    invalid.cwd = None;
    assert!(policy.approve(&invalid, key).is_err());
}

#[test]
fn approved_remote_input_quotes_directory_environment_and_command() {
    let key = Some(&KEY);
    let binding = binding("agent --resume 'a b'", Some("/srv/a b"), &[("PROJECT", "x'y")]);
    let mut policy = ResumePolicy::default();
    policy.approve(&binding, key).unwrap();
    let input = String::from_utf8(policy.remote_shell_input(&binding, key).unwrap()).unwrap();
    assert!(input.starts_with("(cd '/srv/a b' && env PROJECT='x'\\''y' /bin/sh -lc "));
    assert!(input.ends_with(")\r"));
    let mut rejected = binding;
    rejected.command = "other".into();
    assert!(policy.remote_shell_input(&rejected, key).is_none());
}

/// Without the signing key nothing is approved or allowed.
#[test]
fn approvals_need_the_signing_key() {
    let binding = binding("agent --resume x", Some("/tmp/project"), &[]);
    let mut policy = ResumePolicy::default();
    assert!(policy.approve(&binding, None).is_err());
    policy.approve(&binding, Some(&KEY)).unwrap();
    assert!(!policy.allows(&binding, None));
    assert!(!policy.allows(&binding, Some(&[1; 32])));
    assert_eq!(policy.clone().validated(Some(&[1; 32])).len(), 0);
}

/// A relative directory is refused before anything is signed.
#[test]
fn approval_requires_absolute_directory() {
    let binding = binding("agent", Some("relative/dir"), &[]);
    let mut policy = ResumePolicy::default();
    assert!(policy.approve(&binding, Some(&KEY)).is_err());
    assert_eq!(policy.len(), 0);
}

/// Launch commands re-enter the owning CLI and then return to an interactive shell.
#[test]
fn launch_command_reenters_cli() {
    let binding = binding("agent --resume x", Some("/tmp/project"), &[]);
    let mut policy = ResumePolicy::default();
    assert!(policy.launch_command(&binding, "/usr/bin/cmux", Some(&KEY)).is_none());
    policy.approve(&binding, Some(&KEY)).unwrap();
    assert_eq!(
        policy.launch_command(&binding, "/usr/bin/cmux", Some(&KEY)).unwrap(),
        "'/usr/bin/cmux' restore --automatic; exec \"${SHELL:-/bin/sh}\" -i"
    );
}
