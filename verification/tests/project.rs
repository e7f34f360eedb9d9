use cmux::json::{Json, JsonNumber};
use cmux::project_action::{parse, Intent, Target};
use cmux::project_layout::{self, Direction, Layout, SurfaceType};

fn convert(value: &serde_json::Value) -> Json {
    match value {
        serde_json::Value::Null => Json::Null,
        serde_json::Value::Bool(b) => Json::Bool(*b),
        serde_json::Value::Number(n) => Json::Number(JsonNumber {
            unsigned: n.as_u64(),
            text: n.to_string(),
        }),
        serde_json::Value::String(s) => Json::Str(s.clone()),
        serde_json::Value::Array(a) => Json::Array(a.iter().map(convert).collect()),
        serde_json::Value::Object(m) => {
            Json::Object(m.iter().map(|(k, v)| (k.clone(), convert(v))).collect())
        }
    }
}

fn json(text: &str) -> Json {
    convert(&serde_json::from_str::<serde_json::Value>(text).unwrap())
}

/// Explicit type wins inference; command text is literal and the target defaults to a new tab.
#[test]
fn command_semantics_and_inference() {
    let (intent, target) = parse(json(r#"{"command":"  echo '$HOME'\n"}"#)).unwrap();
    assert_eq!(
        intent,
        Intent::Command {
            command: "  echo '$HOME'\n".into()
        }
    );
    assert_eq!(target, Target::NewTabInCurrentPane);
    let (intent, target) = parse(json(
        r#"{"type":"command","command":"pwd","agent":"aider","target":"currentTerminal"}"#,
    ))
    .unwrap();
    assert_eq!(
        intent,
        Intent::Command {
            command: "pwd".into()
        }
    );
    assert_eq!(target, Target::CurrentTerminal);
}

/// Malformed executable fields cannot be mistaken for metadata-only definitions.
#[test]
fn rejects_malformed_actions() {
    for value in [
        json(r#"{"command":" "}"#),
        json(r#"{"command":5}"#),
        json(r#"{"agent":"x; echo bad"}"#),
        json(r#"{"type":"unknown"}"#),
        json(r#"{"target":"elsewhere"}"#),
        json(r#"{"confirm":"true"}"#),
    ] {
        assert!(parse(value).is_err());
    }
}

/// A mixed terminal/browser split retains launch fields and carries its ratio for clamping.
#[test]
fn parses_mixed_layout_and_rejects_ambiguous_nodes() {
    let leaf = r#"{"pane":{"surfaces":[{"type":"terminal","command":"echo hi"},{"type":"browser","url":"http://localhost:3000"}]}}"#;
    let parsed = project_layout::parse(&json(&format!(
        r#"{{"layout":{{"direction":"horizontal","split":2,"children":[{leaf},{leaf}]}}}}"#
    )))
    .unwrap();
    let Some(Layout::Split {
        direction,
        split,
        start,
        end,
    }) = parsed.layout
    else {
        panic!("missing split")
    };
    assert!(direction == Direction::Horizontal);
    let split = split.unwrap();
    assert_eq!(split.unsigned, Some(2));
    assert_eq!(split.text.parse::<f64>().unwrap().clamp(0.1, 0.9), 0.9);
    for child in [start, end] {
        let Layout::Pane { pane } = *child else {
            panic!("pane")
        };
        assert_eq!(pane.surfaces.len(), 2);
        assert!(pane.surfaces[0].kind == SurfaceType::Terminal);
        assert_eq!(pane.surfaces[0].command.as_deref(), Some("echo hi"));
        assert!(pane.surfaces[1].kind == SurfaceType::Browser);
        assert_eq!(pane.surfaces[1].url.as_deref(), Some("http://localhost:3000"));
    }
    assert!(project_layout::parse(&json(r#"{"layout":{"pane":{"surfaces":[]}}}"#)).is_err());
    assert!(project_layout::parse(&json(
        r#"{"layout":{"pane":{"surfaces":[{"type":"terminal"}]},"direction":"horizontal"}}"#
    ))
    .is_err());
    assert!(project_layout::parse(&json(r#"{"env":{"BAD=KEY":"value"}}"#)).is_err());
}

/// Each action family carries its own fields; errors name the failing field.
#[test]
fn action_families_and_errors() {
    let (intent, _) = parse(json(r#"{"agent":"aider","args":"--resume"}"#)).unwrap();
    assert_eq!(
        intent,
        Intent::Agent {
            agent: "aider".into(),
            args: Some("--resume".into())
        }
    );
    let (intent, _) = parse(json(r#"{"type":" workspaceCommand ","name":"dev"}"#)).unwrap();
    assert_eq!(intent, Intent::WorkspaceCommand { name: "dev".into() });
    let (intent, _) = parse(json(r#"{"title":"only metadata"}"#)).unwrap();
    assert_eq!(intent, Intent::Metadata);
    let (intent, target) = parse(json(r#"{"workspace":{"name":"w"},"target":{"currentTerminal":null}}"#)).unwrap();
    assert!(matches!(intent, Intent::Workspace { .. }));
    assert_eq!(target, Target::CurrentTerminal);
    assert_eq!(
        parse(json(r#"{"command":" "}"#)).unwrap_err(),
        "invalid or missing action command"
    );
    assert_eq!(parse(json(r#"{"palette":1}"#)).unwrap_err(), "action palette must be boolean");
    assert_eq!(
        parse(json(r#"{"keywords":"x"}"#)).unwrap_err(),
        "action keywords must be an array"
    );
    assert_eq!(
        parse(json(r#"{"type":"workspaceCommand"}"#)).unwrap_err(),
        "workspaceCommand requires commandName"
    );
    assert_eq!(
        parse(json(r#"{"workspace":3}"#)).unwrap_err(),
        "workspace action requires an object"
    );
}

/// Environment limits and layout bounds report their own errors.
#[test]
fn workspace_environment_and_bounds() {
    let parsed = project_layout::parse(&json(r#"{"name":"w","env":{"A_1":"x","B":"y"}}"#)).unwrap();
    assert_eq!(parsed.env.len(), 2);
    assert_eq!(parsed.env.key(0), "A_1");
    assert_eq!(
        project_layout::parse(&json(r#"{"env":{"A":1}}"#)).err().as_deref(),
        Some("environment values must be strings")
    );
    assert_eq!(
        project_layout::parse(&json(r#"{"env":[]}"#)).err().as_deref(),
        Some("workspace environment must be an object")
    );
    assert_eq!(
        project_layout::parse(&json(r#"{"layout":{"direction":"diagonal","children":[{},{}]}}"#))
            .err()
            .as_deref(),
        Some("unknown split direction")
    );
    assert_eq!(
        project_layout::parse(&json(r#"{"layout":{"direction":"vertical","children":[{}]}}"#))
            .err()
            .as_deref(),
        Some("split requires exactly two children")
    );
    assert_eq!(
        project_layout::parse(&json("[]")).err().as_deref(),
        Some("workspace action requires an object")
    );
}
