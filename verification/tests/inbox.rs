use cmux::inbox::{parse, Action, Content, Inbox, Record};
use cmux::json::{Json, JsonNumber};

fn convert(value: &serde_json::Value) -> Json {
    match value {
        serde_json::Value::Null => Json::Null,
        serde_json::Value::Bool(b) => Json::Bool(*b),
        serde_json::Value::Number(n) => Json::Number(JsonNumber {
            unsigned: n.as_u64(),
            text: n.to_string(),
        }),
        serde_json::Value::String(s) => Json::Str(s.clone()),
        serde_json::Value::Array(a) => Json::Array(a.iter().map(convert).collect()),
        serde_json::Value::Object(m) => {
            Json::Object(m.iter().map(|(k, v)| (k.clone(), convert(v))).collect())
        }
    }
}

fn json(text: &str) -> Json {
    convert(&serde_json::from_str::<serde_json::Value>(text).unwrap())
}

/// Repeated large deliveries evict history and malformed selectors fail before GTK admission.
#[test]
fn retention_and_selector_contracts() {
    let mut inbox = Inbox::default();
    for index in 0..1000 {
        inbox.push(Record {
            id: uuid::Uuid::new_v4().as_u128(),
            workspace_id: uuid::Uuid::nil().as_u128(),
            surface_id: uuid::Uuid::nil().as_u128(),
            content: Content {
                body: "x".repeat(8192),
                ..Default::default()
            },
            created_at: "now".into(),
            is_read: index % 2 == 0,
        });
    }
    assert!(inbox.records.len() < 128);
    assert!(inbox.records.iter().all(|record| !record.is_read));
    let nil = uuid::Uuid::nil().to_string();
    for params in [
        json("{}"),
        json(r#"{"all": "true"}"#),
        json(r#"{"id": "bad"}"#),
        json(&format!(r#"{{"all": true, "workspace_id": "{nil}"}}"#)),
    ] {
        assert!(parse("notification.mark_read", &params).is_err());
    }
    assert!(parse(
        "notification.create_for_surface",
        &json(r#"{"surface_id": "missing"}"#)
    )
    .is_err());
    assert!(parse(
        "notification.create",
        &json(&format!(r#"{{"body": "{}"}}"#, "x".repeat(8193)))
    )
    .is_err());
}

/// Creation defaults the title, and each selector rule refuses with its own message.
#[test]
fn selector_rules_and_messages() {
    let id = "67e55044-10b1-426f-9247-bb680e5fe0c8";
    match parse("notification.create", &json(r#"{"body": "done"}"#)).unwrap() {
        Action::Create { content, scope } => {
            assert_eq!(content.title, "Notification");
            assert_eq!(content.body, "done");
            assert!(scope.workspace_id.is_none());
        }
        _ => panic!("create"),
    }
    assert_eq!(
        parse("notification.create", &json(r#"{"title": 5}"#)).err(),
        Some("notification content must be strings")
    );
    assert_eq!(
        parse("notification.create_for_target", &json(&format!(r#"{{"surface_id": "{id}"}}"#))).err(),
        Some("workspace_id is required")
    );
    assert_eq!(
        parse("notification.clear", &json(r#"{"caller": true}"#)).err(),
        Some("caller resolution is not supported; pass explicit workspace_id/surface_id")
    );
    match parse("notification.clear", &json(&format!(r#"{{"id": "{id}"}}"#))).unwrap() {
        Action::Clear(scope) => {
            assert_eq!(scope.workspace_id, Some(uuid::Uuid::parse_str(id).unwrap().as_u128()))
        }
        _ => panic!("clear"),
    }
    assert_eq!(
        parse("notification.clear", &json(&format!(r#"{{"id": "{id}", "tab_id": "{id}"}}"#))).err(),
        Some("use id or workspace_id, not both")
    );
    assert_eq!(
        parse("notification.dismiss", &json(r#"{"all_read": false}"#)).err(),
        Some("select id or all_read")
    );
    assert_eq!(parse("notification.open", &json("{}")).err(), Some("id is required"));
    assert!(matches!(
        parse("notification.jump_to_unread", &json("{}")),
        Ok(Action::JumpToUnread)
    ));
    assert_eq!(parse("notification.other", &json("{}")).err(), Some("unknown notification operation"));
    assert_eq!(
        parse("notification.open", &json(r#"{"workspace_id": "x", "tab_id": "y"}"#)).err(),
        Some("invalid notification target UUID")
    );
}

/// Restoration drops invalid records before applying the same retention bounds.
#[test]
fn restored_history_is_validated() {
    let record = |title: &str, created: &str| Record {
        id: 1,
        workspace_id: 2,
        surface_id: 3,
        content: Content { title: title.into(), subtitle: String::new(), body: String::new() },
        created_at: created.into(),
        is_read: false,
    };
    let inbox = Inbox {
        records: vec![record("ok", "now"), record("bad\0", "now"), record("ok", &"t".repeat(65))],
    }
    .validated();
    assert_eq!(inbox.records.len(), 1);
    assert_eq!(inbox.records[0].content.title, "ok");
    let mut small = Inbox::default();
    for i in 0..300u128 {
        let mut r = record("x", "now");
        r.id = i;
        small.push(r);
    }
    assert_eq!(small.records.len(), 256);
    assert_eq!(small.records[0].id, 44);
}

/// Content limits count bytes and reject NUL.
#[test]
fn content_validation_limits() {
    let mut content = Content::default();
    assert!(content.validate().is_ok());
    content.title = "t".repeat(512);
    assert!(content.validate().is_ok());
    content.title.push('t');
    assert_eq!(content.validate().err(), Some("notification fields exceed limits or contain NUL"));
    content.title = "界".repeat(171);
    assert!(content.validate().is_err());
}
