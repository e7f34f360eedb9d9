use cmux::json::{Json, JsonNumber};
use cmux::project_config::{
    check_depth, check_document, check_size, read_document, ConfigError, Resolved, MAX_ACTIONS,
};
use std::path::PathBuf;

fn convert(value: &serde_json::Value) -> Json {
    match value {
        serde_json::Value::Null => Json::Null,
        serde_json::Value::Bool(b) => Json::Bool(*b),
        serde_json::Value::Number(n) => Json::Number(JsonNumber {
            unsigned: n.as_u64(),
            text: n.to_string(),
        }),
        serde_json::Value::String(s) => Json::Str(s.clone()),
        serde_json::Value::Array(a) => Json::Array(a.iter().map(convert).collect()),
        serde_json::Value::Object(m) => {
            Json::Object(m.iter().map(|(k, v)| (k.clone(), convert(v))).collect())
        }
    }
}

fn json(text: &str) -> Json {
    convert(&serde_json::from_str::<serde_json::Value>(text).unwrap())
}

fn title(resolved: &Resolved, id: &str) -> Option<Json> {
    let (_, action) = resolved.actions.iter().find(|(key, _)| key == id)?;
    match &action.definition {
        Json::Object(members) => members
            .iter()
            .find(|(key, _)| key == "title")
            .map(|(_, v)| match v {
                Json::Str(s) => Json::Str(s.clone()),
                _ => Json::Null,
            }),
        _ => None,
    }
}

/// The nearest preferred file overrides global entries; definitions are kept, never run.
#[test]
fn nearest_file_overrides_global_entries() {
    let global = PathBuf::from("/home/u/.config/cmux/global.json");
    let local = PathBuf::from("/w/project/.cmux/cmux.json");
    let mut resolved = Resolved::new(PathBuf::from("/w/project/nested"));
    resolved
        .merge(
            global.clone(),
            json(r#"{"actions":{"global":{"command":"exit 1"},"same":{"title":"global"}}}"#),
        )
        .unwrap();
    resolved
        .merge(local.clone(), json(r#"{"actions":{"same":{"title":"local"}}}"#))
        .unwrap();
    let keys: Vec<&str> = resolved.actions.iter().map(|(k, _)| k.as_str()).collect();
    assert_eq!(keys, vec!["global", "same"]);
    assert_eq!(title(&resolved, "same"), Some(Json::Str("local".into())));
    let (_, same) = resolved.actions.iter().find(|(k, _)| k == "same").unwrap();
    assert!(same.source.ends_with("project/.cmux/cmux.json"));
    let (_, global_action) = resolved.actions.iter().find(|(k, _)| k == "global").unwrap();
    assert_eq!(global_action.source, global);
    assert_eq!(resolved.sources, vec![global, local]);
}

#[test]
fn malformed_documents_are_refused() {
    let source = PathBuf::from("/p/cmux.json");
    let mut resolved = Resolved::new(PathBuf::from("/p"));
    assert_eq!(
        resolved.merge(source.clone(), json(r#"{"actions":[1]}"#)),
        Err(ConfigError::ActionsNotObject)
    );
    assert_eq!(
        resolved.merge(source.clone(), json(r#"{"actions":null}"#)),
        Err(ConfigError::ActionsNotObject)
    );
    for doc in [
        r#"{"actions":{"":{}}}"#,
        r#"{"actions":{"a\u0007":{}}}"#,
        r#"{"actions":{"a\u0085":{}}}"#,
        r#"{"actions":{"ok":"not an object"}}"#,
    ] {
        assert_eq!(
            resolved.merge(source.clone(), json(doc)),
            Err(ConfigError::InvalidAction),
            "{doc}"
        );
    }
    let long = format!(r#"{{"actions":{{"{}":{{}}}}}}"#, "x".repeat(129));
    assert_eq!(
        resolved.merge(source.clone(), json(&long)),
        Err(ConfigError::InvalidAction)
    );
    assert!(resolved.sources.is_empty());
    assert_eq!(resolved.merge(source.clone(), json(r#"{"other":1}"#)), Ok(()));
    assert_eq!(resolved.sources.len(), 1);
    assert!(resolved.actions.is_empty());
    assert_eq!(
        ConfigError::InvalidAction.message(),
        "action IDs must be nonempty bounded strings and definitions must be objects"
    );
}

#[test]
fn registry_is_bounded() {
    let source = PathBuf::from("/p/cmux.json");
    let mut resolved = Resolved::new(PathBuf::from("/p"));
    let members: Vec<String> = (0..MAX_ACTIONS).map(|i| format!(r#""a{i:03}":{{}}"#)).collect();
    let doc = format!(r#"{{"actions":{{{}}}}}"#, members.join(","));
    assert_eq!(resolved.merge(source.clone(), json(&doc)), Ok(()));
    assert_eq!(resolved.actions.len(), MAX_ACTIONS);
    assert_eq!(
        resolved.merge(source.clone(), json(r#"{"actions":{"a000":{"title":"x"}}}"#)),
        Ok(())
    );
    assert_eq!(
        resolved.merge(source.clone(), json(r#"{"actions":{"zzz":{}}}"#)),
        Err(ConfigError::TooManyActions)
    );
    assert_eq!(
        ConfigError::TooManyActions.message(),
        "project action registry exceeds 256 entries"
    );
}

#[test]
fn file_and_walk_limits() {
    assert_eq!(check_size(256 * 1024), Ok(()));
    assert_eq!(check_size(256 * 1024 + 1), Err(ConfigError::TooLarge));
    assert_eq!(check_depth(63), Ok(()));
    assert_eq!(check_depth(64), Err(ConfigError::TooDeep));
    assert!(check_document(json("{}")).is_ok());
    assert_eq!(check_document(json("[]")), Err(ConfigError::NotObject));
    assert_eq!(
        ConfigError::TooDeep.message(),
        "project ancestor lookup exceeds 64 directories"
    );
}

#[test]
fn configuration_bytes_are_read_as_one_object() {
    let value = read_document(b"{\"actions\":{\"a\":{\"title\":\"A\"}}}").unwrap();
    assert_eq!(value, json("{\"actions\":{\"a\":{\"title\":\"A\"}}}"));
    assert_eq!(read_document(b"{\"actions\":"), Err(ConfigError::InvalidJson));
    assert_eq!(
        ConfigError::InvalidJson.message(),
        "project configuration is not valid JSON"
    );
    assert_eq!(read_document(b"[1]"), Err(ConfigError::NotObject));
    let mut large = b"{\"pad\":\"".to_vec();
    large.resize(256 * 1024 + 1, b'x');
    assert_eq!(read_document(&large), Err(ConfigError::TooLarge));
}
