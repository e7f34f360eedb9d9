use cmux::json::{Json, JsonNumber};
use cmux::palette::action_items;

fn convert(value: &serde_json::Value) -> Json {
    match value {
        serde_json::Value::Null => Json::Null,
        serde_json::Value::Bool(b) => Json::Bool(*b),
        serde_json::Value::Number(n) => Json::Number(JsonNumber {
            unsigned: n.as_u64(),
            text: n.to_string(),
        }),
        serde_json::Value::String(s) => Json::Str(s.clone()),
        serde_json::Value::Array(a) => Json::Array(a.iter().map(convert).collect()),
        serde_json::Value::Object(m) => {
            Json::Object(m.iter().map(|(k, v)| (k.clone(), convert(v))).collect())
        }
    }
}

fn json(text: &str) -> Json {
    convert(&serde_json::from_str::<serde_json::Value>(text).unwrap())
}

/// Palette extraction excludes metadata and explicitly hidden actions without interpreting markup.
#[test]
fn extracts_visible_executable_actions() {
    let workspace = uuid::Uuid::new_v4().as_u128();
    let result = json(&format!(
        r#"{{"config":{{"actions":{{
            "visible":{{"source":"/tmp/cmux.json","fingerprint":"{}",
                "definition":{{"title":"Build","description":"Compile"}},"intent":{{"type":"command"}}}},
            "hidden":{{"source":"/tmp/cmux.json","fingerprint":"{}",
                "definition":{{"palette":false}},"intent":{{"type":"command"}}}},
            "metadata":{{"source":"/tmp/cmux.json","fingerprint":"{}",
                "definition":{{"title":"Label"}},"intent":{{"type":"metadata"}}}}
        }}}}}}"#,
        "a".repeat(64),
        "b".repeat(64),
        "c".repeat(64)
    ));
    let items = action_items(&result, workspace);
    assert_eq!(items.len(), 1);
    assert_eq!(items[0].id, "visible");
    assert_eq!(items[0].title, "Build");
    assert_eq!(items[0].subtitle, "Compile");
    assert_eq!(items[0].workspace, workspace);
}

#[test]
fn entry_texts_fall_back_in_order() {
    let result = json(
        r#"{"config":{"actions":{
            "a":{"fingerprint":"f1","definition":{"subtitle":"S","description":"D"}},
            "b":{"fingerprint":"f2","definition":{"subtitle":7,"description":"D","title":3}},
            "c":{"definition":{"title":"no fingerprint"}},
            "d":{"fingerprint":5,"definition":{}},
            "e":{"fingerprint":"f5"},
            "f":{"fingerprint":"f6","definition":"plain","intent":{"type":"command"}},
            "g":{"fingerprint":"f7","definition":{"palette":true}}
        }}}"#,
    );
    let items = action_items(&result, 9);
    let summary: Vec<(&str, &str, &str, &str)> = items
        .iter()
        .map(|item| {
            (
                item.id.as_str(),
                item.fingerprint.as_str(),
                item.title.as_str(),
                item.subtitle.as_str(),
            )
        })
        .collect();
    assert_eq!(
        summary,
        vec![
            ("a", "f1", "a", "S"),
            ("b", "f2", "b", ""),
            ("f", "f6", "f", ""),
            ("g", "f7", "g", ""),
        ]
    );
    assert!(action_items(&json(r#"{"config":{"actions":[]}}"#), 1).is_empty());
    assert!(action_items(&json(r#"{"error":{}}"#), 1).is_empty());
}
