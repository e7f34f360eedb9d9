use cmux::dispatch::{decode_call, decode_envelope, decode_line, Request, SplitDirection};
use cmux::framing::{frame_request, FrameError, MAX_REQUEST_BYTES};
use cmux::json::{Json, JsonNumber};
use cmux::resume::ResumeAction;

fn convert(value: &serde_json::Value) -> Json {
    match value {
        serde_json::Value::Null => Json::Null,
        serde_json::Value::Bool(b) => Json::Bool(*b),
        serde_json::Value::Number(n) => Json::Number(JsonNumber {
            unsigned: n.as_u64(),
            text: n.to_string(),
        }),
        serde_json::Value::String(s) => Json::Str(s.clone()),
        serde_json::Value::Array(a) => Json::Array(a.iter().map(convert).collect()),
        serde_json::Value::Object(m) => {
            Json::Object(m.iter().map(|(k, v)| (k.clone(), convert(v))).collect())
        }
    }
}

fn json(text: &str) -> Json {
    convert(&serde_json::from_str::<serde_json::Value>(text).unwrap())
}

fn refusal(method: &str, params: &str) -> (&'static str, String) {
    match decode_call(method, json(params)) {
        Err(e) => (e.code, e.message),
        Ok(_) => panic!("{method} admitted"),
    }
}

/// Envelopes need an object, a string method and object or null parameters.
#[test]
fn envelope_rules() {
    let (id, method, params) = decode_envelope(json(r#"{"id":7,"method":"system.ping"}"#)).unwrap();
    assert!(matches!(id, Json::Number(JsonNumber { unsigned: Some(7), .. })));
    assert_eq!(method, "system.ping");
    assert!(matches!(params, Json::Object(ref m) if m.is_empty()));
    let (id, err) = decode_envelope(json("[]")).unwrap_err();
    assert!(matches!(id, Json::Null));
    assert_eq!((err.code, err.message.as_str()), ("invalid_request", "request must be an object"));
    let (id, err) = decode_envelope(json(r#"{"id":"a","method":3}"#)).unwrap_err();
    assert!(matches!(id, Json::Str(ref s) if s == "a"));
    assert_eq!(err.message, "method must be a string");
    let (_, err) = decode_envelope(json(r#"{"method":"x","params":[1]}"#)).unwrap_err();
    assert_eq!((err.code, err.message.as_str()), ("invalid_params", "params must be an object or null"));
    assert!(decode_envelope(json(r#"{"method":"x","params":null}"#)).is_ok());
}

/// Terminal targets are optional strings; split directions are validated.
#[test]
fn invalid_split_directions_and_targets() {
    assert_eq!(
        refusal("surface.split", r#"{"direction":"diagonal"}"#),
        ("invalid_params", "direction must be horizontal or vertical".to_string())
    );
    assert_eq!(
        refusal("surface.send_text", r#"{"id":5,"text":"x"}"#),
        ("invalid_params", "id must be a string or null".to_string())
    );
    match decode_call("surface.split", json(r#"{"id":"abc","direction":"vertical"}"#)).unwrap() {
        Request::SurfaceSplit { id, direction } => {
            assert_eq!(id.as_deref(), Some("abc"));
            assert!(direction == SplitDirection::Vertical);
        }
        _ => panic!("split"),
    }
    assert_eq!(
        refusal("surface.send_key", r#"{}"#),
        ("invalid_params", "key must be a string".to_string())
    );
    assert_eq!(
        refusal("nope.method", r#"{}"#),
        ("not_implemented", "nope.method is not implemented".to_string())
    );
}

/// Reorders need 1 to 4096 UUIDs and an in-range position.
#[test]
fn invalid_reorder_positions_and_lists() {
    assert_eq!(
        refusal("workspace.reorder", r#"{"position":-1}"#).1,
        "position must be a nonnegative integer within the native index range"
    );
    assert_eq!(
        refusal("workspace.reorder_many", r#"{"workspace_ids":[]}"#).1,
        "workspace_ids must contain 1..4096 UUIDs"
    );
    assert_eq!(
        refusal("workspace.reorder_many", r#"{"order":["nope"]}"#).1,
        "invalid workspace UUID"
    );
    let id = "67e55044-10b1-426f-9247-bb680e5fe0c8";
    match decode_call("workspace.reorder_many", json(&format!(r#"{{"order":["{id}"],"dry_run":true}}"#))).unwrap() {
        Request::WorkspaceReorderMany { order, dry_run } => {
            assert_eq!(order, vec![uuid::Uuid::parse_str(id).unwrap().as_u128()]);
            assert!(dry_run);
        }
        _ => panic!("reorder"),
    }
    match decode_call("workspace.reorder", json(r#"{"id":"w","position":3}"#)).unwrap() {
        Request::WorkspaceReorder { id, position } => assert_eq!((id.as_str(), position), ("w", 3)),
        _ => panic!("reorder"),
    }
}

/// Resume operations validate bindings and never enable automatic resume.
#[test]
fn resume_requests() {
    assert_eq!(
        refusal("surface.resume.set", r#"{"command":"true","auto_resume":true}"#).0,
        "not_supported"
    );
    assert_eq!(
        refusal("surface.resume.set", r#"{"command":5}"#).1,
        "invalid resume binding fields"
    );
    assert_eq!(
        refusal("surface.resume.show", r#"{"surface_id":"x"}"#).1,
        "surface_id must be a UUID"
    );
    match decode_call(
        "surface.resume.set",
        json(r#"{"command":"agent","environment":{"API_TOKEN":"s","PROJECT":"p"}}"#),
    )
    .unwrap()
    {
        Request::SurfaceResume { id, action: ResumeAction::SetBinding(binding) } => {
            assert!(id.is_none());
            assert_eq!(binding.command, "agent");
            assert_eq!(binding.environment.len(), 1);
            assert_eq!(binding.environment.key(0), "PROJECT");
        }
        _ => panic!("resume"),
    }
}

/// Project actions need a review fingerprint; browser methods route generically.
#[test]
fn project_and_browser_requests() {
    assert_eq!(
        refusal("project.actions.run", r#"{"action_id":"a","fingerprint":"xyz"}"#).1,
        "review fingerprint required"
    );
    let fingerprint = "a".repeat(64);
    match decode_call(
        "project.actions.run",
        json(&format!(r#"{{"action_id":"a","fingerprint":"{fingerprint}","confirmed":true}}"#)),
    )
    .unwrap()
    {
        Request::ProjectActionRun { workspace, action_id, confirmed, .. } => {
            assert!(workspace.is_none());
            assert_eq!(action_id, "a");
            assert!(confirmed);
        }
        _ => panic!("run"),
    }
    match decode_call("browser.navigate", json(r#"{"surface_ref":"s1"}"#)).unwrap() {
        Request::BrowserAction { action, surface_ref, .. } => {
            assert_eq!(action, "navigate");
            assert_eq!(surface_ref.as_deref(), Some("s1"));
        }
        _ => panic!("browser"),
    }
    assert_eq!(refusal("ports.list", r#"{"surface_id":1}"#).1, "invalid scope UUID");
    assert_eq!(refusal("notification.open", r#"{}"#).1, "id is required");
}

/// A started request line ends at its newline, within the limit and in UTF-8.
#[test]
fn request_line_framing() {
    assert_eq!(frame_request("€\r\n".as_bytes().to_vec(), 5).ok().as_deref(), Some("€"));
    assert_eq!(frame_request(b"next\n".to_vec(), MAX_REQUEST_BYTES).ok().as_deref(), Some("next"));
    assert!(frame_request(b"123456".to_vec(), 4).err() == Some(FrameError::TooLarge));
    assert!(frame_request(b"12".to_vec(), 4).err() == Some(FrameError::MissingNewline));
    assert!(frame_request(vec![0xff, b'\n'], 4).err() == Some(FrameError::NotUtf8));
    assert_eq!(FrameError::TooLarge.message(), "request exceeds byte limit");
}

#[test]
fn line_frames_share_request_rules() {
    assert_eq!(frame_request("λ\r\n".as_bytes().to_vec(), 8).ok().as_deref(), Some("λ"));
    let too_large = frame_request(b"123456789".to_vec(), 8).err().unwrap();
    assert_eq!(too_large.line_message(), "line exceeds byte limit");
    let not_utf8 = frame_request(b"\xff\n".to_vec(), 8).err().unwrap();
    assert_eq!(not_utf8.line_message(), "line is not UTF-8");
    let missing = frame_request(b"short".to_vec(), 8).err().unwrap();
    assert_eq!(missing.line_message(), "line missing newline");
}

#[test]
fn request_line_that_is_not_json_is_a_parse_error() {
    match decode_line("{\"id\":1,") {
        Err((id, e)) => {
            assert_eq!(id, Json::Null);
            assert_eq!(e.code, "parse_error");
            assert_eq!(e.message, "invalid JSON");
        }
        Ok(_) => panic!("malformed line admitted"),
    }
}

#[test]
fn request_line_decodes_to_its_call() {
    match decode_line("{\"id\":\"a\",\"method\":\"system.ping\"}") {
        Ok((id, Request::Ping)) => assert_eq!(id, Json::Str("a".to_owned())),
        other => panic!("unexpected {other:?}"),
    }
    match decode_line("{\"id\":7,\"method\":\"surface.split\",\"params\":{\"direction\":\"vertical\"}}") {
        Ok((_, Request::SurfaceSplit { id: None, direction })) => {
            assert_eq!(direction, SplitDirection::Vertical)
        }
        other => panic!("unexpected {other:?}"),
    }
}

#[test]
fn request_line_refusals_echo_the_identity() {
    match decode_line("[1,2]") {
        Err((id, e)) => {
            assert_eq!(id, Json::Null);
            assert_eq!(e.code, "invalid_request");
        }
        Ok(_) => panic!("array admitted"),
    }
    match decode_line("{\"id\":\"x\",\"method\":5}") {
        Err((id, e)) => {
            assert_eq!(id, Json::Str("x".to_owned()));
            assert_eq!(e.message, "method must be a string");
        }
        Ok(_) => panic!("numeric method admitted"),
    }
    match decode_line("{\"id\":\"y\",\"method\":\"no.such\"}") {
        Err((id, e)) => {
            assert_eq!(id, Json::Str("y".to_owned()));
            assert_eq!(e.code, "not_implemented");
        }
        Ok(_) => panic!("unknown method admitted"),
    }
}
