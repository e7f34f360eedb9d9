use cmux::json::Json;
use cmux::notification_caller::normalize;
use cmux::response::{err, fallback_error, ok, response_body, MAX_RESPONSE_BYTES};
use cmux::selection::after_removal;
use cmux::session::{archive_on_launch, plan_round, supported_version, RunMarker, SavePlan, WaitEnd};
use cmux::shell::{shell_quote, validate_ssh_target};
use cmux::surface::SurfaceIoMode;

/// Terminal names are trimmed and stripped of the device directory.
#[test]
fn caller_terminal_names() {
    assert_eq!(normalize("  /dev/pts/3\n").as_deref(), Some("pts/3"));
    assert_eq!(normalize("ttys001").as_deref(), Some("ttys001"));
    assert_eq!(normalize("not a tty"), None);
    assert_eq!(normalize("   "), None);
}

/// Responses keep the request identity beside the outcome.
#[test]
fn response_envelopes() {
    match ok(Json::Str("r".into()), Json::Bool(true)) {
        Json::Object(members) => {
            let keys: Vec<&str> = members.iter().map(|(k, _)| k.as_str()).collect();
            assert_eq!(keys, ["id", "ok", "result"]);
        }
        _ => panic!("object"),
    }
    match err(Json::Null, "invalid_params", "bad") {
        Json::Object(members) => {
            assert_eq!(members[0].0, "error");
            assert_eq!(members[2].1, Json::Bool(false));
        }
        _ => panic!("object"),
    }
    let fallback: serde_json::Value = serde_json::from_str(fallback_error()).unwrap();
    assert_eq!(fallback["error"]["code"], "response_too_large");
}

/// Only schema versions 1 through 3 load, and a marker belongs to the launch that wrote it.
#[test]
fn session_rules() {
    assert!(supported_version(1) && supported_version(3));
    assert!(!supported_version(0) && !supported_version(4));
    let marker = RunMarker { path: std::path::PathBuf::from("/tmp/session.running"), token: "abc".into() };
    assert!(marker.owns("abc"));
    assert!(!marker.owns("abd"));
}

/// Only command mode launches a command; manual mode routes input through its context.
#[test]
fn surface_modes() {
    let command: SurfaceIoMode<(), (), ()> = SurfaceIoMode::Command("htop".into());
    assert_eq!(command.launch_command().map(String::as_str), Some("htop"));
    assert!(!command.routes_input_manually());
    let manual: SurfaceIoMode<(), (), ()> = SurfaceIoMode::Manual { bridge: (), io_write_ctx: () };
    assert!(manual.routes_input_manually());
    assert!(SurfaceIoMode::<(), (), ()>::Exec.launch_command().is_none());
}

/// Quoting and selection helpers.
#[test]
fn quoting_and_selection() {
    assert_eq!(shell_quote("it's"), "'it'\\''s'");
    assert!(validate_ssh_target("dev@host").is_ok());
    assert!(validate_ssh_target("-oProxy").is_err());
    assert_eq!(after_removal(2, 2, 2), Some(1));
}

#[test]
fn snapshot_rounds_and_launch_archiving() {
    assert_eq!(
        plan_round(WaitEnd::Debounced, true),
        SavePlan { save: true, sync: false, stop: false }
    );
    assert_eq!(
        plan_round(WaitEnd::Finish, true),
        SavePlan { save: true, sync: true, stop: true }
    );
    assert_eq!(
        plan_round(WaitEnd::PublisherClosed, false),
        SavePlan { save: false, sync: false, stop: true }
    );
    assert_eq!(
        plan_round(WaitEnd::Debounced, false),
        SavePlan { save: false, sync: false, stop: false }
    );
    assert!(archive_on_launch(false, 2));
    assert!(!archive_on_launch(true, 2));
    assert!(!archive_on_launch(false, 0));
}

#[test]
fn response_body_keeps_what_fits_the_budget() {
    let small = "{\"id\":1,\"ok\":true,\"result\":{}}".to_owned();
    let fallback = "{\"error\":{},\"id\":1,\"ok\":false}".to_owned();
    assert_eq!(response_body(Some(small.clone()), Some(fallback.clone())), small);
    let large = "x".repeat(MAX_RESPONSE_BYTES);
    assert_eq!(response_body(Some(large.clone()), Some(fallback.clone())), fallback);
    assert_eq!(response_body(None, Some(fallback.clone())), fallback);
    assert_eq!(
        response_body(Some(large.clone()), Some(large.clone())),
        fallback_error()
    );
    assert_eq!(response_body(None, None), fallback_error());
    let edge = "y".repeat(MAX_RESPONSE_BYTES - 1);
    assert_eq!(response_body(Some(edge.clone()), None), edge);
}
