use cmux::project_action::{Intent, Target};
use cmux::project_run::{capture_list, capture_run, recheck, route_intent, RunContext, RunPlan, RunRow};

fn rows() -> Vec<RunRow> {
    vec![
        RunRow { uuid: 1, remote: false, directory: Some("/work".into()), pane: Some(0x10) },
        RunRow { uuid: 2, remote: true, directory: None, pane: None },
        RunRow { uuid: 3, remote: false, directory: None, pane: Some(0x30) },
    ]
}

/// A run captures the named or selected local workspace; a listing refuses remote ones.
#[test]
fn run_and_list_capture_workspaces() {
    let r = rows();
    assert_eq!(capture_run(&r, 0, None), Ok(0));
    assert_eq!(capture_run(&r, 0, Some(9)), Err(("not_found", "workspace not found")));
    assert_eq!(capture_run(&r, 7, None), Err(("not_found", "workspace not found")));
    assert_eq!(capture_run(&r, 0, Some(3)), Err(("unsupported", "local workspace directory required")));
    assert_eq!(
        capture_list(&r, 1, None),
        Err(("unsupported", "remote project configuration reads are not implemented yet"))
    );
    assert_eq!(capture_list(&r, 0, Some(3)), Err(("unavailable", "workspace directory unavailable")));
}

/// A reviewed run proceeds only when its fingerprint and captured context still hold.
#[test]
fn run_rechecks_context() {
    let r = rows();
    let captured = RunContext { workspace: 1, directory: "/work".into(), pane: Some(0x10) };
    let same = "a".repeat(64);
    assert_eq!(recheck(&r, &captured, &same, &same), Ok(0));
    assert_eq!(
        recheck(&r, &captured, &same, &"b".repeat(64)),
        Err(("changed", "project action changed since inspection"))
    );
    let moved = RunContext { workspace: 1, directory: "/other".into(), pane: Some(0x10) };
    assert_eq!(recheck(&r, &moved, &same, &same), Err(("changed", "workspace execution context changed")));
    let gone = RunContext { workspace: 9, directory: "/work".into(), pane: None };
    assert_eq!(recheck(&r, &gone, &same, &same), Err(("not_found", "workspace closed")));
}

/// Commands go to a new tab or the current terminal; metadata runs nothing.
#[test]
fn intents_route_to_plans() {
    match route_intent(Intent::Command { command: "make".into() }, Target::NewTabInCurrentPane, None) {
        Ok(RunPlan::CommandInNewTab(c)) => assert_eq!(c, "make"),
        _ => panic!("new tab"),
    }
    match route_intent(Intent::Command { command: "make".into() }, Target::CurrentTerminal, Some(5)) {
        Ok(RunPlan::CommandInTerminal(p, c)) => assert_eq!((p, c.as_str()), (5, "make")),
        _ => panic!("current terminal"),
    }
    assert!(matches!(
        route_intent(Intent::Command { command: "make".into() }, Target::CurrentTerminal, None),
        Err(("not_found", "current surface is not a terminal"))
    ));
    assert!(matches!(
        route_intent(Intent::Metadata, Target::NewTabInCurrentPane, None),
        Err(("unsupported", "this action family is not executable yet"))
    ));
}

/// Agents are routed by target as commands are; the current terminal must exist.
#[test]
fn agent_intents_route_by_target() {
    let agent = || Intent::Agent { agent: "aider".into(), args: Some("--resume".into()) };
    match route_intent(agent(), Target::NewTabInCurrentPane, None) {
        Ok(RunPlan::AgentInNewTab { agent, args }) => {
            assert_eq!((agent.as_str(), args.as_deref()), ("aider", Some("--resume")))
        }
        _ => panic!("agent in new tab"),
    }
    match route_intent(agent(), Target::CurrentTerminal, Some(8)) {
        Ok(RunPlan::AgentInTerminal { pane, agent, .. }) => assert_eq!((pane, agent.as_str()), (8, "aider")),
        _ => panic!("agent in current terminal"),
    }
    assert!(matches!(
        route_intent(agent(), Target::CurrentTerminal, None),
        Err(("not_found", "current surface is not a terminal"))
    ));
}
