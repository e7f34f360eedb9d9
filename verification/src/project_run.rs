//! The decisions of running a reviewed project action: which workspace it runs in, whether
//! that workspace's context survived the configuration read, and how the action's intent is
//! carried out.
use crate::inbox_actions::{first_where, lemma_first_where_at};
use crate::project_action::{Intent, IntentModel, Target};
use vstd::prelude::*;

verus! {

/// What a project action run reads of an open workspace: its identity, whether it runs
/// remotely, its local directory and the surface its focused pane shows.
pub struct RunRow {
    pub uuid: u128,
    pub remote: bool,
    pub directory: Option<String>,
    pub pane: Option<u128>,
}

/// The context a run was reviewed in: the workspace, its directory and the shown surface.
pub struct RunContext {
    pub workspace: u128,
    pub directory: String,
    pub pane: Option<u128>,
}

/// Whether a row is workspace `id`.
pub open spec fn row_is(id: u128) -> spec_fn(RunRow) -> bool {
    |r: RunRow| r.uuid == id
}

/// The workspace a request names, or the selected one when it names none.
pub open spec fn spec_pick(rows: Seq<RunRow>, active: usize, workspace: Option<u128>) -> Option<int> {
    let i = match workspace {
        Some(id) => first_where(rows, row_is(id)),
        None => active as int,
    };
    if 0 <= i < rows.len() {
        Some(i)
    } else {
        None
    }
}

/// Position of workspace `id`.
fn row_index(rows: &Vec<RunRow>, id: u128) -> (i: usize)
    ensures
        i == first_where(rows@, row_is(id)),
{
    let mut i: usize = 0;
    while i < rows.len() && rows[i].uuid != id
        invariant
            i <= rows@.len(),
            forall|j: int| 0 <= j < i ==> !row_is(id)(#[trigger] rows@[j]),
        decreases rows@.len() - i,
    {
        i = i + 1;
    }
    proof {
        if i < rows@.len() {
            assert(row_is(id)(rows@[i as int]));
        }
        lemma_first_where_at(rows@, row_is(id), i as int);
    }
    i
}

/// The workspace a request names, or the selected one.
fn pick(rows: &Vec<RunRow>, active: usize, workspace: Option<u128>) -> (r: Option<usize>)
    ensures
        match spec_pick(rows@, active, workspace) {
            Some(i) => r matches Some(k) && k as int == i,
            None => r is None,
        },
{
    let i = match workspace {
        Some(id) => row_index(rows, id),
        None => active,
    };
    if i < rows.len() {
        Some(i)
    } else {
        None
    }
}

/// The workspace a project action run captures: the one the request names, or the selected
/// one, which must be open and local.
pub fn capture_run(rows: &Vec<RunRow>, active: usize, workspace: Option<u128>) -> (r: Result<usize, (&'static str, &'static str)>)
    ensures
        match spec_pick(rows@, active, workspace) {
            None => r == Err::<usize, (&'static str, &'static str)>(("not_found", "workspace not found")),
            Some(i) => if rows@[i].directory is None {
                r == Err::<usize, (&'static str, &'static str)>(("unsupported", "local workspace directory required"))
            } else {
                r matches Ok(k) && k as int == i
            },
        },
{
    match pick(rows, active, workspace) {
        None => Err(("not_found", "workspace not found")),
        Some(i) => if rows[i].directory.is_none() {
            Err(("unsupported", "local workspace directory required"))
        } else {
            Ok(i)
        },
    }
}

/// The workspace whose project actions a listing reads: the one the request names, or the
/// selected one; remote workspaces and workspaces without a directory are refused.
pub fn capture_list(rows: &Vec<RunRow>, active: usize, workspace: Option<u128>) -> (r: Result<usize, (&'static str, &'static str)>)
    ensures
        match spec_pick(rows@, active, workspace) {
            None => r == Err::<usize, (&'static str, &'static str)>(("not_found", "workspace not found")),
            Some(i) => if rows@[i].remote {
                r == Err::<usize, (&'static str, &'static str)>(
                    ("unsupported", "remote project configuration reads are not implemented yet"),
                )
            } else if rows@[i].directory is None {
                r == Err::<usize, (&'static str, &'static str)>(("unavailable", "workspace directory unavailable"))
            } else {
                r matches Ok(k) && k as int == i
            },
        },
{
    match pick(rows, active, workspace) {
        None => Err(("not_found", "workspace not found")),
        Some(i) => if rows[i].remote {
            Err(("unsupported", "remote project configuration reads are not implemented yet"))
        } else if rows[i].directory.is_none() {
            Err(("unavailable", "workspace directory unavailable"))
        } else {
            Ok(i)
        },
    }
}

/// Whether two texts are equal.
fn same_text(a: &String, b: &String) -> (r: bool)
    ensures
        r == (a@ == b@),
{
    let v = crate::text::chars_of(a.as_str());
    crate::text::chars_equal(&v, b.as_str())
}

/// After the configuration read, the captured workspace must still be open with the same
/// directory and the same shown surface; a reviewed fingerprint must still be the action's.
pub fn recheck(rows: &Vec<RunRow>, captured: &RunContext, reviewed: &String, current: &String) -> (r: Result<usize, (&'static str, &'static str)>)
    ensures
        reviewed@ != current@ ==> r == Err::<usize, (&'static str, &'static str)>(
            ("changed", "project action changed since inspection"),
        ),
        reviewed@ == current@ ==> ({
            let i = first_where(rows@, row_is(captured.workspace));
            if i >= rows@.len() {
                r == Err::<usize, (&'static str, &'static str)>(("not_found", "workspace closed"))
            } else if rows@[i].directory.is_none() || rows@[i].directory->Some_0@ != captured.directory@
                || rows@[i].pane != captured.pane {
                r == Err::<usize, (&'static str, &'static str)>(("changed", "workspace execution context changed"))
            } else {
                r matches Ok(k) && k as int == i
            }
        }),
{
    if !same_text(reviewed, current) {
        return Err(("changed", "project action changed since inspection"));
    }
    let i = row_index(rows, captured.workspace);
    if i >= rows.len() {
        return Err(("not_found", "workspace closed"));
    }
    let same_directory = match &rows[i].directory {
        Some(d) => same_text(d, &captured.directory),
        None => false,
    };
    if !same_directory || rows[i].pane != captured.pane {
        return Err(("changed", "workspace execution context changed"));
    }
    Ok(i)
}

/// How an action is carried out in the captured workspace.
pub enum RunPlan {
    /// Type the command into a new tab of the focused pane, in the project directory.
    CommandInNewTab(String),
    /// Type the command and a return into the terminal the focused pane shows.
    CommandInTerminal(u128, String),
    /// Launch the agent CLI with its arguments in a new tab of the focused pane.
    AgentInNewTab { agent: String, args: Option<String> },
    /// Launch the agent CLI with its arguments in the terminal the focused pane shows.
    AgentInTerminal { pane: u128, agent: String, args: Option<String> },
    /// Create a workspace from the action's prepared launch.
    CreateWorkspace,
    /// A built-in action, by name, with the focused pane's surface.
    Builtin(String, Option<u128>),
}

/// How an intent is carried out, given the surface the focused pane shows.
pub fn route_intent(intent: Intent, target: Target, pane: Option<u128>) -> (r: Result<RunPlan, (&'static str, &'static str)>)
    ensures
        match intent.model() {
            IntentModel::Command(c) => match target {
                Target::NewTabInCurrentPane => r matches Ok(RunPlan::CommandInNewTab(x)) && x@ == c,
                Target::CurrentTerminal => match pane {
                    Some(p) => r matches Ok(RunPlan::CommandInTerminal(q, x)) && q == p && x@ == c,
                    None => r == Err::<RunPlan, (&'static str, &'static str)>(
                        ("not_found", "current surface is not a terminal"),
                    ),
                },
            },
            IntentModel::Agent(a, args) => match target {
                Target::NewTabInCurrentPane => r matches Ok(RunPlan::AgentInNewTab { agent, args: g })
                    && agent@ == a && crate::project_action::opt_chars(g) == args,
                Target::CurrentTerminal => match pane {
                    Some(p) => r matches Ok(RunPlan::AgentInTerminal { pane: q, agent, args: g }) && q == p
                        && agent@ == a && crate::project_action::opt_chars(g) == args,
                    None => r == Err::<RunPlan, (&'static str, &'static str)>(
                        ("not_found", "current surface is not a terminal"),
                    ),
                },
            },
            IntentModel::Workspace(_) => r matches Ok(RunPlan::CreateWorkspace),
            IntentModel::WorkspaceCommand(_) => r matches Ok(RunPlan::CreateWorkspace),
            IntentModel::Builtin(b) => r matches Ok(RunPlan::Builtin(x, q)) && x@ == b && q == pane,
            IntentModel::Metadata => r == Err::<RunPlan, (&'static str, &'static str)>(
                ("unsupported", "this action family is not executable yet"),
            ),
        },
{
    match intent {
        Intent::Command { command } => match target {
            Target::NewTabInCurrentPane => Ok(RunPlan::CommandInNewTab(command)),
            Target::CurrentTerminal => match pane {
                Some(p) => Ok(RunPlan::CommandInTerminal(p, command)),
                None => Err(("not_found", "current surface is not a terminal")),
            },
        },
        Intent::Agent { agent, args } => match target {
            Target::NewTabInCurrentPane => Ok(RunPlan::AgentInNewTab { agent, args }),
            Target::CurrentTerminal => match pane {
                Some(p) => Ok(RunPlan::AgentInTerminal { pane: p, agent, args }),
                None => Err(("not_found", "current surface is not a terminal")),
            },
        },
        Intent::Workspace { .. } => Ok(RunPlan::CreateWorkspace),
        Intent::WorkspaceCommand { .. } => Ok(RunPlan::CreateWorkspace),
        Intent::Builtin { builtin } => Ok(RunPlan::Builtin(builtin, pane)),
        Intent::Metadata => Err(("unsupported", "this action family is not executable yet")),
    }
}

} // verus!
