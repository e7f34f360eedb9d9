//! Worker-side request validation and typed command construction.
//! Owns no GTK state; admitted requests cross the bounded bridge for UI execution.
use crate::environment::{spec_insert, Environment};
use crate::ids::{parse_uuid, uuid_value};
use crate::inbox::{Action, ActionModel};
use crate::json::{get, json_of, parse_json, present, Json};
use crate::project_action::opt_chars;
use crate::resume::{
    binding_model, model_validate, sanitized, BindingModel, ResumeAction, ResumeBinding,
};
use crate::text::{chars_equal, chars_of, has_char, slice_chars, string_of, utf8_len, utf8_size};
use vstd::prelude::*;
use vstd::string::StringExecFns;
use vstd::string::StringSliceAdditionalSpecFns;

verus! {

/// Validated split direction, independent of GTK and invalid wire values.
#[derive(Debug, PartialEq, Eq, Structural, Clone, Copy)]
pub enum SplitDirection {
    Horizontal,
    Vertical,
}

/// A refused request: the protocol error code and its public message.
#[derive(Debug)]
pub struct RpcError {
    pub code: &'static str,
    pub message: String,
}

/// A refusal by code and message.
pub type ErrorModel = (Seq<char>, Seq<char>);

/// An admitted request, typed for the GTK handlers.
#[derive(Debug)]
#[allow(inconsistent_fields)]
pub enum Request {
    SurfaceResume { id: Option<String>, action: ResumeAction },
    Ping,
    Identify,
    Capabilities,
    Diagnostics,
    WorkspaceList,
    WorkspaceCurrent,
    /// A local `working_directory` still awaits preparation on disk before dispatch.
    WorkspaceCreate { remote_target: Option<String>, name: Option<String>, working_directory: Option<String> },
    WorkspaceSelect { id: String },
    WorkspaceClose { id: String },
    WorkspaceRename { id: String, name: String },
    WorkspaceNext,
    WorkspacePrev,
    WorkspaceLast,
    WorkspaceReorderMany { order: Vec<u128>, dry_run: bool },
    WorkspaceReorder { id: String, position: usize },
    SurfaceList,
    SurfaceSplit { id: Option<String>, direction: SplitDirection },
    SurfaceFocus { id: String },
    SurfaceClose { id: String },
    SurfaceSendText { id: Option<String>, text: String },
    SurfaceSendKey { id: Option<String>, key: String },
    DebugType { text: String },
    SurfaceReadText { id: Option<String>, scrollback: bool },
    SurfaceHealth { id: Option<String> },
    SurfaceRefresh { id: Option<String> },
    PaneList,
    PaneFocus { id: Option<String> },
    PaneLast,
    WindowList,
    WindowCurrent,
    DebugLayout,
    ProjectActionRun { workspace: Option<u128>, action_id: String, fingerprint: String, confirmed: bool },
    ProjectActionsList { workspace: Option<u128> },
    PortsList { workspace: Option<u128>, surface: Option<u128> },
    /// Sidebar metadata operations, decoded by the metadata module.
    WorkspaceMetadata { workspace: Option<u128>, method: String, params: Json },
    NotificationList,
    Inbox { action: Action },
    BrowserOpen { url: String, workspace: Option<String> },
    BrowserStreamEnable,
    BrowserStreamDisable,
    BrowserList,
    BrowserAction { action: String, params: Json, surface_ref: Option<String> },
}

/// A resume operation by its fields' characters.
pub enum ResumeActionModel {
    SetBinding(BindingModel),
    Show,
    Clear(Option<Seq<char>>),
}

/// An admitted request by its fields' characters.
#[allow(inconsistent_fields)]
pub enum RequestModel {
    SurfaceResume(Option<Seq<char>>, ResumeActionModel),
    Ping,
    Identify,
    Capabilities,
    Diagnostics,
    WorkspaceList,
    WorkspaceCurrent,
    WorkspaceCreate(Option<Seq<char>>, Option<Seq<char>>, Option<Seq<char>>),
    WorkspaceSelect(Seq<char>),
    WorkspaceClose(Seq<char>),
    WorkspaceRename(Seq<char>, Seq<char>),
    WorkspaceNext,
    WorkspacePrev,
    WorkspaceLast,
    WorkspaceReorderMany(Seq<u128>, bool),
    WorkspaceReorder(Seq<char>, usize),
    SurfaceList,
    SurfaceSplit(Option<Seq<char>>, SplitDirection),
    SurfaceFocus(Seq<char>),
    SurfaceClose(Seq<char>),
    SurfaceSendText(Option<Seq<char>>, Seq<char>),
    SurfaceSendKey(Option<Seq<char>>, Seq<char>),
    DebugType(Seq<char>),
    SurfaceReadText(Option<Seq<char>>, bool),
    SurfaceHealth(Option<Seq<char>>),
    SurfaceRefresh(Option<Seq<char>>),
    PaneList,
    PaneFocus(Option<Seq<char>>),
    PaneLast,
    WindowList,
    WindowCurrent,
    DebugLayout,
    ProjectActionRun(Option<u128>, Seq<char>, Seq<char>, bool),
    ProjectActionsList(Option<u128>),
    PortsList(Option<u128>, Option<u128>),
    WorkspaceMetadata(Option<u128>, Seq<char>, Json),
    NotificationList,
    Inbox(ActionModel),
    BrowserOpen(Seq<char>, Option<Seq<char>>),
    BrowserStreamEnable,
    BrowserStreamDisable,
    BrowserList,
    BrowserAction(Seq<char>, Json, Option<Seq<char>>),
}

impl ResumeAction {
    /// This operation by its fields' characters.
    pub open spec fn model(&self) -> ResumeActionModel {
        match self {
            ResumeAction::SetBinding(b) => ResumeActionModel::SetBinding(binding_model(b)),
            ResumeAction::Show => ResumeActionModel::Show,
            ResumeAction::Clear { checkpoint_id } => ResumeActionModel::Clear(opt_chars(*checkpoint_id)),
        }
    }
}

impl Request {
    /// This request by its fields' characters.
    pub open spec fn model(&self) -> RequestModel {
        match self {
            Request::SurfaceResume { id, action } => RequestModel::SurfaceResume(opt_chars(*id), action.model()),
            Request::Ping => RequestModel::Ping,
            Request::Diagnostics => RequestModel::Diagnostics,
            Request::Identify => RequestModel::Identify,
            Request::Capabilities => RequestModel::Capabilities,
            Request::WorkspaceList => RequestModel::WorkspaceList,
            Request::WorkspaceCurrent => RequestModel::WorkspaceCurrent,
            Request::WorkspaceCreate { remote_target, name, working_directory } => RequestModel::WorkspaceCreate(
                opt_chars(*remote_target),
                opt_chars(*name),
                opt_chars(*working_directory),
            ),
            Request::WorkspaceSelect { id } => RequestModel::WorkspaceSelect(id@),
            Request::WorkspaceClose { id } => RequestModel::WorkspaceClose(id@),
            Request::WorkspaceRename { id, name } => RequestModel::WorkspaceRename(id@, name@),
            Request::WorkspaceNext => RequestModel::WorkspaceNext,
            Request::WorkspacePrev => RequestModel::WorkspacePrev,
            Request::WorkspaceLast => RequestModel::WorkspaceLast,
            Request::WorkspaceReorderMany { order, dry_run } => RequestModel::WorkspaceReorderMany(order@, *dry_run),
            Request::WorkspaceReorder { id, position } => RequestModel::WorkspaceReorder(id@, *position),
            Request::SurfaceList => RequestModel::SurfaceList,
            Request::SurfaceSplit { id, direction } => RequestModel::SurfaceSplit(opt_chars(*id), *direction),
            Request::SurfaceFocus { id } => RequestModel::SurfaceFocus(id@),
            Request::SurfaceClose { id } => RequestModel::SurfaceClose(id@),
            Request::SurfaceSendText { id, text } => RequestModel::SurfaceSendText(opt_chars(*id), text@),
            Request::SurfaceSendKey { id, key } => RequestModel::SurfaceSendKey(opt_chars(*id), key@),
            Request::DebugType { text } => RequestModel::DebugType(text@),
            Request::SurfaceReadText { id, scrollback } => RequestModel::SurfaceReadText(opt_chars(*id), *scrollback),
            Request::SurfaceHealth { id } => RequestModel::SurfaceHealth(opt_chars(*id)),
            Request::SurfaceRefresh { id } => RequestModel::SurfaceRefresh(opt_chars(*id)),
            Request::PaneList => RequestModel::PaneList,
            Request::PaneFocus { id } => RequestModel::PaneFocus(opt_chars(*id)),
            Request::PaneLast => RequestModel::PaneLast,
            Request::WindowList => RequestModel::WindowList,
            Request::WindowCurrent => RequestModel::WindowCurrent,
            Request::DebugLayout => RequestModel::DebugLayout,
            Request::ProjectActionRun { workspace, action_id, fingerprint, confirmed } => RequestModel::ProjectActionRun(
                *workspace,
                action_id@,
                fingerprint@,
                *confirmed,
            ),
            Request::ProjectActionsList { workspace } => RequestModel::ProjectActionsList(*workspace),
            Request::PortsList { workspace, surface } => RequestModel::PortsList(*workspace, *surface),
            Request::WorkspaceMetadata { workspace, method, params } => RequestModel::WorkspaceMetadata(
                *workspace,
                method@,
                *params,
            ),
            Request::NotificationList => RequestModel::NotificationList,
            Request::Inbox { action } => RequestModel::Inbox(action.model()),
            Request::BrowserOpen { url, workspace } => RequestModel::BrowserOpen(url@, opt_chars(*workspace)),
            Request::BrowserStreamEnable => RequestModel::BrowserStreamEnable,
            Request::BrowserStreamDisable => RequestModel::BrowserStreamDisable,
            Request::BrowserList => RequestModel::BrowserList,
            Request::BrowserAction { action, params, surface_ref } => RequestModel::BrowserAction(
                action@,
                *params,
                opt_chars(*surface_ref),
            ),
        }
    }
}

/// A decoding outcome by its model.
pub open spec fn outcome(r: Result<Request, RpcError>) -> Result<RequestModel, ErrorModel> {
    match r {
        Ok(q) => Ok(q.model()),
        Err(e) => Err((e.code@, e.message@)),
    }
}

/// An `invalid_params` refusal.
pub open spec fn invalid(message: Seq<char>) -> ErrorModel {
    ("invalid_params"@, message)
}

/// The text of a string value.
pub open spec fn text_of(v: Option<Json>) -> Option<Seq<char>> {
    match v {
        Some(Json::Str(s)) => Some(s@),
        _ => None,
    }
}

/// The text of a string member, or empty.
pub open spec fn text_or_empty(p: Json, key: Seq<char>) -> Seq<char> {
    match text_of(get(p, key)) {
        Some(t) => t,
        None => Seq::empty(),
    }
}

/// Methods that address an optional terminal with `id`.
pub open spec fn targets_terminal(method: Seq<char>) -> bool {
    method == "surface.split"@ || method == "surface.send_text"@ || method == "surface.send_key"@
        || method == "surface.read_text"@ || method == "surface.read_scrollback"@ || method
        == "surface.health"@ || method == "surface.refresh"@ || method == "pane.focus"@
}

/// A nullable optional target: `None` when missing or `null`; anything but a string fails.
pub open spec fn optional_target(p: Json) -> Option<Option<Seq<char>>> {
    match get(p, "id"@) {
        None => Some(None),
        Some(Json::Null) => Some(None),
        Some(Json::Str(s)) => Some(Some(s@)),
        Some(_) => None,
    }
}

/// An optional workspace UUID under `key`: missing or `null` is `None`; otherwise a UUID string.
pub open spec fn workspace_field(p: Json, key: Seq<char>) -> Option<Option<u128>> {
    match present(p, key) {
        None => Some(None),
        Some(Json::Str(s)) => match uuid_value(s@) {
            Some(u) => Some(Some(u)),
            None => None,
        },
        Some(_) => None,
    }
}

/// A resume binding read from request fields: `command` is a required string, the other texts
/// optional strings, and `environment` an optional object of strings.
pub open spec fn opt_text_field(p: Json, key: Seq<char>) -> Option<Option<Seq<char>>> {
    match get(p, key) {
        None => Some(None),
        Some(Json::Null) => Some(None),
        Some(Json::Str(s)) => Some(Some(s@)),
        Some(_) => None,
    }
}

/// Environment members read in order.
pub open spec fn env_members(ms: Seq<(String, Json)>, acc: Seq<(Seq<char>, Seq<char>)>) -> Option<Seq<(Seq<char>, Seq<char>)>>
    decreases ms.len(),
{
    if ms.len() == 0 {
        Some(acc)
    } else {
        match ms[0].1 {
            Json::Str(t) => env_members(ms.drop_first(), spec_insert(acc, ms[0].0@, t@)),
            _ => None,
        }
    }
}

/// The environment of a binding: missing or `null` is empty.
pub open spec fn env_field(p: Json) -> Option<Seq<(Seq<char>, Seq<char>)>> {
    match get(p, "environment"@) {
        None => Some(Seq::empty()),
        Some(Json::Null) => Some(Seq::empty()),
        Some(Json::Object(ms)) => env_members(ms@, Seq::empty()),
        Some(_) => None,
    }
}

/// The binding a request's fields describe, if they have the binding's shape.
pub open spec fn binding_fields(p: Json) -> Option<BindingModel> {
    match (
        text_of(get(p, "command"@)),
        opt_text_field(p, "name"@),
        opt_text_field(p, "kind"@),
        opt_text_field(p, "cwd"@),
        opt_text_field(p, "checkpoint_id"@),
        env_field(p),
    ) {
        (Some(c), Some(n), Some(k), Some(d), Some(x), Some(e)) => if p is Object {
            Some((c, n, k, d, x, e))
        } else {
            None
        },
        _ => None,
    }
}

/// A resume request: the addressed terminal and the operation.
pub open spec fn spec_resume(method: Seq<char>, p: Json) -> Result<RequestModel, ErrorModel> {
    let target = if get(p, "surface_id"@) is Some {
        get(p, "surface_id"@)
    } else {
        get(p, "id"@)
    };
    let id: Option<Option<Seq<char>>> = match target {
        None => Some(None),
        Some(Json::Null) => Some(None),
        Some(Json::Str(s)) => if uuid_value(s@) is Some {
            Some(Some(s@))
        } else {
            None
        },
        Some(_) => None,
    };
    match id {
        None => Err(invalid("surface_id must be a UUID"@)),
        Some(id) => if method == "surface.resume.set"@ {
            if get(p, "auto_resume"@) matches Some(v) && v != Json::Bool(false) {
                Err(("not_supported"@, "automatic resume requires a configured hook policy"@))
            } else {
                match binding_fields(p) {
                    None => Err(invalid("invalid resume binding fields"@)),
                    Some(b) => match model_validate(b) {
                        Err(m) => Err(invalid(m)),
                        Ok(_) => Ok(
                            RequestModel::SurfaceResume(
                                id,
                                ResumeActionModel::SetBinding((b.0, b.1, b.2, b.3, b.4, sanitized(b.5))),
                            ),
                        ),
                    },
                }
            }
        } else if method == "surface.resume.clear"@ {
            match get(p, "checkpoint_id"@) {
                None => Ok(RequestModel::SurfaceResume(id, ResumeActionModel::Clear(None))),
                Some(Json::Null) => Ok(RequestModel::SurfaceResume(id, ResumeActionModel::Clear(None))),
                Some(Json::Str(v)) => if utf8_len(v@) <= 16384 && !v@.contains('\0') {
                    Ok(RequestModel::SurfaceResume(id, ResumeActionModel::Clear(Some(v@))))
                } else {
                    Err(invalid("invalid checkpoint_id"@))
                },
                Some(_) => Err(invalid("invalid checkpoint_id"@)),
            }
        } else {
            Ok(RequestModel::SurfaceResume(id, ResumeActionModel::Show))
        },
    }
}

/// The workspace order of a bulk reorder: 1 to 4096 UUID strings under `workspace_ids`, or
/// `order` when that is missing.
pub open spec fn reorder_list(p: Json) -> Option<Seq<Json>> {
    let v = if get(p, "workspace_ids"@) is Some {
        get(p, "workspace_ids"@)
    } else {
        get(p, "order"@)
    };
    match v {
        Some(Json::Array(a)) => if a@.len() > 0 && a@.len() <= 4096 {
            Some(a@)
        } else {
            None
        },
        _ => None,
    }
}

/// The UUIDs of a list of UUID strings, if every element is one.
pub open spec fn uuid_list(a: Seq<Json>) -> Option<Seq<u128>>
    decreases a.len(),
{
    if a.len() == 0 {
        Some(Seq::empty())
    } else {
        match (uuid_list(a.drop_last()), text_of(Some(a.last()))) {
            (Some(done), Some(t)) => match uuid_value(t) {
                Some(u) => Some(done.push(u)),
                None => None,
            },
            _ => None,
        }
    }
}

/// A review fingerprint: 64 ASCII hexadecimal digits.
pub open spec fn fingerprint_ok(s: Seq<char>) -> bool {
    s.len() == 64 && forall|i: int|
        0 <= i < s.len() ==> {
            let c = #[trigger] s[i];
            ('0' <= c && c <= '9') || ('a' <= c && c <= 'f') || ('A' <= c && c <= 'F')
        }
}

/// Sidebar metadata methods.
pub open spec fn sidebar_method(method: Seq<char>) -> bool {
    method == "sidebar.metadata"@ || method == "sidebar.set_status"@ || method
        == "sidebar.clear_status"@ || method == "sidebar.set_progress"@ || method
        == "sidebar.clear_progress"@ || method == "sidebar.report_meta_block"@ || method
        == "sidebar.clear_meta_block"@
}

/// Notification methods.
pub open spec fn notification_method(method: Seq<char>) -> bool {
    method == "notification.create"@ || method == "notification.create_for_surface"@ || method
        == "notification.create_for_caller"@ || method == "notification.create_for_target"@
        || method == "notification.clear"@ || method == "notification.mark_read"@ || method
        == "notification.dismiss"@ || method == "notification.open"@ || method
        == "notification.jump_to_unread"@
}

/// The request a method and its parameters (an object) ask for, or the refusal.
pub open spec fn spec_call(method: Seq<char>, p: Json) -> Result<RequestModel, ErrorModel> {
    if targets_terminal(method) && optional_target(p) is None {
        Err(invalid("id must be a string or null"@))
    } else {
        let target = match optional_target(p) {
            Some(t) => if targets_terminal(method) { t } else { None },
            None => None,
        };
        if method == "surface.resume.set"@ || method == "surface.resume.show"@ || method
            == "surface.resume.clear"@ {
            spec_resume(method, p)
        } else if method == "system.ping"@ {
            Ok(RequestModel::Ping)
        } else if method == "system.identify"@ {
            Ok(RequestModel::Identify)
        } else if method == "system.diagnostics"@ {
            Ok(RequestModel::Diagnostics)
        } else if method == "system.capabilities"@ {
            Ok(RequestModel::Capabilities)
        } else if method == "workspace.list"@ {
            Ok(RequestModel::WorkspaceList)
        } else if method == "workspace.current"@ {
            Ok(RequestModel::WorkspaceCurrent)
        } else if method == "workspace.create"@ {
            let remote = text_of(get(p, "remote_target"@));
            let dir = if get(p, "working_directory"@) is Some {
                text_of(get(p, "working_directory"@))
            } else {
                text_of(get(p, "cwd"@))
            };
            Ok(
                RequestModel::WorkspaceCreate(
                    remote,
                    text_of(get(p, "name"@)),
                    if remote is None { dir } else { None },
                ),
            )
        } else if method == "workspace.select"@ {
            Ok(RequestModel::WorkspaceSelect(text_or_empty(p, "id"@)))
        } else if method == "workspace.close"@ {
            Ok(RequestModel::WorkspaceClose(text_or_empty(p, "id"@)))
        } else if method == "workspace.rename"@ {
            Ok(RequestModel::WorkspaceRename(text_or_empty(p, "id"@), text_or_empty(p, "name"@)))
        } else if method == "workspace.next"@ {
            Ok(RequestModel::WorkspaceNext)
        } else if method == "workspace.previous"@ {
            Ok(RequestModel::WorkspacePrev)
        } else if method == "workspace.last"@ {
            Ok(RequestModel::WorkspaceLast)
        } else if method == "workspace.reorder_many"@ {
            match reorder_list(p) {
                None => Err(invalid("workspace_ids must contain 1..4096 UUIDs"@)),
                Some(a) => match uuid_list(a) {
                    None => Err(invalid("invalid workspace UUID"@)),
                    Some(order) => match get(p, "dry_run"@) {
                        None => Ok(RequestModel::WorkspaceReorderMany(order, false)),
                        Some(Json::Bool(b)) => Ok(RequestModel::WorkspaceReorderMany(order, b)),
                        Some(_) => Err(invalid("dry_run must be boolean"@)),
                    },
                },
            }
        } else if method == "workspace.reorder"@ {
            match get(p, "position"@) {
                Some(Json::Number(n)) => match n.unsigned {
                    Some(u) => if u <= usize::MAX {
                        Ok(RequestModel::WorkspaceReorder(text_or_empty(p, "id"@), u as usize))
                    } else {
                        Err(invalid("position must be a nonnegative integer within the native index range"@))
                    },
                    None => Err(invalid("position must be a nonnegative integer within the native index range"@)),
                },
                _ => Err(invalid("position must be a nonnegative integer within the native index range"@)),
            }
        } else if method == "surface.list"@ {
            Ok(RequestModel::SurfaceList)
        } else if method == "surface.split"@ {
            match get(p, "direction"@) {
                None => Ok(RequestModel::SurfaceSplit(target, SplitDirection::Horizontal)),
                Some(Json::Str(d)) => if d@ == "horizontal"@ {
                    Ok(RequestModel::SurfaceSplit(target, SplitDirection::Horizontal))
                } else if d@ == "vertical"@ {
                    Ok(RequestModel::SurfaceSplit(target, SplitDirection::Vertical))
                } else {
                    Err(invalid("direction must be horizontal or vertical"@))
                },
                Some(_) => Err(invalid("direction must be horizontal or vertical"@)),
            }
        } else if method == "surface.focus"@ {
            Ok(RequestModel::SurfaceFocus(text_or_empty(p, "id"@)))
        } else if method == "surface.close"@ {
            Ok(RequestModel::SurfaceClose(text_or_empty(p, "id"@)))
        } else if method == "surface.send_text"@ || method == "surface.send_key"@ || method
            == "debug.type"@ {
            let field = if method == "surface.send_key"@ {
                "key"@
            } else {
                "text"@
            };
            match text_of(get(p, field)) {
                None => Err(invalid(field + " must be a string"@)),
                Some(input) => if method == "surface.send_text"@ {
                    Ok(RequestModel::SurfaceSendText(target, input))
                } else if method == "surface.send_key"@ {
                    Ok(RequestModel::SurfaceSendKey(target, input))
                } else {
                    Ok(RequestModel::DebugType(input))
                },
            }
        } else if method == "surface.read_text"@ || method == "surface.read_scrollback"@ {
            Ok(RequestModel::SurfaceReadText(target, method == "surface.read_scrollback"@))
        } else if method == "surface.health"@ {
            Ok(RequestModel::SurfaceHealth(target))
        } else if method == "surface.refresh"@ {
            Ok(RequestModel::SurfaceRefresh(target))
        } else if method == "pane.list"@ {
            Ok(RequestModel::PaneList)
        } else if method == "pane.focus"@ {
            Ok(RequestModel::PaneFocus(target))
        } else if method == "pane.last"@ {
            Ok(RequestModel::PaneLast)
        } else if method == "window.list"@ {
            Ok(RequestModel::WindowList)
        } else if method == "window.current"@ {
            Ok(RequestModel::WindowCurrent)
        } else if method == "debug.layout"@ {
            Ok(RequestModel::DebugLayout)
        } else if method == "project.actions.run"@ {
            match workspace_field(p, "workspace_id"@) {
                None => Err(invalid("invalid workspace UUID"@)),
                Some(workspace) => match text_of(get(p, "action_id"@)) {
                    Some(a) if a.len() > 0 && utf8_len(a) <= 128 => match text_of(get(p, "fingerprint"@)) {
                        Some(f) if fingerprint_ok(f) => match present(p, "confirmed"@) {
                            None => Ok(RequestModel::ProjectActionRun(workspace, a, f, false)),
                            Some(Json::Bool(c)) => Ok(RequestModel::ProjectActionRun(workspace, a, f, c)),
                            Some(_) => Err(invalid("confirmed must be boolean"@)),
                        },
                        _ => Err(invalid("review fingerprint required"@)),
                    },
                    _ => Err(invalid("invalid action ID"@)),
                },
            }
        } else if method == "project.actions.list"@ {
            match workspace_field(p, "workspace_id"@) {
                None => Err(invalid("invalid workspace UUID"@)),
                Some(workspace) => Ok(RequestModel::ProjectActionsList(workspace)),
            }
        } else if method == "ports.list"@ {
            match workspace_field(p, "workspace_id"@) {
                None => Err(invalid("invalid scope UUID"@)),
                Some(workspace) => match workspace_field(p, "surface_id"@) {
                    None => Err(invalid("invalid scope UUID"@)),
                    Some(surface) => Ok(RequestModel::PortsList(workspace, surface)),
                },
            }
        } else if sidebar_method(method) {
            match workspace_field(p, "workspace_id"@) {
                None => Err(invalid("invalid workspace UUID"@)),
                Some(workspace) => Ok(RequestModel::WorkspaceMetadata(workspace, method, p)),
            }
        } else if method == "notification.list"@ {
            Ok(RequestModel::NotificationList)
        } else if notification_method(method) {
            match crate::inbox::spec_parse(method, p) {
                Err(m) => Err(invalid(m)),
                Ok(a) => Ok(RequestModel::Inbox(a)),
            }
        } else if method == "browser.open"@ {
            let workspace: Option<Option<Seq<char>>> = match present(p, "workspace"@) {
                None => Some(None),
                Some(Json::Str(s)) => if uuid_value(s@) is Some {
                    Some(Some(s@))
                } else {
                    None
                },
                Some(_) => None,
            };
            match workspace {
                None => Err(invalid("invalid workspace UUID"@)),
                Some(w) => Ok(RequestModel::BrowserOpen(text_or_empty(p, "url"@), w)),
            }
        } else if method == "browser.stream.enable"@ {
            Ok(RequestModel::BrowserStreamEnable)
        } else if method == "browser.stream.disable"@ {
            Ok(RequestModel::BrowserStreamDisable)
        } else if method == "browser.list"@ {
            Ok(RequestModel::BrowserList)
        } else if method.len() >= 8 && method.take(8) == "browser."@ {
            Ok(RequestModel::BrowserAction(method.skip(8), p, text_of(get(p, "surface_ref"@))))
        } else {
            Err(("not_implemented"@, method + " is not implemented"@))
        }
    }
}

/// An `invalid_params` refusal with `message`.
fn invalid_params(message: &str) -> (e: RpcError)
    ensures
        (e.code@, e.message@) == invalid(message@),
{
    proof {
        reveal_strlit("invalid_params");
    }
    RpcError { code: "invalid_params", message: String::from_str(message) }
}

/// The text of a string member.
fn text_member(p: &Json, key: &str) -> (r: Option<String>)
    ensures
        opt_chars(r) == text_of(get(*p, key@)),
{
    match p.get(key) {
        Some(Json::Str(s)) => Some(s.clone()),
        _ => None,
    }
}

/// The text of a string member, or empty.
fn text_member_or_empty(p: &Json, key: &str) -> (r: String)
    ensures
        r@ == text_or_empty(*p, key@),
{
    match text_member(p, key) {
        Some(t) => t,
        None => String::new(),
    }
}

/// Decode a nullable optional target without silently turning malformed IDs into active-pane fallback.
fn read_target(p: &Json) -> (r: Result<Option<String>, RpcError>)
    ensures
        match r {
            Ok(t) => optional_target(*p) == Some(opt_chars(t)),
            Err(e) => optional_target(*p) is None && (e.code@, e.message@) == invalid("id must be a string or null"@),
        },
{
    match p.get("id") {
        None => Ok(None),
        Some(Json::Null) => Ok(None),
        Some(Json::Str(s)) => Ok(Some(s.clone())),
        Some(_) => Err(invalid_params("id must be a string or null")),
    }
}

/// An optional workspace UUID member.
fn read_workspace(p: &Json, key: &str) -> (r: Option<Option<u128>>)
    ensures
        r == workspace_field(*p, key@),
{
    match p.present(key) {
        None => Some(None),
        Some(Json::Str(s)) => match parse_uuid(s.as_str()) {
            Some(u) => Some(Some(u)),
            None => None,
        },
        Some(_) => None,
    }
}

/// An optional text member of a binding.
fn read_opt_text(p: &Json, key: &str) -> (r: Option<Option<String>>)
    ensures
        match r {
            Some(o) => opt_text_field(*p, key@) == Some(opt_chars(o)),
            None => opt_text_field(*p, key@) is None,
        },
{
    match p.get(key) {
        None => Some(None),
        Some(Json::Null) => Some(None),
        Some(Json::Str(s)) => Some(Some(s.clone())),
        Some(_) => None,
    }
}

/// The environment member of a binding.
fn read_env(p: &Json) -> (r: Option<Environment>)
    ensures
        match r {
            Some(e) => env_field(*p) == Some(e@),
            None => env_field(*p) is None,
        },
{
    let ms = match p.get("environment") {
        None => {
            return Some(Environment::new());
        },
        Some(Json::Null) => {
            return Some(Environment::new());
        },
        Some(Json::Object(ms)) => ms,
        Some(_) => {
            return None;
        },
    };
    let mut env = Environment::new();
    let mut i: usize = 0;
    assert(ms@.skip(0) =~= ms@);
    while i < ms.len()
        invariant
            i <= ms@.len(),
            env_field(*p) == env_members(ms@, Seq::empty()),
            env_members(ms@, Seq::empty()) == env_members(ms@.skip(i as int), env@),
        decreases ms@.len() - i,
    {
        let ghost rest = ms@.skip(i as int);
        assert(rest[0] == ms@[i as int]);
        assert(rest.drop_first() =~= ms@.skip(i + 1));
        match &ms[i].1 {
            Json::Str(t) => {
                env.insert(ms[i].0.clone(), t.clone());
            },
            _ => {
                return None;
            },
        }
        i = i + 1;
    }
    assert(ms@.skip(i as int) =~= Seq::<(String, Json)>::empty());
    Some(env)
}

/// The binding a request's fields describe.
fn read_binding(p: &Json) -> (r: Option<ResumeBinding>)
    ensures
        match r {
            Some(b) => binding_fields(*p) == Some(binding_model(&b)),
            None => binding_fields(*p) is None,
        },
{
    if !p.is_object() {
        return None;
    }
    let command = match text_member(p, "command") {
        Some(c) => c,
        None => {
            return None;
        },
    };
    let name = read_opt_text(p, "name");
    let kind = read_opt_text(p, "kind");
    let cwd = read_opt_text(p, "cwd");
    let checkpoint_id = read_opt_text(p, "checkpoint_id");
    let environment = read_env(p);
    match (name, kind, cwd, checkpoint_id, environment) {
        (Some(name), Some(kind), Some(cwd), Some(checkpoint_id), Some(environment)) => Some(
            ResumeBinding { command, name, kind, cwd, checkpoint_id, environment },
        ),
        _ => None,
    }
}

/// A resume request.
fn decode_resume(m: &Vec<char>, p: &Json) -> (r: Result<Request, RpcError>)
    ensures
        outcome(r) == spec_resume(m@, *p),
{
    let target = if p.get("surface_id").is_some() {
        p.get("surface_id")
    } else {
        p.get("id")
    };
    let id: Option<String> = match target {
        None => None,
        Some(Json::Null) => None,
        Some(Json::Str(s)) => {
            if parse_uuid(s.as_str()).is_some() {
                Some(s.clone())
            } else {
                return Err(invalid_params("surface_id must be a UUID"));
            }
        },
        Some(_) => {
            return Err(invalid_params("surface_id must be a UUID"));
        },
    };
    if chars_equal(m, "surface.resume.set") {
        let auto = match p.get("auto_resume") {
            Some(Json::Bool(false)) => false,
            Some(_) => true,
            None => false,
        };
        if auto {
            proof {
                reveal_strlit("not_supported");
                reveal_strlit("automatic resume requires a configured hook policy");
            }
            return Err(
                RpcError {
                    code: "not_supported",
                    message: String::from_str("automatic resume requires a configured hook policy"),
                },
            );
        }
        let mut binding = match read_binding(p) {
            Some(b) => b,
            None => {
                return Err(invalid_params("invalid resume binding fields"));
            },
        };
        proof {
            crate::resume::lemma_validate_model(&binding);
        }
        match binding.validate() {
            Err(message) => {
                return Err(invalid_params(message));
            },
            Ok(()) => {},
        }
        binding.sanitize_environment();
        return Ok(Request::SurfaceResume { id, action: ResumeAction::SetBinding(binding) });
    }
    if chars_equal(m, "surface.resume.clear") {
        let checkpoint_id = match p.get("checkpoint_id") {
            None => None,
            Some(Json::Null) => None,
            Some(Json::Str(v)) => {
                if utf8_size(v.as_str()) <= 16384 && !has_char(&chars_of(v.as_str()), '\0') {
                    Some(v.clone())
                } else {
                    return Err(invalid_params("invalid checkpoint_id"));
                }
            },
            Some(_) => {
                return Err(invalid_params("invalid checkpoint_id"));
            },
        };
        return Ok(Request::SurfaceResume { id, action: ResumeAction::Clear { checkpoint_id } });
    }
    Ok(Request::SurfaceResume { id, action: ResumeAction::Show })
}

/// The order of a bulk workspace reorder.
#[verifier::loop_isolation(false)]
fn decode_reorder_many(p: &Json) -> (r: Result<Request, RpcError>)
    ensures
        outcome(r) == (match reorder_list(*p) {
            None => Err(invalid("workspace_ids must contain 1..4096 UUIDs"@)),
            Some(a) => match uuid_list(a) {
                None => Err(invalid("invalid workspace UUID"@)),
                Some(order) => match get(*p, "dry_run"@) {
                    None => Ok(RequestModel::WorkspaceReorderMany(order, false)),
                    Some(Json::Bool(b)) => Ok(RequestModel::WorkspaceReorderMany(order, b)),
                    Some(_) => Err(invalid("dry_run must be boolean"@)),
                },
            },
        }),
{
    let v = if p.get("workspace_ids").is_some() {
        p.get("workspace_ids")
    } else {
        p.get("order")
    };
    let values = match v {
        Some(Json::Array(a)) => {
            if a.len() > 0 && a.len() <= 4096 {
                a
            } else {
                return Err(invalid_params("workspace_ids must contain 1..4096 UUIDs"));
            }
        },
        _ => {
            return Err(invalid_params("workspace_ids must contain 1..4096 UUIDs"));
        },
    };
    let mut order: Vec<u128> = Vec::new();
    let mut i: usize = 0;
    while i < values.len()
        invariant
            i <= values@.len(),
            uuid_list(values@.take(i as int)) == Some(order@),
        decreases values@.len() - i,
    {
        assert(values@.take(i + 1).drop_last() =~= values@.take(i as int));
        assert(values@.take(i + 1).last() == values@[i as int]);
        let u = match &values[i] {
            Json::Str(s) => parse_uuid(s.as_str()),
            _ => None,
        };
        match u {
            Some(u) => {
                order.push(u);
            },
            None => {
                proof {
                    lemma_uuid_list_prefix(values@, i + 1);
                }
                return Err(invalid_params("invalid workspace UUID"));
            },
        }
        i = i + 1;
    }
    assert(values@.take(i as int) =~= values@);
    let dry_run = match p.get("dry_run") {
        None => false,
        Some(Json::Bool(b)) => *b,
        Some(_) => {
            return Err(invalid_params("dry_run must be boolean"));
        },
    };
    Ok(Request::WorkspaceReorderMany { order, dry_run })
}

/// A failing prefix fails the whole UUID list.
proof fn lemma_uuid_list_prefix(a: Seq<Json>, k: int)
    requires
        0 <= k <= a.len(),
        uuid_list(a.take(k)) is None,
    ensures
        uuid_list(a) is None,
    decreases a.len() - k,
{
    if k < a.len() {
        assert(a.take(k + 1).drop_last() =~= a.take(k));
        lemma_uuid_list_prefix(a, k + 1);
    } else {
        assert(a.take(k) =~= a);
    }
}

/// Whether a text is a review fingerprint.
fn is_fingerprint(s: &str) -> (r: bool)
    ensures
        r == fingerprint_ok(s@),
{
    let v = chars_of(s);
    if v.len() != 64 {
        return false;
    }
    let mut i: usize = 0;
    while i < v.len()
        invariant
            v@ == s@,
            v@.len() == 64,
            i <= v@.len(),
            forall|j: int|
                0 <= j < i ==> {
                    let c = #[trigger] v@[j];
                    ('0' <= c && c <= '9') || ('a' <= c && c <= 'f') || ('A' <= c && c <= 'F')
                },
        decreases v@.len() - i,
    {
        let c = v[i];
        if !(('0' <= c && c <= '9') || ('a' <= c && c <= 'f') || ('A' <= c && c <= 'F')) {
            return false;
        }
        i = i + 1;
    }
    true
}

/// A reviewed project command run.
fn decode_action_run(p: &Json) -> (r: Result<Request, RpcError>)
    ensures
        outcome(r) == (match workspace_field(*p, "workspace_id"@) {
            None => Err(invalid("invalid workspace UUID"@)),
            Some(workspace) => match text_of(get(*p, "action_id"@)) {
                Some(a) if a.len() > 0 && utf8_len(a) <= 128 => match text_of(get(*p, "fingerprint"@)) {
                    Some(f) if fingerprint_ok(f) => match present(*p, "confirmed"@) {
                        None => Ok(RequestModel::ProjectActionRun(workspace, a, f, false)),
                        Some(Json::Bool(c)) => Ok(RequestModel::ProjectActionRun(workspace, a, f, c)),
                        Some(_) => Err(invalid("confirmed must be boolean"@)),
                    },
                    _ => Err(invalid("review fingerprint required"@)),
                },
                _ => Err(invalid("invalid action ID"@)),
            },
        }),
{
    let workspace = match read_workspace(p, "workspace_id") {
        Some(w) => w,
        None => {
            return Err(invalid_params("invalid workspace UUID"));
        },
    };
    let action_id = match text_member(p, "action_id") {
        Some(a) => {
            if chars_of(a.as_str()).len() > 0 && utf8_size(a.as_str()) <= 128 {
                a
            } else {
                return Err(invalid_params("invalid action ID"));
            }
        },
        None => {
            return Err(invalid_params("invalid action ID"));
        },
    };
    let fingerprint = match text_member(p, "fingerprint") {
        Some(f) => {
            if is_fingerprint(f.as_str()) {
                f
            } else {
                return Err(invalid_params("review fingerprint required"));
            }
        },
        None => {
            return Err(invalid_params("review fingerprint required"));
        },
    };
    let confirmed = match p.present("confirmed") {
        None => false,
        Some(Json::Bool(c)) => *c,
        Some(_) => {
            return Err(invalid_params("confirmed must be boolean"));
        },
    };
    Ok(Request::ProjectActionRun { workspace, action_id, fingerprint, confirmed })
}

/// Whether a method addresses an optional terminal.
fn is_terminal_method(m: &Vec<char>) -> (r: bool)
    ensures
        r == targets_terminal(m@),
{
    chars_equal(m, "surface.split") || chars_equal(m, "surface.send_text") || chars_equal(
        m,
        "surface.send_key",
    ) || chars_equal(m, "surface.read_text") || chars_equal(m, "surface.read_scrollback")
        || chars_equal(m, "surface.health") || chars_equal(m, "surface.refresh") || chars_equal(
        m,
        "pane.focus",
    )
}

/// Validate one request's method and parameters (an object) into a typed request.
pub fn decode_call(method: &str, params: Json) -> (r: Result<Request, RpcError>)
    ensures
        outcome(r) == spec_call(method@, params),
{
    let m = chars_of(method);
    let terminal = is_terminal_method(&m);
    let target = if terminal {
        match read_target(&params) {
            Ok(t) => t,
            Err(e) => {
                return Err(e);
            },
        }
    } else {
        None
    };
    if chars_equal(&m, "surface.resume.set") || chars_equal(&m, "surface.resume.show")
        || chars_equal(&m, "surface.resume.clear") {
        return decode_resume(&m, &params);
    }
    if chars_equal(&m, "system.ping") {
        return Ok(Request::Ping);
    }
    if chars_equal(&m, "system.identify") {
        return Ok(Request::Identify);
    }
    if chars_equal(&m, "system.diagnostics") {
        return Ok(Request::Diagnostics);
    }
    if chars_equal(&m, "system.capabilities") {
        return Ok(Request::Capabilities);
    }
    if chars_equal(&m, "workspace.list") {
        return Ok(Request::WorkspaceList);
    }
    if chars_equal(&m, "workspace.current") {
        return Ok(Request::WorkspaceCurrent);
    }
    if chars_equal(&m, "workspace.create") {
        let remote_target = text_member(&params, "remote_target");
        let name = text_member(&params, "name");
        let dir = if params.get("working_directory").is_some() {
            text_member(&params, "working_directory")
        } else {
            text_member(&params, "cwd")
        };
        let working_directory = if remote_target.is_none() {
            dir
        } else {
            None
        };
        return Ok(Request::WorkspaceCreate { remote_target, name, working_directory });
    }
    if chars_equal(&m, "workspace.select") {
        return Ok(Request::WorkspaceSelect { id: text_member_or_empty(&params, "id") });
    }
    if chars_equal(&m, "workspace.close") {
        return Ok(Request::WorkspaceClose { id: text_member_or_empty(&params, "id") });
    }
    if chars_equal(&m, "workspace.rename") {
        return Ok(
            Request::WorkspaceRename {
                id: text_member_or_empty(&params, "id"),
                name: text_member_or_empty(&params, "name"),
            },
        );
    }
    if chars_equal(&m, "workspace.next") {
        return Ok(Request::WorkspaceNext);
    }
    if chars_equal(&m, "workspace.previous") {
        return Ok(Request::WorkspacePrev);
    }
    if chars_equal(&m, "workspace.last") {
        return Ok(Request::WorkspaceLast);
    }
    if chars_equal(&m, "workspace.reorder_many") {
        return decode_reorder_many(&params);
    }
    if chars_equal(&m, "workspace.reorder") {
        let position = match params.get("position") {
            Some(Json::Number(n)) => match n.unsigned {
                Some(u) => {
                    if u <= usize::MAX as u64 {
                        Some(u as usize)
                    } else {
                        None
                    }
                },
                None => None,
            },
            _ => None,
        };
        return match position {
            Some(position) => Ok(
                Request::WorkspaceReorder { id: text_member_or_empty(&params, "id"), position },
            ),
            None => Err(
                invalid_params(
                    "position must be a nonnegative integer within the native index range",
                ),
            ),
        };
    }
    decode_surface_call(&m, params, target)
}

/// Surface, pane, window and debug requests, and the rest of the method table.
fn decode_surface_call(m: &Vec<char>, params: Json, target: Option<String>) -> (r: Result<Request, RpcError>)
    requires
        targets_terminal(m@) ==> optional_target(params) == Some(opt_chars(target)),
        !targets_terminal(m@) ==> target is None,
        m@ != "surface.resume.set"@,
        m@ != "surface.resume.show"@,
        m@ != "surface.resume.clear"@,
        m@ != "system.ping"@,
        m@ != "system.identify"@,
        m@ != "system.diagnostics"@,
        m@ != "system.capabilities"@,
        m@ != "workspace.list"@,
        m@ != "workspace.current"@,
        m@ != "workspace.create"@,
        m@ != "workspace.select"@,
        m@ != "workspace.close"@,
        m@ != "workspace.rename"@,
        m@ != "workspace.next"@,
        m@ != "workspace.previous"@,
        m@ != "workspace.last"@,
        m@ != "workspace.reorder_many"@,
        m@ != "workspace.reorder"@,
    ensures
        outcome(r) == spec_call(m@, params),
{
    if chars_equal(m, "surface.list") {
        return Ok(Request::SurfaceList);
    }
    if chars_equal(m, "surface.split") {
        let direction = match params.get("direction") {
            None => Some(SplitDirection::Horizontal),
            Some(Json::Str(d)) => {
                let dv = chars_of(d.as_str());
                if chars_equal(&dv, "horizontal") {
                    Some(SplitDirection::Horizontal)
                } else if chars_equal(&dv, "vertical") {
                    Some(SplitDirection::Vertical)
                } else {
                    None
                }
            },
            Some(_) => None,
        };
        return match direction {
            Some(direction) => Ok(Request::SurfaceSplit { id: target, direction }),
            None => Err(invalid_params("direction must be horizontal or vertical")),
        };
    }
    if chars_equal(m, "surface.focus") {
        return Ok(Request::SurfaceFocus { id: text_member_or_empty(&params, "id") });
    }
    if chars_equal(m, "surface.close") {
        return Ok(Request::SurfaceClose { id: text_member_or_empty(&params, "id") });
    }
    let send_text = chars_equal(m, "surface.send_text");
    let send_key = chars_equal(m, "surface.send_key");
    if send_text || send_key || chars_equal(m, "debug.type") {
        let field = if send_key {
            "key"
        } else {
            "text"
        };
        let input = match text_member(&params, field) {
            Some(t) => t,
            None => {
                let mut message = String::from_str(field);
                message.append(" must be a string");
                proof {
                    reveal_strlit("invalid_params");
                }
                return Err(RpcError { code: "invalid_params", message });
            },
        };
        if send_text {
            return Ok(Request::SurfaceSendText { id: target, text: input });
        }
        if send_key {
            return Ok(Request::SurfaceSendKey { id: target, key: input });
        }
        return Ok(Request::DebugType { text: input });
    }
    let read_text = chars_equal(m, "surface.read_text");
    let read_scrollback = chars_equal(m, "surface.read_scrollback");
    if read_text || read_scrollback {
        return Ok(Request::SurfaceReadText { id: target, scrollback: read_scrollback });
    }
    if chars_equal(m, "surface.health") {
        return Ok(Request::SurfaceHealth { id: target });
    }
    if chars_equal(m, "surface.refresh") {
        return Ok(Request::SurfaceRefresh { id: target });
    }
    if chars_equal(m, "pane.list") {
        return Ok(Request::PaneList);
    }
    if chars_equal(m, "pane.focus") {
        return Ok(Request::PaneFocus { id: target });
    }
    if chars_equal(m, "pane.last") {
        return Ok(Request::PaneLast);
    }
    if chars_equal(m, "window.list") {
        return Ok(Request::WindowList);
    }
    if chars_equal(m, "window.current") {
        return Ok(Request::WindowCurrent);
    }
    if chars_equal(m, "debug.layout") {
        return Ok(Request::DebugLayout);
    }
    decode_service_call(m, params)
}

/// Project, port, sidebar, notification and browser requests.
fn decode_service_call(m: &Vec<char>, params: Json) -> (r: Result<Request, RpcError>)
    requires
        !targets_terminal(m@),
        m@ != "surface.resume.set"@,
        m@ != "surface.resume.show"@,
        m@ != "surface.resume.clear"@,
        m@ != "system.ping"@,
        m@ != "system.identify"@,
        m@ != "system.diagnostics"@,
        m@ != "system.capabilities"@,
        m@ != "workspace.list"@,
        m@ != "workspace.current"@,
        m@ != "workspace.create"@,
        m@ != "workspace.select"@,
        m@ != "workspace.close"@,
        m@ != "workspace.rename"@,
        m@ != "workspace.next"@,
        m@ != "workspace.previous"@,
        m@ != "workspace.last"@,
        m@ != "workspace.reorder_many"@,
        m@ != "workspace.reorder"@,
        m@ != "surface.list"@,
        m@ != "surface.focus"@,
        m@ != "surface.close"@,
        m@ != "debug.type"@,
        m@ != "pane.list"@,
        m@ != "pane.last"@,
        m@ != "window.list"@,
        m@ != "window.current"@,
        m@ != "debug.layout"@,
    ensures
        outcome(r) == spec_call(m@, params),
{
    if chars_equal(m, "project.actions.run") {
        return decode_action_run(&params);
    }
    if chars_equal(m, "project.actions.list") {
        return match read_workspace(&params, "workspace_id") {
            Some(workspace) => Ok(Request::ProjectActionsList { workspace }),
            None => Err(invalid_params("invalid workspace UUID")),
        };
    }
    if chars_equal(m, "ports.list") {
        let workspace = match read_workspace(&params, "workspace_id") {
            Some(w) => w,
            None => {
                return Err(invalid_params("invalid scope UUID"));
            },
        };
        let surface = match read_workspace(&params, "surface_id") {
            Some(s) => s,
            None => {
                return Err(invalid_params("invalid scope UUID"));
            },
        };
        return Ok(Request::PortsList { workspace, surface });
    }
    if chars_equal(m, "sidebar.metadata") || chars_equal(m, "sidebar.set_status") || chars_equal(
        m,
        "sidebar.clear_status",
    ) || chars_equal(m, "sidebar.set_progress") || chars_equal(m, "sidebar.clear_progress")
        || chars_equal(m, "sidebar.report_meta_block") || chars_equal(m, "sidebar.clear_meta_block") {
        return match read_workspace(&params, "workspace_id") {
            Some(workspace) => Ok(
                Request::WorkspaceMetadata { workspace, method: string_of(m.as_slice()), params },
            ),
            None => Err(invalid_params("invalid workspace UUID")),
        };
    }
    if chars_equal(m, "notification.list") {
        return Ok(Request::NotificationList);
    }
    if chars_equal(m, "notification.create") || chars_equal(m, "notification.create_for_surface")
        || chars_equal(m, "notification.create_for_caller") || chars_equal(
        m,
        "notification.create_for_target",
    ) || chars_equal(m, "notification.clear") || chars_equal(m, "notification.mark_read")
        || chars_equal(m, "notification.dismiss") || chars_equal(m, "notification.open")
        || chars_equal(m, "notification.jump_to_unread") {
        let method = string_of(m.as_slice());
        return match crate::inbox::parse(method.as_str(), &params) {
            Ok(action) => Ok(Request::Inbox { action }),
            Err(message) => Err(invalid_params(message)),
        };
    }
    if chars_equal(m, "browser.open") {
        let workspace = match params.present("workspace") {
            None => None,
            Some(Json::Str(s)) => {
                if parse_uuid(s.as_str()).is_some() {
                    Some(s.clone())
                } else {
                    return Err(invalid_params("invalid workspace UUID"));
                }
            },
            Some(_) => {
                return Err(invalid_params("invalid workspace UUID"));
            },
        };
        return Ok(Request::BrowserOpen { url: text_member_or_empty(&params, "url"), workspace });
    }
    if chars_equal(m, "browser.stream.enable") {
        return Ok(Request::BrowserStreamEnable);
    }
    if chars_equal(m, "browser.stream.disable") {
        return Ok(Request::BrowserStreamDisable);
    }
    if chars_equal(m, "browser.list") {
        return Ok(Request::BrowserList);
    }
    if m.len() >= 8 {
        let head = slice_chars(m, 0, 8);
        assert(head@ =~= m@.take(8));
        if chars_equal(&head, "browser.") {
            let rest = slice_chars(m, 8, m.len());
            assert(rest@ =~= m@.skip(8));
            let surface_ref = text_member(&params, "surface_ref");
            return Ok(
                Request::BrowserAction { action: string_of(rest.as_slice()), params, surface_ref },
            );
        }
    }
    let mut message = string_of(m.as_slice());
    message.append(" is not implemented");
    proof {
        reveal_strlit("not_implemented");
    }
    Err(RpcError { code: "not_implemented", message })
}

/// A request's identity, method and parameters, or the refusal with the identity to echo;
/// parameters that are missing or `null` are `None`, which stands for an empty object.
pub open spec fn spec_envelope(req: Json) -> Result<(Json, Seq<char>, Option<Json>), (Json, ErrorModel)> {
    if !(req is Object) {
        Err((Json::Null, ("invalid_request"@, "request must be an object"@)))
    } else {
        let id = match get(req, "id"@) {
            Some(v) => v,
            None => Json::Null,
        };
        match get(req, "method"@) {
            Some(Json::Str(m)) => match get(req, "params"@) {
                None => Ok((id, m@, None)),
                Some(Json::Null) => Ok((id, m@, None)),
                Some(Json::Object(ms)) => Ok((id, m@, Some(Json::Object(ms)))),
                Some(_) => Err((id, ("invalid_params"@, "params must be an object or null"@))),
            },
            _ => Err((id, ("invalid_request"@, "method must be a string"@))),
        }
    }
}

/// Whether `p` is the parameters an envelope gives: the given object, or an empty one.
pub open spec fn params_match(p: Json, given: Option<Json>) -> bool {
    match given {
        Some(g) => p == g,
        None => p matches Json::Object(ms) && ms@.len() == 0,
    }
}

/// The first member named `key` among `ms`.
pub open spec fn lookup(ms: Seq<(String, Json)>, key: Seq<char>) -> Option<Json> {
    let i = crate::json::member_index(ms, key);
    if i < ms.len() {
        Some(ms[i].1)
    } else {
        None
    }
}

/// Looking a key up after one more member: an earlier member wins, otherwise the new one if it
/// has the key.
pub proof fn lemma_lookup_push(ms: Seq<(String, Json)>, e: (String, Json), key: Seq<char>)
    ensures
        lookup(ms.push(e), key) == (if lookup(ms, key) is Some {
            lookup(ms, key)
        } else if e.0@ == key {
            Some(e.1)
        } else {
            None
        }),
{
    let n = ms.push(e);
    assert(n.drop_last() =~= ms);
    crate::json::lemma_member_index(ms, key);
    let i = crate::json::member_index(ms, key);
    if i < ms.len() {
        assert(n[i] == ms[i]);
    }
}

/// Split a request into its identity, method and parameters: an object whose `method` is a
/// string and whose `params`, when present and not `null`, are an object.
pub fn decode_envelope(req: Json) -> (r: Result<(Json, String, Json), (Json, RpcError)>)
    ensures
        match r {
            Ok((id, m, p)) => spec_envelope(req) matches Ok((i, n, g)) && i == id && n == m@
                && params_match(p, g),
            Err((id, e)) => spec_envelope(req) == Err::<(Json, Seq<char>, Option<Json>), (Json, ErrorModel)>((id, (e.code@, e.message@))),
        },
{
    let mut ms = match req {
        Json::Object(ms) => ms,
        _ => {
            proof {
                reveal_strlit("invalid_request");
            }
            return Err(
                (
                    Json::Null,
                    RpcError { code: "invalid_request", message: String::from_str("request must be an object") },
                ),
            );
        },
    };
    let ghost all = ms@;
    assert(all.len() == ms.len());
    let key_id = String::from_str("id");
    let key_method = String::from_str("method");
    let key_params = String::from_str("params");
    let mut id: Option<Json> = None;
    let mut method: Option<Json> = None;
    let mut params: Option<Json> = None;
    let mut k: usize = 0;
    while ms.len() > 0
        invariant
            k + ms@.len() == all.len(),
            all.len() <= usize::MAX,
            ms@ == all.skip(k as int),
            key_id@ == "id"@,
            key_method@ == "method"@,
            key_params@ == "params"@,
            id == lookup(all.take(k as int), "id"@),
            method == lookup(all.take(k as int), "method"@),
            params == lookup(all.take(k as int), "params"@),
        decreases ms@.len(),
    {
        let ghost before = ms@;
        let (key, value) = ms.remove(0);
        assert(all.take(k + 1).drop_last() =~= all.take(k as int));
        assert(all.take(k + 1).last() == (key, value)) by {
            assert(before[0] == all[k as int]);
        }
        assert(ms@ =~= all.skip(k + 1));
        proof {
            crate::json::lemma_member_index(all.take(k as int), "id"@);
            crate::json::lemma_member_index(all.take(k as int), "method"@);
            crate::json::lemma_member_index(all.take(k as int), "params"@);
            reveal_strlit("id");
            reveal_strlit("method");
            reveal_strlit("params");
            lemma_lookup_push(all.take(k as int), (key, value), "id"@);
            lemma_lookup_push(all.take(k as int), (key, value), "method"@);
            lemma_lookup_push(all.take(k as int), (key, value), "params"@);
        }
        assert("id"@.len() == 2);
        assert("method"@.len() == 6);
        assert("method"@[0] == 'm' && "params"@[0] == 'p');
        assert("id"@ != "method"@);
        assert("id"@ != "params"@);
        assert("method"@ != "params"@);
        if key == key_id {
            if id.is_none() {
                id = Some(value);
            }
        } else if key == key_method {
            if method.is_none() {
                method = Some(value);
            }
        } else if key == key_params {
            if params.is_none() {
                params = Some(value);
            }
        }
        k = k + 1;
    }
    assert(all.take(k as int) =~= all);
    let id = match id {
        Some(v) => v,
        None => Json::Null,
    };
    let method = match method {
        Some(Json::Str(m)) => m,
        _ => {
            proof {
                reveal_strlit("invalid_request");
            }
            return Err(
                (id, RpcError { code: "invalid_request", message: String::from_str("method must be a string") }),
            );
        },
    };
    let params = match params {
        None => Json::Object(Vec::new()),
        Some(Json::Null) => Json::Object(Vec::new()),
        Some(Json::Object(p)) => Json::Object(p),
        Some(_) => {
            proof {
                reveal_strlit("invalid_params");
            }
            return Err(
                (
                    id,
                    RpcError {
                        code: "invalid_params",
                        message: String::from_str("params must be an object or null"),
                    },
                ),
            );
        },
    };
    Ok((id, method, params))
}

/// What a decoded line comes to, by its model.
pub open spec fn line_outcome(r: Result<(Json, Request), (Json, RpcError)>) -> Result<
    (Json, RequestModel),
    (Json, ErrorModel),
> {
    match r {
        Ok((id, q)) => Ok((id, q.model())),
        Err((id, e)) => Err((id, (e.code@, e.message@))),
    }
}

/// What a request line is answered with when its text decodes to `doc` (`None`: not JSON),
/// where `p` stands for the parameters object the envelope yields.
pub open spec fn spec_line(doc: Option<Json>, p: Json) -> Result<(Json, RequestModel), (Json, ErrorModel)> {
    match doc {
        None => Err((Json::Null, ("parse_error"@, "invalid JSON"@))),
        Some(v) => match spec_envelope(v) {
            Err((id, e)) => Err((id, e)),
            Ok((id, m, _)) => match spec_call(m, p) {
                Ok(q) => Ok((id, q)),
                Err(e) => Err((id, e)),
            },
        },
    }
}

/// Whether `p` is the parameters object the envelope of `doc` yields: the given object, or an
/// empty one when none (or `null`) was given; any value where there is no envelope.
pub open spec fn line_params(doc: Option<Json>, p: Json) -> bool {
    match doc {
        Some(v) => match spec_envelope(v) {
            Ok((_, _, g)) => params_match(p, g),
            Err(_) => true,
        },
        None => true,
    }
}

/// Decode one request line: parse it as JSON, split the envelope, and type the call. Text that
/// is not JSON is refused with `parse_error` and a `null` identity; every other refusal echoes
/// the request's identity.
pub fn decode_line(line: &str) -> (r: Result<(Json, Request), (Json, RpcError)>)
    ensures
        exists|p: Json|
            line_params(json_of(line.spec_bytes()), p) && line_outcome(r) == #[trigger] spec_line(
                json_of(line.spec_bytes()),
                p,
            ),
{
    let doc = parse_json(line.as_bytes());
    let ghost d = json_of(line.spec_bytes());
    assert(doc == d);
    let value = match doc {
        Some(v) => v,
        None => {
            let r = Err(
                (Json::Null, RpcError { code: "parse_error", message: String::from_str("invalid JSON") }),
            );
            proof {
                reveal_strlit("invalid JSON");
                assert(line_params(d, Json::Null));
                assert(line_outcome(r) == spec_line(d, Json::Null));
            }
            return r;
        },
    };
    match decode_envelope(value) {
        Err((id, e)) => {
            let r = Err((id, e));
            proof {
                assert(line_params(d, Json::Null));
                assert(line_outcome(r) == spec_line(d, Json::Null));
            }
            r
        },
        Ok((id, method, params)) => {
            let ghost p = params;
            let r = match decode_call(method.as_str(), params) {
                Ok(q) => Ok((id, q)),
                Err(e) => Err((id, e)),
            };
            proof {
                assert(line_params(d, p));
                assert(line_outcome(r) == spec_line(d, p));
            }
            r
        },
    }
}

/// The scrollback flag of a terminal read is whether the method asked for the scrollback: a
/// decoded read of `surface.read_scrollback` reads it and one of `surface.read_text` does not.
pub proof fn law_read_scrollback_flag(method: Seq<char>, p: Json)
    ensures
        spec_call(method, p) matches Ok(RequestModel::SurfaceReadText(_, scrollback)) ==> (scrollback
            <==> method == "surface.read_scrollback"@) && (method == "surface.read_text"@ || method
            == "surface.read_scrollback"@),
{
}

/// A terminal read decodes to its target and flag: `surface.read_text` reads the screen and
/// `surface.read_scrollback` the scrollback, for any parameters with a valid `id`.
pub proof fn law_read_text_requests(p: Json)
    requires
        optional_target(p) is Some,
    ensures
        spec_call("surface.read_text"@, p) == Ok::<RequestModel, ErrorModel>(
            RequestModel::SurfaceReadText(optional_target(p)->Some_0, false),
        ),
        spec_call("surface.read_scrollback"@, p) == Ok::<RequestModel, ErrorModel>(
            RequestModel::SurfaceReadText(optional_target(p)->Some_0, true),
        ),
{
    reveal_strlit("surface.split");
    reveal_strlit("surface.send_text");
    reveal_strlit("surface.send_key");
    reveal_strlit("surface.read_text");
    reveal_strlit("surface.read_scrollback");
    reveal_strlit("surface.health");
    reveal_strlit("surface.refresh");
    reveal_strlit("pane.focus");
    reveal_strlit("surface.resume.clear");
    reveal_strlit("surface.resume.set");
    reveal_strlit("surface.resume.show");
    reveal_strlit("system.capabilities");
    reveal_strlit("system.diagnostics");
    reveal_strlit("system.identify");
    reveal_strlit("system.ping");
    reveal_strlit("workspace.close");
    reveal_strlit("workspace.create");
    reveal_strlit("workspace.current");
    reveal_strlit("workspace.last");
    reveal_strlit("workspace.list");
    reveal_strlit("workspace.next");
    reveal_strlit("workspace.previous");
    reveal_strlit("workspace.rename");
    reveal_strlit("workspace.reorder");
    reveal_strlit("workspace.reorder_many");
    reveal_strlit("workspace.select");
    reveal_strlit("surface.close");
    reveal_strlit("surface.focus");
    reveal_strlit("surface.list");
    reveal_strlit("debug.type");
    assert("surface.read_text"@.len() != "surface.split"@.len());
    assert("surface.read_text"@[8] != "surface.send_text"@[8]);
    assert("surface.read_text"@.len() != "surface.send_key"@.len());
    assert("surface.read_text"@.len() != "surface.read_scrollback"@.len());
    assert("surface.read_text"@.len() != "surface.health"@.len());
    assert("surface.read_text"@.len() != "surface.refresh"@.len());
    assert("surface.read_text"@.len() != "pane.focus"@.len());
    assert("surface.read_text"@.len() != "surface.resume.clear"@.len());
    assert("surface.read_text"@.len() != "surface.resume.set"@.len());
    assert("surface.read_text"@.len() != "surface.resume.show"@.len());
    assert("surface.read_text"@.len() != "system.capabilities"@.len());
    assert("surface.read_text"@.len() != "system.diagnostics"@.len());
    assert("surface.read_text"@.len() != "system.identify"@.len());
    assert("surface.read_text"@.len() != "system.ping"@.len());
    assert("surface.read_text"@.len() != "workspace.close"@.len());
    assert("surface.read_text"@.len() != "workspace.create"@.len());
    assert("surface.read_text"@[0] != "workspace.current"@[0]);
    assert("surface.read_text"@.len() != "workspace.last"@.len());
    assert("surface.read_text"@.len() != "workspace.list"@.len());
    assert("surface.read_text"@.len() != "workspace.next"@.len());
    assert("surface.read_text"@.len() != "workspace.previous"@.len());
    assert("surface.read_text"@.len() != "workspace.rename"@.len());
    assert("surface.read_text"@[0] != "workspace.reorder"@[0]);
    assert("surface.read_text"@.len() != "workspace.reorder_many"@.len());
    assert("surface.read_text"@.len() != "workspace.select"@.len());
    assert("surface.read_text"@.len() != "surface.close"@.len());
    assert("surface.read_text"@.len() != "surface.focus"@.len());
    assert("surface.read_text"@.len() != "surface.list"@.len());
    assert("surface.read_text"@.len() != "debug.type"@.len());
    assert("surface.read_scrollback"@.len() != "surface.split"@.len());
    assert("surface.read_scrollback"@.len() != "surface.send_text"@.len());
    assert("surface.read_scrollback"@.len() != "surface.send_key"@.len());
    assert("surface.read_scrollback"@.len() != "surface.read_text"@.len());
    assert("surface.read_scrollback"@.len() != "surface.health"@.len());
    assert("surface.read_scrollback"@.len() != "surface.refresh"@.len());
    assert("surface.read_scrollback"@.len() != "pane.focus"@.len());
    assert("surface.read_scrollback"@.len() != "surface.resume.clear"@.len());
    assert("surface.read_scrollback"@.len() != "surface.resume.set"@.len());
    assert("surface.read_scrollback"@.len() != "surface.resume.show"@.len());
    assert("surface.read_scrollback"@.len() != "system.capabilities"@.len());
    assert("surface.read_scrollback"@.len() != "system.diagnostics"@.len());
    assert("surface.read_scrollback"@.len() != "system.identify"@.len());
    assert("surface.read_scrollback"@.len() != "system.ping"@.len());
    assert("surface.read_scrollback"@.len() != "workspace.close"@.len());
    assert("surface.read_scrollback"@.len() != "workspace.create"@.len());
    assert("surface.read_scrollback"@.len() != "workspace.current"@.len());
    assert("surface.read_scrollback"@.len() != "workspace.last"@.len());
    assert("surface.read_scrollback"@.len() != "workspace.list"@.len());
    assert("surface.read_scrollback"@.len() != "workspace.next"@.len());
    assert("surface.read_scrollback"@.len() != "workspace.previous"@.len());
    assert("surface.read_scrollback"@.len() != "workspace.rename"@.len());
    assert("surface.read_scrollback"@.len() != "workspace.reorder"@.len());
    assert("surface.read_scrollback"@.len() != "workspace.reorder_many"@.len());
    assert("surface.read_scrollback"@.len() != "workspace.select"@.len());
    assert("surface.read_scrollback"@.len() != "surface.close"@.len());
    assert("surface.read_scrollback"@.len() != "surface.focus"@.len());
    assert("surface.read_scrollback"@.len() != "surface.list"@.len());
    assert("surface.read_scrollback"@.len() != "debug.type"@.len());
}

} // verus!
