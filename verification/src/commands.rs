//! What each socket command does to the window's workspaces and what it answers: the decisions
//! of the GTK-thread command handler, over plain values. The GTK and native work a command
//! needs (focusing widgets, creating or closing terminals, writing to a terminal) is handed
//! back to the caller as an effect or a native request.
use crate::dispatch::{Request, SplitDirection};
use crate::resume::ResumeAction;
use crate::ids::{hyphenated, parse_uuid, uuid_text, uuid_value};
use crate::inbox_actions::{first_where, lemma_first_where, lemma_first_where_at, WorkspaceView, Workspaces};
use crate::pane_tree::{
    all_rows, ids, info_model, leaves, pane_entry, pane_ref_target, shown_surface,
    spec_close_tab, spec_remove, spec_split, surfaces_of, tab_model, without_tab, tabs_model, text_pane, text_surface, text_index,
    entry_of, index_of, CloseSurfaceResult, PaneInfo, PaneLayout, PaneTabs, PaneTree,
};
use crate::selection::{after_removal, spec_after_removal};
use crate::text::{chars_of, string_of};
use vstd::prelude::*;

verus! {

/// An open workspace: its identity, name, launch directory, bell attention, pane layout and
/// each pane's tabs.
pub struct Workspace {
    pub uuid: u128,
    pub name: String,
    pub working_directory: Option<String>,
    pub has_attention: bool,
    pub layout: PaneLayout,
    pub tabs: Vec<PaneTabs>,
}

/// The window's workspaces, in sidebar order, and the selected one.
pub struct AppModel {
    pub workspaces: Vec<Workspace>,
    pub active_index: usize,
}

impl AppModel {
    /// Every layout is well formed, and a window with workspaces selects one of them.
    pub open spec fn wf(&self) -> bool {
        &&& forall|i: int| 0 <= i < self.workspaces@.len() ==> (#[trigger] self.workspaces@[i]).layout.wf()
        &&& self.workspaces@.len() > 0 ==> self.active_index < self.workspaces@.len()
    }
}

/// A workspace listing entry: position, identity, name, launch directory, whether selected,
/// and its pane and surface counts.
pub struct WorkspaceRecord {
    pub index: usize,
    pub uuid: u128,
    pub name: String,
    pub working_directory: Option<String>,
    pub selected: bool,
    pub pane_count: usize,
    pub surface_count: usize,
}

/// A pane listing entry: the pane, its shown surface, its workspace, its surfaces in tab order,
/// and whether it is the focused pane of the selected workspace.
pub struct PaneRecord {
    pub pane_id: u64,
    pub selected_surface: Option<u128>,
    pub workspace_uuid: u128,
    pub surface_ids: Vec<u128>,
    pub focused: bool,
}

/// What a command answers.
pub enum Reply {
    /// Success with an empty result.
    Done,
    /// `pong`.
    Pong,
    Workspaces(Vec<WorkspaceRecord>),
    Workspace(WorkspaceRecord),
    /// The window list: the main window and its workspace count.
    Windows(usize),
    /// The current window, the main one.
    Window,
    /// The surface a split created.
    Split(u128),
    /// Every surface: its identity, its workspace, and whether it is the shown tab of the focused
    /// pane of the selected workspace.
    Surfaces(Vec<(u128, u128, bool)>),
    Panes(Vec<PaneRecord>),
    /// Each workspace's identity, name and bell attention.
    Notifications(Vec<(u128, String, bool)>),
    /// A refusal: error code and message.
    Refused(&'static str, &'static str),
    /// A created workspace: its identity and launch directory.
    Created(u128, Option<String>),
}

/// GTK work a command leaves to the caller.
#[derive(Debug, PartialEq, Eq, Structural, Clone, Copy)]
pub enum Effect {
    Nothing,
    /// Show the selected workspace and focus its focused pane.
    ShowWorkspace,
    /// Move keyboard focus to the selected workspace's focused pane.
    GrabFocus,
    /// Tear down the widgets of a closed workspace.
    CloseWorkspace(u128),
    /// Create the terminal of a new pane placed after the focused one.
    SplitPane { pane: u64, surface: u128, direction: SplitDirection },
    /// Tear down a closed surface tab (and its pane when the pane closed) and save the session.
    CloseSurface(u128),
}

/// Native terminal work a command needs; the caller performs it and answers.
pub enum Native {
    SendText(u128, String),
    SendKey(u128, char),
    ReadText(u128),
    /// Report whether the terminal lives, with the pane's bell attention.
    Health(Option<u128>, bool),
    Refresh(u128),
    /// Type into the terminal the focused pane shows, if any; always answered with success.
    TypeText(Option<u128>, String),
    /// Apply a resume-binding operation to a surface of a workspace.
    Resume { workspace: u128, surface: u128, action: ResumeAction },
    /// Report the split layout of the selected workspace.
    DumpLayout(u128),
}

/// What handling a command gives.
pub enum Outcome {
    Reply(Reply, Effect),
    Native(Native),
    /// A command decided elsewhere: system identity and capabilities, workspace creation
    /// (`AppModel::create_workspace` for a local one), bulk reorder, project actions, ports,
    /// sidebar metadata, the inbox and the browser.
    Elsewhere,
}

/// Whether a workspace's identity reads as `text`.
pub open spec fn named(text: Seq<char>) -> spec_fn(Workspace) -> bool {
    |w: Workspace| hyphenated(w.uuid) == text
}

/// Position of the first workspace whose identity reads as `text`, or the count.
pub open spec fn ws_index(ws: Seq<Workspace>, text: Seq<char>) -> int {
    first_where(ws, named(text))
}

/// Whether two character lists are equal.
fn same_chars(a: &Vec<char>, b: &Vec<char>) -> (r: bool)
    ensures
        r == (a@ == b@),
{
    if a.len() != b.len() {
        return false;
    }
    let mut i: usize = 0;
    while i < a.len()
        invariant
            a@.len() == b@.len(),
            i <= a@.len(),
            forall|j: int| 0 <= j < i ==> a@[j] == b@[j],
        decreases a@.len() - i,
    {
        if a[i] != b[i] {
            return false;
        }
        i = i + 1;
    }
    assert(a@ =~= b@);
    true
}

/// Position of the workspace whose identity reads as `text`.
fn find_workspace(ws: &Vec<Workspace>, text: &Vec<char>) -> (i: usize)
    ensures
        i == ws_index(ws@, text@),
{
    let mut i: usize = 0;
    while i < ws.len()
        invariant
            i <= ws@.len(),
            forall|j: int| 0 <= j < i ==> !named(text@)(#[trigger] ws@[j]),
        decreases ws@.len() - i,
    {
        let shown = uuid_text(ws[i].uuid);
        if same_chars(&shown, text) {
            proof {
                assert(named(text@)(ws@[i as int]));
                lemma_first_where_at(ws@, named(text@), i as int);
            }
            return i;
        }
        i = i + 1;
    }
    proof {
        lemma_first_where_at(ws@, named(text@), i as int);
    }
    i
}

/// The index the workspace at `active` moves to when the one at `from` moves to `to`.
pub open spec fn moved_index(active: int, from: int, to: int) -> int {
    if active == from {
        to
    } else if from < active && active <= to {
        active - 1
    } else if to <= active && active < from {
        active + 1
    } else {
        active
    }
}

/// A `not_found` refusal of an unknown workspace.
pub open spec fn no_workspace_reply() -> Outcome {
    Outcome::Reply(Reply::Refused("not_found", "workspace not found"), Effect::Nothing)
}

/// Select the workspace whose identity reads as `id`.
pub open spec fn spec_select(old: AppModel, new: AppModel, id: Seq<char>, r: Outcome) -> bool {
    let i = ws_index(old.workspaces@, id);
    if i < old.workspaces@.len() {
        &&& new.workspaces@ == old.workspaces@
        &&& new.active_index == i
        &&& r == Outcome::Reply(Reply::Done, Effect::ShowWorkspace)
    } else {
        new == old && r == no_workspace_reply()
    }
}

/// Close the workspace whose identity reads as `id`, unless it is the last one; the selection
/// follows the shared selection policy.
pub open spec fn spec_close(old: AppModel, new: AppModel, id: Seq<char>, r: Outcome) -> bool {
    let n = old.workspaces@.len();
    let i = ws_index(old.workspaces@, id);
    if i >= n {
        new == old && r == no_workspace_reply()
    } else if n <= 1 {
        new == old && r == Outcome::Reply(
            Reply::Refused("last_workspace", "cannot close the last workspace"),
            Effect::Nothing,
        )
    } else {
        &&& new.workspaces@ == old.workspaces@.remove(i)
        &&& spec_after_removal(old.active_index as int, i, n - 1) == Some(new.active_index as int)
        &&& r == Outcome::Reply(Reply::Done, Effect::CloseWorkspace(old.workspaces@[i].uuid))
    }
}

/// Move the workspace whose identity reads as `id` to `position`, or the last place when that
/// is beyond; the selection stays with the workspace it was on.
pub open spec fn spec_reorder(old: AppModel, new: AppModel, id: Seq<char>, position: usize, r: Outcome) -> bool {
    let n = old.workspaces@.len();
    let from = ws_index(old.workspaces@, id);
    if from >= n {
        new == old && r == no_workspace_reply()
    } else {
        let to = if position < n - 1 { position as int } else { n - 1 };
        &&& new.workspaces@ == old.workspaces@.remove(from).insert(to, old.workspaces@[from])
        &&& new.active_index == moved_index(old.active_index as int, from, to)
        &&& r == Outcome::Reply(Reply::Done, Effect::Nothing)
    }
}

impl AppModel {
    /// Select a workspace by its identity's text.
    pub fn select_workspace(&mut self, id: &str) -> (r: Outcome)
        requires
            old(self).wf(),
        ensures
            final(self).wf(),
            spec_select(*old(self), *final(self), id@, r),
    {
        let text = chars_of(id);
        let i = find_workspace(&self.workspaces, &text);
        if i >= self.workspaces.len() {
            return Outcome::Reply(Reply::Refused("not_found", "workspace not found"), Effect::Nothing);
        }
        self.active_index = i;
        Outcome::Reply(Reply::Done, Effect::ShowWorkspace)
    }

    /// Close a workspace by its identity's text.
    pub fn close_workspace(&mut self, id: &str) -> (r: Outcome)
        requires
            old(self).wf(),
        ensures
            final(self).wf(),
            spec_close(*old(self), *final(self), id@, r),
    {
        let text = chars_of(id);
        let i = find_workspace(&self.workspaces, &text);
        let n = self.workspaces.len();
        if i >= n {
            return Outcome::Reply(Reply::Refused("not_found", "workspace not found"), Effect::Nothing);
        }
        if n <= 1 {
            return Outcome::Reply(
                Reply::Refused("last_workspace", "cannot close the last workspace"),
                Effect::Nothing,
            );
        }
        let ghost before = self.workspaces@;
        let closed = self.workspaces.remove(i);
        let uuid = closed.uuid;
        match after_removal(self.active_index, i, n - 1) {
            Some(a) => {
                self.active_index = a;
            },
            None => {},
        }
        proof {
            assert forall|j: int| 0 <= j < self.workspaces@.len() implies (#[trigger] self.workspaces@[j]).layout.wf() by {
                if j < i {
                    assert(self.workspaces@[j] == before[j]);
                } else {
                    assert(self.workspaces@[j] == before[j + 1]);
                }
            }
        }
        Outcome::Reply(Reply::Done, Effect::CloseWorkspace(uuid))
    }

    /// Rename a workspace by its identity's text.
    pub fn rename_workspace(&mut self, id: &str, name: String) -> (r: Outcome)
        requires
            old(self).wf(),
        ensures
            final(self).wf(),
            ({
                let i = ws_index(old(self).workspaces@, id@);
                if i < old(self).workspaces@.len() {
                    let w = old(self).workspaces@[i];
                    &&& final(self).workspaces@ == old(self).workspaces@.update(
                        i,
                        Workspace { name, ..w },
                    )
                    &&& final(self).active_index == old(self).active_index
                    &&& r == Outcome::Reply(Reply::Done, Effect::Nothing)
                } else {
                    *final(self) == *old(self) && r == no_workspace_reply()
                }
            }),
    {
        let text = chars_of(id);
        let i = find_workspace(&self.workspaces, &text);
        if i >= self.workspaces.len() {
            return Outcome::Reply(Reply::Refused("not_found", "workspace not found"), Effect::Nothing);
        }
        let ghost before = self.workspaces@;
        let mut w = self.workspaces.remove(i);
        w.name = name;
        self.workspaces.insert(i, w);
        proof {
            assert(self.workspaces@ =~= before.update(i as int, Workspace { name, ..before[i as int] }));
            assert forall|j: int| 0 <= j < self.workspaces@.len() implies (#[trigger] self.workspaces@[j]).layout.wf() by {
                if j != i {
                    assert(self.workspaces@[j] == before[j]);
                }
            }
        }
        Outcome::Reply(Reply::Done, Effect::Nothing)
    }

    /// Select the next workspace, wrapping, and focus it.
    pub fn next_workspace(&mut self) -> (r: Outcome)
        requires
            old(self).wf(),
        ensures
            final(self).wf(),
            final(self).workspaces@ == old(self).workspaces@,
            final(self).active_index == if old(self).workspaces@.len() == 0 {
                old(self).active_index as int
            } else {
                (old(self).active_index + 1) % (old(self).workspaces@.len() as int)
            },
            r == Outcome::Reply(Reply::Done, Effect::ShowWorkspace),
    {
        let n = self.workspaces.len();
        if n > 0 {
            self.active_index = (self.active_index + 1) % n;
        }
        Outcome::Reply(Reply::Done, Effect::ShowWorkspace)
    }

    /// Select the previous workspace, wrapping, and focus it.
    pub fn previous_workspace(&mut self) -> (r: Outcome)
        requires
            old(self).wf(),
        ensures
            final(self).wf(),
            final(self).workspaces@ == old(self).workspaces@,
            final(self).active_index == if old(self).workspaces@.len() == 0 {
                old(self).active_index as int
            } else {
                (old(self).active_index + old(self).workspaces@.len() - 1) % (
                old(self).workspaces@.len() as int)
            },
            r == Outcome::Reply(Reply::Done, Effect::ShowWorkspace),
    {
        let n = self.workspaces.len();
        if n > 0 {
            let a = self.active_index;
            let b = if a == 0 {
                n - 1
            } else {
                a - 1
            };
            assert(b == (a + n - 1) % (n as int)) by (nonlinear_arith)
                requires
                    a < n,
                    b == if a == 0 {
                        n - 1
                    } else {
                        a - 1
                    },
            ;
            self.active_index = b;
        }
        Outcome::Reply(Reply::Done, Effect::ShowWorkspace)
    }

    /// Move a workspace by its identity's text to `position`, clamped to the last place.
    pub fn reorder_workspace(&mut self, id: &str, position: usize) -> (r: Outcome)
        requires
            old(self).wf(),
        ensures
            final(self).wf(),
            spec_reorder(*old(self), *final(self), id@, position, r),
    {
        let text = chars_of(id);
        let from = find_workspace(&self.workspaces, &text);
        let n = self.workspaces.len();
        if from >= n {
            return Outcome::Reply(Reply::Refused("not_found", "workspace not found"), Effect::Nothing);
        }
        let to = if position < n - 1 {
            position
        } else {
            n - 1
        };
        let ghost before = self.workspaces@;
        let w = self.workspaces.remove(from);
        self.workspaces.insert(to, w);
        let a = self.active_index;
        self.active_index = if a == from {
            to
        } else if from < a && a <= to {
            a - 1
        } else if to <= a && a < from {
            a + 1
        } else {
            a
        };
        proof {
            let mid = before.remove(from as int);
            assert forall|j: int| 0 <= j < mid.len() implies (#[trigger] mid[j]).layout.wf() by {
                if j < from {
                    assert(mid[j] == before[j]);
                } else {
                    assert(mid[j] == before[j + 1]);
                }
            }
            assert forall|j: int| 0 <= j < self.workspaces@.len() implies (#[trigger] self.workspaces@[j]).layout.wf() by {
                if j < to {
                    assert(self.workspaces@[j] == mid[j]);
                } else if j > to {
                    assert(self.workspaces@[j] == mid[j - 1]);
                }
            }
        }
        Outcome::Reply(Reply::Done, Effect::Nothing)
    }
}

/// The surfaces the given panes hold, counted over their tab lists.
pub open spec fn surface_total(ls: Seq<(u64, bool)>, tabs: Seq<PaneTabs>) -> nat
    decreases ls.len(),
{
    if ls.len() == 0 {
        0
    } else {
        surface_total(ls.drop_last(), tabs) + surfaces_of(tabs, ls.last().0).len()
    }
}

/// A count, saturated at `usize::MAX`.
pub open spec fn capped(n: nat) -> usize {
    if n <= usize::MAX {
        n as usize
    } else {
        usize::MAX
    }
}

/// A text option as characters.
pub open spec fn opt_string(o: Option<String>) -> Option<Seq<char>> {
    match o {
        Some(s) => Some(s@),
        None => None,
    }
}

/// A listing entry as values.
pub open spec fn record_model(r: WorkspaceRecord) -> (usize, u128, Seq<char>, Option<Seq<char>>, bool, usize, usize) {
    (r.index, r.uuid, r.name@, opt_string(r.working_directory), r.selected, r.pane_count, r.surface_count)
}

/// Workspace `i`'s listing entry.
pub open spec fn spec_record(s: AppModel, i: int) -> (usize, u128, Seq<char>, Option<Seq<char>>, bool, usize, usize) {
    let w = s.workspaces@[i];
    let ls = leaves(w.layout.tree());
    (
        i as usize,
        w.uuid,
        w.name@,
        opt_string(w.working_directory),
        i == s.active_index,
        ls.len() as usize,
        capped(surface_total(ls, w.tabs@)),
    )
}

/// The surface rows of workspace `i`.
pub open spec fn ws_surfaces(s: AppModel, i: int) -> Seq<(u128, u128, bool)> {
    let w = s.workspaces@[i];
    all_rows(leaves(w.layout.tree()), w.tabs@, w.layout.active()).map_values(
        |row: (u128, u64, bool)| (row.0, w.uuid, row.2 && i == s.active_index),
    )
}

/// The surface rows of the first `n` workspaces.
pub open spec fn surfaces_upto(s: AppModel, n: int) -> Seq<(u128, u128, bool)>
    decreases n,
{
    if n <= 0 {
        Seq::empty()
    } else {
        surfaces_upto(s, n - 1) + ws_surfaces(s, n - 1)
    }
}

/// A pane listing entry as values.
pub open spec fn pane_record_model(p: PaneRecord) -> (u64, Option<u128>, u128, Seq<u128>, bool) {
    (p.pane_id, p.selected_surface, p.workspace_uuid, p.surface_ids@, p.focused)
}

/// The pane rows of workspace `i`, panes in traversal order.
pub open spec fn ws_panes(s: AppModel, i: int) -> Seq<(u64, Option<u128>, u128, Seq<u128>, bool)> {
    let w = s.workspaces@[i];
    ids(leaves(w.layout.tree())).map_values(
        |id: u64|
            (id, pane_entry(w.tabs@, id).2, w.uuid, pane_entry(w.tabs@, id).1, i == s.active_index
                && id == w.layout.active()),
    )
}

/// The pane rows of the first `n` workspaces.
pub open spec fn panes_upto(s: AppModel, n: int) -> Seq<(u64, Option<u128>, u128, Seq<u128>, bool)>
    decreases n,
{
    if n <= 0 {
        Seq::empty()
    } else {
        panes_upto(s, n - 1) + ws_panes(s, n - 1)
    }
}

impl AppModel {
    /// Workspace `i`'s listing entry.
    pub fn record(&self, i: usize) -> (r: WorkspaceRecord)
        requires
            self.wf(),
            i < self.workspaces@.len(),
        ensures
            record_model(r) == spec_record(*self, i as int),
    {
        let w = &self.workspaces[i];
        assert(w.layout.wf());
        let infos = w.layout.pane_info(&w.tabs);
        let ghost ls = leaves(w.layout.tree());
        assert(infos@.map_values(|p: PaneInfo| info_model(p)).len() == infos@.len());
        assert(ids(ls).map_values(|id: u64| pane_entry(w.tabs@, id)).len() == ls.len());
        let mut total: usize = 0;
        let mut j: usize = 0;
        assert(ls.take(0) =~= Seq::<(u64, bool)>::empty());
        while j < infos.len()
            invariant
                ls == leaves(w.layout.tree()),
                infos@.len() == ls.len(),
                infos@.map_values(|p: PaneInfo| info_model(p)) == ids(ls).map_values(
                    |id: u64| pane_entry(w.tabs@, id),
                ),
                j <= infos@.len(),
                total == capped(surface_total(ls.take(j as int), w.tabs@)),
            decreases infos@.len() - j,
        {
            proof {
                assert(info_model(infos@[j as int]) == infos@.map_values(|p: PaneInfo| info_model(p))[j as int]);
                assert(ids(ls)[j as int] == ls[j as int].0);
                assert(ls.take(j + 1).drop_last() =~= ls.take(j as int));
                assert(ls.take(j + 1).last() == ls[j as int]);
            }
            let add = infos[j].surface_ids.len();
            total = total.saturating_add(add);
            j = j + 1;
        }
        assert(ls.take(j as int) =~= ls);
        WorkspaceRecord {
            index: i,
            uuid: w.uuid,
            name: w.name.clone(),
            working_directory: w.working_directory.clone(),
            selected: i == self.active_index,
            pane_count: infos.len(),
            surface_count: total,
        }
    }

    /// Every workspace's listing entry, in order.
    pub fn list_workspaces(&self) -> (r: Vec<WorkspaceRecord>)
        requires
            self.wf(),
        ensures
            r@.len() == self.workspaces@.len(),
            forall|i: int| 0 <= i < r@.len() ==> record_model(#[trigger] r@[i]) == spec_record(*self, i),
    {
        let mut out: Vec<WorkspaceRecord> = Vec::new();
        let mut i: usize = 0;
        while i < self.workspaces.len()
            invariant
                self.wf(),
                i <= self.workspaces@.len(),
                out@.len() == i,
                forall|j: int| 0 <= j < i ==> record_model(#[trigger] out@[j]) == spec_record(*self, j),
            decreases self.workspaces@.len() - i,
        {
            out.push(self.record(i));
            i = i + 1;
        }
        out
    }

    /// Every surface of every workspace, workspaces in order.
    pub fn list_surfaces(&self) -> (r: Vec<(u128, u128, bool)>)
        requires
            self.wf(),
        ensures
            r@ == surfaces_upto(*self, self.workspaces@.len() as int),
    {
        let mut out: Vec<(u128, u128, bool)> = Vec::new();
        let mut i: usize = 0;
        while i < self.workspaces.len()
            invariant
                self.wf(),
                i <= self.workspaces@.len(),
                out@ == surfaces_upto(*self, i as int),
            decreases self.workspaces@.len() - i,
        {
            let w = &self.workspaces[i];
            assert(w.layout.wf());
            let rows = w.layout.all_panes(&w.tabs);
            let ghost prefix = out@;
            let ghost mapped = ws_surfaces(*self, i as int);
            assert(mapped.len() == rows@.len());
            let mut k: usize = 0;
            while k < rows.len()
                invariant
                    i < self.workspaces@.len(),
                    *w == self.workspaces@[i as int],
                    rows@ == all_rows(leaves(w.layout.tree()), w.tabs@, w.layout.active()),
                    mapped == ws_surfaces(*self, i as int),
                    mapped.len() == rows@.len(),
                    k <= rows@.len(),
                    out@ == prefix + mapped.take(k as int),
                decreases rows@.len() - k,
            {
                let row = rows[k];
                out.push((row.0, w.uuid, row.2 && i == self.active_index));
                proof {
                    assert(mapped.take(k + 1) =~= mapped.take(k as int).push(mapped[k as int]));
                }
                k = k + 1;
            }
            assert(mapped.take(k as int) =~= mapped);
            i = i + 1;
        }
        out
    }

    /// Every pane of every workspace, workspaces in order, panes in traversal order.
    pub fn list_panes(&self) -> (r: Vec<PaneRecord>)
        requires
            self.wf(),
        ensures
            r@.map_values(|p: PaneRecord| pane_record_model(p)) == panes_upto(
                *self,
                self.workspaces@.len() as int,
            ),
    {
        let mut out: Vec<PaneRecord> = Vec::new();
        let mut i: usize = 0;
        assert(out@.map_values(|p: PaneRecord| pane_record_model(p)) =~= Seq::empty());
        while i < self.workspaces.len()
            invariant
                self.wf(),
                i <= self.workspaces@.len(),
                out@.map_values(|p: PaneRecord| pane_record_model(p)) == panes_upto(*self, i as int),
            decreases self.workspaces@.len() - i,
        {
            let w = &self.workspaces[i];
            assert(w.layout.wf());
            let infos = w.layout.pane_info(&w.tabs);
            let active = w.layout.active_pane_id();
            let ghost prefix = panes_upto(*self, i as int);
            let ghost mapped = ws_panes(*self, i as int);
            let ghost ls = leaves(w.layout.tree());
            assert(infos@.map_values(|p: PaneInfo| info_model(p)).len() == infos@.len());
            assert(mapped.len() == infos@.len());
            let mut k: usize = 0;
            while k < infos.len()
                invariant
                    i < self.workspaces@.len(),
                    *w == self.workspaces@[i as int],
                    ls == leaves(w.layout.tree()),
                    active == w.layout.active(),
                    infos@.map_values(|p: PaneInfo| info_model(p)) == ids(ls).map_values(
                        |id: u64| pane_entry(w.tabs@, id),
                    ),
                    mapped == ws_panes(*self, i as int),
                    mapped.len() == infos@.len(),
                    k <= infos@.len(),
                    out@.map_values(|p: PaneRecord| pane_record_model(p)) == prefix + mapped.take(k as int),
                decreases infos@.len() - k,
            {
                let info = &infos[k];
                proof {
                    assert(info_model(infos@[k as int]) == infos@.map_values(|p: PaneInfo| info_model(p))[k as int]);
                }
                let rec = PaneRecord {
                    pane_id: info.id,
                    selected_surface: info.selected_surface,
                    workspace_uuid: w.uuid,
                    surface_ids: info.surface_ids.clone(),
                    focused: i == self.active_index && info.id == active,
                };
                let ghost before = out@;
                out.push(rec);
                proof {
                    assert(pane_record_model(rec) == mapped[k as int]);
                    assert(out@.map_values(|p: PaneRecord| pane_record_model(p)) =~= before.map_values(
                        |p: PaneRecord| pane_record_model(p),
                    ).push(pane_record_model(rec)));
                    assert(mapped.take(k + 1) =~= mapped.take(k as int).push(mapped[k as int]));
                }
                k = k + 1;
            }
            assert(mapped.take(k as int) =~= mapped);
            i = i + 1;
        }
        out
    }

    /// Each workspace's identity, name and bell attention, in order.
    pub fn list_notifications(&self) -> (r: Vec<(u128, String, bool)>)
        ensures
            r@.len() == self.workspaces@.len(),
            forall|i: int|
                0 <= i < r@.len() ==> (#[trigger] r@[i]).0 == self.workspaces@[i].uuid && r@[i].1@
                    == self.workspaces@[i].name@ && r@[i].2 == self.workspaces@[i].has_attention,
    {
        let mut out: Vec<(u128, String, bool)> = Vec::new();
        let mut i: usize = 0;
        while i < self.workspaces.len()
            invariant
                i <= self.workspaces@.len(),
                out@.len() == i,
                forall|j: int|
                    0 <= j < i ==> (#[trigger] out@[j]).0 == self.workspaces@[j].uuid && out@[j].1@
                        == self.workspaces@[j].name@ && out@[j].2 == self.workspaces@[j].has_attention,
            decreases self.workspaces@.len() - i,
        {
            let w = &self.workspaces[i];
            out.push((w.uuid, w.name.clone(), w.has_attention));
            i = i + 1;
        }
        out
    }
}

/// Two workspaces agree on identity, name, launch directory and bell attention.
pub open spec fn same_identity(a: Workspace, b: Workspace) -> bool {
    &&& b.uuid == a.uuid
    &&& b.name == a.name
    &&& b.working_directory == a.working_directory
    &&& b.has_attention == a.has_attention
}

/// Only the selected workspace's layout and tabs may differ.
pub open spec fn only_active_changed(old: AppModel, new: AppModel) -> bool {
    let a = old.active_index as int;
    &&& new.workspaces@.len() == old.workspaces@.len()
    &&& new.active_index == old.active_index
    &&& forall|j: int| 0 <= j < old.workspaces@.len() && j != a ==> new.workspaces@[j] == old.workspaces@[j]
    &&& same_identity(old.workspaces@[a], new.workspaces@[a])
}

/// A workspace's layout has this tree, focused pane and next pane id.
pub open spec fn layout_is(w: Workspace, tree: PaneTree, active: u64, next: u64) -> bool {
    w.layout.tree() == tree && w.layout.active() == active && w.layout.next() == next
}

/// The tab lists after focusing the surface whose text is `text`.
pub open spec fn focused_tabs(tree: PaneTree, tabs: Seq<PaneTabs>, text: Seq<char>) -> Seq<(u64, Seq<u128>, Option<usize>)> {
    let p = text_pane(tree, tabs, text)->Some_0;
    let k = entry_of(tabs, p);
    tabs_model(tabs).update(k, (p, tabs[k].surfaces@, Some(text_index(tabs[k].surfaces@, text) as usize)))
}

/// A `not_found` refusal of an unknown surface.
pub open spec fn no_surface_reply() -> Outcome {
    Outcome::Reply(Reply::Refused("not_found", "surface not found"), Effect::Nothing)
}

/// Focus the selected workspace's surface whose text is `id`.
pub open spec fn spec_focus_surface(old: AppModel, new: AppModel, id: Seq<char>, r: Outcome) -> bool {
    let a = old.active_index as int;
    if a >= old.workspaces@.len() {
        new == old && r == no_surface_reply()
    } else {
        let w = old.workspaces@[a];
        let w2 = new.workspaces@[a];
        match text_pane(w.layout.tree(), w.tabs@, id) {
            None => new == old && r == no_surface_reply(),
            Some(p) => {
                &&& only_active_changed(old, new)
                &&& layout_is(w2, w.layout.tree(), p, w.layout.next())
                &&& tabs_model(w2.tabs@) == focused_tabs(w.layout.tree(), w.tabs@, id)
                &&& r == Outcome::Reply(Reply::Done, Effect::GrabFocus)
            },
        }
    }
}

/// Split the selected workspace's focused pane, after focusing the surface whose text is `id`
/// when one is named; the new pane holds one tab, surface `fresh`.
pub open spec fn spec_split_cmd(
    old: AppModel,
    new: AppModel,
    id: Option<Seq<char>>,
    direction: SplitDirection,
    fresh: u128,
    r: Outcome,
) -> bool {
    let a = old.active_index as int;
    let failed = Outcome::Reply(Reply::Refused("split_failed", "could not split pane"), Effect::Nothing);
    if a >= old.workspaces@.len() {
        new == old && r == failed
    } else {
        let w = old.workspaces@[a];
        let w2 = new.workspaces@[a];
        let tree = w.layout.tree();
        if id is Some && text_pane(tree, w.tabs@, id->Some_0) is None {
            new == old && r == no_surface_reply()
        } else {
            let focus = if id is Some {
                text_pane(tree, w.tabs@, id->Some_0)->Some_0
            } else {
                w.layout.active()
            };
            let model = if id is Some {
                focused_tabs(tree, w.tabs@, id->Some_0)
            } else {
                tabs_model(w.tabs@)
            };
            let next = w.layout.next();
            &&& only_active_changed(old, new)
            &&& if next == u64::MAX {
                &&& layout_is(w2, tree, focus, next)
                &&& tabs_model(w2.tabs@) == model
                &&& r == failed
            } else {
                &&& layout_is(w2, spec_split(tree, focus, next).0, next, (next + 1) as u64)
                &&& tabs_model(w2.tabs@) == model.push((next, seq![fresh], Some(0usize)))
                &&& r == Outcome::Reply(
                    Reply::Split(fresh),
                    Effect::SplitPane { pane: next, surface: fresh, direction },
                )
            }
        }
    }
}

/// What closing surface `u` from a layout reports, its pane closing too when that was its
/// last tab and another pane remains.
pub open spec fn close_result(tree: PaneTree, tabs: Seq<PaneTabs>, u: u128) -> CloseSurfaceResult {
    let (first, _) = spec_close_tab(tree, tabs, u);
    if first == CloseSurfaceResult::LastSurfaceInPane && tree is Split {
        CloseSurfaceResult::Closed
    } else {
        first
    }
}

/// How a workspace changes when surface `u` closes from it.
pub open spec fn closed_surface(w: Workspace, w2: Workspace, u: u128) -> bool {
    let tree = w.layout.tree();
    let (first, pane) = spec_close_tab(tree, w.tabs@, u);
    &&& w2.layout.next() == w.layout.next()
    &&& if first == CloseSurfaceResult::LastSurfaceInPane && tree is Split {
        &&& w2.tabs@ == w.tabs@.remove(entry_of(w.tabs@, pane->Some_0))
        &&& spec_remove(tree, pane->Some_0) matches Some((t, survivor))
        &&& w2.layout.tree() == t
        &&& w2.layout.active() == survivor
    } else {
        &&& w2.layout.tree() == tree
        &&& first != CloseSurfaceResult::Closed ==> w2.tabs@ == w.tabs@
        &&& w2.layout.active() == match pane {
            Some(p) => p,
            None => w.layout.active(),
        }
        &&& first == CloseSurfaceResult::Closed ==> ({
            let k = entry_of(w.tabs@, pane->Some_0);
            tabs_model(w2.tabs@) == tabs_model(w.tabs@).update(k, without_tab(tab_model(w.tabs@[k]), u))
        })
    }
}

/// Close the surface tab whose identity `id` reads, in the selected workspace.
pub open spec fn spec_close_surface(old: AppModel, new: AppModel, id: Seq<char>, r: Outcome) -> bool {
    let a = old.active_index as int;
    match uuid_value(id) {
        None => new == old && r == Outcome::Reply(
            Reply::Refused("invalid_request", "invalid surface UUID"),
            Effect::Nothing,
        ),
        Some(u) => if a >= old.workspaces@.len() {
            new == old && r == no_surface_reply()
        } else {
            let w = old.workspaces@[a];
            &&& only_active_changed(old, new)
            &&& closed_surface(w, new.workspaces@[a], u)
            &&& r == match close_result(w.layout.tree(), w.tabs@, u) {
                CloseSurfaceResult::Closed => Outcome::Reply(Reply::Done, Effect::CloseSurface(u)),
                CloseSurfaceResult::LastSurfaceInPane => Outcome::Reply(
                    Reply::Refused("close_failed", "cannot close last surface"),
                    Effect::Nothing,
                ),
                CloseSurfaceResult::NotFound => no_surface_reply(),
            }
        },
    }
}

/// Focus the selected workspace's pane a reference names, without switching its tab.
pub open spec fn spec_focus_pane(old: AppModel, new: AppModel, id: Option<Seq<char>>, r: Outcome) -> bool {
    let a = old.active_index as int;
    let missing = Outcome::Reply(Reply::Refused("not_found", "pane not found"), Effect::Nothing);
    if id is None || a >= old.workspaces@.len() {
        new == old && r == missing
    } else {
        let w = old.workspaces@[a];
        let tree = w.layout.tree();
        let ok = match pane_ref_target(tree, w.tabs@, id->Some_0) {
            Some(p) => index_of(leaves(tree), p) < leaves(tree).len(),
            None => false,
        };
        &&& only_active_changed(old, new)
        &&& new.workspaces@[a].tabs == w.tabs
        &&& if ok {
            &&& layout_is(new.workspaces@[a], tree, pane_ref_target(tree, w.tabs@, id->Some_0)->Some_0, w.layout.next())
            &&& r == Outcome::Reply(Reply::Done, Effect::GrabFocus)
        } else {
            &&& layout_is(new.workspaces@[a], tree, w.layout.active(), w.layout.next())
            &&& r == missing
        }
    }
}

/// The terminal a command targets in the selected workspace: the surface whose text is `id`,
/// or the surface its focused pane shows.
pub open spec fn spec_target(s: AppModel, id: Option<Seq<char>>) -> Option<u128> {
    let a = s.active_index as int;
    if a >= s.workspaces@.len() {
        None
    } else {
        let w = s.workspaces@[a];
        match id {
            Some(t) => text_surface(w.layout.tree(), w.tabs@, t),
            None => shown_surface(w.layout.tree(), w.tabs@, w.layout.active()),
        }
    }
}

/// Whether pane `p` of a tree has bell attention.
pub open spec fn attention(tree: PaneTree, p: u64) -> bool {
    exists|i: int| 0 <= i < leaves(tree).len() && #[trigger] leaves(tree)[i] == (p, true)
}

/// The bell attention a health query reports.
pub open spec fn spec_health_attention(s: AppModel, id: Option<Seq<char>>) -> bool {
    let a = s.active_index as int;
    if a >= s.workspaces@.len() {
        false
    } else {
        let w = s.workspaces@[a];
        match id {
            Some(t) => match text_pane(w.layout.tree(), w.tabs@, t) {
                Some(p) => attention(w.layout.tree(), p),
                None => false,
            },
            None => attention(w.layout.tree(), w.layout.active()),
        }
    }
}

impl AppModel {
    /// Take out the selected workspace, which exists.
    fn take_active(&mut self) -> (w: Workspace)
        requires
            old(self).wf(),
            old(self).active_index < old(self).workspaces@.len(),
        ensures
            w == old(self).workspaces@[old(self).active_index as int],
            final(self).workspaces@ == old(self).workspaces@.remove(old(self).active_index as int),
            final(self).active_index == old(self).active_index,
            w.layout.wf(),
    {
        let a = self.active_index;
        self.workspaces.remove(a)
    }

    /// Put the selected workspace back in its place.
    fn put_active(&mut self, w: Workspace, Ghost(before): Ghost<AppModel>)
        requires
            before.wf(),
            before.active_index < before.workspaces@.len(),
            old(self).workspaces@ == before.workspaces@.remove(before.active_index as int),
            old(self).active_index == before.active_index,
            w.layout.wf(),
        ensures
            final(self).workspaces@ == before.workspaces@.update(before.active_index as int, w),
            final(self).active_index == before.active_index,
            final(self).wf(),
    {
        let a = self.active_index;
        self.workspaces.insert(a, w);
        proof {
            assert(self.workspaces@ =~= before.workspaces@.update(a as int, w));
            assert forall|j: int| 0 <= j < self.workspaces@.len() implies (#[trigger] self.workspaces@[j]).layout.wf() by {
                if j != a {
                    assert(self.workspaces@[j] == before.workspaces@[j]);
                }
            }
        }
    }

    /// Focus the selected workspace's surface whose identity reads as `id`.
    pub fn focus_surface(&mut self, id: &str) -> (r: Outcome)
        requires
            old(self).wf(),
        ensures
            final(self).wf(),
            spec_focus_surface(*old(self), *final(self), id@, r),
    {
        if self.active_index >= self.workspaces.len() {
            return Outcome::Reply(Reply::Refused("not_found", "surface not found"), Effect::Nothing);
        }
        let text = chars_of(id);
        let a = self.active_index;
        assert(self.workspaces@[a as int].layout.wf());
        if self.workspaces[a].layout.first_pane_with_text(&self.workspaces[a].tabs, &text).is_none() {
            return Outcome::Reply(Reply::Refused("not_found", "surface not found"), Effect::Nothing);
        }
        let ghost before = *self;
        let mut w = self.take_active();
        let ok = w.layout.focus_surface_text(&mut w.tabs, &text);
        assert(ok);
        self.put_active(w, Ghost(before));
        Outcome::Reply(Reply::Done, Effect::GrabFocus)
    }

    /// Split the selected workspace's focused pane, or the pane of the surface `id` names; the
    /// new pane shows surface `fresh`.
    pub fn split_surface(&mut self, id: Option<&str>, direction: SplitDirection, fresh: u128) -> (r: Outcome)
        requires
            old(self).wf(),
        ensures
            final(self).wf(),
            spec_split_cmd(*old(self), *final(self), opt_str(id), direction, fresh, r),
    {
        if self.active_index >= self.workspaces.len() {
            return Outcome::Reply(Reply::Refused("split_failed", "could not split pane"), Effect::Nothing);
        }
        let a = self.active_index;
        assert(self.workspaces@[a as int].layout.wf());
        let text = match id {
            Some(t) => {
                let text = chars_of(t);
                if self.workspaces[a].layout.first_pane_with_text(&self.workspaces[a].tabs, &text).is_none() {
                    return Outcome::Reply(Reply::Refused("not_found", "surface not found"), Effect::Nothing);
                }
                Some(text)
            },
            None => None,
        };
        let ghost before = *self;
        let mut w = self.take_active();
        if let Some(text) = &text {
            let ok = w.layout.focus_surface_text(&mut w.tabs, text);
            assert(ok);
        }
        let next = w.layout.next_pane_id();
        if next == u64::MAX {
            self.put_active(w, Ghost(before));
            return Outcome::Reply(Reply::Refused("split_failed", "could not split pane"), Effect::Nothing);
        }
        let pane = w.layout.split_active();
        let ghost mid = w.tabs@;
        let mut surfaces: Vec<u128> = Vec::new();
        surfaces.push(fresh);
        assert(surfaces@ =~= seq![fresh]);
        w.tabs.push(PaneTabs { pane_id: next, surfaces, selected: Some(0) });
        proof {
            assert(tabs_model(w.tabs@) =~= tabs_model(mid).push((next, seq![fresh], Some(0usize))));
        }
        self.put_active(w, Ghost(before));
        Outcome::Reply(Reply::Split(fresh), Effect::SplitPane { pane: next, surface: fresh, direction })
    }

    /// Close the selected workspace's surface tab whose identity `id` reads.
    pub fn close_surface(&mut self, id: &str) -> (r: Outcome)
        requires
            old(self).wf(),
        ensures
            final(self).wf(),
            spec_close_surface(*old(self), *final(self), id@, r),
    {
        let u = match parse_uuid(id) {
            Some(u) => u,
            None => {
                return Outcome::Reply(
                    Reply::Refused("invalid_request", "invalid surface UUID"),
                    Effect::Nothing,
                )
            },
        };
        if self.active_index >= self.workspaces.len() {
            return Outcome::Reply(Reply::Refused("not_found", "surface not found"), Effect::Nothing);
        }
        let ghost before = *self;
        let mut w = self.take_active();
        let result = w.layout.close_surface_and_empty_pane(&mut w.tabs, u);
        self.put_active(w, Ghost(before));
        match result {
            CloseSurfaceResult::Closed => Outcome::Reply(Reply::Done, Effect::CloseSurface(u)),
            CloseSurfaceResult::LastSurfaceInPane => Outcome::Reply(
                Reply::Refused("close_failed", "cannot close last surface"),
                Effect::Nothing,
            ),
            CloseSurfaceResult::NotFound => Outcome::Reply(
                Reply::Refused("not_found", "surface not found"),
                Effect::Nothing,
            ),
        }
    }

    /// Focus the selected workspace's pane a reference names.
    pub fn focus_pane(&mut self, id: Option<&str>) -> (r: Outcome)
        requires
            old(self).wf(),
        ensures
            final(self).wf(),
            spec_focus_pane(*old(self), *final(self), opt_str(id), r),
    {
        let reference = match id {
            Some(t) => t,
            None => return Outcome::Reply(Reply::Refused("not_found", "pane not found"), Effect::Nothing),
        };
        if self.active_index >= self.workspaces.len() {
            return Outcome::Reply(Reply::Refused("not_found", "pane not found"), Effect::Nothing);
        }
        let ghost before = *self;
        let mut w = self.take_active();
        let ok = w.layout.focus_pane_ref(&w.tabs, reference);
        self.put_active(w, Ghost(before));
        if ok {
            Outcome::Reply(Reply::Done, Effect::GrabFocus)
        } else {
            Outcome::Reply(Reply::Refused("not_found", "pane not found"), Effect::Nothing)
        }
    }

    /// The terminal a command targets in the selected workspace.
    pub fn target(&self, id: Option<&str>) -> (r: Option<u128>)
        requires
            self.wf(),
        ensures
            r == spec_target(*self, opt_str(id)),
    {
        if self.active_index >= self.workspaces.len() {
            return None;
        }
        let w = &self.workspaces[self.active_index];
        assert(w.layout.wf());
        match id {
            Some(t) => {
                let text = chars_of(t);
                w.layout.surface_with_text(&w.tabs, &text)
            },
            None => w.layout.active_pane_uuid(&w.tabs),
        }
    }

    /// The bell attention a health query reports.
    pub fn health_attention(&self, id: Option<&str>) -> (r: bool)
        requires
            self.wf(),
        ensures
            r == spec_health_attention(*self, opt_str(id)),
    {
        if self.active_index >= self.workspaces.len() {
            return false;
        }
        let w = &self.workspaces[self.active_index];
        assert(w.layout.wf());
        match id {
            Some(t) => {
                let text = chars_of(t);
                match w.layout.first_pane_with_text(&w.tabs, &text) {
                    Some(p) => w.layout.root().pane_has_attention(p),
                    None => false,
                }
            },
            None => w.layout.root().pane_has_attention(w.layout.active_pane_id()),
        }
    }
}

/// An optional text as characters.
pub open spec fn opt_str(o: Option<&str>) -> Option<Seq<char>> {
    match o {
        Some(s) => Some(s@),
        None => None,
    }
}

/// A refusal of a command whose terminal is not found.
pub open spec fn no_terminal_reply() -> Outcome {
    Outcome::Reply(Reply::Refused("not_found", "live terminal surface not found"), Effect::Nothing)
}

/// Rename the workspace whose identity reads as `id`.
pub open spec fn spec_rename(old: AppModel, new: AppModel, id: Seq<char>, name: String, r: Outcome) -> bool {
    let i = ws_index(old.workspaces@, id);
    if i < old.workspaces@.len() {
        &&& new.workspaces@ == old.workspaces@.update(i, Workspace { name, ..old.workspaces@[i] })
        &&& new.active_index == old.active_index
        &&& r == Outcome::Reply(Reply::Done, Effect::Nothing)
    } else {
        new == old && r == no_workspace_reply()
    }
}

/// Select the workspace `step` places on, wrapping, and show it.
pub open spec fn spec_step(old: AppModel, new: AppModel, forward: bool, r: Outcome) -> bool {
    let n = old.workspaces@.len() as int;
    let a = old.active_index as int;
    &&& new.workspaces@ == old.workspaces@
    &&& new.active_index == if n == 0 {
        a
    } else if forward {
        (a + 1) % n
    } else {
        (a + n - 1) % n
    }
    &&& r == Outcome::Reply(Reply::Done, Effect::ShowWorkspace)
}

/// The surface text a resume command names: the given one, or the text of the surface the
/// selected workspace's focused pane shows.
pub open spec fn resume_text(s: AppModel, id: Option<Seq<char>>) -> Option<Seq<char>> {
    match id {
        Some(t) => Some(t),
        None => match spec_target(s, None) {
            Some(u) => Some(hyphenated(u)),
            None => None,
        },
    }
}

/// Whether a workspace holds a surface whose text is `text`.
pub open spec fn holds_text(text: Seq<char>) -> spec_fn(Workspace) -> bool {
    |w: Workspace| text_pane(w.layout.tree(), w.tabs@, text) is Some
}

/// The workspace and surface a resume command addresses: the surface with the named text in
/// the first workspace, in sidebar order, that holds one.
pub open spec fn spec_resume_target(s: AppModel, id: Option<Seq<char>>) -> Option<(u128, u128)> {
    match resume_text(s, id) {
        Some(t) => {
            let i = first_where(s.workspaces@, holds_text(t));
            if i < s.workspaces@.len() {
                let w = s.workspaces@[i];
                match text_surface(w.layout.tree(), w.tabs@, t) {
                    Some(u) => Some((w.uuid, u)),
                    None => None,
                }
            } else {
                None
            }
        },
        None => None,
    }
}

/// What handling `request` does to the window and answers; `fresh` is the identity a new
/// terminal surface gets.
pub open spec fn spec_handle(old: AppModel, new: AppModel, request: Request, fresh: u128, r: Outcome) -> bool {
    let n = old.workspaces@.len();
    let a = old.active_index as int;
    match request {
        Request::Ping => new == old && r == Outcome::Reply(Reply::Pong, Effect::Nothing),
        Request::WorkspaceList => new == old && (r matches Outcome::Reply(Reply::Workspaces(v), Effect::Nothing)
            && v@.len() == n && forall|i: int| 0 <= i < n ==> record_model(#[trigger] v@[i]) == spec_record(old, i)),
        Request::WorkspaceCurrent => new == old && if a < n {
            r matches Outcome::Reply(Reply::Workspace(v), Effect::Nothing) && record_model(v) == spec_record(old, a)
        } else {
            r == Outcome::Reply(Reply::Refused("no_workspace", "no active workspace"), Effect::Nothing)
        },
        Request::WorkspaceSelect { id } => spec_select(old, new, id@, r),
        Request::WorkspaceClose { id } => spec_close(old, new, id@, r),
        Request::WorkspaceRename { id, name } => spec_rename(old, new, id@, name, r),
        Request::WorkspaceNext => spec_step(old, new, true, r),
        Request::WorkspacePrev => spec_step(old, new, false, r),
        Request::WorkspaceLast => spec_step(old, new, false, r),
        Request::WorkspaceReorder { id, position } => spec_reorder(old, new, id@, position, r),
        Request::WindowList => new == old && r == Outcome::Reply(Reply::Windows(n as usize), Effect::Nothing),
        Request::WindowCurrent => new == old && r == Outcome::Reply(Reply::Window, Effect::Nothing),
        Request::SurfaceList => new == old && (r matches Outcome::Reply(Reply::Surfaces(v), Effect::Nothing)
            && v@ == surfaces_upto(old, n as int)),
        Request::SurfaceSplit { id, direction } => spec_split_cmd(
            old,
            new,
            match id {
                Some(t) => Some(t@),
                None => None,
            },
            direction,
            fresh,
            r,
        ),
        Request::SurfaceFocus { id } => spec_focus_surface(old, new, id@, r),
        Request::SurfaceClose { id } => spec_close_surface(old, new, id@, r),
        Request::SurfaceSendText { id, text } => new == old && match spec_target(old, opt_string(id)) {
            Some(u) => r == Outcome::Native(Native::SendText(u, text)),
            None => r == no_terminal_reply(),
        },
        Request::SurfaceSendKey { id, key } => new == old && if key@.len() == 1 {
            match spec_target(old, opt_string(id)) {
                Some(u) => r == Outcome::Native(Native::SendKey(u, key@[0])),
                None => r == no_terminal_reply(),
            }
        } else {
            r == Outcome::Reply(
                Reply::Refused("not_supported", "send-key currently accepts one literal character"),
                Effect::Nothing,
            )
        },
        Request::SurfaceReadText { id, scrollback } => new == old && match spec_target(old, opt_string(id)) {
            Some(u) => r == Outcome::Native(Native::ReadText(u)),
            None => r == no_terminal_reply(),
        },
        Request::SurfaceHealth { id } => new == old && r == Outcome::Native(
            Native::Health(spec_target(old, opt_string(id)), spec_health_attention(old, opt_string(id))),
        ),
        Request::SurfaceRefresh { id } => new == old && match spec_target(old, opt_string(id)) {
            Some(u) => r == Outcome::Native(Native::Refresh(u)),
            None => r == Outcome::Reply(
                Reply::Refused("not_found", "terminal surface not found"),
                Effect::Nothing,
            ),
        },
        Request::DebugType { text } => new == old && r == Outcome::Native(
            Native::TypeText(spec_target(old, None), text),
        ),
        Request::PaneList => new == old && (r matches Outcome::Reply(Reply::Panes(v), Effect::Nothing)
            && v@.map_values(|p: PaneRecord| pane_record_model(p)) == panes_upto(old, n as int)),
        Request::PaneFocus { id } => spec_focus_pane(
            old,
            new,
            match id {
                Some(t) => Some(t@),
                None => None,
            },
            r,
        ),
        Request::PaneLast => new == old && r == Outcome::Reply(
            Reply::Done,
            if a < n {
                Effect::GrabFocus
            } else {
                Effect::Nothing
            },
        ),
        Request::NotificationList => new == old && (r matches Outcome::Reply(Reply::Notifications(v), Effect::Nothing)
            && v@.len() == n && forall|i: int|
            0 <= i < n ==> (#[trigger] v@[i]).0 == old.workspaces@[i].uuid && v@[i].1@ == old.workspaces@[i].name@
                && v@[i].2 == old.workspaces@[i].has_attention),
        Request::SurfaceResume { id, action } => new == old && match spec_resume_target(old, opt_string(id)) {
            Some((w, u)) => r == Outcome::Native(Native::Resume { workspace: w, surface: u, action }),
            None => r == Outcome::Reply(
                Reply::Refused("not_found", "terminal surface not found"),
                Effect::Nothing,
            ),
        },
        Request::DebugLayout => new == old && if a < n {
            r == Outcome::Native(Native::DumpLayout(old.workspaces@[a].uuid))
        } else {
            r == Outcome::Reply(Reply::Refused("no_workspace", "no active workspace"), Effect::Nothing)
        },
        _ => new == old && r == Outcome::Elsewhere,
    }
}

impl AppModel {
    /// Handle one command on the window's workspaces: what it changes and what it answers.
    /// Only focus-intent commands (workspace select, next, previous and last; surface focus
    /// and split; pane focus and last) move the selection or focus. `fresh` is the identity a
    /// terminal surface created by a split gets.
    pub fn handle_command(&mut self, request: Request, fresh: u128) -> (r: Outcome)
        requires
            old(self).wf(),
        ensures
            final(self).wf(),
            spec_handle(*old(self), *final(self), request, fresh, r),
    {
        match request {
            Request::Ping => Outcome::Reply(Reply::Pong, Effect::Nothing),
            Request::WorkspaceList => Outcome::Reply(Reply::Workspaces(self.list_workspaces()), Effect::Nothing),
            Request::WorkspaceCurrent => {
                if self.active_index < self.workspaces.len() {
                    Outcome::Reply(Reply::Workspace(self.record(self.active_index)), Effect::Nothing)
                } else {
                    Outcome::Reply(Reply::Refused("no_workspace", "no active workspace"), Effect::Nothing)
                }
            },
            Request::WorkspaceSelect { id } => self.select_workspace(id.as_str()),
            Request::WorkspaceClose { id } => self.close_workspace(id.as_str()),
            Request::WorkspaceRename { id, name } => self.rename_workspace(id.as_str(), name),
            Request::WorkspaceNext => self.next_workspace(),
            Request::WorkspacePrev => self.previous_workspace(),
            Request::WorkspaceLast => self.previous_workspace(),
            Request::WorkspaceReorder { id, position } => self.reorder_workspace(id.as_str(), position),
            Request::WindowList => Outcome::Reply(Reply::Windows(self.workspaces.len()), Effect::Nothing),
            Request::WindowCurrent => Outcome::Reply(Reply::Window, Effect::Nothing),
            Request::SurfaceList => Outcome::Reply(Reply::Surfaces(self.list_surfaces()), Effect::Nothing),
            Request::SurfaceSplit { id, direction } => {
                match &id {
                    Some(t) => self.split_surface(Some(t.as_str()), direction, fresh),
                    None => self.split_surface(None, direction, fresh),
                }
            },
            Request::SurfaceFocus { id } => self.focus_surface(id.as_str()),
            Request::SurfaceClose { id } => self.close_surface(id.as_str()),
            Request::SurfaceSendText { id, text } => {
                let target = match &id {
                    Some(t) => self.target(Some(t.as_str())),
                    None => self.target(None),
                };
                match target {
                    Some(u) => Outcome::Native(Native::SendText(u, text)),
                    None => Outcome::Reply(
                        Reply::Refused("not_found", "live terminal surface not found"),
                        Effect::Nothing,
                    ),
                }
            },
            Request::SurfaceSendKey { id, key } => {
                let chars = chars_of(key.as_str());
                if chars.len() != 1 {
                    return Outcome::Reply(
                        Reply::Refused("not_supported", "send-key currently accepts one literal character"),
                        Effect::Nothing,
                    );
                }
                let target = match &id {
                    Some(t) => self.target(Some(t.as_str())),
                    None => self.target(None),
                };
                match target {
                    Some(u) => Outcome::Native(Native::SendKey(u, chars[0])),
                    None => Outcome::Reply(
                        Reply::Refused("not_found", "live terminal surface not found"),
                        Effect::Nothing,
                    ),
                }
            },
            Request::SurfaceReadText { id, scrollback } => {
                let target = match &id {
                    Some(t) => self.target(Some(t.as_str())),
                    None => self.target(None),
                };
                match target {
                    Some(u) => Outcome::Native(Native::ReadText(u)),
                    None => Outcome::Reply(
                        Reply::Refused("not_found", "live terminal surface not found"),
                        Effect::Nothing,
                    ),
                }
            },
            Request::SurfaceHealth { id } => {
                let (target, attention) = match &id {
                    Some(t) => (self.target(Some(t.as_str())), self.health_attention(Some(t.as_str()))),
                    None => (self.target(None), self.health_attention(None)),
                };
                Outcome::Native(Native::Health(target, attention))
            },
            Request::SurfaceRefresh { id } => {
                let target = match &id {
                    Some(t) => self.target(Some(t.as_str())),
                    None => self.target(None),
                };
                match target {
                    Some(u) => Outcome::Native(Native::Refresh(u)),
                    None => Outcome::Reply(
                        Reply::Refused("not_found", "terminal surface not found"),
                        Effect::Nothing,
                    ),
                }
            },
            Request::DebugType { text } => Outcome::Native(Native::TypeText(self.target(None), text)),
            Request::PaneList => Outcome::Reply(Reply::Panes(self.list_panes()), Effect::Nothing),
            Request::PaneFocus { id } => {
                match &id {
                    Some(t) => self.focus_pane(Some(t.as_str())),
                    None => self.focus_pane(None),
                }
            },
            Request::PaneLast => {
                if self.active_index < self.workspaces.len() {
                    Outcome::Reply(Reply::Done, Effect::GrabFocus)
                } else {
                    Outcome::Reply(Reply::Done, Effect::Nothing)
                }
            },
            Request::NotificationList => Outcome::Reply(
                Reply::Notifications(self.list_notifications()),
                Effect::Nothing,
            ),
            Request::SurfaceResume { id, action } => {
                let target = match &id {
                    Some(t) => self.resume_target(Some(t.as_str())),
                    None => self.resume_target(None),
                };
                match target {
                    Some((w, u)) => Outcome::Native(Native::Resume { workspace: w, surface: u, action }),
                    None => Outcome::Reply(
                        Reply::Refused("not_found", "terminal surface not found"),
                        Effect::Nothing,
                    ),
                }
            },
            Request::DebugLayout => {
                if self.active_index < self.workspaces.len() {
                    Outcome::Native(Native::DumpLayout(self.workspaces[self.active_index].uuid))
                } else {
                    Outcome::Reply(Reply::Refused("no_workspace", "no active workspace"), Effect::Nothing)
                }
            },
            _ => Outcome::Elsewhere,
        }
    }

    /// The workspace and surface a resume command addresses.
    pub fn resume_target(&self, id: Option<&str>) -> (r: Option<(u128, u128)>)
        requires
            self.wf(),
        ensures
            r == spec_resume_target(*self, opt_str(id)),
    {
        let text = match id {
            Some(t) => chars_of(t),
            None => match self.target(None) {
                Some(u) => uuid_text(u),
                None => return None,
            },
        };
        let ghost ws = self.workspaces@;
        let ghost t = text@;
        assert(resume_text(*self, opt_str(id)) == Some(t));
        let mut i: usize = 0;
        while i < self.workspaces.len()
            invariant
                self.wf(),
                ws == self.workspaces@,
                t == text@,
                resume_text(*self, opt_str(id)) == Some(t),
                i <= ws.len(),
                forall|j: int| 0 <= j < i ==> !(#[trigger] holds_text(t)(ws[j])),
            decreases ws.len() - i,
        {
            let w = &self.workspaces[i];
            assert(w.layout.wf());
            match w.layout.surface_with_text(&w.tabs, &text) {
                Some(u) => {
                    proof {
                        assert(holds_text(t)(ws[i as int]));
                        lemma_first_where_at(ws, holds_text(t), i as int);
                        assert(text_surface(ws[i as int].layout.tree(), ws[i as int].tabs@, t) == Some(u));
                        assert(spec_resume_target(*self, opt_str(id)) == Some((ws[i as int].uuid, u)));
                    }
                    return Some((w.uuid, u));
                },
                None => {
                    assert(!holds_text(t)(ws[i as int]));
                },
            }
            i = i + 1;
        }
        proof {
            lemma_first_where_at(ws, holds_text(t), i as int);
        }
        None
    }
}

/// What notification targeting reads of workspace `i`: its identity, every surface of its
/// panes in listing order, and the surface its focused pane shows.
pub open spec fn inbox_row(s: AppModel, i: int) -> (u128, Seq<u128>, Option<u128>) {
    let w = s.workspaces@[i];
    (
        w.uuid,
        all_rows(leaves(w.layout.tree()), w.tabs@, w.layout.active()).map_values(|r: (u128, u64, bool)| r.0),
        shown_surface(w.layout.tree(), w.tabs@, w.layout.active()),
    )
}

impl AppModel {
    /// The workspaces as notification targeting sees them.
    pub fn inbox_views(&self) -> (r: Workspaces)
        requires
            self.wf(),
        ensures
            r.active_index == self.active_index,
            r.rows@.len() == self.workspaces@.len(),
            forall|i: int|
                0 <= i < r.rows@.len() ==> ((#[trigger] r.rows@[i]).id, r.rows@[i].surfaces@, r.rows@[i].active_surface)
                    == inbox_row(*self, i),
    {
        let mut rows: Vec<WorkspaceView> = Vec::new();
        let mut i: usize = 0;
        while i < self.workspaces.len()
            invariant
                self.wf(),
                i <= self.workspaces@.len(),
                rows@.len() == i,
                forall|j: int|
                    0 <= j < i ==> ((#[trigger] rows@[j]).id, rows@[j].surfaces@, rows@[j].active_surface)
                        == inbox_row(*self, j),
            decreases self.workspaces@.len() - i,
        {
            let w = &self.workspaces[i];
            assert(w.layout.wf());
            let listed = w.layout.all_panes(&w.tabs);
            let ghost want = listed@.map_values(|r: (u128, u64, bool)| r.0);
            let mut surfaces: Vec<u128> = Vec::new();
            let mut k: usize = 0;
            while k < listed.len()
                invariant
                    k <= listed@.len(),
                    want == listed@.map_values(|r: (u128, u64, bool)| r.0),
                    surfaces@ == want.take(k as int),
                decreases listed@.len() - k,
            {
                surfaces.push(listed[k].0);
                proof {
                    assert(want.take(k + 1) =~= want.take(k as int).push(want[k as int]));
                }
                k = k + 1;
            }
            assert(want.take(k as int) =~= want);
            let active_surface = w.layout.active_pane_uuid(&w.tabs);
            rows.push(WorkspaceView { id: w.uuid, surfaces, active_surface });
            i = i + 1;
        }
        Workspaces { rows, active_index: self.active_index }
    }
}

/// Whether a command is one whose intent is to move the selection or keyboard focus: workspace
/// select, next, previous and last; surface focus and split; pane focus and last.
pub open spec fn focus_intent(request: Request) -> bool {
    ||| request is WorkspaceSelect
    ||| request is WorkspaceNext
    ||| request is WorkspacePrev
    ||| request is WorkspaceLast
    ||| request is SurfaceFocus
    ||| request is SurfaceSplit
    ||| request is PaneFocus
    ||| request is PaneLast
}

/// Whether a command only reads the window: the workspace, surface, pane and window listings,
/// the current workspace and window, and the layout dump.
pub open spec fn read_only(request: Request) -> bool {
    ||| request is WorkspaceList
    ||| request is WorkspaceCurrent
    ||| request is SurfaceList
    ||| request is PaneList
    ||| request is WindowList
    ||| request is WindowCurrent
    ||| request is DebugLayout
}

/// Only focus-intent commands move focus: any other command answers without showing a
/// workspace or grabbing keyboard focus, and a read-only command leaves the window unchanged.
pub proof fn law_only_focus_intent_moves_focus(old: AppModel, new: AppModel, request: Request, fresh: u128, r: Outcome)
    requires
        spec_handle(old, new, request, fresh, r),
        !focus_intent(request),
    ensures
        !(r matches Outcome::Reply(_, Effect::GrabFocus)),
        !(r matches Outcome::Reply(_, Effect::ShowWorkspace)),
        read_only(request) ==> new == old,
{
}

/// The name a new local workspace gets: the given one when it is bound to a directory; otherwise
/// the given one unless it is blank, and none (empty) then.
pub open spec fn created_name(name: Option<Seq<char>>, directory: Option<Seq<char>>) -> Seq<char> {
    match name {
        Some(n) => if directory is Some || !crate::resume::blank(n) {
            n
        } else {
            Seq::empty()
        },
        None => Seq::empty(),
    }
}

/// Whether `w` is a new workspace `uuid` named `name`, launched in `directory`, with one pane
/// (pane 1) showing one terminal, `surface`.
pub open spec fn is_new_workspace(w: Workspace, uuid: u128, name: Seq<char>, directory: Option<Seq<char>>, surface: u128) -> bool {
    &&& w.uuid == uuid
    &&& w.name@ == name
    &&& opt_string(w.working_directory) == directory
    &&& !w.has_attention
    &&& w.layout.wf()
    &&& w.layout.tree() == (PaneTree::Leaf { pane_id: 1, has_attention: false })
    &&& w.layout.active() == 1
    &&& w.layout.next() == 2
    &&& tabs_model(w.tabs@) == seq![(1u64, seq![surface], Some(0usize))]
}

/// Whether every character of a text is white space.
fn is_blank(text: &String) -> (r: bool)
    ensures
        r == crate::resume::blank(text@),
{
    let chars = chars_of(text.as_str());
    let mut i: usize = 0;
    while i < chars.len()
        invariant
            chars@ == text@,
            i <= chars@.len(),
            forall|j: int| 0 <= j < i ==> crate::resume::unicode_whitespace(#[trigger] chars@[j]),
        decreases chars@.len() - i,
    {
        if !crate::resume::is_whitespace(chars[i]) {
            return false;
        }
        i = i + 1;
    }
    true
}

impl AppModel {
    /// Create a local workspace and select it: identity `uuid`, named as `created_name` says,
    /// launched in `working_directory`, with one pane showing the new terminal `surface`; it is
    /// added last and shown.
    pub fn create_workspace(
        &mut self,
        name: Option<String>,
        working_directory: Option<String>,
        uuid: u128,
        surface: u128,
    ) -> (r: Outcome)
        requires
            old(self).wf(),
            old(self).workspaces@.len() < usize::MAX,
        ensures
            final(self).wf(),
            final(self).workspaces@.len() == old(self).workspaces@.len() + 1,
            final(self).workspaces@.drop_last() == old(self).workspaces@,
            is_new_workspace(
                final(self).workspaces@.last(),
                uuid,
                created_name(opt_string(name), opt_string(working_directory)),
                opt_string(working_directory),
                surface,
            ),
            final(self).active_index == old(self).workspaces@.len(),
            r matches Outcome::Reply(Reply::Created(u, d), Effect::ShowWorkspace) && u == uuid
                && opt_string(d) == opt_string(working_directory),
    {
        let bound = working_directory.is_some();
        let chosen = match name {
            Some(n) => if bound || !is_blank(&n) {
                n
            } else {
                String::new()
            },
            None => String::new(),
        };
        let directory = match &working_directory {
            Some(d) => Some(d.clone()),
            None => None,
        };
        let mut tabs: Vec<PaneTabs> = Vec::new();
        let mut one: Vec<u128> = Vec::new();
        one.push(surface);
        tabs.push(PaneTabs { pane_id: 1, surfaces: one, selected: Some(0) });
        let w = Workspace {
            uuid,
            name: chosen,
            working_directory,
            has_attention: false,
            layout: PaneLayout::new(1),
            tabs,
        };
        let ghost before = self.workspaces@;
        self.workspaces.push(w);
        self.active_index = self.workspaces.len() - 1;
        proof {
            assert(self.workspaces@.drop_last() =~= before);
            assert(tabs_model(self.workspaces@.last().tabs@) =~= seq![(1u64, seq![surface], Some(0usize))]);
            assert forall|i: int| 0 <= i < self.workspaces@.len() implies (#[trigger] self.workspaces@[i]).layout.wf() by {
                if i < before.len() {
                    assert(self.workspaces@[i] == before[i]);
                    assert(before[i].layout.wf());
                }
            }
        }
        Outcome::Reply(Reply::Created(uuid, directory), Effect::ShowWorkspace)
    }
}

} // verus!
