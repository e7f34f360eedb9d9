//! Notification targeting, read state and dismissal behind the inbox socket methods.
use crate::inbox::{
    lemma_total_size_push, total_size, trimmed, Action, Content, Inbox, Record, Scope, ScopeModel,
    MAX_BYTES, MAX_TIMESTAMP_BYTES,
};
use crate::pane_tree::{ids, leaves, surface_pane, PaneLayout, PaneTabs};
use crate::text::utf8_len;
use vstd::prelude::*;

verus! {

/// Why an inbox operation was refused; every refusal is answered with the code `not_found`.
#[derive(Debug, PartialEq, Eq, Structural)]
pub enum InboxError {
    /// No open workspace holds the terminal surface.
    SurfaceNotFound,
    /// The workspace is not open.
    WorkspaceNotFound,
    /// The surface belongs to another workspace than the one selected.
    SurfaceOutsideWorkspace,
    /// No retained notification has the identity.
    NotificationNotFound,
}

/// The message of each refusal.
pub open spec fn spec_inbox_message(e: InboxError) -> Seq<char> {
    match e {
        InboxError::SurfaceNotFound => "notification surface not found"@,
        InboxError::WorkspaceNotFound => "notification workspace not found"@,
        InboxError::SurfaceOutsideWorkspace => "surface is not in the selected workspace"@,
        InboxError::NotificationNotFound => "notification not found"@,
    }
}

impl InboxError {
    /// The error code a refusal is answered with.
    pub fn code(&self) -> (c: &'static str)
        ensures
            c@ == "not_found"@,
    {
        "not_found"
    }

    /// The message a refusal is answered with.
    pub fn message(&self) -> (m: &'static str)
        ensures
            m@ == spec_inbox_message(*self),
    {
        match self {
            InboxError::SurfaceNotFound => {
                proof {
                    reveal_strlit("notification surface not found");
                }
                "notification surface not found"
            },
            InboxError::WorkspaceNotFound => {
                proof {
                    reveal_strlit("notification workspace not found");
                }
                "notification workspace not found"
            },
            InboxError::SurfaceOutsideWorkspace => {
                proof {
                    reveal_strlit("surface is not in the selected workspace");
                }
                "surface is not in the selected workspace"
            },
            InboxError::NotificationNotFound => {
                proof {
                    reveal_strlit("notification not found");
                }
                "notification not found"
            },
        }
    }
}

/// Index of the first element satisfying `p`, or the length when none does.
pub open spec fn first_where<A>(s: Seq<A>, p: spec_fn(A) -> bool) -> int
    decreases s.len(),
{
    if s.len() == 0 {
        0
    } else if first_where(s.drop_last(), p) < s.len() - 1 {
        first_where(s.drop_last(), p)
    } else if p(s.last()) {
        s.len() - 1
    } else {
        s.len() as int
    }
}

/// `first_where` is the first index satisfying the predicate, or the length.
pub proof fn lemma_first_where<A>(s: Seq<A>, p: spec_fn(A) -> bool)
    ensures
        0 <= first_where(s, p) <= s.len(),
        first_where(s, p) < s.len() ==> p(s[first_where(s, p)]),
        forall|j: int| 0 <= j < first_where(s, p) ==> !p(#[trigger] s[j]),
    decreases s.len(),
{
    if s.len() > 0 {
        let d = s.drop_last();
        lemma_first_where(d, p);
        assert forall|j: int| 0 <= j < first_where(s, p) implies !p(#[trigger] s[j]) by {
            if j < d.len() {
                assert(d[j] == s[j]);
            }
        }
    }
}

/// An index with no earlier match that matches, or is the length, is `first_where`.
pub proof fn lemma_first_where_at<A>(s: Seq<A>, p: spec_fn(A) -> bool, i: int)
    requires
        0 <= i <= s.len(),
        forall|j: int| 0 <= j < i ==> !p(#[trigger] s[j]),
        i < s.len() ==> p(s[i]),
    ensures
        first_where(s, p) == i,
{
    lemma_first_where(s, p);
    let f = first_where(s, p);
    if f < i {
        assert(!p(s[f]));
    } else if i < f {
        assert(!p(s[i]));
    }
}

/// What targeting reads of one open workspace: its identity, the identities of its terminal
/// surfaces, and the surface of its active pane.
pub struct WorkspaceView {
    pub id: u128,
    pub surfaces: Vec<u128>,
    pub active_surface: Option<u128>,
}

/// The open workspaces in sidebar order and the index of the selected one.
pub struct Workspaces {
    pub rows: Vec<WorkspaceView>,
    pub active_index: usize,
}

/// Index of the first workspace holding surface `s`, or the count.
pub open spec fn surface_holder(rows: Seq<WorkspaceView>, s: u128) -> int {
    first_where(rows, |w: WorkspaceView| w.surfaces@.contains(s))
}

/// Index of the first workspace with identity `id`, or the count.
pub open spec fn workspace_index(rows: Seq<WorkspaceView>, id: u128) -> int {
    first_where(rows, |w: WorkspaceView| w.id == id)
}

/// The workspace index and surface a scope designates: an explicit surface is looked up across
/// all workspaces, else an explicit workspace by identity, else the selected workspace; an
/// explicit workspace must be the one found, and without an explicit surface the workspace's
/// active surface is meant.
pub open spec fn spec_target(rows: Seq<WorkspaceView>, active: int, scope: ScopeModel) -> Result<
    (int, u128),
    InboxError,
> {
    let index = match scope.1 {
        Some(s) => surface_holder(rows, s),
        None => match scope.0 {
            Some(w) => workspace_index(rows, w),
            None => active,
        },
    };
    if scope.1 is Some && index >= rows.len() {
        Err(InboxError::SurfaceNotFound)
    } else if !(0 <= index < rows.len()) {
        Err(InboxError::WorkspaceNotFound)
    } else if scope.0 is Some && scope.0 != Some(rows[index].id) {
        Err(InboxError::SurfaceOutsideWorkspace)
    } else {
        match scope.1 {
            Some(s) => Ok((index, s)),
            None => match rows[index].active_surface {
                Some(s) => Ok((index, s)),
                None => Err(InboxError::SurfaceNotFound),
            },
        }
    }
}

/// A scope by its identities.
pub open spec fn scope_model(scope: &Scope) -> ScopeModel {
    (scope.workspace_id, scope.surface_id)
}

/// An index-and-surface result by its model.
pub open spec fn target_model(r: Result<(usize, u128), InboxError>) -> Result<(int, u128), InboxError> {
    match r {
        Ok((i, s)) => Ok((i as int, s)),
        Err(e) => Err(e),
    }
}

impl Workspaces {
    /// Whether workspace `i` holds surface `s`.
    fn holds(&self, i: usize, s: u128) -> (r: bool)
        requires
            i < self.rows@.len(),
        ensures
            r == self.rows@[i as int].surfaces@.contains(s),
    {
        let surfaces = &self.rows[i].surfaces;
        let mut k: usize = 0;
        while k < surfaces.len()
            invariant
                i < self.rows@.len(),
                surfaces@ == self.rows@[i as int].surfaces@,
                k <= surfaces@.len(),
                forall|j: int| 0 <= j < k ==> surfaces@[j] != s,
            decreases surfaces@.len() - k,
        {
            if surfaces[k] == s {
                assert(surfaces@[k as int] == s);
                return true;
            }
            k = k + 1;
        }
        false
    }

    /// Resolve explicit surface identity across workspaces and reject conflicting scope
    /// selectors.
    pub fn target(&self, scope: &Scope) -> (r: Result<(usize, u128), InboxError>)
        ensures
            target_model(r) == spec_target(self.rows@, self.active_index as int, scope_model(scope)),
    {
        let rows = &self.rows;
        let ghost model = rows@;
        let index: usize;
        if let Some(s) = scope.surface_id {
            let mut i: usize = 0;
            while i < rows.len() && !self.holds(i, s)
                invariant
                    i <= model.len(),
                    rows@ == model,
                    self.rows@ == model,
                    forall|j: int| 0 <= j < i ==> !(#[trigger] model[j]).surfaces@.contains(s),
                decreases model.len() - i,
            {
                i = i + 1;
            }
            proof {
                lemma_first_where_at(model, |w: WorkspaceView| w.surfaces@.contains(s), i as int);
            }
            if i == rows.len() {
                return Err(InboxError::SurfaceNotFound);
            }
            index = i;
        } else if let Some(w) = scope.workspace_id {
            let mut i: usize = 0;
            while i < rows.len() && rows[i].id != w
                invariant
                    i <= model.len(),
                    rows@ == model,
                    forall|j: int| 0 <= j < i ==> (#[trigger] model[j]).id != w,
                decreases model.len() - i,
            {
                i = i + 1;
            }
            proof {
                lemma_first_where_at(model, |v: WorkspaceView| v.id == w, i as int);
            }
            if i == rows.len() {
                return Err(InboxError::WorkspaceNotFound);
            }
            index = i;
        } else {
            index = self.active_index;
        }
        if index >= rows.len() {
            return Err(InboxError::WorkspaceNotFound);
        }
        if let Some(w) = scope.workspace_id {
            if w != rows[index].id {
                return Err(InboxError::SurfaceOutsideWorkspace);
            }
        }
        match scope.surface_id {
            Some(s) => Ok((index, s)),
            None => match rows[index].active_surface {
                Some(s) => Ok((index, s)),
                None => Err(InboxError::SurfaceNotFound),
            },
        }
    }
}

/// Whether a record was routed to the scope's workspace and surface, where given.
pub open spec fn spec_matches(r: Record, scope: ScopeModel) -> bool {
    &&& (scope.0 is None || scope.0 == Some(r.workspace_id))
    &&& (scope.1 is None || scope.1 == Some(r.surface_id))
}

/// Whether clearing with this scope also clears a workspace's attention: only without a surface,
/// for every workspace or the selected one.
pub open spec fn clears_attention(w: WorkspaceView, scope: ScopeModel) -> bool {
    scope.1 is None && (scope.0 is None || scope.0 == Some(w.id))
}

/// Indices, in order, of the workspaces whose attention a clear with this scope resets.
pub open spec fn attention(rows: Seq<WorkspaceView>, scope: ScopeModel) -> Seq<usize>
    decreases rows.len(),
{
    if rows.len() == 0 {
        Seq::empty()
    } else if clears_attention(rows.last(), scope) {
        attention(rows.drop_last(), scope).push((rows.len() - 1) as usize)
    } else {
        attention(rows.drop_last(), scope)
    }
}

/// Why a clear with this scope is refused: a scope naming a workspace or surface must designate
/// an open one.
pub open spec fn clear_refusal(rows: Seq<WorkspaceView>, active: int, scope: ScopeModel) -> Option<
    InboxError,
> {
    if scope.0 is Some || scope.1 is Some {
        match spec_target(rows, active, scope) {
            Err(e) => Some(e),
            Ok(_) => None,
        }
    } else {
        None
    }
}

/// A record marked read.
pub open spec fn with_read(r: Record) -> Record {
    Record {
        id: r.id,
        workspace_id: r.workspace_id,
        surface_id: r.surface_id,
        content: r.content,
        created_at: r.created_at,
        is_read: true,
    }
}

/// Whether a mark-read request selects a record: every record, the one named, or without a
/// named record those in the scope.
pub open spec fn read_selected(r: Record, id: Option<u128>, scope: ScopeModel, all: bool) -> bool {
    all || id == Some(r.id) || (id is None && spec_matches(r, scope))
}

/// Records after a mark-read request: the selected ones read, the rest unchanged.
pub open spec fn marked(rs: Seq<Record>, id: Option<u128>, scope: ScopeModel, all: bool) -> Seq<
    Record,
> {
    rs.map_values(
        |r: Record|
            if read_selected(r, id, scope, all) {
                with_read(r)
            } else {
                r
            },
    )
}

/// How many selected records were unread.
pub open spec fn newly_read(rs: Seq<Record>, id: Option<u128>, scope: ScopeModel, all: bool) -> nat
    decreases rs.len(),
{
    if rs.len() == 0 {
        0
    } else {
        newly_read(rs.drop_last(), id, scope, all) + if read_selected(rs.last(), id, scope, all)
            && !rs.last().is_read {
            1nat
        } else {
            0nat
        }
    }
}

/// Whether some record has identity `id`.
pub open spec fn has_id(rs: Seq<Record>, id: u128) -> bool {
    exists|k: int| 0 <= k < rs.len() && (#[trigger] rs[k]).id == id
}

/// Whether a dismiss request removes a record: the one named, or every read one.
pub open spec fn dismissed(r: Record, id: Option<u128>, all_read: bool) -> bool {
    id == Some(r.id) || (all_read && r.is_read)
}

/// Whether a dismiss request removes no record.
pub open spec fn none_dismissed(rs: Seq<Record>, id: Option<u128>, all_read: bool) -> bool {
    forall|k: int| 0 <= k < rs.len() ==> !dismissed(#[trigger] rs[k], id, all_read)
}

/// Identity of the newest unread record.
pub open spec fn last_unread(rs: Seq<Record>) -> Option<u128>
    decreases rs.len(),
{
    if rs.len() == 0 {
        None
    } else if !rs.last().is_read {
        Some(rs.last().id)
    } else {
        last_unread(rs.drop_last())
    }
}

/// Index of the first record with identity `id`, or the count.
pub open spec fn record_index(rs: Seq<Record>, id: u128) -> int {
    first_where(rs, |r: Record| r.id == id)
}

/// Where opening notification `id` leads: the workspace and surface it was routed to, which
/// must still be open.
pub open spec fn spec_open(rs: Seq<Record>, rows: Seq<WorkspaceView>, active: int, id: u128) -> Result<
    (int, u128),
    InboxError,
> {
    let i = record_index(rs, id);
    if i >= rs.len() {
        Err(InboxError::NotificationNotFound)
    } else {
        spec_target(rows, active, (Some(rs[i].workspace_id), Some(rs[i].surface_id)))
    }
}

/// Whether a new notification is born read: it targets the active surface of the selected
/// workspace while the window is active.
pub open spec fn spec_created_read(
    rows: Seq<WorkspaceView>,
    active: int,
    index: int,
    surface: u128,
    window_active: bool,
) -> bool {
    &&& active == index
    &&& 0 <= index < rows.len()
    &&& rows[index].active_surface == Some(surface)
    &&& window_active
}

/// Whether an unread record routed to this workspace and surface remains.
pub open spec fn spec_has_unread(rs: Seq<Record>, workspace_id: u128, surface_id: u128) -> bool {
    exists|k: int|
        0 <= k < rs.len() && !(#[trigger] rs[k]).is_read && rs[k].workspace_id == workspace_id
            && rs[k].surface_id == surface_id
}

/// Match historical routing identities without redirecting messages whose surfaces have closed.
pub fn in_scope(record: &Record, scope: &Scope) -> (r: bool)
    ensures
        r == spec_matches(*record, scope_model(scope)),
{
    (match scope.workspace_id {
        None => true,
        Some(w) => w == record.workspace_id,
    }) && (match scope.surface_id {
        None => true,
        Some(s) => s == record.surface_id,
    })
}

/// Remove the records routed into the scope and list the workspaces whose attention to reset.
/// A scope naming a workspace or surface must designate an open one.
pub fn clear(inbox: &mut Inbox, ws: &Workspaces, scope: &Scope) -> (r: Result<Vec<usize>, InboxError>)
    ensures
        clear_refusal(ws.rows@, ws.active_index as int, scope_model(scope)) matches Some(e) ==> r
            == Err::<Vec<usize>, InboxError>(e) && final(inbox).records@ == old(inbox).records@,
        clear_refusal(ws.rows@, ws.active_index as int, scope_model(scope)) is None ==> (r matches Ok(
            v,
        ) && v@ == attention(ws.rows@, scope_model(scope)) && final(inbox).records@ == old(inbox).records@.filter(|x: Record| !spec_matches(x, scope_model(scope)))),
{
    if scope.workspace_id.is_some() || scope.surface_id.is_some() {
        if let Err(e) = ws.target(scope) {
            return Err(e);
        }
    }
    let ghost all = inbox.records@;
    let ghost sm = scope_model(scope);
    let mut source: Vec<Record> = Vec::new();
    std::mem::swap(&mut source, &mut inbox.records);
    let mut kept: Vec<Record> = Vec::new();
    let mut k: usize = 0;
    let n = source.len();
    while k < n
        invariant
            n == all.len(),
            k <= n,
            source@ == all.skip(k as int),
            kept@ == all.take(k as int).filter(|x: Record| !spec_matches(x, sm)),
            sm == scope_model(scope),
        decreases n - k,
    {
        proof {
            reveal_with_fuel(Seq::<_>::filter, 1);
            assert(all.take(k + 1).drop_last() =~= all.take(k as int));
            assert(all.take(k + 1).last() == all[k as int]);
        }
        let r = source.remove(0);
        assert(source@ =~= all.skip(k + 1));
        if !in_scope(&r, scope) {
            kept.push(r);
        }
        k = k + 1;
    }
    assert(all.take(n as int) =~= all);
    inbox.records = kept;
    let rows = &ws.rows;
    let mut indices: Vec<usize> = Vec::new();
    let mut i: usize = 0;
    while i < rows.len()
        invariant
            i <= rows@.len(),
            indices@ == attention(rows@.take(i as int), sm),
            sm == scope_model(scope),
        decreases rows@.len() - i,
    {
        proof {
            assert(rows@.take(i + 1).drop_last() =~= rows@.take(i as int));
        }
        let selected = scope.surface_id.is_none() && match scope.workspace_id {
            None => true,
            Some(w) => w == rows[i].id,
        };
        if selected {
            indices.push(i);
        }
        i = i + 1;
    }
    assert(rows@.take(i as int) =~= rows@);
    Ok(indices)
}


/// Whether some record has identity `id`.
fn contains_id(records: &Vec<Record>, id: u128) -> (r: bool)
    ensures
        r == has_id(records@, id),
{
    let mut k: usize = 0;
    while k < records.len()
        invariant
            k <= records@.len(),
            forall|j: int| 0 <= j < k ==> (#[trigger] records@[j]).id != id,
        decreases records@.len() - k,
    {
        if records[k].id == id {
            assert(records@[k as int].id == id);
            return true;
        }
        k = k + 1;
    }
    false
}

/// Mark the named record, every record, or those in the scope read, and count how many were
/// unread. A named record must exist.
pub fn mark_read(inbox: &mut Inbox, id: Option<u128>, scope: &Scope, all: bool) -> (r: Result<
    usize,
    InboxError,
>)
    ensures
        id matches Some(i) && !has_id(old(inbox).records@, i) ==> r == Err::<usize, InboxError>(
            InboxError::NotificationNotFound,
        ) && final(inbox).records@ == old(inbox).records@,
        !(id matches Some(i) && !has_id(old(inbox).records@, i)) ==> r == Ok::<usize, InboxError>(
            newly_read(old(inbox).records@, id, scope_model(scope), all) as usize,
        ) && final(inbox).records@ == marked(old(inbox).records@, id, scope_model(scope), all),
{
    if let Some(i) = id {
        if !contains_id(&inbox.records, i) {
            return Err(InboxError::NotificationNotFound);
        }
    }
    let ghost all_records = inbox.records@;
    let ghost sm = scope_model(scope);
    let n = inbox.records.len();
    let mut count: usize = 0;
    let mut k: usize = 0;
    while k < n
        invariant
            n == all_records.len(),
            k <= n,
            inbox.records@.len() == n,
            forall|j: int| 0 <= j < k ==> #[trigger] inbox.records@[j] == marked(all_records, id, sm, all)[j],
            forall|j: int| k <= j < n ==> #[trigger] inbox.records@[j] == all_records[j],
            count == newly_read(all_records.take(k as int), id, sm, all),
            count <= k,
            sm == scope_model(scope),
        decreases n - k,
    {
        proof {
            assert(all_records.take(k + 1).drop_last() =~= all_records.take(k as int));
        }
        let selected = all || id == Some(inbox.records[k].id) || (id.is_none() && in_scope(
            &inbox.records[k],
            scope,
        ));
        if selected && !inbox.records[k].is_read {
            let mut r = inbox.records.remove(k);
            r.is_read = true;
            inbox.records.insert(k, r);
            count = count + 1;
        }
        k = k + 1;
    }
    assert(all_records.take(n as int) =~= all_records);
    assert(inbox.records@ =~= marked(all_records, id, sm, all));
    Ok(count)
}

/// Whether a dismiss request removes some record.
fn any_dismissed(records: &Vec<Record>, id: Option<u128>, all_read: bool) -> (r: bool)
    ensures
        r == !none_dismissed(records@, id, all_read),
{
    let mut k: usize = 0;
    while k < records.len()
        invariant
            k <= records@.len(),
            forall|j: int| 0 <= j < k ==> !dismissed(#[trigger] records@[j], id, all_read),
        decreases records@.len() - k,
    {
        let r = &records[k];
        if id == Some(r.id) || (all_read && r.is_read) {
            assert(dismissed(records@[k as int], id, all_read));
            return true;
        }
        k = k + 1;
    }
    false
}

/// Remove the named record or every read one, and count the removed. A named record must
/// exist.
pub fn dismiss(inbox: &mut Inbox, id: Option<u128>, all_read: bool) -> (r: Result<usize, InboxError>)
    ensures
        id is Some && none_dismissed(old(inbox).records@, id, all_read) ==> r == Err::<
            usize,
            InboxError,
        >(InboxError::NotificationNotFound) && final(inbox).records@ == old(inbox).records@,
        !(id is Some && none_dismissed(old(inbox).records@, id, all_read)) ==> final(inbox).records@
            == old(inbox).records@.filter(|x: Record| !dismissed(x, id, all_read)) && r == Ok::<
            usize,
            InboxError,
        >((old(inbox).records@.len() - final(inbox).records@.len()) as usize),
{
    let ghost all = inbox.records@;
    if id.is_some() && !any_dismissed(&inbox.records, id, all_read) {
        return Err(InboxError::NotificationNotFound);
    }
    let mut source: Vec<Record> = Vec::new();
    std::mem::swap(&mut source, &mut inbox.records);
    let mut kept: Vec<Record> = Vec::new();
    let mut k: usize = 0;
    let n = source.len();
    while k < n
        invariant
            n == all.len(),
            k <= n,
            source@ == all.skip(k as int),
            kept@ == all.take(k as int).filter(|x: Record| !dismissed(x, id, all_read)),
            kept@.len() <= k,
        decreases n - k,
    {
        proof {
            reveal_with_fuel(Seq::<_>::filter, 1);
            assert(all.take(k + 1).drop_last() =~= all.take(k as int));
            assert(all.take(k + 1).last() == all[k as int]);
        }
        let r = source.remove(0);
        assert(source@ =~= all.skip(k + 1));
        if !(id == Some(r.id) || (all_read && r.is_read)) {
            kept.push(r);
        }
        k = k + 1;
    }
    assert(all.take(n as int) =~= all);
    let removed = n - kept.len();
    inbox.records = kept;
    Ok(removed)
}

/// Identity of the newest unread record, if any.
pub fn jump_to_unread(inbox: &Inbox) -> (r: Option<u128>)
    ensures
        r == last_unread(inbox.records@),
{
    let rs = &inbox.records;
    let mut k: usize = rs.len();
    assert(rs@.take(k as int) =~= rs@);
    while k > 0
        invariant
            rs@ == inbox.records@,
            k <= rs@.len(),
            last_unread(rs@) == last_unread(rs@.take(k as int)),
        decreases k,
    {
        proof {
            assert(rs@.take(k as int).drop_last() =~= rs@.take(k - 1));
        }
        if !rs[k - 1].is_read {
            assert(rs@.take(k as int).last() == rs@[k - 1]);
            return Some(rs[k - 1].id);
        }
        k = k - 1;
    }
    None
}

/// Index of the first record with identity `id`, or the count.
fn find_record(records: &Vec<Record>, id: u128) -> (i: usize)
    ensures
        i as int == record_index(records@, id),
{
    let mut k: usize = 0;
    while k < records.len() && records[k].id != id
        invariant
            k <= records@.len(),
            forall|j: int| 0 <= j < k ==> (#[trigger] records@[j]).id != id,
        decreases records@.len() - k,
    {
        k = k + 1;
    }
    proof {
        lemma_first_where_at(records@, |r: Record| r.id == id, k as int);
    }
    k
}

/// The workspace index and surface that opening notification `id` focuses.
pub fn open_target(inbox: &Inbox, ws: &Workspaces, id: u128) -> (r: Result<(usize, u128), InboxError>)
    ensures
        target_model(r) == spec_open(inbox.records@, ws.rows@, ws.active_index as int, id),
{
    let i = find_record(&inbox.records, id);
    if i == inbox.records.len() {
        return Err(InboxError::NotificationNotFound);
    }
    let scope = Scope {
        workspace_id: Some(inbox.records[i].workspace_id),
        surface_id: Some(inbox.records[i].surface_id),
    };
    ws.target(&scope)
}

/// Mark notification `id` read after its terminal took focus; false when no record has it.
pub fn mark_opened(inbox: &mut Inbox, id: u128) -> (r: bool)
    ensures
        r == (record_index(old(inbox).records@, id) < old(inbox).records@.len()),
        r ==> final(inbox).records@ == old(inbox).records@.update(
            record_index(old(inbox).records@, id),
            with_read(old(inbox).records@[record_index(old(inbox).records@, id)]),
        ),
        !r ==> final(inbox).records@ == old(inbox).records@,
{
    let i = find_record(&inbox.records, id);
    if i == inbox.records.len() {
        return false;
    }
    let mut r = inbox.records.remove(i);
    r.is_read = true;
    inbox.records.insert(i, r);
    assert(inbox.records@ =~= old(inbox).records@.update(i as int, with_read(old(inbox).records@[i as int])));
    true
}

/// Whether a new notification at `index` and `surface` is born read: it targets the active
/// surface of the selected workspace while the window is active.
pub fn created_read(ws: &Workspaces, index: usize, surface: u128, window_active: bool) -> (r: bool)
    ensures
        r == spec_created_read(ws.rows@, ws.active_index as int, index as int, surface, window_active),
{
    ws.active_index == index && index < ws.rows.len() && ws.rows[index].active_surface == Some(
        surface,
    ) && window_active
}

/// Whether an unread record routed to this workspace and surface remains, which keeps the
/// pane's unread ring.
pub fn has_unread(inbox: &Inbox, workspace_id: u128, surface_id: u128) -> (r: bool)
    ensures
        r == spec_has_unread(inbox.records@, workspace_id, surface_id),
{
    let rs = &inbox.records;
    let mut k: usize = 0;
    while k < rs.len()
        invariant
            rs@ == inbox.records@,
            k <= rs@.len(),
            forall|j: int|
                0 <= j < k ==> !(!(#[trigger] rs@[j]).is_read && rs@[j].workspace_id
                    == workspace_id && rs@[j].surface_id == surface_id),
        decreases rs@.len() - k,
    {
        if !rs[k].is_read && rs[k].workspace_id == workspace_id && rs[k].surface_id == surface_id {
            assert(!rs@[k as int].is_read && rs@[k as int].workspace_id == workspace_id
                && rs@[k as int].surface_id == surface_id);
            return true;
        }
        k = k + 1;
    }
    false
}


/// What an admitted inbox operation did, or what the GTK side is to do next.
#[derive(Debug)]
pub enum Outcome {
    /// A notification was recorded with this identity and target.
    Created { id: u128, workspace_id: u128, surface_id: u128 },
    /// The scope's records were removed; the listed workspaces' attention is to be reset.
    Cleared { scope_workspace: Option<u128>, scope_surface: Option<u128>, attention: Vec<usize> },
    /// This many records became read.
    MarkedRead(usize),
    /// This many records were removed.
    Dismissed { count: usize, all_read: bool },
    /// Select workspace `index`, focus surface `surface_id`, and on success mark notification `id` read.
    Focus { index: usize, surface_id: u128, id: u128 },
    /// No unread notification remains to jump to.
    NothingUnread,
}

/// The record a create request adds once its target resolved.
pub open spec fn created_record(
    rows: Seq<WorkspaceView>,
    active: int,
    index: int,
    surface: u128,
    id: u128,
    content: Content,
    created_at: String,
    window_active: bool,
) -> Record {
    Record {
        id,
        workspace_id: rows[index].id,
        surface_id: surface,
        content,
        created_at,
        is_read: spec_created_read(rows, active, index, surface, window_active),
    }
}

/// The focus step of opening a notification.
pub open spec fn focus_outcome(r: Result<(int, u128), InboxError>, id: u128) -> Result<
    (int, u128, u128),
    InboxError,
> {
    match r {
        Ok((i, s)) => Ok((i, s, id)),
        Err(e) => Err(e),
    }
}

/// An outcome's focus step, where it is one.
pub open spec fn as_focus(r: Result<Outcome, InboxError>) -> Option<Result<(int, u128, u128), InboxError>> {
    match r {
        Ok(Outcome::Focus { index, surface_id, id }) => Some(Ok((index as int, surface_id, id))),
        Err(e) => Some(Err(e)),
        _ => None,
    }
}

/// Apply one admitted operation to the history. Only opening a notification or jumping to the
/// newest unread one asks for focus; the record of an opened notification is marked read by
/// `mark_opened` once focus succeeded. A new notification gets identity `new_id` and timestamp
/// `created_at`.
pub fn handle(
    inbox: &mut Inbox,
    ws: &Workspaces,
    action: Action,
    new_id: u128,
    created_at: String,
    window_active: bool,
) -> (r: Result<Outcome, InboxError>)
    requires
        total_size(old(inbox).records@) <= MAX_BYTES,
        utf8_len(created_at@) <= MAX_TIMESTAMP_BYTES,
        action matches Action::Create { content, .. } ==> content.is_valid(),
    ensures
        match action {
            Action::Create { scope, content } => match spec_target(
                ws.rows@,
                ws.active_index as int,
                scope_model(&scope),
            ) {
                Err(e) => r == Err::<Outcome, InboxError>(e) && final(inbox).records@ == old(inbox).records@,
                Ok((i, s)) => (r matches Ok(Outcome::Created { id, workspace_id, surface_id })
                    && id == new_id && workspace_id == ws.rows@[i].id && surface_id == s)
                    && final(inbox).records@ == trimmed(
                    old(inbox).records@.push(
                        created_record(
                            ws.rows@,
                            ws.active_index as int,
                            i,
                            s,
                            new_id,
                            content,
                            created_at,
                            window_active,
                        ),
                    ),
                ).0,
            },
            Action::Clear(scope) => match clear_refusal(
                ws.rows@,
                ws.active_index as int,
                scope_model(&scope),
            ) {
                Some(e) => r == Err::<Outcome, InboxError>(e) && final(inbox).records@ == old(inbox).records@,
                None => (r matches Ok(Outcome::Cleared { scope_workspace, scope_surface, attention: a })
                    && scope_workspace == scope.workspace_id && scope_surface == scope.surface_id
                    && a@ == attention(ws.rows@, scope_model(&scope))) && final(inbox).records@ == old(inbox).records@.filter(
                    |x: Record| !spec_matches(x, scope_model(&scope)),
                ),
            },
            Action::MarkRead { id, scope, all } => if id matches Some(i) && !has_id(
                old(inbox).records@,
                i,
            ) {
                r == Err::<Outcome, InboxError>(InboxError::NotificationNotFound) && final(inbox).records@ == old(inbox).records@
            } else {
                r == Ok::<Outcome, InboxError>(
                    Outcome::MarkedRead(
                        newly_read(old(inbox).records@, id, scope_model(&scope), all) as usize,
                    ),
                ) && final(inbox).records@ == marked(
                    old(inbox).records@,
                    id,
                    scope_model(&scope),
                    all,
                )
            },
            Action::Dismiss { id, all_read } => if id is Some && none_dismissed(
                old(inbox).records@,
                id,
                all_read,
            ) {
                r == Err::<Outcome, InboxError>(InboxError::NotificationNotFound) && final(inbox).records@ == old(inbox).records@
            } else {
                final(inbox).records@ == old(inbox).records@.filter(
                    |x: Record| !dismissed(x, id, all_read),
                ) && r == Ok::<Outcome, InboxError>(
                    Outcome::Dismissed {
                        count: (old(inbox).records@.len() - final(inbox).records@.len()) as usize,
                        all_read,
                    },
                )
            },
            Action::Open(id) => final(inbox).records@ == old(inbox).records@ && as_focus(r)
                == Some(
                focus_outcome(spec_open(old(inbox).records@, ws.rows@, ws.active_index as int, id), id),
            ),
            Action::JumpToUnread => final(inbox).records@ == old(inbox).records@ && match last_unread(
                old(inbox).records@,
            ) {
                None => r == Ok::<Outcome, InboxError>(Outcome::NothingUnread),
                Some(id) => as_focus(r) == Some(
                    focus_outcome(
                        spec_open(old(inbox).records@, ws.rows@, ws.active_index as int, id),
                        id,
                    ),
                ),
            },
        },
{
    match action {
        Action::Create { scope, content } => {
            let (index, surface) = match ws.target(&scope) {
                Ok(t) => t,
                Err(e) => return Err(e),
            };
            let is_read = created_read(ws, index, surface, window_active);
            let record = Record {
                id: new_id,
                workspace_id: ws.rows[index].id,
                surface_id: surface,
                content,
                created_at,
                is_read,
            };
            proof {
                lemma_total_size_push(inbox.records@, record);
            }
            inbox.push(record);
            Ok(Outcome::Created { id: new_id, workspace_id: ws.rows[index].id, surface_id: surface })
        },
        Action::Clear(scope) => match clear(inbox, ws, &scope) {
            Ok(attention) => Ok(
                Outcome::Cleared {
                    scope_workspace: scope.workspace_id,
                    scope_surface: scope.surface_id,
                    attention,
                },
            ),
            Err(e) => Err(e),
        },
        Action::MarkRead { id, scope, all } => match mark_read(inbox, id, &scope, all) {
            Ok(n) => Ok(Outcome::MarkedRead(n)),
            Err(e) => Err(e),
        },
        Action::Dismiss { id, all_read } => match dismiss(inbox, id, all_read) {
            Ok(count) => Ok(Outcome::Dismissed { count, all_read }),
            Err(e) => Err(e),
        },
        Action::Open(id) => match open_target(inbox, ws, id) {
            Ok((index, surface_id)) => Ok(Outcome::Focus { index, surface_id, id }),
            Err(e) => Err(e),
        },
        Action::JumpToUnread => match jump_to_unread(inbox) {
            None => Ok(Outcome::NothingUnread),
            Some(id) => match open_target(inbox, ws, id) {
                Ok((index, surface_id)) => Ok(Outcome::Focus { index, surface_id, id }),
                Err(e) => Err(e),
            },
        },
    }
}


/// Marking every message read leaves nothing to jump to.
pub proof fn law_all_read_leaves_nothing_unread(
    rs: Seq<Record>,
    id: Option<u128>,
    scope: ScopeModel,
)
    ensures
        last_unread(marked(rs, id, scope, true)) is None,
    decreases rs.len(),
{
    if rs.len() > 0 {
        assert(marked(rs, id, scope, true).drop_last() =~= marked(rs.drop_last(), id, scope, true));
        law_all_read_leaves_nothing_unread(rs.drop_last(), id, scope);
    }
}

/// Marking read is idempotent: a second identical request changes nothing and counts nothing.
pub proof fn law_mark_read_idempotent(
    rs: Seq<Record>,
    id: Option<u128>,
    scope: ScopeModel,
    all: bool,
)
    ensures
        marked(marked(rs, id, scope, all), id, scope, all) == marked(rs, id, scope, all),
        newly_read(marked(rs, id, scope, all), id, scope, all) == 0,
    decreases rs.len(),
{
    let m = marked(rs, id, scope, all);
    assert(marked(m, id, scope, all) =~= m);
    if rs.len() > 0 {
        assert(m.drop_last() =~= marked(rs.drop_last(), id, scope, all));
        law_mark_read_idempotent(rs.drop_last(), id, scope, all);
    }
}

/// After a clear, no retained record is routed into the cleared scope, and every record outside
/// it is kept.
pub proof fn law_clear_removes_exactly_scope(rs: Seq<Record>, scope: ScopeModel, r: Record)
    ensures
        rs.filter(|x: Record| !spec_matches(x, scope)).contains(r) <==> (rs.contains(r)
            && !spec_matches(r, scope)),
{
    let p = |x: Record| !spec_matches(x, scope);
    if rs.filter(p).contains(r) {
        rs.lemma_filter_contains_rev(p, r);
    }
    if rs.contains(r) && !spec_matches(r, scope) {
        let i = choose|i: int| 0 <= i < rs.len() && rs[i] == r;
        rs.lemma_filter_contains(p, i);
    }
}

/// Whether a record is an unread notification of workspace `workspace` shown by `pane`.
pub open spec fn rings(tree: crate::pane_tree::PaneTree, tabs: Seq<PaneTabs>, workspace: u128, pane: u64) -> spec_fn(Record) -> bool {
    |r: Record| !r.is_read && r.workspace_id == workspace && surface_pane(tree, tabs, r.surface_id) == Some(pane)
}

/// Whether pane `pane` of a workspace's layout shows an unread notification of the workspace.
pub open spec fn pane_unread(
    tree: crate::pane_tree::PaneTree,
    tabs: Seq<PaneTabs>,
    records: Seq<Record>,
    workspace: u128,
    pane: u64,
) -> bool {
    exists|k: int| 0 <= k < records.len() && #[trigger] rings(tree, tabs, workspace, pane)(records[k])
}

/// Each pane of workspace `workspace`'s layout, in traversal order, and whether it carries the
/// unread ring: one of its surfaces has an unread notification of the workspace.
pub fn unread_panes(layout: &PaneLayout, tabs: &Vec<PaneTabs>, records: &Vec<Record>, workspace: u128) -> (r: Vec<(u64, bool)>)
    requires
        layout.wf(),
    ensures
        r@.len() == leaves(layout.tree()).len(),
        forall|i: int|
            0 <= i < r@.len() ==> (#[trigger] r@[i]).0 == leaves(layout.tree())[i].0 && r@[i].1 == pane_unread(
                layout.tree(),
                tabs@,
                records@,
                workspace,
                leaves(layout.tree())[i].0,
            ),
{
    let ghost tree = layout.tree();
    let mut hits: Vec<u64> = Vec::new();
    let mut k: usize = 0;
    while k < records.len()
        invariant
            tree == layout.tree(),
            layout.wf(),
            k <= records@.len(),
            forall|pane: u64| hits@.contains(pane) <==> exists|j: int| 0 <= j < k && #[trigger] rings(tree, tabs@, workspace, pane)(records@[j]),
        decreases records@.len() - k,
    {
        let r = &records[k];
        let ghost before = hits@;
        if !r.is_read && r.workspace_id == workspace {
            if let Some(pane) = layout.find_pane_id_by_uuid(tabs, r.surface_id) {
                hits.push(pane);
            }
        }
        proof {
            assert forall|pane: u64| hits@.contains(pane) <==> exists|j: int| 0 <= j < k + 1 && #[trigger] rings(tree, tabs@, workspace, pane)(records@[j]) by {
                if hits@.contains(pane) {
                    if before.contains(pane) {
                        let j = choose|j: int| 0 <= j < k && #[trigger] rings(tree, tabs@, workspace, pane)(records@[j]);
                        assert(0 <= j < k + 1);
                    } else {
                        assert(hits@ == before.push(pane) || hits@ == before);
                        assert(hits@.last() == pane) by {
                            let x = choose|x: int| 0 <= x < hits@.len() && hits@[x] == pane;
                            if x < before.len() {
                                assert(before[x] == pane);
                            }
                        }
                        assert(rings(tree, tabs@, workspace, pane)(records@[k as int]));
                    }
                }
                if exists|j: int| 0 <= j < k + 1 && #[trigger] rings(tree, tabs@, workspace, pane)(records@[j]) {
                    let j = choose|j: int| 0 <= j < k + 1 && #[trigger] rings(tree, tabs@, workspace, pane)(records@[j]);
                    if j < k {
                        assert(before.contains(pane));
                        let x = choose|x: int| 0 <= x < before.len() && before[x] == pane;
                        assert(hits@[x] == pane);
                    } else {
                        assert(hits@.last() == pane);
                        assert(hits@[hits@.len() - 1] == pane);
                    }
                }
            }
        }
        k = k + 1;
    }
    let mut order: Vec<u64> = Vec::new();
    layout.root().collect_leaves_in_order(&mut order);
    let ghost ls = leaves(tree);
    assert(order@ =~= ids(ls));
    let mut out: Vec<(u64, bool)> = Vec::new();
    let mut i: usize = 0;
    while i < order.len()
        invariant
            tree == layout.tree(),
            ls == leaves(tree),
            order@ == ids(ls),
            i <= order@.len(),
            out@.len() == i,
            forall|pane: u64| hits@.contains(pane) <==> exists|j: int| 0 <= j < records@.len() && #[trigger] rings(tree, tabs@, workspace, pane)(records@[j]),
            forall|x: int| 0 <= x < i ==> (#[trigger] out@[x]).0 == ls[x].0 && out@[x].1 == pane_unread(tree, tabs@, records@, workspace, ls[x].0),
        decreases order@.len() - i,
    {
        let pane = order[i];
        assert(pane == ls[i as int].0);
        let mut found = false;
        let mut h: usize = 0;
        while h < hits.len()
            invariant
                h <= hits@.len(),
                found == exists|x: int| 0 <= x < h && hits@[x] == pane,
            decreases hits@.len() - h,
        {
            if hits[h] == pane {
                found = true;
            }
            h = h + 1;
        }
        assert(found == hits@.contains(pane));
        out.push((pane, found));
        i = i + 1;
    }
    out
}

/// Jumping finds the newest unread notification: nothing exactly when every record is read, and
/// otherwise the identity of an unread record after which every record is read.
pub proof fn law_jump_finds_newest_unread(rs: Seq<Record>)
    ensures
        last_unread(rs) is None <==> forall|j: int| 0 <= j < rs.len() ==> (#[trigger] rs[j]).is_read,
        last_unread(rs) matches Some(x) ==> exists|i: int|
            0 <= i < rs.len() && (#[trigger] rs[i]).id == x && !rs[i].is_read && forall|j: int|
                i < j < rs.len() ==> (#[trigger] rs[j]).is_read,
    decreases rs.len(),
{
    if rs.len() > 0 {
        let d = rs.drop_last();
        law_jump_finds_newest_unread(d);
        let n = rs.len() - 1;
        if !rs.last().is_read {
            assert(rs[n].id == rs.last().id && !rs[n].is_read);
        } else {
            assert forall|j: int| 0 <= j < d.len() implies d[j] == rs[j] by {}
            match last_unread(d) {
                Some(x) => {
                    let i = choose|i: int|
                        0 <= i < d.len() && (#[trigger] d[i]).id == x && !d[i].is_read && forall|j: int|
                            i < j < d.len() ==> (#[trigger] d[j]).is_read;
                    assert(rs[i] == d[i]);
                    assert forall|j: int| i < j < rs.len() implies (#[trigger] rs[j]).is_read by {
                        if j < d.len() {
                            assert(d[j] == rs[j]);
                        }
                    }
                },
                None => {
                    assert forall|j: int| 0 <= j < rs.len() implies (#[trigger] rs[j]).is_read by {
                        if j < d.len() {
                            assert(d[j] == rs[j]);
                        }
                    }
                },
            }
        }
    }
}

} // verus!
