//! Resolve caller identity from stable UUIDs and unique live local PTYs, never borrowed pane focus.
use crate::inbox::{Scope, ScopeModel};
use crate::inbox_actions::{first_where, lemma_first_where_at};
use crate::resume::{is_whitespace, unicode_whitespace};
use crate::text::{chars_equal, chars_of, slice_chars, string_of};
use vstd::prelude::*;

verus! {

/// The text without leading white space (`str::trim_start`).
pub open spec fn trim_start(s: Seq<char>) -> Seq<char>
    decreases s.len(),
{
    if s.len() > 0 && unicode_whitespace(s[0]) {
        trim_start(s.drop_first())
    } else {
        s
    }
}

/// The text without trailing white space (`str::trim_end`).
pub open spec fn trim_end(s: Seq<char>) -> Seq<char>
    decreases s.len(),
{
    if s.len() > 0 && unicode_whitespace(s.last()) {
        trim_end(s.drop_last())
    } else {
        s
    }
}

/// The text without surrounding white space (`str::trim`).
pub open spec fn trim(s: Seq<char>) -> Seq<char> {
    trim_end(trim_start(s))
}

/// The conventional name of a caller's terminal: trimmed, without a `/dev/` prefix; `None`
/// when empty or `not a tty`.
pub open spec fn spec_normalize(tty: Seq<char>) -> Option<Seq<char>> {
    let t = trim(tty);
    if t.len() == 0 || t == "not a tty"@ {
        None
    } else if t.len() >= 5 && t.take(5) == "/dev/"@ {
        Some(t.skip(5))
    } else {
        Some(t)
    }
}

/// The characters of `v` with surrounding white space removed.
pub fn trim_range(v: &Vec<char>) -> (r: Vec<char>)
    ensures
        r@ == trim(v@),
{
    let mut a: usize = 0;
    assert(v@.skip(0) =~= v@);
    while a < v.len() && is_whitespace(v[a])
        invariant
            a <= v@.len(),
            trim_start(v@) == trim_start(v@.skip(a as int)),
        decreases v@.len() - a,
    {
        assert(v@.skip(a as int).drop_first() =~= v@.skip(a + 1));
        a = a + 1;
    }
    assert(trim_start(v@.skip(a as int)) == v@.skip(a as int));
    let mut b: usize = v.len();
    assert(v@.subrange(a as int, b as int) =~= v@.skip(a as int));
    while b > a && is_whitespace(v[b - 1])
        invariant
            a <= b <= v@.len(),
            trim(v@) == trim_end(v@.subrange(a as int, b as int)),
        decreases b,
    {
        assert(v@.subrange(a as int, b as int).drop_last() =~= v@.subrange(a as int, b - 1));
        b = b - 1;
    }
    slice_chars(v, a, b)
}

/// Normalize a caller's conventional terminal name without filesystem access or remote path matching.
pub fn normalize(tty: &str) -> (r: Option<String>)
    ensures
        r matches Some(s) ==> spec_normalize(tty@) == Some(s@),
        r is None ==> spec_normalize(tty@) is None,
{
    let v = chars_of(tty);
    let t = trim_range(&v);
    if t.len() == 0 || chars_equal(&t, "not a tty") {
        return None;
    }
    proof {
        reveal_strlit("/dev/");
    }
    if t.len() >= 5 {
        let head = slice_chars(&t, 0, 5);
        assert(head@ =~= t@.take(5));
        if chars_equal(&head, "/dev/") {
            let rest = slice_chars(&t, 5, t.len());
            assert(rest@ =~= t@.skip(5));
            return Some(string_of(rest.as_slice()));
        }
    }
    Some(string_of(t.as_slice()))
}


/// What a notification's caller reports about where it runs.
pub struct Caller {
    pub preferred_workspace_id: Option<u128>,
    pub preferred_workspace_is_explicit: bool,
    pub preferred_surface_id: Option<u128>,
    pub caller_tty: Option<String>,
    pub prefer_tty: bool,
}

/// What attribution reads of one open workspace: its identity, whether it runs remotely, and
/// each surface of its panes in listing order with the terminal name its live terminal
/// reports, if any.
pub struct CallerWorkspace {
    pub uuid: u128,
    pub remote: bool,
    pub surfaces: Vec<(u128, Option<String>)>,
}

/// A surface and its terminal name, as values.
pub open spec fn named_view(e: (u128, Option<String>)) -> (u128, Option<Seq<char>>) {
    (
        e.0,
        match e.1 {
            Some(n) => Some(n@),
            None => None,
        },
    )
}

/// A workspace's surfaces and their terminal names, as values.
pub open spec fn named_surfaces(w: CallerWorkspace) -> Seq<(u128, Option<Seq<char>>)> {
    w.surfaces@.map_values(|e: (u128, Option<String>)| named_view(e))
}

/// Whether a surface's terminal name is `tty` once normalized.
pub open spec fn named_as(e: (u128, Option<Seq<char>>), tty: Seq<char>) -> bool {
    e.1 matches Some(n) && spec_normalize(n) == Some(tty)
}

/// The surfaces of one workspace whose terminal is `tty`: (workspace, surface), in order.
pub open spec fn surface_matches(workspace: u128, ss: Seq<(u128, Option<Seq<char>>)>, tty: Seq<char>) -> Seq<
    (u128, u128),
>
    decreases ss.len(),
{
    if ss.len() == 0 {
        Seq::empty()
    } else {
        surface_matches(workspace, ss.drop_last(), tty) + if named_as(ss.last(), tty) {
            seq![(workspace, ss.last().0)]
        } else {
            Seq::empty()
        }
    }
}

/// The surfaces of local workspaces whose terminal is `tty`, workspaces in order.
pub open spec fn tty_matches(ws: Seq<CallerWorkspace>, tty: Seq<char>) -> Seq<(u128, u128)>
    decreases ws.len(),
{
    if ws.len() == 0 {
        Seq::empty()
    } else {
        tty_matches(ws.drop_last(), tty) + if ws.last().remote {
            Seq::empty()
        } else {
            surface_matches(ws.last().uuid, named_surfaces(ws.last()), tty)
        }
    }
}

/// The terminal a caller's terminal name designates: the one local surface whose terminal has
/// that name; none when the name is no terminal's, or when several surfaces share it.
pub open spec fn spec_tty_target(ws: Seq<CallerWorkspace>, tty: Seq<char>) -> Option<ScopeModel> {
    match spec_normalize(tty) {
        None => None,
        Some(t) => {
            let m = tty_matches(ws, t);
            if m.len() == 1 {
                Some((Some(m[0].0), Some(m[0].1)))
            } else {
                None
            }
        },
    }
}

/// Matches over a longer surface list extend those of its prefix.
proof fn lemma_surface_matches_prefix(workspace: u128, ss: Seq<(u128, Option<Seq<char>>)>, tty: Seq<char>, j: int)
    requires
        0 <= j <= ss.len(),
    ensures
        surface_matches(workspace, ss, tty).len() >= surface_matches(workspace, ss.take(j), tty).len(),
    decreases ss.len() - j,
{
    if j < ss.len() {
        lemma_surface_matches_prefix(workspace, ss, tty, j + 1);
        assert(ss.take(j + 1).drop_last() =~= ss.take(j));
    } else {
        assert(ss.take(j) =~= ss);
    }
}

/// Matches over more workspaces extend those of fewer.
proof fn lemma_tty_matches_prefix(ws: Seq<CallerWorkspace>, tty: Seq<char>, i: int)
    requires
        0 <= i <= ws.len(),
    ensures
        tty_matches(ws, tty).len() >= tty_matches(ws.take(i), tty).len(),
    decreases ws.len() - i,
{
    if i < ws.len() {
        lemma_tty_matches_prefix(ws, tty, i + 1);
        assert(ws.take(i + 1).drop_last() =~= ws.take(i));
    } else {
        assert(ws.take(i) =~= ws);
    }
}

/// Whether a terminal name, once normalized, is `tty`.
fn is_named(name: &Option<String>, tty: &Vec<char>) -> (r: bool)
    ensures
        r == (name matches Some(n) && spec_normalize(n@) == Some(tty@)),
{
    match name {
        Some(n) => match normalize(n.as_str()) {
            Some(m) => chars_equal(tty, m.as_str()),
            None => false,
        },
        None => false,
    }
}

/// Resolve a unique current local PTY; several matches are an attribution failure, never a
/// first match.
pub fn tty_target(workspaces: &Vec<CallerWorkspace>, tty: &str) -> (r: Option<Scope>)
    ensures
        match spec_tty_target(workspaces@, tty@) {
            Some(s) => r matches Some(x) && (x.workspace_id, x.surface_id) == s,
            None => r is None,
        },
{
    let t = match normalize(tty) {
        Some(t) => chars_of(t.as_str()),
        None => return None,
    };
    let ghost ws = workspaces@;
    let mut found: Option<(u128, u128)> = None;
    let mut i: usize = 0;
    assert(ws.take(0) =~= Seq::<CallerWorkspace>::empty());
    while i < workspaces.len()
        invariant
            ws == workspaces@,
            spec_normalize(tty@) == Some(t@),
            i <= ws.len(),
            tty_matches(ws.take(i as int), t@).len() <= 1,
            found == if tty_matches(ws.take(i as int), t@).len() == 1 {
                Some(tty_matches(ws.take(i as int), t@)[0])
            } else {
                None::<(u128, u128)>
            },
        decreases ws.len() - i,
    {
        let w = &workspaces[i];
        let ghost before = tty_matches(ws.take(i as int), t@);
        proof {
            assert(ws.take(i + 1).drop_last() =~= ws.take(i as int));
            assert(ws.take(i + 1).last() == ws[i as int]);
        }
        if !w.remote {
            let ghost ss = named_surfaces(*w);
            let mut j: usize = 0;
            assert(ss.take(0) =~= Seq::<(u128, Option<Seq<char>>)>::empty());
            while j < w.surfaces.len()
                invariant
                    ws == workspaces@,
                    i < ws.len(),
                    *w == ws[i as int],
                    !w.remote,
                    ss == named_surfaces(*w),
                    spec_normalize(tty@) == Some(t@),
                    j <= ss.len(),
                    before == tty_matches(ws.take(i as int), t@),
                    (before + surface_matches(w.uuid, ss.take(j as int), t@)).len() <= 1,
                    found == if (before + surface_matches(w.uuid, ss.take(j as int), t@)).len() == 1 {
                        Some((before + surface_matches(w.uuid, ss.take(j as int), t@))[0])
                    } else {
                        None::<(u128, u128)>
                    },
                decreases ss.len() - j,
            {
                let entry = &w.surfaces[j];
                proof {
                    assert(ss.take(j + 1).drop_last() =~= ss.take(j as int));
                    assert(ss.take(j + 1).last() == ss[j as int]);
                    assert(ss[j as int] == named_view(w.surfaces@[j as int]));
                }
                if is_named(&entry.1, &t) {
                    if found.is_some() {
                        proof {
                            let m = before + surface_matches(w.uuid, ss.take(j + 1), t@);
                            assert(m.len() >= 2);
                            lemma_surface_matches_prefix(w.uuid, ss, t@, j + 1);
                            assert(ws.take(i + 1).drop_last() =~= ws.take(i as int));
                            assert(ws.take(i + 1).last() == ws[i as int]);
                            assert(tty_matches(ws.take(i + 1), t@) == before + surface_matches(w.uuid, ss, t@));
                            lemma_tty_matches_prefix(ws, t@, i + 1);
                        }
                        return None;
                    }
                    found = Some((w.uuid, entry.0));
                }
                j = j + 1;
            }
            assert(ss.take(j as int) =~= ss);
        }
        i = i + 1;
    }
    assert(ws.take(i as int) =~= ws);
    match found {
        Some((workspace, surface)) => Some(Scope { workspace_id: Some(workspace), surface_id: Some(surface) }),
        None => None,
    }
}


/// Whether a workspace's panes hold surface `surface`.
pub open spec fn holds_surface(surface: u128) -> spec_fn(CallerWorkspace) -> bool {
    |w: CallerWorkspace| exists|k: int| 0 <= k < w.surfaces@.len() && #[trigger] w.surfaces@[k].0 == surface
}

/// Whether a workspace is `id`.
pub open spec fn is_workspace(id: u128) -> spec_fn(CallerWorkspace) -> bool {
    |w: CallerWorkspace| w.uuid == id
}

/// The scope of a caller's stable surface identity: the first workspace holding it.
pub open spec fn surface_scope(ws: Seq<CallerWorkspace>, caller: Caller) -> Option<ScopeModel> {
    match caller.preferred_surface_id {
        Some(s) => {
            let o = first_where(ws, holds_surface(s));
            if o < ws.len() {
                Some((Some(ws[o].uuid), Some(s)))
            } else {
                None
            }
        },
        None => None,
    }
}

/// The scope a caller's terminal name designates.
pub open spec fn tty_scope(ws: Seq<CallerWorkspace>, caller: Caller) -> Option<ScopeModel> {
    match caller.caller_tty {
        Some(t) => spec_tty_target(ws, t@),
        None => None,
    }
}

/// Where a caller's notification goes: a stable surface identity before live terminal
/// evidence; a proven workspace bounds both when it was named explicitly and is the answer
/// when neither is proven in it; with nothing proven, a caller that named anything is refused
/// and one that named nothing gets the active workspace.
pub open spec fn spec_resolve(ws: Seq<CallerWorkspace>, active: int, caller: Caller) -> Result<
    ScopeModel,
    (Seq<char>, Seq<char>),
> {
    let known = caller.preferred_workspace_id matches Some(id) && first_where(ws, is_workspace(id))
        < ws.len();
    let surface = surface_scope(ws, caller);
    let tty = tty_scope(ws, caller);
    if known {
        let id = caller.preferred_workspace_id->Some_0;
        if surface is Some && (!caller.preferred_workspace_is_explicit || surface->Some_0.0 == Some(
            id,
        )) {
            Ok(surface->Some_0)
        } else if tty is Some && tty->Some_0.0 == Some(id) {
            Ok(tty->Some_0)
        } else {
            Ok((Some(id), None))
        }
    } else if caller.preferred_workspace_is_explicit && caller.preferred_workspace_id is Some {
        Err(("not_found"@, "caller workspace not found"@))
    } else if surface is Some {
        Ok(surface->Some_0)
    } else if tty is Some {
        Ok(tty->Some_0)
    } else if caller.preferred_workspace_id is Some || caller.preferred_surface_id is Some || (
    caller.caller_tty matches Some(t) && spec_normalize(t@) is Some) {
        Err(("not_found"@, "caller notification target not found"@))
    } else if 0 <= active < ws.len() {
        Ok((Some(ws[active].uuid), None))
    } else {
        Err(("not_found"@, "caller workspace not found"@))
    }
}

/// The first workspace that is `id`.
fn workspace_index(workspaces: &Vec<CallerWorkspace>, id: u128) -> (k: usize)
    ensures
        k == first_where(workspaces@, is_workspace(id)),
{
    let mut k: usize = 0;
    while k < workspaces.len() && workspaces[k].uuid != id
        invariant
            k <= workspaces@.len(),
            forall|j: int| 0 <= j < k ==> !is_workspace(id)(#[trigger] workspaces@[j]),
        decreases workspaces@.len() - k,
    {
        k = k + 1;
    }
    proof {
        if k < workspaces@.len() {
            assert(is_workspace(id)(workspaces@[k as int]));
        }
        lemma_first_where_at(workspaces@, is_workspace(id), k as int);
    }
    k
}

/// Whether a workspace's panes hold surface `surface`.
fn workspace_holds(w: &CallerWorkspace, surface: u128) -> (r: bool)
    ensures
        r == holds_surface(surface)(*w),
{
    let mut k: usize = 0;
    while k < w.surfaces.len()
        invariant
            k <= w.surfaces@.len(),
            forall|j: int| 0 <= j < k ==> (#[trigger] w.surfaces@[j]).0 != surface,
        decreases w.surfaces@.len() - k,
    {
        if w.surfaces[k].0 == surface {
            return true;
        }
        k = k + 1;
    }
    false
}

/// The scope of a caller's stable surface identity.
fn find_surface_scope(workspaces: &Vec<CallerWorkspace>, caller: &Caller) -> (r: Option<Scope>)
    ensures
        match surface_scope(workspaces@, *caller) {
            Some(s) => r matches Some(x) && (x.workspace_id, x.surface_id) == s,
            None => r is None,
        },
{
    let surface = match caller.preferred_surface_id {
        Some(s) => s,
        None => return None,
    };
    let mut k: usize = 0;
    while k < workspaces.len()
        invariant
            caller.preferred_surface_id == Some(surface),
            k <= workspaces@.len(),
            forall|j: int| 0 <= j < k ==> !holds_surface(surface)(#[trigger] workspaces@[j]),
        decreases workspaces@.len() - k,
    {
        if workspace_holds(&workspaces[k], surface) {
            proof {
                lemma_first_where_at(workspaces@, holds_surface(surface), k as int);
            }
            return Some(Scope { workspace_id: Some(workspaces[k].uuid), surface_id: Some(surface) });
        }
        k = k + 1;
    }
    proof {
        lemma_first_where_at(workspaces@, holds_surface(surface), k as int);
    }
    None
}

/// The scope a caller's terminal name designates.
fn find_tty_scope(workspaces: &Vec<CallerWorkspace>, caller: &Caller) -> (r: Option<Scope>)
    ensures
        match tty_scope(workspaces@, *caller) {
            Some(s) => r matches Some(x) && (x.workspace_id, x.surface_id) == s,
            None => r is None,
        },
{
    match &caller.caller_tty {
        Some(t) => tty_target(workspaces, t.as_str()),
        None => None,
    }
}

/// Use stable terminal identity before live TTY evidence; explicit workspace scope is a hard
/// boundary. A proven workspace with no proven terminal remains workspace-only, including
/// selector-free callers; `active_index` is the active workspace's position.
pub fn resolve(workspaces: &Vec<CallerWorkspace>, active_index: usize, caller: &Caller) -> (r: Result<
    Scope,
    (&'static str, &'static str),
>)
    ensures
        match spec_resolve(workspaces@, active_index as int, *caller) {
            Ok(s) => r matches Ok(x) && (x.workspace_id, x.surface_id) == s,
            Err(e) => r matches Err(x) && x.0@ == e.0 && x.1@ == e.1,
        },
{
    let workspace = match caller.preferred_workspace_id {
        Some(id) => if workspace_index(workspaces, id) < workspaces.len() {
            Some(id)
        } else {
            None
        },
        None => None,
    };
    let surface = find_surface_scope(workspaces, caller);
    if let Some(id) = workspace {
        if let Some(sc) = surface {
            if !caller.preferred_workspace_is_explicit || sc.workspace_id == Some(id) {
                return Ok(sc);
            }
        }
        if let Some(tc) = find_tty_scope(workspaces, caller) {
            if tc.workspace_id == Some(id) {
                return Ok(tc);
            }
        }
        return Ok(Scope { workspace_id: Some(id), surface_id: None });
    }
    if caller.preferred_workspace_is_explicit && caller.preferred_workspace_id.is_some() {
        return Err(("not_found", "caller workspace not found"));
    }
    if let Some(sc) = surface {
        return Ok(sc);
    }
    if let Some(tc) = find_tty_scope(workspaces, caller) {
        return Ok(tc);
    }
    let named_tty = match &caller.caller_tty {
        Some(t) => normalize(t.as_str()).is_some(),
        None => false,
    };
    if caller.preferred_workspace_id.is_some() || caller.preferred_surface_id.is_some() || named_tty {
        return Err(("not_found", "caller notification target not found"));
    }
    if active_index < workspaces.len() {
        Ok(Scope { workspace_id: Some(workspaces[active_index].uuid), surface_id: None })
    } else {
        Err(("not_found", "caller workspace not found"))
    }
}


/// An explicitly named workspace is a hard boundary: whatever a caller that names its
/// workspace explicitly is attributed to lies in that workspace.
pub proof fn law_explicit_workspace_bounds(ws: Seq<CallerWorkspace>, active: int, caller: Caller)
    requires
        caller.preferred_workspace_is_explicit,
        caller.preferred_workspace_id is Some,
    ensures
        spec_resolve(ws, active, caller) is Ok ==> spec_resolve(ws, active, caller)->Ok_0.0
            == caller.preferred_workspace_id,
{
}

/// A stable surface identity wins over terminal-name evidence: a caller that names no
/// workspace and whose surface is open is attributed to that surface.
pub proof fn law_stable_surface_first(ws: Seq<CallerWorkspace>, active: int, caller: Caller)
    requires
        caller.preferred_workspace_id is None,
        surface_scope(ws, caller) is Some,
    ensures
        spec_resolve(ws, active, caller) == Ok::<ScopeModel, (Seq<char>, Seq<char>)>(
            surface_scope(ws, caller)->Some_0,
        ),
{
}

/// A terminal name shared by several local surfaces designates none of them.
pub proof fn law_ambiguous_tty_designates_none(ws: Seq<CallerWorkspace>, tty: Seq<char>)
    requires
        spec_normalize(tty) is Some,
        tty_matches(ws, spec_normalize(tty)->Some_0).len() >= 2,
    ensures
        spec_tty_target(ws, tty) is None,
{
}

} // verus!
