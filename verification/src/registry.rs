//! Metadata owned for exactly the lifetime of each registered Ghostty surface.
use std::collections::HashMap;
use vstd::prelude::*;
use vstd::std_specs::hash::spec_hash_map_iter;
use vstd::std_specs::iter::IteratorSpec;

verus! {

/// Routing identity and the latest directory known for one terminal.
pub struct SurfaceInfo {
    pub pane_id: u64,
    pub working_directory: String,
}

/// Registered native terminals, keyed by their surface handle.
pub struct Registry {
    entries: HashMap<usize, SurfaceInfo>,
}

/// What the registry knows of a surface: its pane and its directory.
pub open spec fn info_view(i: SurfaceInfo) -> (u64, Seq<char>) {
    (i.pane_id, i.working_directory@)
}

/// Registering a surface records its pane and launch directory, replacing what was known.
pub open spec fn spec_register(m: Map<usize, (u64, Seq<char>)>, surface: usize, pane_id: u64, directory: Seq<char>) -> Map<usize, (u64, Seq<char>)> {
    m.insert(surface, (pane_id, directory))
}

/// A directory report changes only a registered surface.
pub open spec fn spec_set_directory(m: Map<usize, (u64, Seq<char>)>, surface: usize, directory: Seq<char>) -> Map<usize, (u64, Seq<char>)> {
    if m.contains_key(surface) {
        m.insert(surface, (m[surface].0, directory))
    } else {
        m
    }
}

/// The directory known for a surface, empty when none is.
pub open spec fn spec_directory(m: Map<usize, (u64, Seq<char>)>, surface: usize) -> Seq<char> {
    if m.contains_key(surface) {
        m[surface].1
    } else {
        Seq::empty()
    }
}

impl View for Registry {
    type V = Map<usize, (u64, Seq<char>)>;

    closed spec fn view(&self) -> Map<usize, (u64, Seq<char>)> {
        self.entries@.map_values(|i: SurfaceInfo| info_view(i))
    }
}

impl Registry {
    /// An empty registry.
    pub fn new() -> (r: Registry)
        ensures
            r@ == Map::<usize, (u64, Seq<char>)>::empty(),
    {
        let r = Registry { entries: HashMap::new() };
        assert(r@ =~= Map::<usize, (u64, Seq<char>)>::empty());
        r
    }

    /// Count registered native terminals without accessing GTK or dereferencing handles.
    pub fn live_count(&self) -> (n: usize)
        ensures
            n == self@.len(),
    {
        broadcast use vstd::std_specs::hash::group_hash_axioms;

        assert(self@.dom() =~= self.entries@.dom());
        self.entries.len()
    }

    /// Register a newly created surface with its explicit launch directory, if known.
    pub fn register(&mut self, surface: usize, pane_id: u64, directory: Option<&str>)
        ensures
            final(self)@ == spec_register(
                old(self)@,
                surface,
                pane_id,
                match directory {
                    Some(d) => d@,
                    None => Seq::empty(),
                },
            ),
    {
        broadcast use vstd::std_specs::hash::group_hash_axioms;

        let working_directory = match directory {
            Some(d) => String::from_str(d),
            None => String::new(),
        };
        let info = SurfaceInfo { pane_id, working_directory };
        let ghost before = self.entries@;
        let ghost v = info_view(info);
        self.entries.insert(surface, info);
        assert(self@ =~= old(self)@.insert(surface, v));
    }

    /// Retire routing and directory metadata after the native surface is freed.
    pub fn unregister(&mut self, surface: usize)
        ensures
            final(self)@ == old(self)@.remove(surface),
    {
        broadcast use vstd::std_specs::hash::group_hash_axioms;

        let _ = self.entries.remove(&surface);
        assert(self@ =~= old(self)@.remove(surface));
    }

    /// Resolve an action's terminal pointer to its owning pane without dereferencing it.
    pub fn pane_id(&self, surface: usize) -> (r: Option<u64>)
        ensures
            r is Some <==> self@.contains_key(surface),
            r matches Some(p) ==> p == self@[surface].0,
    {
        broadcast use vstd::std_specs::hash::group_hash_axioms;

        match self.entries.get(&surface) {
            Some(info) => Some(info.pane_id),
            None => None,
        }
    }

    /// Find any terminal in a pane when the caller has no selected-widget mapping; which one,
    /// when several are, follows the map's iteration order.
    pub fn first_surface(&self, pane_id: u64) -> (r: Option<usize>)
        ensures
            r matches Some(s) ==> self@.contains_key(s) && self@[s].0 == pane_id,
            r is None ==> forall|s: usize| #[trigger] self@.contains_key(s) ==> self@[s].0 != pane_id,
    {
        broadcast use vstd::std_specs::hash::group_hash_axioms;

        let ghost m = self.entries@;
        for e in it: self.entries.iter()
            invariant
                m == self.entries@,
                it.seq() == spec_hash_map_iter(&self.entries).remaining(),
                forall|j: int| 0 <= j < it.index() ==> (*it.seq()[j].1).pane_id != pane_id,
        {
            if e.1.pane_id == pane_id {
                proof {
                    let j = it.index() as int;
                    assert(e == it.seq()[j]);
                    assert(m.contains_key(*it.seq()[j].0));
                    assert(m[*it.seq()[j].0] == *it.seq()[j].1);
                }
                return Some(*e.0);
            }
        }
        assert forall|s: usize| #[trigger] self@.contains_key(s) implies self@[s].0 != pane_id by {
            let v = spec_hash_map_iter(&self.entries).remaining();
            assert(m.contains_key(s));
            assert(v.contains((&s, &m[s])));
            let j = choose|j: int| 0 <= j < v.len() && v[j] == (&s, &m[s]);
            assert(*v[j].1 == m[s]);
        }
        None
    }

    /// Copy the latest reported directory, or return empty when no directory is known.
    pub fn working_directory(&self, surface: usize) -> (d: String)
        ensures
            d@ == spec_directory(self@, surface),
    {
        broadcast use vstd::std_specs::hash::group_hash_axioms;

        match self.entries.get(&surface) {
            Some(info) => info.working_directory.clone(),
            None => String::new(),
        }
    }

    /// Apply a native directory report only to an existing surface; never recreate retired state.
    pub fn set_working_directory(&mut self, surface: usize, directory: &str)
        ensures
            final(self)@ == spec_set_directory(old(self)@, surface, directory@),
    {
        match self.pane_id(surface) {
            Some(pane_id) => {
                self.register(surface, pane_id, Some(directory));
            },
            None => {},
        }
    }
}

/// The widgets to redraw for a native render request: the widget mapped to `target`, or every
/// mapped widget when the request is for the whole application. `mappings` pairs each
/// registered widget with its surface.
pub open spec fn spec_render_targets(mappings: Seq<(usize, usize)>, target: Option<usize>) -> Seq<usize> {
    match target {
        Some(t) => {
            let i = first_with_surface(mappings, t);
            if i < mappings.len() {
                seq![mappings[i].0]
            } else {
                Seq::empty()
            }
        },
        None => mappings.map_values(|m: (usize, usize)| m.0),
    }
}

/// Index of the first mapping of surface `t`, or the count.
pub open spec fn first_with_surface(mappings: Seq<(usize, usize)>, t: usize) -> int
    decreases mappings.len(),
{
    if mappings.len() == 0 {
        0
    } else if mappings[0].1 == t {
        0
    } else {
        1 + first_with_surface(mappings.drop_first(), t)
    }
}

/// Route native redraws without retaining registry locks during GTK calls.
pub fn render_targets(mappings: &Vec<(usize, usize)>, target: Option<usize>) -> (r: Vec<usize>)
    ensures
        r@ == spec_render_targets(mappings@, target),
{
    match target {
        Some(t) => {
            let mut i: usize = 0;
            assert(mappings@.skip(0) =~= mappings@);
            while i < mappings.len() && mappings[i].1 != t
                invariant
                    i <= mappings@.len(),
                    first_with_surface(mappings@, t) == i + first_with_surface(mappings@.skip(i as int), t),
                decreases mappings@.len() - i,
            {
                assert(mappings@.skip(i as int).drop_first() =~= mappings@.skip(i + 1));
                i = i + 1;
            }
            let mut r: Vec<usize> = Vec::new();
            if i < mappings.len() {
                r.push(mappings[i].0);
                assert(r@ =~= seq![mappings@[i as int].0]);
            } else {
                assert(r@ =~= Seq::<usize>::empty());
            }
            r
        },
        None => {
            let mut r: Vec<usize> = Vec::new();
            let mut i: usize = 0;
            while i < mappings.len()
                invariant
                    i <= mappings@.len(),
                    r@ == mappings@.take(i as int).map_values(|m: (usize, usize)| m.0),
                decreases mappings@.len() - i,
            {
                r.push(mappings[i].0);
                assert(mappings@.take(i + 1) =~= mappings@.take(i as int).push(mappings@[i as int]));
                assert(r@ =~= mappings@.take(i + 1).map_values(|m: (usize, usize)| m.0));
                i = i + 1;
            }
            assert(mappings@.take(i as int) =~= mappings@);
            r
        },
    }
}

/// A retired surface stays retired: after it is unregistered, a late directory report neither
/// recreates it nor gives it a directory.
pub proof fn law_retired_surface_stays_retired(m: Map<usize, (u64, Seq<char>)>, surface: usize, directory: Seq<char>)
    ensures
        !spec_set_directory(m.remove(surface), surface, directory).contains_key(surface),
        spec_directory(spec_set_directory(m.remove(surface), surface, directory), surface).len() == 0,
{
}

/// Directory reports stay with their surface: a report for one surface leaves every other
/// surface's pane and directory unchanged, and is what a read of that surface then returns.
pub proof fn law_directory_isolation(m: Map<usize, (u64, Seq<char>)>, surface: usize, other: usize, directory: Seq<char>)
    requires
        m.contains_key(surface),
        other != surface,
    ensures
        spec_directory(spec_set_directory(m, surface, directory), surface) == directory,
        spec_set_directory(m, surface, directory).contains_key(other) == m.contains_key(other),
        spec_directory(spec_set_directory(m, surface, directory), other) == spec_directory(m, other),
{
}

} // verus!
