//! The round-robin turn of periodic workspace observers: which workspace each tick looks at,
//! and where a workspace observed earlier stands now.
use crate::inbox_actions::{first_where, lemma_first_where_at};
use vstd::prelude::*;

verus! {

/// A periodic observer's turn: the count of ticks so far, wrapping.
pub struct RoundRobin {
    cursor: usize,
}

impl RoundRobin {
    /// The count of ticks so far, wrapping.
    pub closed spec fn cursor(&self) -> usize {
        self.cursor
    }

    /// No tick yet.
    pub fn new() -> (r: RoundRobin)
        ensures
            r.cursor() == 0,
    {
        RoundRobin { cursor: 0 }
    }

    /// The workspace this tick looks at among `count` open ones: the tick count modulo
    /// `count`, after which the count advances, wrapping. With no workspace open nothing is
    /// looked at and the count stays.
    pub fn pick(&mut self, count: usize) -> (r: Option<usize>)
        ensures
            count == 0 ==> r is None && final(self).cursor() == old(self).cursor(),
            count > 0 ==> r == Some((old(self).cursor() % count) as usize) && final(self).cursor()
                == if old(self).cursor() == usize::MAX {
                0
            } else {
                (old(self).cursor() + 1) as usize
            },
    {
        if count == 0 {
            return None;
        }
        let index = self.cursor % count;
        self.cursor = self.cursor.wrapping_add(1);
        Some(index)
    }
}

/// Whether a workspace is `id`.
pub open spec fn is_id(id: u128) -> spec_fn(u128) -> bool {
    |w: u128| w == id
}

/// Where workspace `id` stands now among the open workspaces (`ids`, in order): the first
/// with that identity; `None` once it closed.
pub fn workspace_position(ids: &[u128], id: u128) -> (r: Option<usize>)
    ensures
        r matches Some(i) ==> i == first_where(ids@, is_id(id)) && i < ids@.len(),
        r is None <==> first_where(ids@, is_id(id)) == ids@.len(),
{
    let mut i: usize = 0;
    while i < ids.len() && ids[i] != id
        invariant
            i <= ids@.len(),
            forall|j: int| 0 <= j < i ==> !is_id(id)(#[trigger] ids@[j]),
        decreases ids@.len() - i,
    {
        i = i + 1;
    }
    proof {
        if i < ids@.len() {
            assert(is_id(id)(ids@[i as int]));
        }
        lemma_first_where_at(ids@, is_id(id), i as int);
    }
    if i < ids.len() {
        Some(i)
    } else {
        None
    }
}

} // verus!
