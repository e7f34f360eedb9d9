//! Session snapshot rules that need no file access: supported versions and launch ownership.
use vstd::prelude::*;
use vstd::string::StringExecFns;

verus! {

/// A filesystem path (`std::path::PathBuf`), carried through unread.
#[verifier::external_type_specification]
#[verifier::external_body]
pub struct ExPathBuf(std::path::PathBuf);

/// The session schema versions the loader accepts.
pub fn supported_version(version: u32) -> (r: bool)
    ensures
        r == (1 <= version <= 3),
{
    version == 1 || version == 2 || version == 3
}

/// Owner identity for one launch; deliberately retained after panic, forced exit or failed final save.
pub struct RunMarker {
    pub path: std::path::PathBuf,
    pub token: String,
}

impl RunMarker {
    /// Whether a marker file holding `recorded` still belongs to this launch, so that finishing
    /// may retire it.
    pub fn owns(&self, recorded: &str) -> (r: bool)
        ensures
            r == (recorded@ == self.token@),
    {
        let text = String::from_str(recorded);
        text == self.token
    }
}

/// Whether a normal launch archives the session it loaded as the previous session: only a
/// session with workspaces from a launch that finished cleanly.
pub fn archive_on_launch(unclean: bool, workspaces: usize) -> (r: bool)
    ensures
        r == (!unclean && workspaces > 0),
{
    !unclean && workspaces > 0
}

/// How the snapshot writer's wait ended: finishing was requested, the publisher went away, or
/// the debounce window after a change elapsed.
#[derive(Debug, PartialEq, Eq, Structural)]
pub enum WaitEnd {
    Finish,
    PublisherClosed,
    Debounced,
}

/// What the snapshot writer does after a wait.
#[derive(Debug, PartialEq, Eq, Structural)]
pub struct SavePlan {
    /// Save the latest published snapshot.
    pub save: bool,
    /// Sync the saved file and its directory to disk.
    pub sync: bool,
    /// Stop after this round, reporting the save's outcome.
    pub stop: bool,
}

/// Coalesce snapshots: after each wait the latest snapshot, if any, is saved; only a final
/// round (finish requested or publisher gone) syncs it and stops.
pub fn plan_round(end: WaitEnd, has_snapshot: bool) -> (p: SavePlan)
    ensures
        p.save == has_snapshot,
        p.stop == (end != WaitEnd::Debounced),
        p.sync == (has_snapshot && end != WaitEnd::Debounced),
{
    let stop = match end {
        WaitEnd::Debounced => false,
        _ => true,
    };
    SavePlan { save: has_snapshot, sync: has_snapshot && stop, stop }
}

} // verus!
