//! How a Ghostty surface performs terminal I/O.
use vstd::prelude::*;

verus! {

/// I/O mode for a Ghostty surface.
/// - `Exec`: normal mode — Ghostty spawns a local shell process.
/// - `Command`: Ghostty runs the given command in place of the shell.
/// - `Remote`: a remote terminal whose input context is yet to be created from its bridge.
/// - `Manual`: SSH remote mode — keystrokes route through the input context to the SSH bridge.
pub enum SurfaceIoMode<Bridge, Sender, Context> {
    Exec,
    Command(String),
    Remote { bridge: Bridge, ssh_tx: Sender },
    Manual { bridge: Bridge, io_write_ctx: Context },
}

impl<Bridge, Sender, Context> SurfaceIoMode<Bridge, Sender, Context> {
    /// The command a surface in `Command` mode launches in place of the shell.
    pub fn launch_command(&self) -> (r: Option<&String>)
        ensures
            match self {
                SurfaceIoMode::Command(c) => r == Some(c),
                _ => r is None,
            },
    {
        match self {
            SurfaceIoMode::Command(c) => Some(c),
            _ => None,
        }
    }

    /// Whether keystrokes route through an input context instead of a local process.
    pub fn routes_input_manually(&self) -> (r: bool)
        ensures
            r == (self is Manual),
    {
        match self {
            SurfaceIoMode::Manual { .. } => true,
            _ => false,
        }
    }
}

} // verus!
