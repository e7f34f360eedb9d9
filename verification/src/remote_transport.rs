//! Interactive remote terminal transports: Mosh with a visible fallback to direct SSH.
use crate::shell::{push_quoted, shell_quote, spec_shell_quote, valid_ssh_target, validate_ssh_target};
use crate::text::{chars_of, opt_view};
use vstd::prelude::*;
use vstd::string::StringExecFns;
use vstd::string::StringSliceAdditionalSpecFns;

verus! {

/// Interactive PTY transport; SSH remains the management/browser transport in both modes.
#[derive(Clone, Copy, Debug, PartialEq, Eq, Structural)]
pub enum TerminalTransport {
    Ssh,
    Mosh,
}

impl Default for TerminalTransport {
    fn default() -> (r: Self)
        ensures
            r == TerminalTransport::Ssh,
    {
        TerminalTransport::Ssh
    }
}

/// What runs on the remote host once connected.
#[derive(Clone, Copy, Debug, PartialEq, Eq, Structural)]
pub enum TerminalProfile {
    Shell,
    Tmux,
}

impl Default for TerminalProfile {
    fn default() -> (r: Self)
        ensures
            r == TerminalProfile::Shell,
    {
        TerminalProfile::Shell
    }
}

/// Bytes accepted in a tmux session name: letters, digits, `.`, `_` and `-`.
pub open spec fn tmux_byte(b: u8) -> bool {
    // a-z, A-Z, 0-9, '.', '_', '-'
    (97u8 <= b <= 122u8) || (65u8 <= b <= 90u8) || (48u8 <= b <= 57u8) || b == 46u8 || b == 95u8
        || b == 45u8
}

/// A tmux session name of 1 to 64 accepted bytes.
pub open spec fn valid_tmux_session(bytes: Seq<u8>) -> bool {
    &&& 1 <= bytes.len() <= 64
    &&& forall|i: int| 0 <= i < bytes.len() ==> tmux_byte(#[trigger] bytes[i])
}

/// Accept only session names that tmux and the shell read literally.
pub fn validate_tmux_session(value: &str) -> (r: Result<(), &'static str>)
    ensures
        r is Ok <==> valid_tmux_session(value.spec_bytes()),
        r matches Err(e) ==> e@ == "tmux session must contain 1..64 letters, digits, dots, underscores or dashes"@,
{
    let bytes = value.as_bytes();
    if bytes.len() == 0 || bytes.len() > 64 {
        return Err("tmux session must contain 1..64 letters, digits, dots, underscores or dashes");
    }
    let mut i: usize = 0;
    while i < bytes.len()
        invariant
            i <= bytes@.len(),
            bytes@ == value.spec_bytes(),
            forall|j: int| 0 <= j < i ==> tmux_byte(#[trigger] bytes@[j]),
        decreases bytes@.len() - i,
    {
        let b = bytes[i];
        if !((97u8 <= b && b <= 122u8) || (65u8 <= b && b <= 90u8) || (48u8 <= b && b <= 57u8)
            || b == 46u8 || b == 95u8 || b == 45u8) {
            assert(!tmux_byte(bytes@[i as int]));
            return Err("tmux session must contain 1..64 letters, digits, dots, underscores or dashes");
        }
        i = i + 1;
    }
    Ok(())
}

/// The tmux session a profile attaches to: the requested one or `main`.
pub open spec fn session_or_main(tmux_session: Option<&str>) -> Seq<char> {
    match tmux_session {
        Some(s) => s@,
        None => "main"@,
    }
}

/// The command that runs on the remote host, if the profile or directory asks for one.
pub open spec fn spec_remote_command(
    directory: Option<Seq<char>>,
    profile: TerminalProfile,
    tmux_session: Seq<char>,
) -> Option<Seq<char>> {
    match (directory, profile) {
        (None, TerminalProfile::Shell) => None,
        (None, TerminalProfile::Tmux) => Some(
            "exec tmux new-session -A -s "@ + spec_shell_quote(tmux_session),
        ),
        (Some(d), TerminalProfile::Shell) => Some(
            "cd "@ + spec_shell_quote(d) + " || exit 1"@ + "; "@ + "exec \"${SHELL:-/bin/sh}\" -l"@,
        ),
        (Some(d), TerminalProfile::Tmux) => Some(
            "cd "@ + spec_shell_quote(d) + " || exit 1"@ + "; "@ + "exec tmux new-session -A -s "@
                + spec_shell_quote(tmux_session),
        ),
    }
}

/// Build the remote command: enter the directory, then start a login shell or attach tmux.
pub fn remote_command(
    directory: Option<&str>,
    profile: &TerminalProfile,
    tmux_session: Option<&str>,
) -> (r: Option<String>)
    ensures
        r matches Some(s) ==> spec_remote_command(
            opt_view(directory),
            *profile,
            session_or_main(tmux_session),
        ) == Some(s@),
        r is None <==> spec_remote_command(
            opt_view(directory),
            *profile,
            session_or_main(tmux_session),
        ) is None,
{
    let session = match tmux_session {
        Some(s) => s,
        None => "main",
    };
    match directory {
        Some(d) => {
            let mut out = String::from_str("cd ");
            push_quoted(&mut out, d);
            out.append(" || exit 1");
            out.append("; ");
            match profile {
                TerminalProfile::Shell => {
                    out.append("exec \"${SHELL:-/bin/sh}\" -l");
                },
                TerminalProfile::Tmux => {
                    out.append("exec tmux new-session -A -s ");
                    push_quoted(&mut out, session);
                },
            }
            Some(out)
        },
        None => match profile {
            TerminalProfile::Shell => None,
            TerminalProfile::Tmux => {
                let mut out = String::from_str("exec tmux new-session -A -s ");
                push_quoted(&mut out, session);
                Some(out)
            },
        },
    }
}

/// The quoted SSH client invocation with keepalive, timeout and batch-mode options.
#[verifier::opaque]
pub open spec fn spec_ssh_command() -> Seq<char> {
    spec_shell_quote("ssh"@) + " "@ + spec_shell_quote("-o"@) + " "@ + spec_shell_quote(
        "ServerAliveInterval=15"@,
    ) + " "@ + spec_shell_quote("-o"@) + " "@ + spec_shell_quote("ServerAliveCountMax=3"@) + " "@
        + spec_shell_quote("-o"@) + " "@ + spec_shell_quote("ConnectTimeout=10"@) + " "@
        + spec_shell_quote("-o"@) + " "@ + spec_shell_quote("BatchMode=yes"@)
}

/// The quoted SSH client invocation.
fn ssh_command() -> (r: String)
    ensures
        r@ == spec_ssh_command(),
{
    let mut out = shell_quote("ssh");
    out.append(" ");
    push_quoted(&mut out, "-o");
    out.append(" ");
    push_quoted(&mut out, "ServerAliveInterval=15");
    out.append(" ");
    push_quoted(&mut out, "-o");
    out.append(" ");
    push_quoted(&mut out, "ServerAliveCountMax=3");
    out.append(" ");
    push_quoted(&mut out, "-o");
    out.append(" ");
    push_quoted(&mut out, "ConnectTimeout=10");
    out.append(" ");
    push_quoted(&mut out, "-o");
    out.append(" ");
    push_quoted(&mut out, "BatchMode=yes");
    proof {
        reveal(spec_ssh_command);
    }
    out
}

/// Direct SSH to the target, carrying the remote command when there is one.
pub open spec fn spec_fallback(target: Seq<char>, remote: Option<Seq<char>>) -> Seq<char> {
    match remote {
        Some(r) => "exec "@ + spec_ssh_command() + " -t "@ + spec_shell_quote(target) + " "@
            + spec_shell_quote(r),
        None => "exec "@ + spec_ssh_command() + " -t "@ + spec_shell_quote(target),
    }
}

/// The probe that asks the remote host whether `mosh-server` is installed.
pub open spec fn spec_probe(target: Seq<char>) -> Seq<char> {
    spec_ssh_command() + " -T "@ + spec_shell_quote(target) + " "@ + spec_shell_quote(
        "/bin/sh -c 'command -v mosh-server >/dev/null 2>&1 || exit 127'"@,
    )
}

/// The Mosh client invocation that reuses the SSH options for its bootstrap connection.
pub open spec fn spec_mosh(target: Seq<char>, remote: Option<Seq<char>>) -> Seq<char> {
    match remote {
        Some(r) => "exec \"$cmux_mosh\" --experimental-remote-ip=proxy "@ + spec_shell_quote(
            "--ssh="@ + spec_ssh_command(),
        ) + " -- "@ + spec_shell_quote(target) + " "@ + spec_shell_quote("/bin/sh"@) + " "@
            + spec_shell_quote("-lc"@) + " "@ + spec_shell_quote(r),
        None => "exec \"$cmux_mosh\" --experimental-remote-ip=proxy "@ + spec_shell_quote(
            "--ssh="@ + spec_ssh_command(),
        ) + " -- "@ + spec_shell_quote(target),
    }
}

/// The local script: find Mosh 1.4+, probe the server, and otherwise fall back to SSH with a notice.
pub open spec fn spec_mosh_script(target: Seq<char>, remote: Option<Seq<char>>) -> Seq<char> {
    let fallback = spec_fallback(target, remote);
    "cmux_mosh=$(command -v mosh 2>/dev/null || true)\n"@
        + "if [ -z \"$cmux_mosh\" ]; then printf '%s\\n' '[cmux] Mosh is not installed locally; continuing over SSH.' >&2; "@
        + fallback + "; fi\n"@
        + "case $(\"$cmux_mosh\" --help 2>&1 || true) in *--experimental-remote-ip=*) ;; *) printf '%s\\n' '[cmux] The local Mosh client lacks required SSH integration; continuing over SSH.' >&2; "@
        + fallback + " ;; esac\n"@ + spec_probe(target) + "\n"@ + "cmux_mosh_probe_status=$?\n"@
        + "if [ \"$cmux_mosh_probe_status\" -eq 127 ]; then printf '%s\\n' '[cmux] mosh-server is not installed on the remote host; continuing over SSH.' >&2; "@
        + fallback + "; fi\n"@
        + "if [ \"$cmux_mosh_probe_status\" -ne 0 ]; then printf '%s\\n' '[cmux] Could not verify remote Mosh support; continuing over SSH.' >&2; "@
        + fallback + "; fi\n"@ + spec_mosh(target, remote)
}

/// The directory is absolute and free of NUL.
pub open spec fn valid_remote_directory(d: Seq<char>) -> bool {
    d.len() > 0 && d[0] == '/' && !d.contains('\0')
}

/// The error, if any, that `mosh_command` reports for these inputs, checked in this order.
pub open spec fn mosh_command_error(
    target: &str,
    directory: Option<&str>,
    profile: TerminalProfile,
    tmux_session: Option<&str>,
) -> Option<Seq<char>> {
    if !valid_ssh_target(target.spec_bytes()) {
        Some("invalid SSH target"@)
    } else if directory matches Some(d) && !valid_remote_directory(d@) {
        Some("remote directory must be an absolute path"@)
    } else if profile == TerminalProfile::Tmux && !valid_tmux_session(
        match tmux_session {
            Some(s) => s.spec_bytes(),
            None => "main".spec_bytes(),
        },
    ) {
        Some("tmux session must contain 1..64 letters, digits, dots, underscores or dashes"@)
    } else {
        None
    }
}

/// Check that a directory is absolute and NUL-free.
fn check_directory(d: &str) -> (r: bool)
    ensures
        r == valid_remote_directory(d@),
{
    let chars = chars_of(d);
    if chars.len() == 0 || chars[0] != '/' {
        return false;
    }
    let mut i: usize = 0;
    while i < chars.len()
        invariant
            i <= chars@.len(),
            chars@ == d@,
            forall|j: int| 0 <= j < i ==> chars@[j] != '\0',
        decreases chars@.len() - i,
    {
        if chars[i] == '\0' {
            assert(chars@.contains('\0'));
            return false;
        }
        i = i + 1;
    }
    true
}

/// Build a local PTY command which probes Mosh 1.4+ and falls back visibly to direct SSH.
pub fn mosh_command(
    target: &str,
    directory: Option<&str>,
    profile: &TerminalProfile,
    tmux_session: Option<&str>,
) -> (r: Result<String, &'static str>)
    ensures
        r matches Err(e) ==> mosh_command_error(target, directory, *profile, tmux_session) == Some(
            e@,
        ),
        r matches Ok(s) ==> mosh_command_error(target, directory, *profile, tmux_session) is None
            && s@ == "/bin/sh -c "@ + spec_shell_quote(
            spec_mosh_script(
                target@,
                spec_remote_command(
                    opt_view(directory),
                    *profile,
                    session_or_main(tmux_session),
                ),
            ),
        ),
        r is Ok <==> mosh_command_error(target, directory, *profile, tmux_session) is None,
{
    if validate_ssh_target(target).is_err() {
        return Err("invalid SSH target");
    }
    match directory {
        Some(d) => {
            if !check_directory(d) {
                return Err("remote directory must be an absolute path");
            }
        },
        None => {},
    }
    match profile {
        TerminalProfile::Tmux => {
            let session = match tmux_session {
                Some(s) => s,
                None => "main",
            };
            if validate_tmux_session(session).is_err() {
                return Err(
                    "tmux session must contain 1..64 letters, digits, dots, underscores or dashes",
                );
            }
        },
        TerminalProfile::Shell => {},
    }
    let remote = remote_command(directory, profile, tmux_session);
    let ghost remote_spec = spec_remote_command(
        opt_view(directory),
        *profile,
        session_or_main(tmux_session),
    );
    let ssh = ssh_command();
    let mut fallback = String::from_str("exec ");
    fallback.append(ssh.as_str());
    fallback.append(" -t ");
    push_quoted(&mut fallback, target);
    match &remote {
        Some(r) => {
            fallback.append(" ");
            push_quoted(&mut fallback, r.as_str());
        },
        None => {},
    }
    assert(fallback@ == spec_fallback(target@, remote_spec));
    let mut probe = String::from_str(ssh.as_str());
    probe.append(" -T ");
    push_quoted(&mut probe, target);
    probe.append(" ");
    push_quoted(&mut probe, "/bin/sh -c 'command -v mosh-server >/dev/null 2>&1 || exit 127'");
    let mut ssh_option = String::from_str("--ssh=");
    ssh_option.append(ssh.as_str());
    let mut mosh = String::from_str("exec \"$cmux_mosh\" --experimental-remote-ip=proxy ");
    push_quoted(&mut mosh, ssh_option.as_str());
    mosh.append(" -- ");
    push_quoted(&mut mosh, target);
    match &remote {
        Some(r) => {
            mosh.append(" ");
            push_quoted(&mut mosh, "/bin/sh");
            mosh.append(" ");
            push_quoted(&mut mosh, "-lc");
            mosh.append(" ");
            push_quoted(&mut mosh, r.as_str());
        },
        None => {},
    }
    assert(mosh@ == spec_mosh(target@, remote_spec));
    let script = mosh_script(fallback.as_str(), probe.as_str(), mosh.as_str());
    let mut command = String::from_str("/bin/sh -c ");
    push_quoted(&mut command, script.as_str());
    Ok(command)
}

/// Assemble the fallback script from its fallback, probe and Mosh commands.
fn mosh_script(fb: &str, probe: &str, mosh: &str) -> (r: String)
    ensures
        r@ == "cmux_mosh=$(command -v mosh 2>/dev/null || true)\n"@
            + "if [ -z \"$cmux_mosh\" ]; then printf '%s\\n' '[cmux] Mosh is not installed locally; continuing over SSH.' >&2; "@
            + fb@ + "; fi\n"@
            + "case $(\"$cmux_mosh\" --help 2>&1 || true) in *--experimental-remote-ip=*) ;; *) printf '%s\\n' '[cmux] The local Mosh client lacks required SSH integration; continuing over SSH.' >&2; "@
            + fb@ + " ;; esac\n"@ + probe@ + "\n"@ + "cmux_mosh_probe_status=$?\n"@
            + "if [ \"$cmux_mosh_probe_status\" -eq 127 ]; then printf '%s\\n' '[cmux] mosh-server is not installed on the remote host; continuing over SSH.' >&2; "@
            + fb@ + "; fi\n"@
            + "if [ \"$cmux_mosh_probe_status\" -ne 0 ]; then printf '%s\\n' '[cmux] Could not verify remote Mosh support; continuing over SSH.' >&2; "@
            + fb@ + "; fi\n"@ + mosh@,
{
    let mut script = String::from_str("cmux_mosh=$(command -v mosh 2>/dev/null || true)\n");
    script.append("if [ -z \"$cmux_mosh\" ]; then printf '%s\\n' '[cmux] Mosh is not installed locally; continuing over SSH.' >&2; ");
    script.append(fb);
    script.append("; fi\n");
    script.append("case $(\"$cmux_mosh\" --help 2>&1 || true) in *--experimental-remote-ip=*) ;; *) printf '%s\\n' '[cmux] The local Mosh client lacks required SSH integration; continuing over SSH.' >&2; ");
    script.append(fb);
    script.append(" ;; esac\n");
    script.append(probe);
    script.append("\n");
    script.append("cmux_mosh_probe_status=$?\n");
    script.append("if [ \"$cmux_mosh_probe_status\" -eq 127 ]; then printf '%s\\n' '[cmux] mosh-server is not installed on the remote host; continuing over SSH.' >&2; ");
    script.append(fb);
    script.append("; fi\n");
    script.append("if [ \"$cmux_mosh_probe_status\" -ne 0 ]; then printf '%s\\n' '[cmux] Could not verify remote Mosh support; continuing over SSH.' >&2; ");
    script.append(fb);
    script.append("; fi\n");
    script.append(mosh);
    script
}

} // verus!
