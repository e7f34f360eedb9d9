//! Application-owned approvals, separate from agent-writable terminal bindings.
use crate::environment::Environment;
use crate::resume::{
    binding_strings, flatten_env, has_secret_key, has_secret_keys, spec_validate, total_bytes,
    valid_value, ResumeBinding,
};
use crate::resume_command::{literal_arguments, spec_literal_arguments, strings_view};
use crate::shell::{push_quoted, spec_shell_quote};
use crate::signing::{
    exact_payload, exact_resume_json, hmac_sha256, hmac_sign, hmac_verify, prefix_payload,
    prefix_resume_json,
};
use crate::text::{byte_len, str_len};
use vstd::prelude::*;
use vstd::string::StringExecFns;
use vstd::utf8::encode_utf8;

verus! {

/// Largest number of retained approvals.
pub const MAX_APPROVALS: usize = 128;

/// Domain tag of the signed payload of an exact-command approval.
pub const EXACT_TAG: &'static str = "cmux-exact-resume-v1";

/// Domain tag of the signed payload of a prefix approval.
pub const PREFIX_TAG: &'static str = "cmux-prefix-resume-v1";

/// A launch reviewed in the UI, optionally scoped to initial literal arguments.
#[derive(Clone, Debug)]
pub struct Approval {
    pub command: String,
    pub command_prefix: Option<Vec<String>>,
    pub cwd: String,
    pub environment: Environment,
    pub signature: Vec<u8>,
}

/// The characters of each argument of an optional prefix.
pub open spec fn prefix_view(p: Option<Vec<String>>) -> Option<Seq<Seq<char>>> {
    match p {
        Some(v) => Some(strings_view(v@)),
        None => None,
    }
}

/// Total UTF-8 size of the keys and values of an environment.
pub open spec fn env_bytes(entries: Seq<(Seq<char>, Seq<char>)>) -> int
    decreases entries.len(),
{
    if entries.len() == 0 {
        0
    } else {
        env_bytes(entries.drop_last()) + byte_len(entries.last().0) + byte_len(entries.last().1)
    }
}

/// Sizes an approval must respect before its signature is checked.
pub open spec fn within_bounds(a: &Approval) -> bool {
    &&& byte_len(a.command@) <= 16384
    &&& byte_len(a.cwd@) <= 16384
    &&& a.environment@.len() <= 64
    &&& a.signature@.len() == 32
    &&& byte_len(a.command@) + byte_len(a.cwd@) + env_bytes(a.environment@) <= 65536
    &&& match prefix_view(a.command_prefix) {
        Some(p) => p.len() > 0 && total_bytes(p) <= 16384 && p.len() <= 8192,
        None => true,
    }
}

/// The bytes an approval's signature covers: mode, reviewed command or prefix, directory, environment.
pub open spec fn signed_payload(a: &Approval) -> Seq<u8> {
    match prefix_view(a.command_prefix) {
        Some(p) => prefix_resume_json(PREFIX_TAG@, a.command@, p, a.cwd@, a.environment@),
        None => exact_resume_json(EXACT_TAG@, a.command@, a.cwd@, a.environment@),
    }
}

/// The approval is within bounds and carries the HMAC of its payload under the signing key.
pub open spec fn signature_valid(a: &Approval, key: Option<&[u8; 32]>) -> bool {
    &&& within_bounds(a)
    &&& key is Some
    &&& a.signature@ == hmac_sha256(key.unwrap()@, signed_payload(a))
}

/// `prefix` is an initial segment of `args`.
pub open spec fn is_prefix(prefix: Seq<Seq<char>>, args: Seq<Seq<char>>) -> bool {
    prefix.len() <= args.len() && args.take(prefix.len() as int) == prefix
}

/// The approval's command rule covers the binding's command.
pub open spec fn command_matches(a: &Approval, b: &ResumeBinding) -> bool {
    match prefix_view(a.command_prefix) {
        Some(p) => match spec_literal_arguments(b.command@) {
            Some(args) => is_prefix(p, args),
            None => false,
        },
        None => a.command@ == b.command@,
    }
}

/// The approval covers the binding's command, exact directory and exact environment.
pub open spec fn approval_matches(a: &Approval, b: &ResumeBinding) -> bool {
    &&& command_matches(a, b)
    &&& cwd_is(b.cwd, a.cwd@)
    &&& a.environment@ == b.environment@
}

/// A valid binding is allowed when some validly signed approval covers it.
pub open spec fn spec_allows(approvals: Seq<Approval>, b: &ResumeBinding, key: Option<&[u8; 32]>) -> bool {
    &&& spec_validate(b) is Ok
    &&& exists|i: int| 0 <= i < approvals.len()
        && approval_matches(&#[trigger] approvals[i], b) && signature_valid(&approvals[i], key)
}

/// The binding's directory is present and equal to `cwd`.
pub open spec fn cwd_is(binding_cwd: Option<String>, cwd: Seq<char>) -> bool {
    match binding_cwd {
        Some(c) => c@ == cwd,
        None => false,
    }
}

/// An absolute directory path.
pub open spec fn absolute(p: Seq<char>) -> bool {
    p.len() > 0 && p[0] == '/'
}

/// The binding's directory when it is absolute.
pub open spec fn absolute_cwd(b: &ResumeBinding) -> bool {
    b.cwd matches Some(c) && absolute(c@)
}

/// An existing approval already records this exact launch with a valid signature.
pub open spec fn already_approved(
    approvals: Seq<Approval>,
    b: &ResumeBinding,
    prefix: Option<Seq<Seq<char>>>,
    key: Option<&[u8; 32]>,
) -> bool {
    exists|i: int|
        0 <= i < approvals.len() && (#[trigger] approvals[i]).command@ == b.command@ && prefix_view(
            approvals[i].command_prefix,
        ) == prefix && cwd_is(b.cwd, approvals[i].cwd@)
            && approvals[i].environment@ == b.environment@ && signature_valid(&approvals[i], key)
}

/// The error, if any, that approving this launch reports, checked in this order.
pub open spec fn approve_error(
    approvals: Seq<Approval>,
    b: &ResumeBinding,
    prefix: Option<Seq<Seq<char>>>,
    key: Option<&[u8; 32]>,
) -> Option<Seq<char>> {
    if spec_validate(b) is Err {
        Some(spec_validate(b)->Err_0)
    } else if !absolute_cwd(b) {
        Some("Set an absolute resume directory before approving this command."@)
    } else if has_secret_key(b.environment@) {
        Some("Remove secret or routing overrides before approval."@)
    } else if key is None {
        Some("The resume signing key is unavailable."@)
    } else if already_approved(approvals, b, prefix, key) {
        None
    } else if approvals.len() >= MAX_APPROVALS {
        Some("Revoke an existing approval before adding another (limit 128)."@)
    } else {
        None
    }
}

/// How approving changes the approvals: on success either nothing changes (already approved) or
/// one signed approval of the binding's command, prefix, directory and environment is appended.
pub open spec fn approve_post(
    before: Seq<Approval>,
    after: Seq<Approval>,
    b: &ResumeBinding,
    prefix: Option<Seq<Seq<char>>>,
    key: Option<&[u8; 32]>,
    ok: bool,
) -> bool {
    if !ok || already_approved(before, b, prefix, key) {
        after == before
    } else {
        &&& after.len() == before.len() + 1
        &&& after.take(before.len() as int) == before
        &&& after.last().command@ == b.command@
        &&& prefix_view(after.last().command_prefix) == prefix
        &&& cwd_is(b.cwd, after.last().cwd@)
        &&& after.last().environment@ == b.environment@
        &&& after.last().signature@ == hmac_sha256(key.unwrap()@, signed_payload(&after.last()))
        &&& after.last().signature@.len() == 32
    }
}

/// Every approval the policy retains after validation has a valid signature.
pub open spec fn all_signed(approvals: Seq<Approval>, key: Option<&[u8; 32]>) -> bool {
    forall|i: int| 0 <= i < approvals.len() ==> signature_valid(&#[trigger] approvals[i], key)
}

/// The approvals that validation considers: the first 128.
pub open spec fn first_approvals(approvals: Seq<Approval>) -> Seq<Approval> {
    if approvals.len() > MAX_APPROVALS {
        approvals.take(MAX_APPROVALS as int)
    } else {
        approvals
    }
}

/// ` KEY=value` for each environment entry, in key order, with the value quoted.
pub open spec fn env_assignments(entries: Seq<(Seq<char>, Seq<char>)>) -> Seq<char>
    decreases entries.len(),
{
    if entries.len() == 0 {
        Seq::empty()
    } else {
        env_assignments(entries.drop_last()) + " "@ + entries.last().0 + "="@ + spec_shell_quote(
            entries.last().1,
        )
    }
}

/// The subshell that runs an approved binding on a remote host.
pub open spec fn spec_remote_shell(b: &ResumeBinding) -> Seq<char> {
    let cd = match b.cwd {
        Some(d) => if d@.len() > 0 {
            "cd "@ + spec_shell_quote(d@) + " && "@
        } else {
            Seq::empty()
        },
        None => Seq::empty(),
    };
    "("@ + cd + "env"@ + env_assignments(b.environment@) + " /bin/sh -lc "@ + spec_shell_quote(
        b.command@,
    ) + ")"@
}

/// Bounded approval records travel through the single session writer; the signing key never does.
#[derive(Clone, Debug)]
pub struct ResumePolicy {
    pub approvals: Vec<Approval>,
}

impl Default for ResumePolicy {
    /// No approvals.
    fn default() -> (p: Self)
        ensures
            p.approvals@.len() == 0,
    {
        ResumePolicy { approvals: Vec::new() }
    }
}

/// Add sizes with a ceiling just above the approval limit.
fn add_clamped(total: u64, n: usize) -> (r: u64)
    requires
        total <= 65537,
    ensures
        r == if total + n > 65537 { 65537 } else { total + n },
{
    if n as u64 > 65537 - total { 65537 } else { total + n as u64 }
}

/// Whether a stored prefix has 1 to 8192 arguments of at most 16384 bytes in total.
fn prefix_within_bounds(prefix: &Vec<String>) -> (r: bool)
    ensures
        r == (prefix@.len() > 0 && total_bytes(strings_view(prefix@)) <= 16384 && prefix@.len()
            <= 8192),
{
    if prefix.len() == 0 || prefix.len() > 8192 {
        return false;
    }
    let ghost v = strings_view(prefix@);
    let mut total: u64 = 0;
    let mut i: usize = 0;
    while i < prefix.len()
        invariant
            v == strings_view(prefix@),
            i <= prefix@.len(),
            total <= 65537,
            total == if total_bytes(v.take(i as int)) > 65537 { 65537 } else { total_bytes(v.take(i as int)) },
        decreases prefix@.len() - i,
    {
        total = add_clamped(total, str_len(prefix[i].as_str()));
        assert(v.take(i + 1).drop_last() =~= v.take(i as int));
        i = i + 1;
    }
    assert(v.take(prefix@.len() as int) =~= v);
    total <= 16384
}

/// Whether an environment's keys and values add up to at most `limit` more bytes.
fn env_total(env: &Environment) -> (r: u64)
    ensures
        r == if env_bytes(env@) > 65537 { 65537 } else { env_bytes(env@) },
{
    let mut total: u64 = 0;
    let mut i: usize = 0;
    while i < env.len()
        invariant
            i <= env@.len(),
            total <= 65537,
            total == if env_bytes(env@.take(i as int)) > 65537 { 65537 } else { env_bytes(env@.take(i as int)) },
        decreases env@.len() - i,
    {
        total = add_clamped(total, str_len(env.key(i)));
        total = add_clamped(total, str_len(env.value(i)));
        assert(env@.take(i + 1).drop_last() =~= env@.take(i as int));
        i = i + 1;
    }
    assert(env@.take(env@.len() as int) =~= env@);
    total
}

impl Approval {
    /// Authenticate persisted authority with the app-owned key, including every execution input.
    pub fn valid_signature(&self, key: Option<&[u8; 32]>) -> (r: bool)
        ensures
            r == signature_valid(self, key),
    {
        let command_len = str_len(self.command.as_str());
        let cwd_len = str_len(self.cwd.as_str());
        if command_len > 16384 || cwd_len > 16384 || self.environment.len() > 64
            || self.signature.len() != 32 {
            return false;
        }
        let total = add_clamped(add_clamped(env_total(&self.environment), command_len), cwd_len);
        if total > 65536 {
            return false;
        }
        match &self.command_prefix {
            Some(prefix) => {
                if !prefix_within_bounds(prefix) {
                    return false;
                }
            },
            None => {},
        }
        let key = match key {
            Some(key) => key,
            None => return false,
        };
        let payload = match &self.command_prefix {
            Some(prefix) => prefix_payload(
                PREFIX_TAG,
                self.command.as_str(),
                prefix.as_slice(),
                self.cwd.as_str(),
                &self.environment,
            ),
            None => exact_payload(EXACT_TAG, self.command.as_str(), self.cwd.as_str(), &self.environment),
        };
        hmac_verify(key, payload.as_slice(), self.signature.as_slice())
    }
}

/// Whether `prefix` is an initial segment of `args`.
fn starts_with(args: &Vec<String>, prefix: &Vec<String>) -> (r: bool)
    ensures
        r == is_prefix(strings_view(prefix@), strings_view(args@)),
{
    if prefix.len() > args.len() {
        return false;
    }
    let mut i: usize = 0;
    while i < prefix.len()
        invariant
            prefix@.len() <= args@.len(),
            i <= prefix@.len(),
            forall|j: int| 0 <= j < i ==> args@[j]@ == prefix@[j]@,
        decreases prefix@.len() - i,
    {
        if args[i] != prefix[i] {
            assert(strings_view(args@).take(prefix@.len() as int)[i as int] != strings_view(prefix@)[i as int]);
            return false;
        }
        i = i + 1;
    }
    assert(strings_view(args@).take(prefix@.len() as int) =~= strings_view(prefix@));
    true
}

/// Whether two optional prefixes hold the same arguments.
fn same_prefix(a: &Option<Vec<String>>, b: &Option<Vec<String>>) -> (r: bool)
    ensures
        r == (prefix_view(*a) == prefix_view(*b)),
{
    match (a, b) {
        (None, None) => true,
        (Some(x), Some(y)) => {
            if x.len() != y.len() {
                assert(strings_view(x@).len() != strings_view(y@).len());
                return false;
            }
            let r = starts_with(x, y);
            proof {
                if r {
                    assert(strings_view(x@).take(x@.len() as int) =~= strings_view(x@));
                } else {
                    assert(strings_view(x@).take(y@.len() as int) =~= strings_view(x@));
                }
            }
            r
        },
        _ => false,
    }
}

/// Whether the binding's directory is present and equal to `cwd`.
fn same_cwd(binding_cwd: &Option<String>, cwd: &String) -> (r: bool)
    ensures
        r == cwd_is(*binding_cwd, cwd@),
{
    match binding_cwd {
        Some(c) => *c == *cwd,
        None => false,
    }
}

impl ResumePolicy {
    /// A policy with no approvals.
    pub fn new() -> (p: Self)
        ensures
            p.approvals@.len() == 0,
    {
        ResumePolicy { approvals: Vec::new() }
    }

    /// Whether the command rule of approval `i` covers the binding's command.
    fn matches_command(&self, i: usize, binding: &ResumeBinding) -> (r: bool)
        requires
            i < self.approvals@.len(),
        ensures
            r == command_matches(&self.approvals@[i as int], binding),
    {
        match &self.approvals[i].command_prefix {
            Some(prefix) => match literal_arguments(binding.command.as_str()) {
                Some(arguments) => starts_with(&arguments, prefix),
                None => false,
            },
            None => self.approvals[i].command == binding.command,
        }
    }

    /// Match a signed exact command or literal argument prefix, with exact directory and environment.
    pub fn allows(&self, binding: &ResumeBinding, key: Option<&[u8; 32]>) -> (r: bool)
        ensures
            r == spec_allows(self.approvals@, binding, key),
    {
        if binding.validate().is_err() {
            return false;
        }
        let mut i: usize = 0;
        while i < self.approvals.len()
            invariant
                i <= self.approvals@.len(),
                spec_validate(binding) is Ok,
                forall|j: int| 0 <= j < i ==> !(approval_matches(&#[trigger] self.approvals@[j], binding)
                    && signature_valid(&self.approvals@[j], key)),
            decreases self.approvals@.len() - i,
        {
            let approval = &self.approvals[i];
            if self.matches_command(i, binding) && same_cwd(&binding.cwd, &approval.cwd)
                && approval.environment.same_as(&binding.environment)
                && approval.valid_signature(key) {
                return true;
            }
            i = i + 1;
        }
        false
    }

    /// Discard excess or invalid records from disk before any launch decisions:
    /// keep the validly signed approvals among the first 128, in order.
    pub fn validated(self, key: Option<&[u8; 32]>) -> (r: Self)
        ensures
            r.approvals@ == first_approvals(self.approvals@).filter(
                |a: Approval| signature_valid(&a, key),
            ),
    {
        let ghost initial = first_approvals(self.approvals@);
        let ghost pred = |a: Approval| signature_valid(&a, key);
        let mut source = self.approvals;
        source.truncate(MAX_APPROVALS);
        assert(source@ =~= initial);
        let mut kept: Vec<Approval> = Vec::new();
        let mut i: usize = 0;
        proof {
            reveal_with_fuel(Seq::<_>::filter, 1);
            assert(initial.take(0) =~= Seq::<Approval>::empty());
        }
        while source.len() > 0
            invariant
                source@.len() + i == initial.len(),
                initial.len() <= MAX_APPROVALS,
                source@ == initial.skip(i as int),
                kept@ == initial.take(i as int).filter(pred),
                pred == (|a: Approval| signature_valid(&a, key)),
            decreases source@.len(),
        {
            let approval = source.remove(0);
            let ghost next = initial.take(i + 1);
            assert(next.drop_last() =~= initial.take(i as int));
            assert(next.last() == approval);
            reveal_with_fuel(Seq::<_>::filter, 1);
            assert(next.filter(pred) == if pred(approval) {
                initial.take(i as int).filter(pred).push(approval)
            } else {
                initial.take(i as int).filter(pred)
            });
            let valid = approval.valid_signature(key);
            assert(valid == signature_valid(&approval, key));
            assert(pred(approval) == signature_valid(&approval, key));
            if valid {
                kept.push(approval);
            }
            i = i + 1;
            assert(source@ =~= initial.skip(i as int));
        }
        assert(initial.take(i as int) =~= initial);
        ResumePolicy { approvals: kept }
    }

    /// Approve the current sanitized binding after UI review; requires an explicit absolute directory.
    pub fn approve(&mut self, binding: &ResumeBinding, key: Option<&[u8; 32]>) -> (r: Result<(), &'static str>)
        ensures
            r matches Err(e) ==> approve_error(old(self).approvals@, binding, None, key) == Some(e@),
            r is Ok <==> approve_error(old(self).approvals@, binding, None, key) is None,
            approve_post(old(self).approvals@, final(self).approvals@, binding, None, key, r is Ok),
    {
        self.approve_launch(binding, None, key)
    }

    /// Review a literal argument prefix, retaining exact directory and environment scope.
    pub fn approve_prefix(&mut self, binding: &ResumeBinding, prefix: &str, key: Option<&[u8; 32]>) -> (r: Result<(), &'static str>)
        ensures
            spec_literal_arguments(binding.command@) is None ==> r == Err::<(), &str>(
                "Prefix approval requires a literal command without shell expansion or control syntax.",
            ) && final(self).approvals@ == old(self).approvals@,
            spec_literal_arguments(binding.command@) matches Some(args) ==> {
                match spec_literal_arguments(prefix@) {
                    Some(p) if is_prefix(p, args) => {
                        &&& (r matches Err(e) ==> approve_error(old(self).approvals@, binding, Some(p), key) == Some(e@))
                        &&& (r is Ok <==> approve_error(old(self).approvals@, binding, Some(p), key) is None)
                        &&& approve_post(old(self).approvals@, final(self).approvals@, binding, Some(p), key, r is Ok)
                    },
                    _ => r == Err::<(), &str>("Enter complete initial command arguments as the prefix.")
                        && final(self).approvals@ == old(self).approvals@,
                }
            },
    {
        let arguments = match literal_arguments(binding.command.as_str()) {
            Some(arguments) => arguments,
            None => {
                return Err(
                    "Prefix approval requires a literal command without shell expansion or control syntax.",
                );
            },
        };
        let prefix = match literal_arguments(prefix) {
            Some(prefix) => prefix,
            None => return Err("Enter complete initial command arguments as the prefix."),
        };
        if !starts_with(&arguments, &prefix) {
            return Err("Enter complete initial command arguments as the prefix.");
        }
        self.approve_launch(binding, Some(prefix), key)
    }

    /// Sign a reviewed exact or prefix launch after validating its complete execution context.
    #[verifier::loop_isolation(false)]
    fn approve_launch(
        &mut self,
        binding: &ResumeBinding,
        prefix: Option<Vec<String>>,
        key: Option<&[u8; 32]>,
    ) -> (r: Result<(), &'static str>)
        ensures
            r matches Err(e) ==> approve_error(old(self).approvals@, binding, prefix_view(prefix), key) == Some(e@),
            r is Ok <==> approve_error(old(self).approvals@, binding, prefix_view(prefix), key) is None,
            approve_post(old(self).approvals@, final(self).approvals@, binding, prefix_view(prefix), key, r is Ok),
    {
        match binding.validate() {
            Ok(()) => {},
            Err(e) => return Err(e),
        }
        let cwd = match &binding.cwd {
            Some(c) => c,
            None => return Err("Set an absolute resume directory before approving this command."),
        };
        let cwd_chars = crate::text::chars_of(cwd.as_str());
        if cwd_chars.len() == 0 || cwd_chars[0] != '/' {
            return Err("Set an absolute resume directory before approving this command.");
        }
        if has_secret_keys(&binding.environment) {
            return Err("Remove secret or routing overrides before approval.");
        }
        let key = match key {
            Some(key) => key,
            None => return Err("The resume signing key is unavailable."),
        };
        let ghost pv = prefix_view(prefix);
        let mut i: usize = 0;
        while i < self.approvals.len()
            invariant
                i <= self.approvals@.len(),
                pv == prefix_view(prefix),
                forall|j: int| 0 <= j < i ==> !({
                    let a = #[trigger] self.approvals@[j];
                    a.command@ == binding.command@ && prefix_view(a.command_prefix) == pv && cwd_is(
                        binding.cwd,
                        a.cwd@,
                    ) && a.environment@ == binding.environment@ && signature_valid(&a, Some(key))
                }),
            decreases self.approvals@.len() - i,
        {
            let approval = &self.approvals[i];
            if approval.command == binding.command && same_prefix(&approval.command_prefix, &prefix)
                && same_cwd(&binding.cwd, &approval.cwd) && approval.environment.same_as(
                &binding.environment,
            ) && approval.valid_signature(Some(key)) {
                return Ok(());
            }
            i = i + 1;
        }
        if self.approvals.len() >= MAX_APPROVALS {
            return Err("Revoke an existing approval before adding another (limit 128).");
        }
        let payload = match &prefix {
            Some(p) => prefix_payload(PREFIX_TAG, binding.command.as_str(), p.as_slice(), cwd.as_str(), &binding.environment),
            None => exact_payload(EXACT_TAG, binding.command.as_str(), cwd.as_str(), &binding.environment),
        };
        let signature = hmac_sign(key, payload.as_slice());
        let approval = Approval {
            command: binding.command.clone(),
            command_prefix: prefix,
            cwd: cwd.clone(),
            environment: binding.environment.clone(),
            signature,
        };
        let ghost before = self.approvals@;
        self.approvals.push(approval);
        assert(self.approvals@.take(before.len() as int) =~= before);
        Ok(())
    }

    /// Render an approved binding for a transport-owned remote shell command argument:
    /// a subshell that enters the directory, sets the environment and runs the command.
    pub fn remote_shell_command(
        &self,
        binding: &ResumeBinding,
        location: &'static str,
        key: Option<&[u8; 32]>,
    ) -> (r: Option<String>)
        ensures
            r is Some <==> spec_allows(self.approvals@, binding, key) && byte_len(
                spec_remote_shell(binding),
            ) <= 128 * 1024,
            r matches Some(s) ==> s@ == spec_remote_shell(binding),
    {
        if !self.allows(binding, key) {
            return None;
        }
        let mut command = String::from_str("(");
        match &binding.cwd {
            Some(directory) => {
                if !directory.as_str().is_empty() {
                    command.append("cd ");
                    push_quoted(&mut command, directory.as_str());
                    command.append(" && ");
                }
            },
            None => {},
        }
        command.append("env");
        let env = &binding.environment;
        let ghost start = command@;
        let mut i: usize = 0;
        while i < env.len()
            invariant
                i <= env@.len(),
                command@ == start + env_assignments(env@.take(i as int)),
            decreases env@.len() - i,
        {
            command.append(" ");
            command.append(env.key(i));
            command.append("=");
            push_quoted(&mut command, env.value(i));
            assert(env@.take(i + 1).drop_last() =~= env@.take(i as int));
            i = i + 1;
            assert(command@ =~= start + env_assignments(env@.take(i as int)));
        }
        assert(env@.take(env@.len() as int) =~= env@);
        command.append(" /bin/sh -lc ");
        push_quoted(&mut command, binding.command.as_str());
        command.append(")");
        assert(command@ =~= spec_remote_shell(binding));
        if str_len(command.as_str()) > 128 * 1024 {
            return None;
        }
        Some(command)
    }

    /// Build one approved command for a newly opened remote interactive shell.
    /// The subshell keeps directory and environment changes out of the surrounding session.
    pub fn remote_shell_input(&self, binding: &ResumeBinding, key: Option<&[u8; 32]>) -> (r: Option<Vec<u8>>)
        ensures
            r is Some <==> spec_allows(self.approvals@, binding, key) && byte_len(
                spec_remote_shell(binding),
            ) <= 128 * 1024,
            r matches Some(bytes) ==> bytes@ == encode_utf8(spec_remote_shell(binding).push('\r')),
    {
        let mut command = match self.remote_shell_command(binding, "remote_ssh", key) {
            Some(command) => command,
            None => return None,
        };
        crate::text::push_char(&mut command, '\r');
        Some(vstd::slice::slice_to_vec(command.as_str().as_bytes()))
    }

    /// Schedule approved local execution through the owning CLI at `cli`, which rechecks approval
    /// at launch, then return to an interactive shell so the restored terminal remains usable.
    pub fn launch_command(&self, binding: &ResumeBinding, cli: &str, key: Option<&[u8; 32]>) -> (r: Option<String>)
        ensures
            r is Some <==> spec_allows(self.approvals@, binding, key),
            r matches Some(s) ==> s@ == spec_shell_quote(cli@) + " restore --automatic; exec \"${SHELL:-/bin/sh}\" -i"@,
    {
        if !self.allows(binding, key) {
            return None;
        }
        let mut command = String::new();
        push_quoted(&mut command, cli);
        command.append(" restore --automatic; exec \"${SHELL:-/bin/sh}\" -i");
        assert(command@ =~= spec_shell_quote(cli@) + " restore --automatic; exec \"${SHELL:-/bin/sh}\" -i"@);
        Some(command)
    }

    /// Revoke every saved approval without modifying any terminal's manual resume binding.
    pub fn revoke_all(&mut self)
        ensures
            final(self).approvals@.len() == 0,
    {
        self.approvals.clear();
    }

    /// Number of validated approvals, for the preferences review panel.
    pub fn len(&self) -> (n: usize)
        ensures
            n == self.approvals@.len(),
    {
        self.approvals.len()
    }
}

/// The size of concatenated strings is the sum of their sizes.
proof fn lemma_total_bytes_add(a: Seq<Seq<char>>, b: Seq<Seq<char>>)
    ensures
        total_bytes(a + b) == total_bytes(a) + total_bytes(b),
    decreases b.len(),
{
    if b.len() == 0 {
        assert(a + b =~= a);
    } else {
        assert((a + b).drop_last() =~= a + b.drop_last());
        lemma_total_bytes_add(a, b.drop_last());
    }
}

/// Sizes are never negative.
proof fn lemma_total_bytes_nonneg(a: Seq<Seq<char>>)
    ensures
        total_bytes(a) >= 0,
    decreases a.len(),
{
    if a.len() > 0 {
        lemma_total_bytes_nonneg(a.drop_last());
    }
}

/// The flattened environment has the environment's size.
proof fn lemma_flatten_bytes(e: Seq<(Seq<char>, Seq<char>)>)
    ensures
        total_bytes(flatten_env(e)) == env_bytes(e),
    decreases e.len(),
{
    if e.len() > 0 {
        lemma_flatten_bytes(e.drop_last());
        let f = flatten_env(e.drop_last());
        assert(flatten_env(e) == f.push(e.last().0).push(e.last().1));
        let g = f.push(e.last().0);
        let h = g.push(e.last().1);
        assert(h.drop_last() =~= g);
        assert(h.last() == e.last().1);
        assert(g.drop_last() =~= f);
        assert(g.last() == e.last().0);
        assert(total_bytes(h) == total_bytes(g) + byte_len(e.last().1));
        assert(total_bytes(g) == total_bytes(f) + byte_len(e.last().0));
    }
}

/// A valid binding fits the size limits of an approval of it.
proof fn lemma_valid_binding_sizes(b: &ResumeBinding)
    requires
        spec_validate(b) is Ok,
        b.cwd is Some,
    ensures
        byte_len(b.command@) <= 16384,
        byte_len(b.cwd.unwrap()@) <= 16384,
        b.environment@.len() <= 64,
        byte_len(b.command@) + byte_len(b.cwd.unwrap()@) + env_bytes(b.environment@) <= 65536,
{
    let strings = binding_strings(b);
    let head = seq![b.command@] + crate::resume::opt_list(b.name) + crate::resume::opt_list(b.kind);
    let c = seq![b.cwd.unwrap()@];
    let tail = crate::resume::opt_list(b.checkpoint_id);
    let env = flatten_env(b.environment@);
    assert(strings =~= head + c + tail + env);
    let i = head.len() as int;
    assert(strings[i] == b.cwd.unwrap()@);
    assert(valid_value(strings[i]));
    lemma_total_bytes_add(head + c + tail, env);
    lemma_total_bytes_add(head + c, tail);
    lemma_total_bytes_add(head, c);
    lemma_total_bytes_add(seq![b.command@], crate::resume::opt_list(b.name));
    lemma_total_bytes_add(seq![b.command@] + crate::resume::opt_list(b.name), crate::resume::opt_list(b.kind));
    lemma_total_bytes_nonneg(crate::resume::opt_list(b.name));
    lemma_total_bytes_nonneg(crate::resume::opt_list(b.kind));
    lemma_total_bytes_nonneg(tail);
    assert(seq![b.command@].drop_last() =~= Seq::<Seq<char>>::empty());
    assert(c.drop_last() =~= Seq::<Seq<char>>::empty());
    lemma_flatten_bytes(b.environment@);
    let one = seq![b.command@];
    assert(one.len() == 1);
    assert(one.last() == b.command@);
    assert(one.drop_last() =~= Seq::<Seq<char>>::empty());
    assert(total_bytes(one.drop_last()) == 0);
    assert(total_bytes(one) == byte_len(b.command@));
    assert(c.last() == b.cwd.unwrap()@);
    assert(total_bytes(c.drop_last()) == 0);
    assert(total_bytes(c) == byte_len(b.cwd.unwrap()@));
    assert(total_bytes(head) >= byte_len(b.command@));
    assert(total_bytes(strings) == total_bytes(head) + total_bytes(c) + total_bytes(tail)
        + total_bytes(env));
}

/// What approval records is what allows accepts: once an exact-command approval of a binding
/// succeeds, that binding is allowed under the same key.
pub proof fn law_approved_binding_is_allowed(
    before: Seq<Approval>,
    after: Seq<Approval>,
    b: &ResumeBinding,
    key: Option<&[u8; 32]>,
)
    requires
        approve_error(before, b, None, key) is None,
        approve_post(before, after, b, None, key, true),
    ensures
        spec_allows(after, b, key),
{
    if already_approved(before, b, None, key) {
        let i = choose|i: int|
            0 <= i < before.len() && (#[trigger] before[i]).command@ == b.command@ && prefix_view(
                before[i].command_prefix,
            ) == None::<Seq<Seq<char>>> && cwd_is(b.cwd, before[i].cwd@) && before[i].environment@
                == b.environment@ && signature_valid(&before[i], key);
        assert(approval_matches(&after[i], b));
    } else {
        lemma_valid_binding_sizes(b);
        let a = after.last();
        assert(within_bounds(&a));
        assert(signature_valid(&a, key));
        assert(approval_matches(&after[after.len() - 1], b));
    }
}

/// A prefix approval of a binding whose reviewed prefix fits the stored-prefix limits makes the
/// binding allowed under the same key.
pub proof fn law_prefix_approved_binding_is_allowed(
    before: Seq<Approval>,
    after: Seq<Approval>,
    b: &ResumeBinding,
    prefix: Seq<Seq<char>>,
    key: Option<&[u8; 32]>,
)
    requires
        spec_literal_arguments(b.command@) matches Some(args) && is_prefix(prefix, args),
        prefix.len() > 0,
        total_bytes(prefix) <= 16384,
        prefix.len() <= 8192,
        approve_error(before, b, Some(prefix), key) is None,
        approve_post(before, after, b, Some(prefix), key, true),
    ensures
        spec_allows(after, b, key),
{
    if already_approved(before, b, Some(prefix), key) {
        let i = choose|i: int|
            0 <= i < before.len() && (#[trigger] before[i]).command@ == b.command@ && prefix_view(
                before[i].command_prefix,
            ) == Some(prefix) && cwd_is(b.cwd, before[i].cwd@) && before[i].environment@
                == b.environment@ && signature_valid(&before[i], key);
        assert(approval_matches(&after[i], b));
    } else {
        lemma_valid_binding_sizes(b);
        let a = after.last();
        assert(within_bounds(&a));
        assert(signature_valid(&a, key));
        assert(approval_matches(&after[after.len() - 1], b));
    }
}

/// Approving the same exact launch twice records it once: after a successful approval, a second
/// approval finds it already approved and leaves the approvals unchanged.
pub proof fn law_approval_idempotent(
    before: Seq<Approval>,
    after: Seq<Approval>,
    b: &ResumeBinding,
    key: Option<&[u8; 32]>,
)
    requires
        approve_error(before, b, None, key) is None,
        approve_post(before, after, b, None, key, true),
    ensures
        already_approved(after, b, None, key),
        approve_error(after, b, None, key) is None,
{
    if already_approved(before, b, None, key) {
    } else {
        lemma_valid_binding_sizes(b);
        let i = after.len() - 1;
        assert(within_bounds(&after[i]));
        assert(signature_valid(&after[i], key));
    }
}

/// Without the signing key nothing is allowed.
pub proof fn law_no_key_no_authority(approvals: Seq<Approval>, b: &ResumeBinding)
    ensures
        !spec_allows(approvals, b, None),
{
}

/// After revocation nothing is allowed.
pub proof fn law_revoked_policy_allows_nothing(b: &ResumeBinding, key: Option<&[u8; 32]>)
    ensures
        !spec_allows(Seq::<Approval>::empty(), b, key),
{
}

/// Validation keeps only validly signed approvals, and at most 128 of them.
pub proof fn law_validated_approvals_are_signed(approvals: Seq<Approval>, key: Option<&[u8; 32]>)
    ensures
        all_signed(first_approvals(approvals).filter(|a: Approval| signature_valid(&a, key)), key),
        first_approvals(approvals).filter(|a: Approval| signature_valid(&a, key)).len() <= MAX_APPROVALS,
{
    let kept = first_approvals(approvals).filter(|a: Approval| signature_valid(&a, key));
    first_approvals(approvals).lemma_filter_len(|a: Approval| signature_valid(&a, key));
    assert forall|i: int| 0 <= i < kept.len() implies signature_valid(&#[trigger] kept[i], key) by {
        first_approvals(approvals).lemma_filter_pred(|a: Approval| signature_valid(&a, key), i);
    }
}

/// The approval count stays within its limit across every sequence of operations: starting
/// within the limit (as a new, revoked or validated policy is), an exact or prefix approval,
/// whether it succeeds or is refused, leaves it within the limit; at the limit a new launch is
/// refused with the revoke message.
pub proof fn law_approvals_stay_bounded(
    before: Seq<Approval>,
    after: Seq<Approval>,
    b: &ResumeBinding,
    prefix: Option<Seq<Seq<char>>>,
    key: Option<&[u8; 32]>,
)
    requires
        before.len() <= MAX_APPROVALS,
        approve_post(before, after, b, prefix, key, approve_error(before, b, prefix, key) is None),
    ensures
        after.len() <= MAX_APPROVALS,
        before.len() == MAX_APPROVALS && spec_validate(b) is Ok && absolute_cwd(b) && !has_secret_key(
            b.environment@,
        ) && key is Some && !already_approved(before, b, prefix, key) ==> approve_error(before, b, prefix, key)
            == Some("Revoke an existing approval before adding another (limit 128)."@) && after == before,
{
}

} // verus!
