//! Bounded per-terminal resume metadata. Registering a binding never executes its command.
use crate::environment::{select, Environment};
use crate::text::{byte_len, chars_of, contains_char, contains_infix, ascii_upper, has_infix, str_len};
use vstd::prelude::*;

verus! {

/// Persisted manual resume intent; agent provenance and automatic launch require separate policy.
#[derive(Clone, Debug)]
pub struct ResumeBinding {
    pub command: String,
    pub name: Option<String>,
    pub kind: Option<String>,
    pub cwd: Option<String>,
    pub checkpoint_id: Option<String>,
    pub environment: Environment,
}

/// Unicode `White_Space` characters, which `str::trim` removes.
pub open spec fn unicode_whitespace(c: char) -> bool {
    let u = c as u32;
    (0x9 <= u <= 0xd) || u == 0x20 || u == 0x85 || u == 0xa0 || u == 0x1680 || (0x2000 <= u
        <= 0x200a) || u == 0x2028 || u == 0x2029 || u == 0x202f || u == 0x205f || u == 0x3000
}

/// Whether `c` is Unicode white space (`char::is_whitespace`).
pub fn is_whitespace(c: char) -> (r: bool)
    ensures
        r == unicode_whitespace(c),
{
    let u = c as u32;
    (0x9 <= u && u <= 0xd) || u == 0x20 || u == 0x85 || u == 0xa0 || u == 0x1680 || (0x2000 <= u
        && u <= 0x200a) || u == 0x2028 || u == 0x2029 || u == 0x202f || u == 0x205f || u == 0x3000
}

/// The string is empty once surrounding white space is trimmed.
pub open spec fn blank(s: Seq<char>) -> bool {
    forall|i: int| 0 <= i < s.len() ==> unicode_whitespace(#[trigger] s[i])
}

/// The value of an optional string as a list of zero or one strings.
pub open spec fn opt_list(o: Option<String>) -> Seq<Seq<char>> {
    match o {
        Some(s) => seq![s@],
        None => Seq::empty(),
    }
}

/// Keys and values of the environment, in key order, alternating.
pub open spec fn flatten_env(entries: Seq<(Seq<char>, Seq<char>)>) -> Seq<Seq<char>>
    decreases entries.len(),
{
    if entries.len() == 0 {
        Seq::empty()
    } else {
        flatten_env(entries.drop_last()).push(entries.last().0).push(entries.last().1)
    }
}

/// Every string a binding stores, in validation order.
pub open spec fn binding_strings(b: &ResumeBinding) -> Seq<Seq<char>> {
    seq![b.command@] + opt_list(b.name) + opt_list(b.kind) + opt_list(b.cwd) + opt_list(
        b.checkpoint_id,
    ) + flatten_env(b.environment@)
}

/// A stored value is NUL-free and at most 16384 bytes.
pub open spec fn valid_value(s: Seq<char>) -> bool {
    !s.contains('\0') && byte_len(s) <= 16384
}

/// The total UTF-8 size of some strings.
pub open spec fn total_bytes(strings: Seq<Seq<char>>) -> int
    decreases strings.len(),
{
    if strings.len() == 0 {
        0
    } else {
        total_bytes(strings.drop_last()) + byte_len(strings.last())
    }
}

/// An ASCII letter or digit, or `_`.
pub open spec fn name_char(c: char) -> bool {
    ('a' <= c && c <= 'z') || ('A' <= c && c <= 'Z') || ('0' <= c && c <= '9') || c == '_'
}

/// A shell variable name: a letter or `_`, then letters, digits or `_`.
pub open spec fn shell_name(k: Seq<char>) -> bool {
    &&& k.len() > 0
    &&& (('a' <= k[0] && k[0] <= 'z') || ('A' <= k[0] && k[0] <= 'Z') || k[0] == '_')
    &&& forall|i: int| 0 <= i < k.len() ==> name_char(#[trigger] k[i])
}

/// The outcome of validating a binding: the first failed rule names its error.
pub open spec fn spec_validate(b: &ResumeBinding) -> Result<(), Seq<char>> {
    let strings = binding_strings(b);
    if blank(b.command@) || byte_len(b.command@) > 16384 {
        Err("command must contain 1 to 16384 bytes"@)
    } else if exists|i: int| 0 <= i < strings.len() && !valid_value(#[trigger] strings[i]) {
        Err("resume values must be NUL-free and at most 16384 bytes"@)
    } else if total_bytes(strings) > 65536 || b.environment@.len() > 64 {
        Err("resume binding exceeds 65536 bytes or 64 environment entries"@)
    } else if exists|i: int|
        0 <= i < b.environment@.len() && !shell_name(#[trigger] b.environment@[i].0) {
        Err("environment keys must be shell variable names"@)
    } else {
        Ok(())
    }
}

/// Secret-like or application routing keys, compared in ASCII upper case.
pub open spec fn secret_key(k: Seq<char>) -> bool {
    let u = k.map_values(|c: char| ascii_upper(c));
    ||| (u.len() >= 5 && u.take(5) == "CMUX_"@)
    ||| has_infix(u, "TOKEN"@)
    ||| has_infix(u, "PASSWORD"@)
    ||| has_infix(u, "SECRET"@)
    ||| has_infix(u, "API_KEY"@)
    ||| has_infix(u, "APIKEY"@)
    ||| has_infix(u, "ACCESS_KEY"@)
    ||| has_infix(u, "PRIVATE_KEY"@)
    ||| has_infix(u, "CREDENTIAL"@)
}

/// The environment entries that survive sanitization.
pub open spec fn sanitized(entries: Seq<(Seq<char>, Seq<char>)>) -> Seq<(Seq<char>, Seq<char>)> {
    select(entries, Seq::new(entries.len(), |i: int| !secret_key(entries[i].0)))
}

/// Whether any key must be removed by sanitization.
pub open spec fn has_secret_key(entries: Seq<(Seq<char>, Seq<char>)>) -> bool {
    exists|i: int| 0 <= i < entries.len() && secret_key(#[trigger] entries[i].0)
}

/// Selecting every entry keeps the sequence; dropping one makes it shorter.
pub proof fn lemma_select_len<T>(entries: Seq<T>, keep: Seq<bool>)
    requires
        keep.len() == entries.len(),
    ensures
        select(entries, keep).len() <= entries.len(),
        (forall|i: int| 0 <= i < keep.len() ==> keep[i]) ==> select(entries, keep) == entries,
        (exists|i: int| 0 <= i < keep.len() && !keep[i]) ==> select(entries, keep).len() < entries.len(),
    decreases entries.len(),
{
    if entries.len() > 0 {
        lemma_select_len(entries.drop_last(), keep.drop_last());
        if forall|i: int| 0 <= i < keep.len() ==> keep[i] {
            assert forall|i: int| 0 <= i < keep.drop_last().len() implies keep.drop_last()[i] by {
                assert(keep[i]);
            }
            assert(entries.drop_last().push(entries.last()) =~= entries);
        }
        if exists|i: int| 0 <= i < keep.len() && !keep[i] {
            let i = choose|i: int| 0 <= i < keep.len() && !keep[i];
            if i < keep.len() - 1 {
                assert(!keep.drop_last()[i]);
            }
        }
    } else {
        assert(select(entries, keep) =~= entries);
    }
}

/// Sanitization leaves an environment unchanged exactly when no key is secret-like.
pub proof fn law_sanitized_unchanged(entries: Seq<(Seq<char>, Seq<char>)>)
    ensures
        (sanitized(entries) == entries) <==> !has_secret_key(entries),
{
    let keep = Seq::new(entries.len(), |i: int| !secret_key(entries[i].0));
    lemma_select_len(entries, keep);
    if has_secret_key(entries) {
        let i = choose|i: int| 0 <= i < entries.len() && secret_key(#[trigger] entries[i].0);
        assert(!keep[i]);
    }
}

/// No entry that sanitization keeps has a secret-like key.
proof fn lemma_sanitized_clean(entries: Seq<(Seq<char>, Seq<char>)>)
    ensures
        forall|j: int| 0 <= j < sanitized(entries).len() ==> !secret_key(#[trigger] sanitized(entries)[j].0),
    decreases entries.len(),
{
    if entries.len() > 0 {
        let d = entries.drop_last();
        let keep = Seq::new(entries.len(), |i: int| !secret_key(entries[i].0));
        let kd = Seq::new(d.len(), |i: int| !secret_key(d[i].0));
        assert(keep.drop_last() =~= kd);
        lemma_sanitized_clean(d);
        let s0 = sanitized(d);
        let s = sanitized(entries);
        assert(s == if keep.last() {
            s0.push(entries.last())
        } else {
            s0
        });
        assert forall|j: int| 0 <= j < s.len() implies !secret_key(#[trigger] s[j].0) by {
            if j < s0.len() {
                assert(s[j] == s0[j]);
            } else {
                assert(s[j] == entries.last());
            }
        }
    }
}

/// Sanitization is idempotent: sanitizing a sanitized environment changes nothing.
pub proof fn law_sanitize_idempotent(entries: Seq<(Seq<char>, Seq<char>)>)
    ensures
        sanitized(sanitized(entries)) == sanitized(entries),
{
    lemma_sanitized_clean(entries);
    let s = sanitized(entries);
    assert(!has_secret_key(s));
    law_sanitized_unchanged(s);
}

/// Whether any key of the environment must be removed by sanitization.
pub fn has_secret_keys(env: &Environment) -> (r: bool)
    ensures
        r == has_secret_key(env@),
{
    let mut i: usize = 0;
    while i < env.len()
        invariant
            i <= env@.len(),
            forall|j: int| 0 <= j < i ==> !secret_key(#[trigger] env@[j].0),
        decreases env@.len() - i,
    {
        if is_secret_key(env.key(i)) {
            return true;
        }
        i = i + 1;
    }
    false
}

/// Upper-case ASCII letters of a key.
fn upper(k: &str) -> (r: Vec<char>)
    ensures
        r@ == k@.map_values(|c: char| ascii_upper(c)),
{
    let v = chars_of(k);
    let mut out: Vec<char> = Vec::new();
    let mut i: usize = 0;
    while i < v.len()
        invariant
            v@ == k@,
            i <= v@.len(),
            out@ =~= v@.take(i as int).map_values(|c: char| ascii_upper(c)),
        decreases v@.len() - i,
    {
        let c = v[i];
        let u = if 'a' <= c && c <= 'z' {
            let code = (c as u32) - 32;
            char_from(code)
        } else {
            c
        };
        out.push(u);
        i = i + 1;
        assert(out@ =~= v@.take(i as int).map_values(|c: char| ascii_upper(c)));
    }
    assert(v@.take(v@.len() as int) =~= v@);
    out
}

/// The ASCII character with code `code`.
fn char_from(code: u32) -> (c: char)
    requires
        0x41 <= code <= 0x5a,
    ensures
        c == code as char,
{
    assert(0x41 <= code <= 0x5a);
    let b: u8 = code as u8;
    b as char
}

/// Whether a key must not be persisted or launched.
fn is_secret_key(k: &str) -> (r: bool)
    ensures
        r == secret_key(k@),
{
    let u = upper(k);
    let prefix = chars_of("CMUX_");
    proof {
        reveal_strlit("CMUX_");
    }
    let mut starts = u.len() >= 5;
    if starts {
        let mut i: usize = 0;
        while i < 5
            invariant
                u@.len() >= 5,
                prefix@ == "CMUX_"@,
                prefix@.len() == 5,
                i <= 5,
                starts == forall|j: int| 0 <= j < i ==> u@[j] == prefix@[j],
            decreases 5 - i,
        {
            if u[i] != prefix[i] {
                starts = false;
            }
            i = i + 1;
        }
        assert(starts == (u@.take(5) =~= "CMUX_"@));
    }
    let t0 = contains_infix(u.as_slice(), chars_of("TOKEN").as_slice());
    let t1 = contains_infix(u.as_slice(), chars_of("PASSWORD").as_slice());
    let t2 = contains_infix(u.as_slice(), chars_of("SECRET").as_slice());
    let t3 = contains_infix(u.as_slice(), chars_of("API_KEY").as_slice());
    let t4 = contains_infix(u.as_slice(), chars_of("APIKEY").as_slice());
    let t5 = contains_infix(u.as_slice(), chars_of("ACCESS_KEY").as_slice());
    let t6 = contains_infix(u.as_slice(), chars_of("PRIVATE_KEY").as_slice());
    let t7 = contains_infix(u.as_slice(), chars_of("CREDENTIAL").as_slice());
    starts || t0 || t1 || t2 || t3 || t4 || t5 || t6 || t7
}

/// The characters of each string.
pub open spec fn strs_view(v: Seq<&str>) -> Seq<Seq<char>> {
    v.map_values(|s: &str| s@)
}

/// Append an optional string when present.
fn push_optional<'a>(v: &mut Vec<&'a str>, value: &'a Option<String>)
    ensures
        strs_view(final(v)@) == strs_view(old(v)@) + opt_list(*value),
{
    match value {
        Some(s) => {
            v.push(s.as_str());
            assert(strs_view(v@) =~= strs_view(old(v)@) + opt_list(*value));
        },
        None => {
            assert(strs_view(v@) =~= strs_view(old(v)@) + opt_list(*value));
        },
    }
}

/// Check one stored value and add its size to a running total clamped at 65537.
fn check_value(s: &str, bytes: &mut usize) -> (ok: bool)
    requires
        *old(bytes) <= 65537,
    ensures
        ok == valid_value(s@),
        ok ==> *final(bytes) == clamp(*old(bytes) + byte_len(s@)),
        *final(bytes) <= 65537,
{
    let n = str_len(s);
    if contains_char(s, '\0') || n > 16384 {
        return false;
    }
    *bytes = if *bytes + n > 65537 { 65537 } else { *bytes + n };
    true
}

/// A running byte total, clamped just above the binding limit.
pub open spec fn clamp(x: int) -> int {
    if x > 65537 { 65537 } else { x }
}

/// Whether `k` is a shell variable name.
pub fn is_shell_name(k: &str) -> (r: bool)
    ensures
        r == shell_name(k@),
{
    let v = chars_of(k);
    if v.len() == 0 {
        return false;
    }
    let first = v[0];
    if !(('a' <= first && first <= 'z') || ('A' <= first && first <= 'Z') || first == '_') {
        return false;
    }
    let mut i: usize = 0;
    while i < v.len()
        invariant
            v@ == k@,
            i <= v@.len(),
            forall|j: int| 0 <= j < i ==> name_char(#[trigger] v@[j]),
        decreases v@.len() - i,
    {
        let c = v[i];
        if !(('a' <= c && c <= 'z') || ('A' <= c && c <= 'Z') || ('0' <= c && c <= '9') || c
            == '_') {
            assert(!name_char(v@[i as int]));
            return false;
        }
        i = i + 1;
    }
    true
}

impl ResumeBinding {
    /// Drop secret-like overrides and application routing identities before persistence or launch.
    /// Ambient process credentials remain managed by the user's shell, not by saved metadata.
    pub fn sanitize_environment(&mut self)
        ensures
            final(self).environment@ == sanitized(old(self).environment@),
            final(self).command == old(self).command,
            final(self).name == old(self).name,
            final(self).kind == old(self).kind,
            final(self).cwd == old(self).cwd,
            final(self).checkpoint_id == old(self).checkpoint_id,
    {
        let ghost entries = self.environment@;
        let mut keep: Vec<bool> = Vec::new();
        let mut i: usize = 0;
        while i < self.environment.len()
            invariant
                self.environment@ == entries,
                i <= entries.len(),
                keep@.len() == i,
                forall|j: int| 0 <= j < i ==> keep@[j] == !secret_key(#[trigger] entries[j].0),
            decreases entries.len() - i,
        {
            let secret = is_secret_key(self.environment.key(i));
            keep.push(!secret);
            i = i + 1;
        }
        assert(keep@ =~= Seq::new(entries.len(), |i: int| !secret_key(entries[i].0)));
        self.environment.retain_flagged(keep.as_slice());
    }

    /// Validate both incoming and persisted metadata without logging commands or environment values.
    /// Commands are shell text, not parsed argv; NUL, invalid environment names and oversize data fail.
    #[verifier::loop_isolation(false)]
    pub fn validate(&self) -> (r: Result<(), &'static str>)
        ensures
            r matches Err(e) ==> spec_validate(self) == Err::<(), Seq<char>>(e@),
            r is Ok <==> spec_validate(self) is Ok,
    {
        let command = chars_of(self.command.as_str());
        let mut blank_command = true;
        let mut i: usize = 0;
        while i < command.len()
            invariant
                command@ == self.command@,
                i <= command@.len(),
                blank_command == forall|j: int| 0 <= j < i ==> unicode_whitespace(#[trigger] command@[j]),
            decreases command@.len() - i,
        {
            if !is_whitespace(command[i]) {
                blank_command = false;
            }
            i = i + 1;
        }
        assert(blank_command == blank(self.command@));
        if blank_command || str_len(self.command.as_str()) > 16384 {
            return Err("command must contain 1 to 16384 bytes");
        }
        let strings = self.stored_strings();
        let ghost all = binding_strings(self);
        let mut bytes: usize = 0;
        let mut n: usize = 0;
        while n < strings.len()
            invariant
                strs_view(strings@) == all,
                n <= all.len(),
                bytes == clamp(total_bytes(all.take(n as int))),
                forall|j: int| 0 <= j < n ==> valid_value(#[trigger] all[j]),
            decreases all.len() - n,
        {
            let ok = check_value(strings[n], &mut bytes);
            if !ok {
                assert(!valid_value(all[n as int]));
                return Err("resume values must be NUL-free and at most 16384 bytes");
            }
            assert(all.take(n + 1).drop_last() =~= all.take(n as int));
            n = n + 1;
        }
        assert(all.take(all.len() as int) =~= all);
        if bytes > 65536 || self.environment.len() > 64 {
            return Err("resume binding exceeds 65536 bytes or 64 environment entries");
        }
        let mut k: usize = 0;
        while k < self.environment.len()
            invariant
                k <= self.environment@.len(),
                forall|j: int| 0 <= j < k ==> shell_name(#[trigger] self.environment@[j].0),
            decreases self.environment@.len() - k,
        {
            if !is_shell_name(self.environment.key(k)) {
                return Err("environment keys must be shell variable names");
            }
            k = k + 1;
        }
        Ok(())
    }

    /// Every stored string, in validation order.
    fn stored_strings(&self) -> (v: Vec<&str>)
        ensures
            strs_view(v@) == binding_strings(self),
    {
        let mut v: Vec<&str> = Vec::new();
        v.push(self.command.as_str());
        push_optional(&mut v, &self.name);
        push_optional(&mut v, &self.kind);
        push_optional(&mut v, &self.cwd);
        push_optional(&mut v, &self.checkpoint_id);
        let ghost base = strs_view(v@);
        assert(base =~= seq![self.command@] + opt_list(self.name) + opt_list(self.kind) + opt_list(self.cwd) + opt_list(self.checkpoint_id));
        let mut k: usize = 0;
        while k < self.environment.len()
            invariant
                k <= self.environment@.len(),
                strs_view(v@) =~= base + flatten_env(self.environment@.take(k as int)),
            decreases self.environment@.len() - k,
        {
            let ghost before = strs_view(v@);
            v.push(self.environment.key(k));
            v.push(self.environment.value(k));
            let ghost entries = self.environment@;
            assert(entries.take(k + 1).drop_last() =~= entries.take(k as int));
            assert(entries.take(k + 1).last() == entries[k as int]);
            assert(flatten_env(entries.take(k + 1)) == flatten_env(entries.take(k as int)).push(entries[k as int].0).push(entries[k as int].1));
            assert(strs_view(v@) =~= before.push(entries[k as int].0).push(entries[k as int].1));
            k = k + 1;
            assert(strs_view(v@) =~= base + flatten_env(self.environment@.take(k as int)));
        }
        assert(self.environment@.take(self.environment@.len() as int) =~= self.environment@);
        v
    }
}

/// A binding's fields by their characters: command, name, kind, directory, checkpoint and
/// environment.
pub type BindingModel = (
    Seq<char>,
    Option<Seq<char>>,
    Option<Seq<char>>,
    Option<Seq<char>>,
    Option<Seq<char>>,
    Seq<(Seq<char>, Seq<char>)>,
);

/// The characters of an optional text.
pub open spec fn opt_text(o: Option<String>) -> Option<Seq<char>> {
    match o {
        Some(s) => Some(s@),
        None => None,
    }
}

/// A binding by its fields' characters.
pub open spec fn binding_model(b: &ResumeBinding) -> BindingModel {
    (b.command@, opt_text(b.name), opt_text(b.kind), opt_text(b.cwd), opt_text(b.checkpoint_id), b.environment@)
}

/// An optional text as a list of zero or one texts.
pub open spec fn opt_seq(o: Option<Seq<char>>) -> Seq<Seq<char>> {
    match o {
        Some(s) => seq![s],
        None => Seq::empty(),
    }
}

/// Every text a binding model stores, in validation order.
pub open spec fn model_strings(m: BindingModel) -> Seq<Seq<char>> {
    seq![m.0] + opt_seq(m.1) + opt_seq(m.2) + opt_seq(m.3) + opt_seq(m.4) + flatten_env(m.5)
}

/// The outcome of validating a binding model: the first failed rule names its error.
pub open spec fn model_validate(m: BindingModel) -> Result<(), Seq<char>> {
    let strings = model_strings(m);
    if blank(m.0) || byte_len(m.0) > 16384 {
        Err("command must contain 1 to 16384 bytes"@)
    } else if exists|i: int| 0 <= i < strings.len() && !valid_value(#[trigger] strings[i]) {
        Err("resume values must be NUL-free and at most 16384 bytes"@)
    } else if total_bytes(strings) > 65536 || m.5.len() > 64 {
        Err("resume binding exceeds 65536 bytes or 64 environment entries"@)
    } else if exists|i: int| 0 <= i < m.5.len() && !shell_name(#[trigger] m.5[i].0) {
        Err("environment keys must be shell variable names"@)
    } else {
        Ok(())
    }
}

/// Validating a binding is validating its model.
pub proof fn lemma_validate_model(b: &ResumeBinding)
    ensures
        spec_validate(b) == model_validate(binding_model(b)),
{
    assert(opt_list(b.name) =~= opt_seq(opt_text(b.name)));
    assert(opt_list(b.kind) =~= opt_seq(opt_text(b.kind)));
    assert(opt_list(b.cwd) =~= opt_seq(opt_text(b.cwd)));
    assert(opt_list(b.checkpoint_id) =~= opt_seq(opt_text(b.checkpoint_id)));
    assert(binding_strings(b) =~= model_strings(binding_model(b)));
}

/// A validated metadata operation; clearing may require the current checkpoint identity.
#[derive(Debug)]
pub enum ResumeAction {
    SetBinding(ResumeBinding),
    Show,
    Clear { checkpoint_id: Option<String> },
}

} // verus!
