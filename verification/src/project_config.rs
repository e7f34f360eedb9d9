//! Read-only project action resolution: merging configuration documents into one bounded
//! action registry, independent of GTK and command execution.
use crate::json::{get, json_of, parse_json, Json};
use crate::text::{
    chars_of, lemma_lex_irreflexive, lemma_lex_total, lemma_lex_transitive, lex_less, lex_lt,
    utf8_len, utf8_size,
};
use std::path::PathBuf;
use vstd::prelude::*;

verus! {

/// Largest configuration file, in bytes.
pub const MAX_BYTES: usize = 262144;

/// Most actions the registry holds.
pub const MAX_ACTIONS: usize = 256;

/// Longest action identity, in bytes.
pub const MAX_ID_BYTES: usize = 128;

/// Most directory ancestors searched for a project file.
pub const MAX_DEPTH: usize = 64;

/// Why resolution was refused.
#[derive(Debug, PartialEq, Eq, Structural)]
pub enum ConfigError {
    /// A configuration file exceeds `MAX_BYTES`.
    TooLarge,
    /// A configuration file is not one JSON document.
    InvalidJson,
    /// A configuration document is not a JSON object.
    NotObject,
    /// A document's `actions` member is not an object.
    ActionsNotObject,
    /// An action identity is empty, too long or holds a control character, or its definition is
    /// not an object.
    InvalidAction,
    /// The registry would hold more than `MAX_ACTIONS` actions.
    TooManyActions,
    /// The lookup reached `MAX_DEPTH` ancestors without a project file.
    TooDeep,
    /// The project directory is not a directory.
    NotDirectory,
}

/// The message of each refusal.
pub open spec fn spec_config_message(e: ConfigError) -> Seq<char> {
    match e {
        ConfigError::TooLarge => "project configuration exceeds 256 KiB"@,
        ConfigError::InvalidJson => "project configuration is not valid JSON"@,
        ConfigError::NotObject => "project configuration must be a JSON object"@,
        ConfigError::ActionsNotObject => "actions must be an object"@,
        ConfigError::InvalidAction => "action IDs must be nonempty bounded strings and definitions must be objects"@,
        ConfigError::TooManyActions => "project action registry exceeds 256 entries"@,
        ConfigError::TooDeep => "project ancestor lookup exceeds 64 directories"@,
        ConfigError::NotDirectory => "project directory is not a directory"@,
    }
}

impl ConfigError {
    /// The message this refusal is reported with.
    pub fn message(&self) -> (m: &'static str)
        ensures
            m@ == spec_config_message(*self),
    {
        match self {
            ConfigError::TooLarge => {
                proof {
                    reveal_strlit("project configuration exceeds 256 KiB");
                }
                "project configuration exceeds 256 KiB"
            },
            ConfigError::InvalidJson => {
                proof {
                    reveal_strlit("project configuration is not valid JSON");
                }
                "project configuration is not valid JSON"
            },
            ConfigError::NotObject => {
                proof {
                    reveal_strlit("project configuration must be a JSON object");
                }
                "project configuration must be a JSON object"
            },
            ConfigError::ActionsNotObject => {
                proof {
                    reveal_strlit("actions must be an object");
                }
                "actions must be an object"
            },
            ConfigError::InvalidAction => {
                proof {
                    reveal_strlit(
                        "action IDs must be nonempty bounded strings and definitions must be objects",
                    );
                }
                "action IDs must be nonempty bounded strings and definitions must be objects"
            },
            ConfigError::TooManyActions => {
                proof {
                    reveal_strlit("project action registry exceeds 256 entries");
                }
                "project action registry exceeds 256 entries"
            },
            ConfigError::TooDeep => {
                proof {
                    reveal_strlit("project ancestor lookup exceeds 64 directories");
                }
                "project ancestor lookup exceeds 64 directories"
            },
            ConfigError::NotDirectory => {
                proof {
                    reveal_strlit("project directory is not a directory");
                }
                "project directory is not a directory"
            },
        }
    }
}

/// An action's complete definition and the exact file it was taken from.
#[derive(Debug)]
pub struct Action {
    pub source: PathBuf,
    pub definition: Json,
}

/// The global and nearest-directory actions, keyed by identity in ascending order, and the
/// files merged, in order.
#[derive(Debug)]
pub struct Resolved {
    pub directory: PathBuf,
    pub sources: Vec<PathBuf>,
    pub actions: Vec<(String, Action)>,
}

/// Registry entries by identity and action.
pub type Entries = Seq<(Seq<char>, Action)>;

/// Whether identities strictly ascend, so that each occurs once.
pub open spec fn ascending(s: Entries) -> bool {
    forall|i: int, j: int| 0 <= i < j < s.len() ==> lex_lt(#[trigger] s[i].0, #[trigger] s[j].0)
}

/// The registry after setting identity `k` to action `a`: an existing entry is replaced in
/// place, a new one goes before the first greater identity.
pub open spec fn upsert(s: Entries, k: Seq<char>, a: Action) -> Entries
    decreases s.len(),
{
    if s.len() == 0 {
        seq![(k, a)]
    } else if s[0].0 == k {
        s.update(0, (k, a))
    } else if lex_lt(k, s[0].0) {
        seq![(k, a)] + s
    } else {
        seq![s[0]] + upsert(s.drop_first(), k, a)
    }
}

/// Whether a character is a control character (general category Cc).
pub open spec fn is_control(c: char) -> bool {
    (c as u32) < 0x20 || (0x7f <= (c as u32) && (c as u32) < 0xa0)
}

/// Whether an action identity is nonempty, at most 128 bytes, and free of control characters.
pub open spec fn id_ok(id: Seq<char>) -> bool {
    &&& id.len() > 0
    &&& utf8_len(id) <= MAX_ID_BYTES
    &&& forall|i: int| 0 <= i < id.len() ==> !is_control(#[trigger] id[i])
}

/// The registry after merging document members `ms` from `source`, in order, and the refusal
/// that stopped the merge, if any: each valid member replaces or adds its entry, an invalid
/// one stops the merge, and so does a registry grown past `MAX_ACTIONS`.
pub open spec fn merge_entries(s: Entries, ms: Seq<(String, Json)>, source: PathBuf) -> (
    Entries,
    Option<ConfigError>,
)
    decreases ms.len(),
{
    if ms.len() == 0 {
        (s, None)
    } else if !id_ok(ms[0].0@) || !(ms[0].1 is Object) {
        (s, Some(ConfigError::InvalidAction))
    } else {
        let t = upsert(s, ms[0].0@, Action { source, definition: ms[0].1 });
        if t.len() > MAX_ACTIONS {
            (t, Some(ConfigError::TooManyActions))
        } else {
            merge_entries(t, ms.drop_first(), source)
        }
    }
}

/// A copy of a path (`PathBuf::clone`), equal to it.
#[verifier::external_body]
fn copy_path(p: &PathBuf) -> (r: PathBuf)
    ensures
        r == *p,
{
    p.clone()
}

impl Resolved {
    /// The registry by identity and action.
    pub open spec fn entries(&self) -> Entries {
        self.actions@.map_values(|e: (String, Action)| (e.0@, e.1))
    }

    /// Identities ascend and the registry is within its bound.
    pub open spec fn wf(&self) -> bool {
        ascending(self.entries()) && self.actions@.len() <= MAX_ACTIONS
    }

    /// An empty resolution for a canonical project directory.
    pub fn new(directory: PathBuf) -> (r: Resolved)
        ensures
            r.wf(),
            r.directory == directory,
            r.sources@.len() == 0,
            r.actions@.len() == 0,
    {
        Resolved { directory, sources: Vec::new(), actions: Vec::new() }
    }
}

/// Entries of a registry vector by identity and action.
pub open spec fn entries_of(v: Seq<(String, Action)>) -> Entries {
    v.map_values(|e: (String, Action)| (e.0@, e.1))
}

/// `upsert` inserts before the first identity not below `k`, replacing an equal one.
proof fn lemma_upsert_at(s: Entries, k: Seq<char>, a: Action, i: int)
    requires
        0 <= i <= s.len(),
        forall|j: int| 0 <= j < i ==> lex_lt(#[trigger] s[j].0, k),
        i < s.len() ==> !lex_lt(s[i].0, k),
    ensures
        upsert(s, k, a) == if i < s.len() && s[i].0 == k {
            s.update(i, (k, a))
        } else {
            s.insert(i, (k, a))
        },
    decreases s.len(),
{
    lemma_lex_irreflexive(k);
    if s.len() == 0 {
        assert(seq![(k, a)] =~= s.insert(0, (k, a)));
    } else if i == 0 {
        if s[0].0 != k {
            lemma_lex_total(s[0].0, k);
            assert(seq![(k, a)] + s =~= s.insert(0, (k, a)));
        }
    } else {
        assert(lex_lt(s[0].0, k));
        if lex_lt(k, s[0].0) {
            lemma_lex_transitive(k, s[0].0, k);
        }
        let d = s.drop_first();
        assert forall|j: int| 0 <= j < i - 1 implies lex_lt(#[trigger] d[j].0, k) by {
            assert(d[j] == s[j + 1]);
        }
        lemma_upsert_at(d, k, a, i - 1);
        if i < s.len() && s[i].0 == k {
            assert(seq![s[0]] + d.update(i - 1, (k, a)) =~= s.update(i, (k, a)));
        } else {
            assert(seq![s[0]] + d.insert(i - 1, (k, a)) =~= s.insert(i, (k, a)));
        }
    }
}

/// Every identity of an upsert result lies above a bound that `k` and all old identities lie
/// above.
proof fn lemma_upsert_bound(s: Entries, k: Seq<char>, a: Action, b: Seq<char>)
    requires
        lex_lt(b, k),
        forall|j: int| 0 <= j < s.len() ==> lex_lt(b, #[trigger] s[j].0),
    ensures
        forall|j: int| 0 <= j < upsert(s, k, a).len() ==> lex_lt(b, #[trigger] upsert(s, k, a)[j].0),
    decreases s.len(),
{
    if s.len() > 0 && s[0].0 != k && !lex_lt(k, s[0].0) {
        let d = s.drop_first();
        assert forall|j: int| 0 <= j < d.len() implies lex_lt(b, #[trigger] d[j].0) by {
            assert(d[j] == s[j + 1]);
        }
        lemma_upsert_bound(d, k, a, b);
        let u = upsert(s, k, a);
        assert forall|j: int| 0 <= j < u.len() implies lex_lt(b, #[trigger] u[j].0) by {
            if j > 0 {
                assert(u[j] == upsert(d, k, a)[j - 1]);
            }
        }
    }
}

/// Setting an identity keeps identities ascending.
pub proof fn law_upsert_keeps_order(s: Entries, k: Seq<char>, a: Action)
    requires
        ascending(s),
    ensures
        ascending(upsert(s, k, a)),
        upsert(s, k, a).len() <= s.len() + 1,
    decreases s.len(),
{
    let u = upsert(s, k, a);
    if s.len() == 0 {
    } else if s[0].0 == k {
        assert forall|i: int, j: int| 0 <= i < j < u.len() implies lex_lt(#[trigger] u[i].0, #[trigger] u[j].0) by {
            assert(u[i].0 == s[i].0 && u[j].0 == s[j].0);
        }
    } else if lex_lt(k, s[0].0) {
        assert forall|i: int, j: int| 0 <= i < j < u.len() implies lex_lt(#[trigger] u[i].0, #[trigger] u[j].0) by {
            if i == 0 {
                if j > 1 {
                    lemma_lex_transitive(k, s[0].0, s[j - 1].0);
                }
            }
        }
    } else {
        let d = s.drop_first();
        assert forall|i: int, j: int| 0 <= i < j < d.len() implies lex_lt(#[trigger] d[i].0, #[trigger] d[j].0) by {
            assert(d[i] == s[i + 1] && d[j] == s[j + 1]);
        }
        law_upsert_keeps_order(d, k, a);
        lemma_lex_total(s[0].0, k);
        assert forall|j: int| 0 <= j < d.len() implies lex_lt(s[0].0, #[trigger] d[j].0) by {
            assert(d[j] == s[j + 1]);
        }
        lemma_upsert_bound(d, k, a, s[0].0);
        let t = upsert(d, k, a);
        assert forall|i: int, j: int| 0 <= i < j < u.len() implies lex_lt(#[trigger] u[i].0, #[trigger] u[j].0) by {
            assert(u[j] == t[j - 1]);
            if i > 0 {
                assert(u[i] == t[i - 1]);
            }
        }
    }
}

/// The action recorded for an identity, if any.
pub open spec fn lookup(s: Entries, k: Seq<char>) -> Option<Action>
    decreases s.len(),
{
    if s.len() == 0 {
        None
    } else if s[0].0 == k {
        Some(s[0].1)
    } else {
        lookup(s.drop_first(), k)
    }
}

/// Later sources take precedence: after setting an identity, it maps to the new action and
/// every other identity keeps its action.
pub proof fn law_upsert_lookup(s: Entries, k: Seq<char>, a: Action, other: Seq<char>)
    ensures
        lookup(upsert(s, k, a), k) == Some(a),
        other != k ==> lookup(upsert(s, k, a), other) == lookup(s, other),
    decreases s.len(),
{
    let u = upsert(s, k, a);
    if s.len() == 0 {
    } else if s[0].0 == k {
        assert(u.drop_first() =~= s.drop_first());
    } else if lex_lt(k, s[0].0) {
        assert(u.drop_first() =~= s);
    } else {
        assert(u.drop_first() =~= upsert(s.drop_first(), k, a));
        law_upsert_lookup(s.drop_first(), k, a, other);
    }
}

/// Whether an action identity is nonempty, at most 128 bytes, and free of control characters.
fn action_id_ok(id: &str) -> (r: bool)
    ensures
        r == id_ok(id@),
{
    let v = chars_of(id);
    if v.len() == 0 || utf8_size(id) > MAX_ID_BYTES {
        return false;
    }
    let mut k: usize = 0;
    while k < v.len()
        invariant
            v@ == id@,
            k <= v@.len(),
            forall|i: int| 0 <= i < k ==> !is_control(#[trigger] v@[i]),
        decreases v@.len() - k,
    {
        let code = v[k] as u32;
        if code < 0x20 || (0x7f <= code && code < 0xa0) {
            assert(is_control(v@[k as int]));
            return false;
        }
        k = k + 1;
    }
    true
}

/// Set identity `key` to `action`, keeping identities in order.
fn upsert_action(actions: &mut Vec<(String, Action)>, key: String, action: Action)
    ensures
        entries_of(final(actions)@) == upsert(entries_of(old(actions)@), key@, action),
{
    let ghost before = entries_of(actions@);
    let mut i: usize = 0;
    while i < actions.len() && lex_less(actions[i].0.as_str(), key.as_str())
        invariant
            i <= actions@.len(),
            before == entries_of(actions@),
            forall|j: int| 0 <= j < i ==> lex_lt(#[trigger] before[j].0, key@),
        decreases actions@.len() - i,
    {
        i = i + 1;
    }
    proof {
        lemma_upsert_at(before, key@, action, i as int);
    }
    let ghost entry = (key@, action);
    if i < actions.len() && actions[i].0 == key {
        actions.remove(i);
        actions.insert(i, (key, action));
        assert(entries_of(actions@) =~= before.update(i as int, entry));
    } else {
        actions.insert(i, (key, action));
        assert(entries_of(actions@) =~= before.insert(i as int, entry));
    }
}

impl Resolved {
    /// Merge whole action entries by identity from document `value` read from `source`,
    /// preserving later-source precedence and the registry bound. A document without `actions`
    /// adds no entry; every merged document is recorded as a source.
    pub fn merge(&mut self, source: PathBuf, value: Json) -> (r: Result<(), ConfigError>)
        requires
            old(self).wf(),
        ensures
            final(self).directory == old(self).directory,
            r is Ok ==> final(self).wf(),
            match get(value, "actions"@) {
                None => r is Ok && final(self).entries() == old(self).entries() && final(self).sources@ == old(self).sources@.push(source),
                Some(Json::Object(ms)) => final(self).entries() == merge_entries(
                    old(self).entries(),
                    ms@,
                    source,
                ).0 && match merge_entries(old(self).entries(), ms@, source).1 {
                    None => r is Ok && final(self).sources@ == old(self).sources@.push(source),
                    Some(e) => r == Err::<(), ConfigError>(e) && final(self).sources@ == old(self).sources@,
                },
                Some(_) => r == Err::<(), ConfigError>(ConfigError::ActionsNotObject) && final(self).entries() == old(self).entries() && final(self).sources@ == old(self).sources@,
            },
    {
        let actions = value.take_member("actions");
        proof {
            reveal_strlit("actions");
        }
        let ghost got = actions;
        match actions {
            None => {
                self.sources.push(source);
                Ok(())
            },
            Some(Json::Object(mut ms)) => {
                let ghost all = ms@;
                let ghost start = self.entries();
                let n = ms.len();
                let mut k: usize = 0;
                assert(all.skip(0) =~= all);
                while k < n
                    invariant
                        got == get(value, "actions"@),
                        got matches Some(Json::Object(m0)) && m0@ == all,
                        start == old(self).entries(),
                        n == all.len(),
                        k <= n,
                        ms@ == all.skip(k as int),
                        merge_entries(start, all, source) == merge_entries(
                            self.entries(),
                            all.skip(k as int),
                            source,
                        ),
                        ascending(self.entries()),
                        self.actions@.len() <= MAX_ACTIONS,
                        self.directory == old(self).directory,
                        self.sources@ == old(self).sources@,
                    decreases n - k,
                {
                    let (id, definition) = ms.remove(0);
                    assert(ms@ =~= all.skip(k + 1));
                    assert(all.skip(k as int).drop_first() =~= all.skip(k + 1));
                    let ghost before = self.entries();
                    if !action_id_ok(id.as_str()) || !definition.is_object() {
                        return Err(ConfigError::InvalidAction);
                    }
                    let action = Action { source: copy_path(&source), definition };
                    proof {
                        law_upsert_keeps_order(before, id@, action);
                    }
                    upsert_action(&mut self.actions, id, action);
                    if self.actions.len() > MAX_ACTIONS {
                        return Err(ConfigError::TooManyActions);
                    }
                    k = k + 1;
                }
                self.sources.push(source);
                Ok(())
            },
            Some(_) => Err(ConfigError::ActionsNotObject),
        }
    }
}

/// Accept a configuration file only within its byte limit.
pub fn check_size(len: usize) -> (r: Result<(), ConfigError>)
    ensures
        r is Ok <==> len <= MAX_BYTES,
        r matches Err(e) ==> e == ConfigError::TooLarge,
{
    if len > MAX_BYTES {
        Err(ConfigError::TooLarge)
    } else {
        Ok(())
    }
}

/// Accept a parsed configuration document only when it is a JSON object.
pub fn check_document(value: Json) -> (r: Result<Json, ConfigError>)
    ensures
        value is Object ==> r == Ok::<Json, ConfigError>(value),
        !(value is Object) ==> r == Err::<Json, ConfigError>(ConfigError::NotObject),
{
    if value.is_object() {
        Ok(value)
    } else {
        Err(ConfigError::NotObject)
    }
}

/// Search ancestor number `depth` (0 for the project directory itself) only below
/// `MAX_DEPTH`, failing instead of silently truncating the lookup.
pub fn check_depth(depth: usize) -> (r: Result<(), ConfigError>)
    ensures
        r is Ok <==> depth < MAX_DEPTH,
        r matches Err(e) ==> e == ConfigError::TooDeep,
{
    if depth >= MAX_DEPTH {
        Err(ConfigError::TooDeep)
    } else {
        Ok(())
    }
}


/// Read a configuration file's bytes as one document: refused as too large beyond `MAX_BYTES`,
/// as invalid when the bytes are not JSON, and as not an object unless they decode to one.
pub fn read_document(bytes: &[u8]) -> (r: Result<Json, ConfigError>)
    ensures
        bytes@.len() > MAX_BYTES ==> r == Err::<Json, ConfigError>(ConfigError::TooLarge),
        bytes@.len() <= MAX_BYTES ==> r == match json_of(bytes@) {
            None => Err(ConfigError::InvalidJson),
            Some(v) => if v is Object {
                Ok(v)
            } else {
                Err(ConfigError::NotObject)
            },
        },
{
    check_size(bytes.len())?;
    match parse_json(bytes) {
        None => Err(ConfigError::InvalidJson),
        Some(value) => check_document(value),
    }
}

} // verus!
