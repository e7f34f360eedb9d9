//! Typed action intent; parsing validates data and never launches commands.
use crate::json::{get, present, Json};
use crate::notification_caller::{trim, trim_range};
use crate::resume::{blank, is_whitespace};
use crate::text::{chars_equal, chars_of, has_char, utf8_len, utf8_size};
use vstd::prelude::*;
use vstd::string::StringExecFns;

verus! {

/// Terminal command targets use the project format's names and default to a fresh sibling tab.
#[derive(Debug, PartialEq, Eq, Structural, Clone, Copy)]
pub enum Target {
    CurrentTerminal,
    NewTabInCurrentPane,
}

impl Default for Target {
    /// A fresh sibling tab.
    fn default() -> (t: Target)
        ensures
            t == Target::NewTabInCurrentPane,
    {
        Target::NewTabInCurrentPane
    }
}

/// Recognized action families; workspace layout validation remains a separate implementation step.
#[derive(Debug, PartialEq)]
pub enum Intent {
    Metadata,
    Command { command: String },
    Agent { agent: String, args: Option<String> },
    Builtin { builtin: String },
    WorkspaceCommand { name: String },
    Workspace { workspace: Json },
}

/// An action intent with its texts by their characters.
pub enum IntentModel {
    Metadata,
    Command(Seq<char>),
    Agent(Seq<char>, Option<Seq<char>>),
    Builtin(Seq<char>),
    WorkspaceCommand(Seq<char>),
    Workspace(Json),
}

/// The characters of an optional string.
pub open spec fn opt_chars(o: Option<String>) -> Option<Seq<char>> {
    match o {
        Some(s) => Some(s@),
        None => None,
    }
}

impl Intent {
    /// This intent with its texts by their characters.
    pub open spec fn model(&self) -> IntentModel {
        match self {
            Intent::Metadata => IntentModel::Metadata,
            Intent::Command { command } => IntentModel::Command(command@),
            Intent::Agent { agent, args } => IntentModel::Agent(agent@, opt_chars(*args)),
            Intent::Builtin { builtin } => IntentModel::Builtin(builtin@),
            Intent::WorkspaceCommand { name } => IntentModel::WorkspaceCommand(name@),
            Intent::Workspace { workspace } => IntentModel::Workspace(*workspace),
        }
    }
}

/// The error for a bad or missing action field.
pub open spec fn field_error(key: Seq<char>) -> Seq<char> {
    "invalid or missing action "@ + key
}

/// A bounded, NUL-free string field; a required one must be present and not blank.
pub open spec fn action_string(v: Json, key: Seq<char>, required: bool, limit: nat) -> Result<Option<Seq<char>>, Seq<char>> {
    match present(v, key) {
        None => if !required {
            Ok(None)
        } else {
            Err(field_error(key))
        },
        Some(Json::Str(t)) => if utf8_len(t@) <= limit && !t@.contains('\0') && (!required
            || !blank(t@)) {
            Ok(Some(t@))
        } else {
            Err(field_error(key))
        },
        Some(_) => Err(field_error(key)),
    }
}

/// The first presentation text field that fails its 4096-byte bound.
pub open spec fn text_error(v: Json) -> Option<Seq<char>> {
    if action_string(v, "title"@, false, 4096) is Err {
        Some(field_error("title"@))
    } else if action_string(v, "subtitle"@, false, 4096) is Err {
        Some(field_error("subtitle"@))
    } else if action_string(v, "description"@, false, 4096) is Err {
        Some(field_error("description"@))
    } else if action_string(v, "tooltip"@, false, 4096) is Err {
        Some(field_error("tooltip"@))
    } else {
        None
    }
}

/// Whether a field, when present and not null, is a boolean.
pub open spec fn flag_ok(v: Json, key: Seq<char>) -> bool {
    match present(v, key) {
        Some(Json::Bool(_)) => true,
        None => true,
        _ => false,
    }
}

/// The first presentation flag that is not boolean.
pub open spec fn flag_error(v: Json) -> Option<Seq<char>> {
    if !flag_ok(v, "palette"@) {
        Some("action "@ + "palette"@ + " must be boolean"@)
    } else if !flag_ok(v, "confirm"@) {
        Some("action "@ + "confirm"@ + " must be boolean"@)
    } else if !flag_ok(v, "newWorkspaceMenu"@) {
        Some("action "@ + "newWorkspaceMenu"@ + " must be boolean"@)
    } else {
        None
    }
}

/// A search keyword: a string of at most 256 bytes without NUL.
pub open spec fn keyword_ok(w: Json) -> bool {
    match w {
        Json::Str(s) => utf8_len(s@) <= 256 && !s@.contains('\0'),
        _ => false,
    }
}

/// What is wrong with the keywords, if anything: not an array, or more than 64 or a bad one.
pub open spec fn keywords_error(v: Json) -> Option<Seq<char>> {
    match present(v, "keywords"@) {
        None => None,
        Some(Json::Array(words)) => if words@.len() > 64 || exists|i: int|
            0 <= i < words@.len() && !keyword_ok(#[trigger] words@[i]) {
            Some("invalid action keywords"@)
        } else {
            None
        },
        Some(_) => Some("action keywords must be an array"@),
    }
}

/// The target a variant name selects.
pub open spec fn target_named(name: Seq<char>) -> Option<Target> {
    if name == "currentTerminal"@ {
        Some(Target::CurrentTerminal)
    } else if name == "newTabInCurrentPane"@ {
        Some(Target::NewTabInCurrentPane)
    } else {
        None
    }
}

/// The target a JSON value denotes: a variant name, or an object whose single member maps a
/// variant name to `null`.
pub open spec fn target_value(t: Json) -> Option<Target> {
    match t {
        Json::Str(s) => target_named(s@),
        Json::Object(ms) => if ms@.len() == 1 && ms@[0].1 is Null {
            target_named(ms@[0].0@)
        } else {
            None
        },
        _ => None,
    }
}

/// The action's target: the default when absent.
pub open spec fn target_of(v: Json) -> Result<Target, Seq<char>> {
    match present(v, "target"@) {
        None => Ok(Target::NewTabInCurrentPane),
        Some(t) => match target_value(t) {
            Some(x) => Ok(x),
            None => Err("invalid action target"@),
        },
    }
}

/// The action family implied by the first present field among agent, builtin, workspace and
/// command.
pub open spec fn inferred(v: Json) -> Option<Seq<char>> {
    if get(v, "agent"@) is Some {
        Some("agent"@)
    } else if get(v, "builtin"@) is Some {
        Some("builtin"@)
    } else if get(v, "workspace"@) is Some {
        Some("workspace"@)
    } else if get(v, "command"@) is Some {
        Some("command"@)
    } else {
        None
    }
}

/// A required executable text of at most 16384 bytes.
pub open spec fn required(v: Json, key: Seq<char>) -> Result<Seq<char>, Seq<char>> {
    match action_string(v, key, true, 16384) {
        Ok(Some(t)) => Ok(t),
        Ok(None) => Err(field_error(key)),
        Err(e) => Err(e),
    }
}

/// An agent name is a CLI name: ASCII letters, digits, `.`, `_` and `-`.
pub open spec fn cli_name(s: Seq<char>) -> bool {
    forall|i: int|
        0 <= i < s.len() ==> {
            let c = #[trigger] s[i];
            ('a' <= c && c <= 'z') || ('A' <= c && c <= 'Z') || ('0' <= c && c <= '9') || c == '.'
                || c == '_' || c == '-'
        }
}

/// The field naming a workspace command: the first present of commandName, name and command.
pub open spec fn command_key(v: Json) -> Option<Seq<char>> {
    if present(v, "commandName"@) is Some {
        Some("commandName"@)
    } else if present(v, "name"@) is Some {
        Some("name"@)
    } else if present(v, "command"@) is Some {
        Some("command"@)
    } else {
        None
    }
}

/// The intent of an action of family `kind`.
pub open spec fn intent_of(v: Json, kind: Option<Seq<char>>) -> Result<IntentModel, Seq<char>> {
    match kind {
        None => Ok(IntentModel::Metadata),
        Some(k) => if k == "command"@ {
            match required(v, "command"@) {
                Ok(c) => Ok(IntentModel::Command(c)),
                Err(e) => Err(e),
            }
        } else if k == "agent"@ {
            match required(v, "agent"@) {
                Err(e) => Err(e),
                Ok(a) => if !cli_name(a) {
                    Err("agent must be a CLI name"@)
                } else {
                    match action_string(v, "args"@, false, 16384) {
                        Ok(args) => Ok(IntentModel::Agent(a, args)),
                        Err(e) => Err(e),
                    }
                },
            }
        } else if k == "builtin"@ {
            match required(v, "builtin"@) {
                Ok(b) => Ok(IntentModel::Builtin(b)),
                Err(e) => Err(e),
            }
        } else if k == "workspaceCommand"@ {
            match command_key(v) {
                None => Err("workspaceCommand requires commandName"@),
                Some(key) => match required(v, key) {
                    Ok(n) => Ok(IntentModel::WorkspaceCommand(n)),
                    Err(e) => Err(e),
                },
            }
        } else if k == "workspace"@ {
            match get(v, "workspace"@) {
                Some(w) => if w is Object {
                    Ok(IntentModel::Workspace(w))
                } else {
                    Err("workspace action requires an object"@)
                },
                None => Err("workspace action requires an object"@),
            }
        } else {
            Err("unknown action type"@)
        },
    }
}

/// The intent and target an action definition declares, or the first problem found.
pub open spec fn spec_parse(v: Json) -> Result<(IntentModel, Target), Seq<char>> {
    if text_error(v) is Some {
        Err(text_error(v).unwrap())
    } else if flag_error(v) is Some {
        Err(flag_error(v).unwrap())
    } else if keywords_error(v) is Some {
        Err(keywords_error(v).unwrap())
    } else {
        match target_of(v) {
            Err(e) => Err(e),
            Ok(target) => match action_string(v, "type"@, false, 64) {
                Err(e) => Err(e),
                Ok(explicit) => {
                    let kind = match explicit {
                        Some(t) => Some(trim(t)),
                        None => inferred(v),
                    };
                    match intent_of(v, kind) {
                        Ok(intent) => Ok((intent, target)),
                        Err(e) => Err(e),
                    }
                },
            },
        }
    }
}

/// Whether the text is empty once trimmed.
fn is_blank(s: &str) -> (r: bool)
    ensures
        r == blank(s@),
{
    let v = chars_of(s);
    let mut i: usize = 0;
    while i < v.len()
        invariant
            v@ == s@,
            i <= v@.len(),
            forall|j: int| 0 <= j < i ==> crate::resume::unicode_whitespace(#[trigger] v@[j]),
        decreases v@.len() - i,
    {
        if !is_whitespace(v[i]) {
            return false;
        }
        i = i + 1;
    }
    true
}

/// `prefix` followed by `key` and `suffix`.
fn message(prefix: &str, key: &str, suffix: &str) -> (m: String)
    ensures
        m@ == prefix@ + key@ + suffix@,
{
    let mut m = String::from_str(prefix);
    m.append(key);
    m.append(suffix);
    m
}

/// Require bounded, NUL-free string values; shell commands retain their literal contents.
pub fn string(value: &Json, key: &str, required: bool, limit: usize) -> (r: Result<Option<String>, String>)
    ensures
        match r {
            Ok(o) => action_string(*value, key@, required, limit as nat) == Ok::<Option<Seq<char>>, Seq<char>>(opt_chars(o)),
            Err(e) => action_string(*value, key@, required, limit as nat) == Err::<Option<Seq<char>>, Seq<char>>(e@),
        },
{
    let fail = message("invalid or missing action ", key, "");
    assert(fail@ =~= field_error(key@)) by {
        reveal_strlit("");
    }
    match value.present(key) {
        None => {
            if !required {
                Ok(None)
            } else {
                Err(fail)
            }
        },
        Some(Json::Str(text)) => {
            if utf8_size(text.as_str()) <= limit && !has_char(&chars_of(text.as_str()), '\0') && (
            !required || !is_blank(text.as_str())) {
                Ok(Some(text.clone()))
            } else {
                Err(fail)
            }
        },
        Some(_) => Err(fail),
    }
}

/// Whether a present field is boolean or null.
fn is_flag(value: &Json, key: &str) -> (r: bool)
    ensures
        r == flag_ok(*value, key@),
{
    match value.present(key) {
        Some(Json::Bool(_)) => true,
        None => true,
        _ => false,
    }
}

/// Check the search keywords.
#[verifier::loop_isolation(false)]
fn check_keywords(value: &Json) -> (r: Option<&'static str>)
    ensures
        match r {
            Some(e) => keywords_error(*value) == Some(e@),
            None => keywords_error(*value) is None,
        },
{
    match value.present("keywords") {
        None => None,
        Some(Json::Array(words)) => {
            let bad = "invalid action keywords";
            proof {
                reveal_strlit("invalid action keywords");
            }
            if words.len() > 64 {
                return Some(bad);
            }
            let mut i: usize = 0;
            while i < words.len()
                invariant
                    i <= words@.len(),
                    forall|j: int| 0 <= j < i ==> keyword_ok(#[trigger] words@[j]),
                decreases words@.len() - i,
            {
                let ok = match &words[i] {
                    Json::Str(s) => utf8_size(s.as_str()) <= 256 && !has_char(&chars_of(s.as_str()), '\0'),
                    _ => false,
                };
                if !ok {
                    assert(!keyword_ok(words@[i as int]));
                    return Some(bad);
                }
                i = i + 1;
            }
            None
        },
        Some(_) => {
            proof {
                reveal_strlit("action keywords must be an array");
            }
            Some("action keywords must be an array")
        },
    }
}

/// The target a variant name selects.
fn target_by_name(name: &str) -> (r: Option<Target>)
    ensures
        r == target_named(name@),
{
    let v = chars_of(name);
    if chars_equal(&v, "currentTerminal") {
        Some(Target::CurrentTerminal)
    } else if chars_equal(&v, "newTabInCurrentPane") {
        Some(Target::NewTabInCurrentPane)
    } else {
        None
    }
}

/// The action's target.
fn target(value: &Json) -> (r: Result<Target, &'static str>)
    ensures
        match r {
            Ok(t) => target_of(*value) == Ok::<Target, Seq<char>>(t),
            Err(e) => target_of(*value) == Err::<Target, Seq<char>>(e@),
        },
{
    let t = match value.present("target") {
        None => {
            return Ok(Target::NewTabInCurrentPane);
        },
        Some(t) => t,
    };
    let found = match t {
        Json::Str(s) => target_by_name(s.as_str()),
        Json::Object(ms) => {
            if ms.len() == 1 && ms[0].1.is_null() {
                target_by_name(ms[0].0.as_str())
            } else {
                None
            }
        },
        _ => None,
    };
    match found {
        Some(x) => Ok(x),
        None => {
            proof {
                reveal_strlit("invalid action target");
            }
            Err("invalid action target")
        },
    }
}

/// Whether every character is allowed in a CLI name.
fn is_cli_name(s: &str) -> (r: bool)
    ensures
        r == cli_name(s@),
{
    let v = chars_of(s);
    let mut i: usize = 0;
    while i < v.len()
        invariant
            v@ == s@,
            i <= v@.len(),
            forall|j: int|
                0 <= j < i ==> {
                    let c = #[trigger] v@[j];
                    ('a' <= c && c <= 'z') || ('A' <= c && c <= 'Z') || ('0' <= c && c <= '9') || c
                        == '.' || c == '_' || c == '-'
                },
        decreases v@.len() - i,
    {
        let c = v[i];
        if !(('a' <= c && c <= 'z') || ('A' <= c && c <= 'Z') || ('0' <= c && c <= '9') || c == '.'
            || c == '_' || c == '-') {
            return false;
        }
        i = i + 1;
    }
    true
}

/// The required field `key`.
fn required_field(value: &Json, key: &str) -> (r: Result<String, String>)
    ensures
        match r {
            Ok(t) => required(*value, key@) == Ok::<Seq<char>, Seq<char>>(t@),
            Err(e) => required(*value, key@) == Err::<Seq<char>, Seq<char>>(e@),
        },
{
    match string(value, key, true, 16384) {
        Ok(Some(t)) => Ok(t),
        Ok(None) => {
            let m = message("invalid or missing action ", key, "");
            assert(m@ =~= field_error(key@)) by {
                reveal_strlit("");
            }
            Err(m)
        },
        Err(e) => Err(e),
    }
}

/// The intent of an action of family `kind`.
fn intent(value: Json, kind: Option<&Vec<char>>) -> (r: Result<Intent, String>)
    ensures
        match r {
            Ok(i) => intent_of(value, match kind {
                Some(k) => Some(k@),
                None => None,
            }) == Ok::<IntentModel, Seq<char>>(i.model()),
            Err(e) => intent_of(value, match kind {
                Some(k) => Some(k@),
                None => None,
            }) == Err::<IntentModel, Seq<char>>(e@),
        },
{
    let k = match kind {
        None => {
            return Ok(Intent::Metadata);
        },
        Some(k) => k,
    };
    if chars_equal(k, "command") {
        let command = required_field(&value, "command")?;
        Ok(Intent::Command { command })
    } else if chars_equal(k, "agent") {
        let agent = required_field(&value, "agent")?;
        if !is_cli_name(agent.as_str()) {
            proof {
                reveal_strlit("agent must be a CLI name");
            }
            return Err(String::from_str("agent must be a CLI name"));
        }
        let args = string(&value, "args", false, 16384)?;
        Ok(Intent::Agent { agent, args })
    } else if chars_equal(k, "builtin") {
        let builtin = required_field(&value, "builtin")?;
        Ok(Intent::Builtin { builtin })
    } else if chars_equal(k, "workspaceCommand") {
        let key = if value.present("commandName").is_some() {
            "commandName"
        } else if value.present("name").is_some() {
            "name"
        } else if value.present("command").is_some() {
            "command"
        } else {
            proof {
                reveal_strlit("workspaceCommand requires commandName");
            }
            return Err(String::from_str("workspaceCommand requires commandName"));
        };
        let name = required_field(&value, key)?;
        Ok(Intent::WorkspaceCommand { name })
    } else if chars_equal(k, "workspace") {
        match value.take_member("workspace") {
            Some(w) => {
                if w.is_object() {
                    Ok(Intent::Workspace { workspace: w })
                } else {
                    proof {
                        reveal_strlit("workspace action requires an object");
                    }
                    Err(String::from_str("workspace action requires an object"))
                }
            },
            None => {
                proof {
                    reveal_strlit("workspace action requires an object");
                }
                Err(String::from_str("workspace action requires an object"))
            },
        }
    } else {
        proof {
            reveal_strlit("unknown action type");
        }
        Err(String::from_str("unknown action type"))
    }
}

/// Infer action families, reject invalid targets and preserve presentation metadata separately.
pub fn parse(value: Json) -> (r: Result<(Intent, Target), String>)
    ensures
        match r {
            Ok((i, t)) => spec_parse(value) == Ok::<(IntentModel, Target), Seq<char>>((i.model(), t)),
            Err(e) => spec_parse(value) == Err::<(IntentModel, Target), Seq<char>>(e@),
        },
{
    let v = &value;
    string(v, "title", false, 4096)?;
    string(v, "subtitle", false, 4096)?;
    string(v, "description", false, 4096)?;
    string(v, "tooltip", false, 4096)?;
    if !is_flag(v, "palette") {
        let m = message("action ", "palette", " must be boolean");
        return Err(m);
    }
    if !is_flag(v, "confirm") {
        let m = message("action ", "confirm", " must be boolean");
        return Err(m);
    }
    if !is_flag(v, "newWorkspaceMenu") {
        let m = message("action ", "newWorkspaceMenu", " must be boolean");
        return Err(m);
    }
    match check_keywords(v) {
        Some(e) => {
            return Err(String::from_str(e));
        },
        None => {},
    }
    let target = match target(v) {
        Ok(t) => t,
        Err(e) => {
            return Err(String::from_str(e));
        },
    };
    let explicit = string(v, "type", false, 64)?;
    let kind: Option<Vec<char>> = match explicit {
        Some(t) => Some(trim_range(&chars_of(t.as_str()))),
        None => {
            if v.get("agent").is_some() {
                Some(chars_of("agent"))
            } else if v.get("builtin").is_some() {
                Some(chars_of("builtin"))
            } else if v.get("workspace").is_some() {
                Some(chars_of("workspace"))
            } else if v.get("command").is_some() {
                Some(chars_of("command"))
            } else {
                None
            }
        },
    };
    let intent = intent(value, kind.as_ref())?;
    Ok((intent, target))
}

} // verus!
