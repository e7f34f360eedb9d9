//! Bounded workspace layout data in the shared project format; no filesystem or launch side effects.
use crate::environment::{spec_insert, Environment};
use crate::json::{get, present, Json, JsonNumber};
use crate::project_action::{action_string, opt_chars, string};
use crate::resume::{is_shell_name, shell_name};
use crate::text::{chars_equal, chars_of, has_char, utf8_len, utf8_size};
use vstd::prelude::*;
use vstd::string::StringExecFns;

verus! {

/// Split orientation uses the project format's horizontal/vertical names.
#[derive(Debug, PartialEq, Eq, Structural, Clone, Copy)]
pub enum Direction {
    Horizontal,
    Vertical,
}

/// Project surfaces remain recognized even though their Linux renderer is still outstanding.
#[derive(Debug, PartialEq, Eq, Structural, Clone, Copy)]
pub enum SurfaceType {
    Terminal,
    Browser,
    Project,
}

/// Surface-specific launch fields; callers must protect managed environment variables when launching.
pub struct Surface {
    pub kind: SurfaceType,
    pub name: Option<String>,
    pub command: Option<String>,
    pub cwd: Option<String>,
    pub env: Environment,
    pub url: Option<String>,
    pub focus: Option<bool>,
}

/// A nonempty sibling surface list, bounded across the entire workspace.
pub struct Pane {
    pub surfaces: Vec<Surface>,
}

/// Pane and split nodes; a split holds its divider position as written, which presentation
/// code clamps to 0.1 through 0.9 (0.5 when absent).
pub enum Layout {
    Pane { pane: Pane },
    Split { direction: Direction, split: Option<JsonNumber>, start: Box<Layout>, end: Box<Layout> },
}

/// Workspace launch settings with validated nested pane topology.
pub struct Workspace {
    pub name: Option<String>,
    pub cwd: Option<String>,
    pub color: Option<String>,
    pub setup: Option<String>,
    pub env: Environment,
    pub layout: Option<Layout>,
}

/// A surface's fields by their characters.
pub struct SurfaceModel {
    pub kind: SurfaceType,
    pub name: Option<Seq<char>>,
    pub command: Option<Seq<char>>,
    pub cwd: Option<Seq<char>>,
    pub env: Seq<(Seq<char>, Seq<char>)>,
    pub url: Option<Seq<char>>,
    pub focus: Option<bool>,
}

/// A layout by its surfaces' fields.
pub enum LayoutModel {
    Pane(Seq<SurfaceModel>),
    Split(Direction, Option<JsonNumber>, Box<LayoutModel>, Box<LayoutModel>),
}

impl Surface {
    /// This surface by its fields' characters.
    pub open spec fn model(&self) -> SurfaceModel {
        SurfaceModel {
            kind: self.kind,
            name: opt_chars(self.name),
            command: opt_chars(self.command),
            cwd: opt_chars(self.cwd),
            env: self.env@,
            url: opt_chars(self.url),
            focus: self.focus,
        }
    }
}

/// The models of some surfaces.
pub open spec fn surface_models(s: Seq<Surface>) -> Seq<SurfaceModel> {
    s.map_values(|x: Surface| x.model())
}

impl Layout {
    /// This layout by its surfaces' fields.
    pub open spec fn model(&self) -> LayoutModel
        decreases self,
    {
        match self {
            Layout::Pane { pane } => LayoutModel::Pane(surface_models(pane.surfaces@)),
            Layout::Split { direction, split, start, end } => LayoutModel::Split(
                *direction,
                *split,
                Box::new(start.model()),
                Box::new(end.model()),
            ),
        }
    }
}

/// The name of a unit variant as JSON writes it: a string, or an object whose single member
/// maps the name to `null`.
pub open spec fn variant_name(v: Json) -> Option<Seq<char>> {
    match v {
        Json::Str(s) => Some(s@),
        Json::Object(ms) => if ms@.len() == 1 && ms@[0].1 is Null {
            Some(ms@[0].0@)
        } else {
            None
        },
        _ => None,
    }
}

/// The member `key` of `v`, or `null` when missing.
pub open spec fn member_or_null(v: Json, key: Seq<char>) -> Json {
    match get(v, key) {
        Some(x) => x,
        None => Json::Null,
    }
}

/// The split direction a JSON value names.
pub open spec fn direction_of(v: Json) -> Option<Direction> {
    match variant_name(v) {
        Some(n) => if n == "horizontal"@ {
            Some(Direction::Horizontal)
        } else if n == "vertical"@ {
            Some(Direction::Vertical)
        } else {
            None
        },
        None => None,
    }
}

/// The surface type a JSON value names.
pub open spec fn surface_type_of(v: Json) -> Option<SurfaceType> {
    match variant_name(v) {
        Some(n) => if n == "terminal"@ {
            Some(SurfaceType::Terminal)
        } else if n == "browser"@ {
            Some(SurfaceType::Browser)
        } else if n == "project"@ {
            Some(SurfaceType::Project)
        } else {
            None
        },
        None => None,
    }
}

/// An environment entry: a shell-name key of at most 128 bytes and a NUL-free value of at most
/// 16384 bytes.
pub open spec fn entry_ok(key: Seq<char>, value: Seq<char>) -> bool {
    shell_name(key) && key.len() <= 128 && !value.contains('\0') && utf8_len(value) <= 16384
}

/// Environment members read in order into `acc`, with `bytes` counted so far.
pub open spec fn env_fold(ms: Seq<(String, Json)>, acc: Seq<(Seq<char>, Seq<char>)>, bytes: int) -> Result<Seq<(Seq<char>, Seq<char>)>, Seq<char>>
    decreases ms.len(),
{
    if ms.len() == 0 {
        Ok(acc)
    } else {
        match ms[0].1 {
            Json::Str(t) => if !entry_ok(ms[0].0@, t@) {
                Err("invalid environment entry"@)
            } else if bytes + utf8_len(ms[0].0@) + utf8_len(t@) > 65536 {
                Err("workspace environment exceeds 64 KiB"@)
            } else {
                env_fold(
                    ms.drop_first(),
                    spec_insert(acc, ms[0].0@, t@),
                    bytes + utf8_len(ms[0].0@) + utf8_len(t@),
                )
            },
            _ => Err("environment values must be strings"@),
        }
    }
}

/// The launch environment of an object: literal values, at most 64 entries and 64 KiB.
pub open spec fn spec_environment(v: Json) -> Result<Seq<(Seq<char>, Seq<char>)>, Seq<char>> {
    match present(v, "env"@) {
        None => Ok(Seq::empty()),
        Some(Json::Object(ms)) => if ms@.len() > 64 {
            Err("workspace environment exceeds 64 entries"@)
        } else {
            env_fold(ms@, Seq::empty(), 0)
        },
        Some(_) => Err("workspace environment must be an object"@),
    }
}

/// An optional launch text of at most 16384 bytes.
pub open spec fn launch_text(v: Json, key: Seq<char>) -> Result<Option<Seq<char>>, Seq<char>> {
    action_string(v, key, false, 16384)
}

/// A surface entry of a pane.
pub open spec fn spec_surface(e: Json) -> Result<SurfaceModel, Seq<char>> {
    match surface_type_of(member_or_null(e, "type"@)) {
        None => Err("unknown workspace surface type"@),
        Some(kind) => {
            let focus: Result<Option<bool>, Seq<char>> = match present(e, "focus"@) {
                None => Ok(None),
                Some(Json::Bool(b)) => Ok(Some(b)),
                Some(_) => Err("surface focus must be boolean"@),
            };
            match focus {
                Err(m) => Err(m),
                Ok(focus) => match launch_text(e, "name"@) {
                    Err(m) => Err(m),
                    Ok(name) => match launch_text(e, "command"@) {
                        Err(m) => Err(m),
                        Ok(command) => match launch_text(e, "cwd"@) {
                            Err(m) => Err(m),
                            Ok(cwd) => match spec_environment(e) {
                                Err(m) => Err(m),
                                Ok(env) => match launch_text(e, "url"@) {
                                    Err(m) => Err(m),
                                    Ok(url) => Ok(SurfaceModel { kind, name, command, cwd, env, url, focus }),
                                },
                            },
                        },
                    },
                },
            }
        },
    }
}

/// Surface entries read in order; the first bad one fails them all.
pub open spec fn spec_surfaces(list: Seq<Json>) -> Result<Seq<SurfaceModel>, Seq<char>>
    decreases list.len(),
{
    if list.len() == 0 {
        Ok(Seq::empty())
    } else {
        match spec_surfaces(list.drop_last()) {
            Err(m) => Err(m),
            Ok(done) => match spec_surface(list.last()) {
                Err(m) => Err(m),
                Ok(s) => Ok(done.push(s)),
            },
        }
    }
}

/// The divider position as written: absent or `null` for the default, otherwise a number.
pub open spec fn split_of(v: Json) -> Result<Option<JsonNumber>, Seq<char>> {
    match present(v, "split"@) {
        None => Ok(None),
        Some(Json::Number(n)) => Ok(Some(n)),
        Some(_) => Err("invalid split position"@),
    }
}

/// A layout node at nesting `depth`, with `used` surfaces already in the workspace: the node
/// and the surfaces used after it. At most 32 levels and 128 surfaces in all.
pub open spec fn spec_layout(v: Json, depth: nat, used: nat) -> Result<(LayoutModel, nat), Seq<char>>
    decreases 33 - depth,
{
    if depth > 32 || !(v is Object) {
        Err("invalid or excessively deep workspace layout"@)
    } else {
        match get(v, "pane"@) {
            Some(pane) => if get(v, "direction"@) is Some {
                Err("layout cannot contain both pane and direction"@)
            } else {
                match get(pane, "surfaces"@) {
                    Some(Json::Array(list)) => if list@.len() == 0 || list@.len() + used > 128 {
                        Err("workspace requires 1 to 128 surfaces"@)
                    } else {
                        match spec_surfaces(list@) {
                            Err(m) => Err(m),
                            Ok(entries) => Ok((LayoutModel::Pane(entries), used + list@.len())),
                        }
                    },
                    _ => Err("pane requires surfaces"@),
                }
            },
            None => match direction_of(member_or_null(v, "direction"@)) {
                None => Err("unknown split direction"@),
                Some(direction) => match get(v, "children"@) {
                    Some(Json::Array(children)) => if children@.len() != 2 {
                        Err("split requires exactly two children"@)
                    } else {
                        match split_of(v) {
                            Err(m) => Err(m),
                            Ok(split) => match spec_layout(children@[0], depth + 1, used) {
                                Err(m) => Err(m),
                                Ok((start, u1)) => match spec_layout(children@[1], depth + 1, u1) {
                                    Err(m) => Err(m),
                                    Ok((end, u2)) => Ok(
                                        (
                                            LayoutModel::Split(
                                                direction,
                                                split,
                                                Box::new(start),
                                                Box::new(end),
                                            ),
                                            u2,
                                        ),
                                    ),
                                },
                            },
                        }
                    },
                    _ => Err("split requires exactly two children"@),
                },
            },
        }
    }
}

/// A failing prefix of surface entries fails the whole list with the same message.
pub proof fn lemma_surfaces_prefix_err(list: Seq<Json>, k: int)
    requires
        0 <= k <= list.len(),
        spec_surfaces(list.take(k)) is Err,
    ensures
        spec_surfaces(list) == spec_surfaces(list.take(k)),
    decreases list.len() - k,
{
    if k < list.len() {
        assert(list.take(k + 1).drop_last() =~= list.take(k));
        lemma_surfaces_prefix_err(list, k + 1);
    } else {
        assert(list.take(k) =~= list);
    }
}

/// The variant name of a unit-variant JSON value.
fn variant(v: &Json) -> (r: Option<Vec<char>>)
    ensures
        match r {
            Some(n) => variant_name(*v) == Some(n@),
            None => variant_name(*v) is None,
        },
{
    match v {
        Json::Str(s) => Some(chars_of(s.as_str())),
        Json::Object(ms) => {
            if ms.len() == 1 && ms[0].1.is_null() {
                Some(chars_of(ms[0].0.as_str()))
            } else {
                None
            }
        },
        _ => None,
    }
}

/// The member `key` of `v`, if present.
fn member<'a>(v: &'a Json, key: &str) -> (r: Option<&'a Json>)
    ensures
        r matches Some(x) ==> member_or_null(*v, key@) == *x,
        r is None ==> member_or_null(*v, key@) == Json::Null,
{
    v.get(key)
}

/// Validate environment names and bounded literal values without expansion or secret logging.
pub fn environment(value: &Json) -> (r: Result<Environment, String>)
    ensures
        match r {
            Ok(e) => spec_environment(*value) == Ok::<Seq<(Seq<char>, Seq<char>)>, Seq<char>>(e@),
            Err(m) => spec_environment(*value) == Err::<Seq<(Seq<char>, Seq<char>)>, Seq<char>>(m@),
        },
{
    let ms = match value.present("env") {
        None => {
            return Ok(Environment::new());
        },
        Some(Json::Object(ms)) => ms,
        Some(_) => {
            proof {
                reveal_strlit("workspace environment must be an object");
            }
            return Err(String::from_str("workspace environment must be an object"));
        },
    };
    if ms.len() > 64 {
        proof {
            reveal_strlit("workspace environment exceeds 64 entries");
        }
        return Err(String::from_str("workspace environment exceeds 64 entries"));
    }
    let mut result = Environment::new();
    let mut bytes: usize = 0;
    let mut i: usize = 0;
    assert(ms@.skip(0) =~= ms@);
    while i < ms.len()
        invariant
            i <= ms@.len(),
            bytes <= 65536,
            spec_environment(*value) == env_fold(ms@, Seq::empty(), 0),
            env_fold(ms@, Seq::empty(), 0) == env_fold(ms@.skip(i as int), result@, bytes as int),
        decreases ms@.len() - i,
    {
        let ghost rest = ms@.skip(i as int);
        assert(rest[0] == ms@[i as int]);
        assert(rest.drop_first() =~= ms@.skip(i + 1));
        let key = &ms[i].0;
        let text = match &ms[i].1 {
            Json::Str(t) => t,
            _ => {
                proof {
                    reveal_strlit("environment values must be strings");
                }
                return Err(String::from_str("environment values must be strings"));
            },
        };
        if !is_shell_name(key.as_str()) || chars_of(key.as_str()).len() > 128 || has_char(
            &chars_of(text.as_str()),
            '\0',
        ) || utf8_size(text.as_str()) > 16384 {
            proof {
                reveal_strlit("invalid environment entry");
            }
            return Err(String::from_str("invalid environment entry"));
        }
        let key_bytes = utf8_size(key.as_str());
        let text_bytes = utf8_size(text.as_str());
        if key_bytes > 65536 - bytes || text_bytes > 65536 - bytes - key_bytes {
            proof {
                reveal_strlit("workspace environment exceeds 64 KiB");
            }
            return Err(String::from_str("workspace environment exceeds 64 KiB"));
        }
        bytes = bytes + key_bytes + text_bytes;
        result.insert(key.clone(), text.clone());
        i = i + 1;
    }
    assert(ms@.skip(i as int) =~= Seq::<(String, Json)>::empty());
    Ok(result)
}

/// Read optional bounded launch text using the shared action validation contract.
fn text(value: &Json, key: &str) -> (r: Result<Option<String>, String>)
    ensures
        match r {
            Ok(o) => launch_text(*value, key@) == Ok::<Option<Seq<char>>, Seq<char>>(opt_chars(o)),
            Err(e) => launch_text(*value, key@) == Err::<Option<Seq<char>>, Seq<char>>(e@),
        },
{
    string(value, key, false, 16384)
}

/// One surface entry of a pane.
fn surface(entry: &Json) -> (r: Result<Surface, String>)
    ensures
        match r {
            Ok(s) => spec_surface(*entry) == Ok::<SurfaceModel, Seq<char>>(s.model()),
            Err(e) => spec_surface(*entry) == Err::<SurfaceModel, Seq<char>>(e@),
        },
{
    let name = match member(entry, "type") {
        Some(t) => variant(t),
        None => None,
    };
    let kind = match name {
        Some(n) => {
            if chars_equal(&n, "terminal") {
                Some(SurfaceType::Terminal)
            } else if chars_equal(&n, "browser") {
                Some(SurfaceType::Browser)
            } else if chars_equal(&n, "project") {
                Some(SurfaceType::Project)
            } else {
                None
            }
        },
        None => None,
    };
    let kind = match kind {
        Some(k) => k,
        None => {
            proof {
                reveal_strlit("unknown workspace surface type");
            }
            return Err(String::from_str("unknown workspace surface type"));
        },
    };
    let focus = match entry.present("focus") {
        None => None,
        Some(Json::Bool(b)) => Some(*b),
        Some(_) => {
            proof {
                reveal_strlit("surface focus must be boolean");
            }
            return Err(String::from_str("surface focus must be boolean"));
        },
    };
    let name = text(entry, "name")?;
    let command = text(entry, "command")?;
    let cwd = text(entry, "cwd")?;
    let env = environment(entry)?;
    let url = text(entry, "url")?;
    Ok(Surface { kind, name, command, cwd, env, url, focus })
}

/// Recursively validate at most 32 levels and 128 surfaces before producing an executable topology.
#[verifier::loop_isolation(false)]
fn layout(value: &Json, depth: usize, surfaces: &mut usize) -> (r: Result<Layout, String>)
    requires
        *old(surfaces) <= 128,
    ensures
        *final(surfaces) <= 128,
        match r {
            Ok(l) => spec_layout(*value, depth as nat, *old(surfaces) as nat) == Ok::<(LayoutModel, nat), Seq<char>>((l.model(), *final(surfaces) as nat)),
            Err(e) => spec_layout(*value, depth as nat, *old(surfaces) as nat) == Err::<(LayoutModel, nat), Seq<char>>(e@),
        },
    decreases 33 - depth,
{
    if depth > 32 || !value.is_object() {
        proof {
            reveal_strlit("invalid or excessively deep workspace layout");
        }
        return Err(String::from_str("invalid or excessively deep workspace layout"));
    }
    match value.get("pane") {
        Some(pane) => {
            if value.get("direction").is_some() {
                proof {
                    reveal_strlit("layout cannot contain both pane and direction");
                }
                return Err(String::from_str("layout cannot contain both pane and direction"));
            }
            let list = match pane.get("surfaces") {
                Some(Json::Array(list)) => list,
                _ => {
                    proof {
                        reveal_strlit("pane requires surfaces");
                    }
                    return Err(String::from_str("pane requires surfaces"));
                },
            };
            if list.len() == 0 || list.len() > 128 - *surfaces {
                proof {
                    reveal_strlit("workspace requires 1 to 128 surfaces");
                }
                return Err(String::from_str("workspace requires 1 to 128 surfaces"));
            }
            let mut entries: Vec<Surface> = Vec::new();
            let mut k: usize = 0;
            assert(list@.take(0) =~= Seq::<Json>::empty());
            assert(surface_models(entries@) =~= Seq::<SurfaceModel>::empty());
            while k < list.len()
                invariant
                    k <= list@.len(),
                    spec_surfaces(list@.take(k as int)) == Ok::<Seq<SurfaceModel>, Seq<char>>(surface_models(entries@)),
                decreases list@.len() - k,
            {
                assert(list@.take(k + 1).drop_last() =~= list@.take(k as int));
                assert(list@.take(k + 1).last() == list@[k as int]);
                let s = match surface(&list[k]) {
                    Ok(s) => s,
                    Err(e) => {
                        proof {
                            lemma_surfaces_prefix_err(list@, k + 1);
                        }
                        return Err(e);
                    },
                };
                let ghost before = entries@;
                entries.push(s);
                assert(surface_models(entries@) =~= surface_models(before).push(s.model()));
                k = k + 1;
            }
            assert(list@.take(k as int) =~= list@);
            *surfaces = *surfaces + list.len();
            Ok(Layout::Pane { pane: Pane { surfaces: entries } })
        },
        None => {
            let name = match member(value, "direction") {
                Some(d) => variant(d),
                None => None,
            };
            let direction = match name {
                Some(n) => {
                    if chars_equal(&n, "horizontal") {
                        Some(Direction::Horizontal)
                    } else if chars_equal(&n, "vertical") {
                        Some(Direction::Vertical)
                    } else {
                        None
                    }
                },
                None => None,
            };
            let direction = match direction {
                Some(d) => d,
                None => {
                    proof {
                        reveal_strlit("unknown split direction");
                    }
                    return Err(String::from_str("unknown split direction"));
                },
            };
            let children = match value.get("children") {
                Some(Json::Array(c)) => {
                    if c.len() != 2 {
                        proof {
                            reveal_strlit("split requires exactly two children");
                        }
                        return Err(String::from_str("split requires exactly two children"));
                    }
                    c
                },
                _ => {
                    proof {
                        reveal_strlit("split requires exactly two children");
                    }
                    return Err(String::from_str("split requires exactly two children"));
                },
            };
            let split = match value.present("split") {
                None => None,
                Some(Json::Number(n)) => Some(JsonNumber { unsigned: n.unsigned, text: n.text.clone() }),
                Some(_) => {
                    proof {
                        reveal_strlit("invalid split position");
                    }
                    return Err(String::from_str("invalid split position"));
                },
            };
            let start = layout(&children[0], depth + 1, surfaces)?;
            let end = layout(&children[1], depth + 1, surfaces)?;
            Ok(Layout::Split { direction, split, start: Box::new(start), end: Box::new(end) })
        },
    }
}

/// The workspace an action describes, by its fields' characters.
pub struct WorkspaceModel {
    pub name: Option<Seq<char>>,
    pub cwd: Option<Seq<char>>,
    pub color: Option<Seq<char>>,
    pub setup: Option<Seq<char>>,
    pub env: Seq<(Seq<char>, Seq<char>)>,
    pub layout: Option<LayoutModel>,
}

impl Workspace {
    /// This workspace by its fields' characters.
    pub open spec fn model(&self) -> WorkspaceModel {
        WorkspaceModel {
            name: opt_chars(self.name),
            cwd: opt_chars(self.cwd),
            color: opt_chars(self.color),
            setup: opt_chars(self.setup),
            env: self.env@,
            layout: match self.layout {
                Some(l) => Some(l.model()),
                None => None,
            },
        }
    }
}

/// A workspace action: launch texts, environment and topology, or the first problem found.
pub open spec fn spec_parse(v: Json) -> Result<WorkspaceModel, Seq<char>> {
    if !(v is Object) {
        Err("workspace action requires an object"@)
    } else {
        match launch_text(v, "name"@) {
            Err(m) => Err(m),
            Ok(name) => match launch_text(v, "cwd"@) {
                Err(m) => Err(m),
                Ok(cwd) => match launch_text(v, "color"@) {
                    Err(m) => Err(m),
                    Ok(color) => match launch_text(v, "setup"@) {
                        Err(m) => Err(m),
                        Ok(setup) => match spec_environment(v) {
                            Err(m) => Err(m),
                            Ok(env) => match present(v, "layout"@) {
                                None => Ok(WorkspaceModel { name, cwd, color, setup, env, layout: None }),
                                Some(l) => match spec_layout(l, 0, 0) {
                                    Err(m) => Err(m),
                                    Ok((layout, _)) => Ok(
                                        WorkspaceModel { name, cwd, color, setup, env, layout: Some(layout) },
                                    ),
                                },
                            },
                        },
                    },
                },
            },
        }
    }
}

/// Parse launch text, environment and topology without interpreting commands or applying colors.
pub fn parse(value: &Json) -> (r: Result<Workspace, String>)
    ensures
        match r {
            Ok(w) => spec_parse(*value) == Ok::<WorkspaceModel, Seq<char>>(w.model()),
            Err(e) => spec_parse(*value) == Err::<WorkspaceModel, Seq<char>>(e@),
        },
{
    if !value.is_object() {
        proof {
            reveal_strlit("workspace action requires an object");
        }
        return Err(String::from_str("workspace action requires an object"));
    }
    let name = text(value, "name")?;
    let cwd = text(value, "cwd")?;
    let color = text(value, "color")?;
    let setup = text(value, "setup")?;
    let env = environment(value)?;
    let layout = match value.present("layout") {
        None => None,
        Some(l) => {
            let mut surfaces: usize = 0;
            Some(layout(l, 0, &mut surfaces)?)
        },
    };
    Ok(Workspace { name, cwd, color, setup, env, layout })
}

/// Direction names read as themselves: a value naming `vertical` is the vertical direction and
/// one naming `horizontal` the horizontal one, and no other name is a direction.
pub proof fn law_direction_names(v: Json)
    ensures
        direction_of(v) == Some(Direction::Vertical) <==> variant_name(v) == Some("vertical"@),
        direction_of(v) == Some(Direction::Horizontal) <==> variant_name(v) == Some("horizontal"@),
        direction_of(v) is None <==> !(variant_name(v) == Some("vertical"@) || variant_name(v) == Some(
            "horizontal"@,
        )),
{
    reveal_strlit("vertical");
    reveal_strlit("horizontal");
    assert("vertical"@.len() != "horizontal"@.len());
}

/// A parsed split runs in the direction its `direction` member names.
pub proof fn law_split_follows_direction_name(v: Json, depth: nat, used: nat)
    ensures
        spec_layout(v, depth, used) matches Ok((LayoutModel::Split(d, _, _, _), _)) ==> variant_name(
            member_or_null(v, "direction"@),
        ) == Some(
            if d == Direction::Vertical {
                "vertical"@
            } else {
                "horizontal"@
            },
        ),
{
    law_direction_names(member_or_null(v, "direction"@));
}

} // verus!
