//! The project-action palette's entries: visible executable actions of a resolved
//! configuration, with their display texts.
use crate::json::{get, Json};
use vstd::prelude::*;
use vstd::string::StringExecFns;

verus! {

/// One palette entry: the action, the fingerprint it was reviewed under, its texts, and the
/// workspace it runs in.
#[derive(Debug)]
pub struct PaletteItem {
    pub id: String,
    pub fingerprint: String,
    pub title: String,
    pub subtitle: String,
    pub workspace: u128,
}

/// A palette entry by its texts: identity, fingerprint, title and subtitle.
pub type ItemModel = (Seq<char>, Seq<char>, Seq<char>, Seq<char>);

/// The value at a two-step path of object members.
pub open spec fn at(v: Json, first: Seq<char>, second: Seq<char>) -> Option<Json> {
    match get(v, first) {
        Some(x) => get(x, second),
        None => None,
    }
}

/// Whether an action is offered: not hidden by `definition.palette: false` and not a
/// metadata-only intent.
pub open spec fn offered(action: Json) -> bool {
    at(action, "definition"@, "palette"@) != Some(Json::Bool(false)) && !(at(
        action,
        "intent"@,
        "type"@,
    ) matches Some(Json::Str(t)) && t@ == "metadata"@)
}

/// The text of a string value, or `default`.
pub open spec fn str_or(v: Option<Json>, default: Seq<char>) -> Seq<char> {
    match v {
        Some(Json::Str(s)) => s@,
        _ => default,
    }
}

/// The entry for an offered action: it needs a definition and a string fingerprint; the title
/// defaults to the identity, the subtitle falls back to the description only when absent.
pub open spec fn item_of(id: Seq<char>, action: Json) -> Option<ItemModel> {
    match (get(action, "definition"@), get(action, "fingerprint"@)) {
        (Some(definition), Some(Json::Str(fingerprint))) => Some(
            (
                id,
                fingerprint@,
                str_or(get(definition, "title"@), id),
                str_or(
                    if get(definition, "subtitle"@) is Some {
                        get(definition, "subtitle"@)
                    } else {
                        get(definition, "description"@)
                    },
                    Seq::empty(),
                ),
            ),
        ),
        _ => None,
    }
}

/// The entries of some actions, in their order.
pub open spec fn entries(actions: Seq<(String, Json)>) -> Seq<ItemModel>
    decreases actions.len(),
{
    if actions.len() == 0 {
        Seq::empty()
    } else {
        let prev = entries(actions.drop_last());
        let (id, action) = actions.last();
        if offered(action) && item_of(id@, action) is Some {
            prev.push(item_of(id@, action)->Some_0)
        } else {
            prev
        }
    }
}

/// The entries a listing result offers: those of its `config.actions` object, if any.
pub open spec fn result_entries(result: Json) -> Seq<ItemModel> {
    match at(result, "config"@, "actions"@) {
        Some(Json::Object(actions)) => entries(actions@),
        _ => Seq::empty(),
    }
}

impl PaletteItem {
    /// This entry by its texts.
    pub open spec fn model(&self) -> ItemModel {
        (self.id@, self.fingerprint@, self.title@, self.subtitle@)
    }
}

/// The value at a two-step path of object members.
fn at_path<'a>(v: &'a Json, first: &str, second: &str) -> (r: Option<&'a Json>)
    ensures
        r matches Some(x) ==> at(*v, first@, second@) == Some(*x),
        r is None ==> at(*v, first@, second@) is None,
{
    match v.get(first) {
        Some(x) => x.get(second),
        None => None,
    }
}

/// The text of a string value, or `default`.
fn text_or(v: Option<&Json>, default: &str) -> (r: String)
    ensures
        r@ == str_or(
            match v {
                Some(x) => Some(*x),
                None => None,
            },
            default@,
        ),
{
    match v {
        Some(Json::Str(s)) => s.clone(),
        _ => String::from_str(default),
    }
}

/// The text of a string value, or empty.
fn text_or_empty(v: Option<&Json>) -> (r: String)
    ensures
        r@ == str_or(
            match v {
                Some(x) => Some(*x),
                None => None,
            },
            Seq::empty(),
        ),
{
    match v {
        Some(Json::Str(s)) => s.clone(),
        _ => String::new(),
    }
}

/// Extract the visible executable actions of a listing result for presentation in `workspace`.
pub fn action_items(result: &Json, workspace: u128) -> (r: Vec<PaletteItem>)
    ensures
        r@.len() == result_entries(*result).len(),
        forall|i: int|
            0 <= i < r@.len() ==> (#[trigger] r@[i]).model() == result_entries(*result)[i]
                && r@[i].workspace == workspace,
{
    proof {
        reveal_strlit("config");
        reveal_strlit("actions");
        reveal_strlit("definition");
        reveal_strlit("palette");
        reveal_strlit("intent");
        reveal_strlit("type");
        reveal_strlit("metadata");
        reveal_strlit("fingerprint");
        reveal_strlit("title");
        reveal_strlit("subtitle");
        reveal_strlit("description");
    }
    let mut out: Vec<PaletteItem> = Vec::new();
    let actions = match at_path(result, "config", "actions") {
        Some(Json::Object(actions)) => actions,
        _ => {
            return out;
        },
    };
    let mut k: usize = 0;
    while k < actions.len()
        invariant
            at(*result, "config"@, "actions"@) == Some(Json::Object(*actions)),
            k <= actions@.len(),
            out@.len() == entries(actions@.take(k as int)).len(),
            forall|i: int|
                0 <= i < out@.len() ==> (#[trigger] out@[i]).model() == entries(
                    actions@.take(k as int),
                )[i] && out@[i].workspace == workspace,
        decreases actions@.len() - k,
    {
        proof {
            assert(actions@.take(k + 1).drop_last() =~= actions@.take(k as int));
            assert(actions@.take(k + 1).last() == actions@[k as int]);
        }
        let (id, action) = (&actions[k].0, &actions[k].1);
        let hidden = match at_path(action, "definition", "palette") {
            Some(Json::Bool(false)) => true,
            _ => false,
        };
        let metadata = match at_path(action, "intent", "type") {
            Some(Json::Str(t)) => crate::text::chars_equal(&crate::text::chars_of(t.as_str()), "metadata"),
            _ => false,
        };
        if !hidden && !metadata {
            match (action.get("definition"), action.get("fingerprint")) {
                (Some(definition), Some(Json::Str(fingerprint))) => {
                    let title = text_or(definition.get("title"), id.as_str());
                    let subtitle = match definition.get("subtitle") {
                        Some(x) => text_or_empty(Some(x)),
                        None => text_or_empty(definition.get("description")),
                    };
                    proof {
                        let m = item_of(id@, *action);
                        assert(offered(*action));
                        assert(m is Some);
                        assert(m->Some_0 == (id@, fingerprint@, title@, subtitle@));
                        assert(entries(actions@.take(k + 1)) == entries(actions@.take(k as int)).push(
                            m->Some_0,
                        ));
                    }
                    out.push(
                        PaletteItem {
                            id: id.clone(),
                            fingerprint: fingerprint.clone(),
                            title,
                            subtitle,
                            workspace,
                        },
                    );
                },
                _ => {
                    assert(item_of(id@, *action) is None);
                },
            }
        } else {
            assert(!offered(*action));
        }
        k = k + 1;
    }
    assert(actions@.take(k as int) =~= actions@);
    out
}

} // verus!
