//! Runtime Herdr plugin context and the lookup of the target pane in it.

use crate::model::PaneId;
use vstd::prelude::*;
use vstd::string::StringExecFns;

verus! {

/// The string that the JSON pointer `pointer` (RFC 6901) addresses in the
/// JSON document `text`, as serde_json's `Value::pointer` finds it; `None`
/// when `text` is not JSON, when nothing stands at `pointer`, or when what
/// stands there is not a string.
pub uninterp spec fn json_string_at(text: Seq<char>, pointer: Seq<char>) -> Option<Seq<char>>;

/// Parses `text` with `serde_json::from_str` into a `serde_json::Value`,
/// looks `pointer` up with `Value::pointer`, and returns the string found
/// there with `Value::as_str`. The contract claims exactly that the result
/// is [`json_string_at`] of the two arguments.
#[verifier::external_body]
fn json_pointer_string(text: &str, pointer: &str) -> (found: Option<String>)
    ensures
        match found {
            Some(s) => json_string_at(text@, pointer@) == Some(s@),
            None => json_string_at(text@, pointer@) is None,
        },
{
    let value: serde_json::Value = serde_json::from_str(text).ok()?;
    value.pointer(pointer)?.as_str().map(str::to_string)
}

/// The JSON pointer of a path of object keys: each key preceded by `/`.
pub open spec fn pointer_of(path: Seq<Seq<char>>) -> Seq<char>
    decreases path.len(),
{
    if path.len() == 0 {
        Seq::empty()
    } else {
        pointer_of(path.drop_last()) + "/"@ + path.last()
    }
}

/// The string at the first of `paths` where the JSON document `text` holds
/// one.
pub open spec fn first_string_at(text: Seq<char>, paths: Seq<Seq<Seq<char>>>) -> Option<Seq<char>>
    decreases paths.len(),
{
    if paths.len() == 0 {
        None
    } else {
        match json_string_at(text, pointer_of(paths[0])) {
            Some(s) => Some(s),
            None => first_string_at(text, paths.drop_first()),
        }
    }
}

/// Where a Herdr plugin context may name the pane to act on, in order of preference.
pub open spec fn pane_id_paths() -> Seq<Seq<Seq<char>>> {
    seq![
        seq!["focused_pane"@, "id"@],
        seq!["pane"@, "id"@],
        seq!["target_pane"@, "id"@],
        seq!["focused_pane_id"@],
        seq!["pane_id"@],
        seq!["target_pane_id"@],
    ]
}

/// The pane a context names: the explicit pane id when there is one, else
/// the first pane id found in the context JSON.
pub open spec fn context_target(pane_id: Option<Seq<char>>, context_json: Option<Seq<char>>) -> Option<
    Seq<char>,
> {
    match pane_id {
        Some(p) => Some(p),
        None => match context_json {
            Some(json) => first_string_at(json, pane_id_paths()),
            None => None,
        },
    }
}

/// The JSON pointer of a path of object keys.
fn pointer_text(path: &[&str]) -> (pointer: String)
    ensures
        pointer@ == pointer_of(path@.map_values(|k: &str| k@)),
{
    let ghost keys = path@.map_values(|k: &str| k@);
    let mut pointer = String::new();
    let mut i: usize = 0;
    while i < path.len()
        invariant
            keys == path@.map_values(|k: &str| k@),
            i <= path@.len(),
            pointer@ == pointer_of(keys.take(i as int)),
        decreases path@.len() - i,
    {
        assert(keys.take(i + 1).drop_last() =~= keys.take(i as int));
        pointer.append("/");
        pointer.append(path[i]);
        i = i + 1;
    }
    assert(keys.take(path@.len() as int) =~= keys);
    pointer
}

/// Looks up each of `paths` in the JSON document `text` in turn, returning
/// the first string found.
fn find_string_at_paths(text: &str, paths: &Vec<Vec<&str>>) -> (found: Option<String>)
    ensures
        match found {
            Some(s) => first_string_at(
                text@,
                paths@.map_values(|p: Vec<&str>| p@.map_values(|k: &str| k@)),
            ) == Some(s@),
            None => first_string_at(
                text@,
                paths@.map_values(|p: Vec<&str>| p@.map_values(|k: &str| k@)),
            ) is None,
        },
{
    let ghost all = paths@.map_values(|p: Vec<&str>| p@.map_values(|k: &str| k@));
    let mut i: usize = 0;
    assert(all.skip(0) =~= all);
    while i < paths.len()
        invariant
            all == paths@.map_values(|p: Vec<&str>| p@.map_values(|k: &str| k@)),
            i <= paths@.len(),
            first_string_at(text@, all) == first_string_at(text@, all.skip(i as int)),
        decreases paths@.len() - i,
    {
        let pointer = pointer_text(paths[i].as_slice());
        let found = json_pointer_string(text, pointer.as_str());
        assert(all.skip(i as int)[0] == all[i as int]);
        assert(all.skip(i as int).drop_first() =~= all.skip(i + 1));
        if found.is_some() {
            return found;
        }
        i = i + 1;
    }
    None
}

/// A path of one or two object keys.
fn key_path(first: &'static str, second: Option<&'static str>) -> (path: Vec<&'static str>)
    ensures
        path@.map_values(|k: &str| k@) == match second {
            Some(k) => seq![first@, k@],
            None => seq![first@],
        },
{
    let mut path: Vec<&'static str> = Vec::new();
    path.push(first);
    if let Some(k) = second {
        path.push(k);
    }
    assert(path@.map_values(|k: &str| k@) =~= match second {
        Some(k) => seq![first@, k@],
        None => seq![first@],
    });
    path
}

/// The candidate key paths of [`pane_id_paths`].
fn pane_id_path_list() -> (paths: Vec<Vec<&'static str>>)
    ensures
        paths@.map_values(|p: Vec<&str>| p@.map_values(|k: &str| k@)) == pane_id_paths(),
{
    let mut paths: Vec<Vec<&'static str>> = Vec::new();
    paths.push(key_path("focused_pane", Some("id")));
    paths.push(key_path("pane", Some("id")));
    paths.push(key_path("target_pane", Some("id")));
    paths.push(key_path("focused_pane_id", None));
    paths.push(key_path("pane_id", None));
    paths.push(key_path("target_pane_id", None));
    assert(paths@.map_values(|p: Vec<&str>| p@.map_values(|k: &str| k@)) =~= pane_id_paths());
    paths
}

/// Runtime Herdr/plugin context used to discover binaries and the source pane.
#[derive(Debug, Clone, PartialEq, Eq)]
pub struct HerdrContext {
    pub herdr_bin: String,
    pub plugin_id: Option<String>,
    pub context_json: Option<String>,
    pub pane_id: Option<String>,
}

/// View of an optional string.
pub open spec fn opt_text(s: Option<String>) -> Option<Seq<char>> {
    match s {
        Some(t) => Some(t@),
        None => None,
    }
}

impl HerdrContext {
    /// The pane to act on: the explicit pane id when set, else the first pane
    /// id that the plugin context JSON names.
    pub fn target_pane(&self) -> (pane: Option<PaneId>)
        ensures
            match pane {
                Some(p) => context_target(opt_text(self.pane_id), opt_text(self.context_json))
                    == Some(p.0@),
                None => context_target(opt_text(self.pane_id), opt_text(self.context_json)) is None,
            },
    {
        if let Some(pane_id) = &self.pane_id {
            return Some(PaneId(pane_id.clone()));
        }
        let context = match &self.context_json {
            Some(c) => c,
            None => {
                return None;
            },
        };
        let paths = pane_id_path_list();
        match find_string_at_paths(context.as_str(), &paths) {
            Some(id) => Some(PaneId(id)),
            None => None,
        }
    }
}

} // verus!
