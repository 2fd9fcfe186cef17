//! The boundary to the template engine and to the serialized context formats.
//!
//! Every `#[verifier::external_body]` function here is a trusted item: its
//! body makes one call into an outside crate (or into a part of std that vstd
//! leaves unspecified) and its contract states what that crate's source shows.
//! The `uninterp` functions name results that would take pages to state.

use vstd::prelude::*;

use crate::context::ContextValue;
use crate::errors::ErrorKind;

verus! {

// ---------------------------------------------------------------------------
// Ordinary (verified) spec helpers over sequences of (key, value-text) pairs.
// ---------------------------------------------------------------------------

/// No two pairs of `s` share a key.
pub open spec fn pairs_keys_unique(s: Seq<(Seq<char>, Seq<char>)>) -> bool {
    forall|i: int, j: int| 0 <= i < j < s.len() ==> (#[trigger] s[i]).0 != (#[trigger] s[j]).0
}

/// Every value text of `s` parses as JSON.
pub open spec fn pairs_values_json(s: Seq<(Seq<char>, Seq<char>)>) -> bool {
    forall|i: int| 0 <= i < s.len() ==> json_valid((#[trigger] s[i]).1)
}

/// The empty mapping from keys to texts.
pub open spec fn empty_str_map() -> Map<Seq<char>, Seq<char>> {
    Map::empty()
}

/// The mapping that a pair sequence denotes; a later pair wins its key.
pub open spec fn pairs_map(s: Seq<(Seq<char>, Seq<char>)>) -> Map<Seq<char>, Seq<char>>
    decreases s.len(),
{
    if s.len() == 0 {
        Map::empty()
    } else {
        pairs_map(s.drop_last()).insert(s.last().0, s.last().1)
    }
}

// ---------------------------------------------------------------------------
// Names for results of outside calls.
// ---------------------------------------------------------------------------

/// Whether a text parses as a JSON value; the result of
/// `serde_json::from_str::<serde_json::Value>` depends on the text alone.
pub uninterp spec fn json_valid(text: Seq<char>) -> bool;

/// The top-level entries of a JSON object text, each value re-serialized as
/// JSON text; `None` where the text is not a JSON object. A function of the
/// text alone.
pub uninterp spec fn json_object_entries(text: Seq<char>) -> Option<Seq<(Seq<char>, Seq<char>)>>;

/// The top-level entries of a TOML document, each value re-serialized as JSON
/// text; `None` where the text is not well-formed TOML. A function of the
/// text alone.
pub uninterp spec fn toml_table_entries(text: Seq<char>) -> Option<Seq<(Seq<char>, Seq<char>)>>;

/// The templates a `tera::Tera` instance holds: a mapping from template name
/// to template source text.
pub uninterp spec fn tera_templates(t: tera::Tera) -> Map<Seq<char>, Seq<char>>;

/// Whether registering `batch` on top of the `existing` templates compiles:
/// every template of the combined set parses and finds the parents it
/// inherits from within that set. A function of the two template sets alone.
pub uninterp spec fn tera_batch_ok(
    existing: Map<Seq<char>, Seq<char>>,
    batch: Seq<(Seq<char>, Seq<char>)>,
) -> bool;

/// The possible outcomes of evaluating template `name` from `templates`
/// against the context `ctx`: `Some(text)` for a render that produced
/// `text`, `None` for a render that failed. A template may draw on the
/// clock, the environment or a random number, so this is a relation over
/// outcomes, not a function to one outcome.
pub uninterp spec fn tera_render_may(
    templates: Map<Seq<char>, Seq<char>>,
    ctx: Map<Seq<char>, Seq<char>>,
    name: Seq<char>,
    outcome: Option<Seq<char>>,
) -> bool;

// ---------------------------------------------------------------------------
// Trusted wrappers.
// ---------------------------------------------------------------------------

/// Relies on `serde_json::from_str::<serde_json::Value>`: it succeeds exactly
/// on well-formed JSON text.
#[verifier::external_body]
pub(crate) fn is_valid_json(text: &str) -> (r: bool)
    ensures
        r == json_valid(text@),
{
    serde_json::from_str::<serde_json::Value>(text).is_ok()
}

/// Relies on `serde_json::from_str::<serde_json::Value>` and
/// `serde_json::to_string`: a JSON object's top-level entries carry unique
/// keys (they come out of a map) and each value re-serializes as JSON text.
#[verifier::external_body]
pub(crate) fn parse_json_object(text: &str) -> (r: Option<Vec<(String, String)>>)
    ensures
        (r is Some) == (json_object_entries(text@) is Some),
        r is Some ==> r->Some_0.deep_view() == json_object_entries(text@)->Some_0,
        r is Some ==> pairs_keys_unique(r->Some_0.deep_view()),
        r is Some ==> pairs_values_json(r->Some_0.deep_view()),
{
    match serde_json::from_str::<serde_json::Value>(text) {
        Ok(serde_json::Value::Object(map)) => Some(
            map.into_iter()
                .map(|(k, v)| (k, serde_json::to_string(&v).unwrap_or_default()))
                .collect(),
        ),
        _ => None,
    }
}

/// Relies on `str::parse::<toml::Value>` and `serde_json::to_string`: a TOML
/// document's top level is a table with unique keys, and each of its values
/// is re-serialized through serde. Whether a re-serialized value parses
/// again as JSON is not claimed here — the two parsers' nesting limits
/// differ — so the caller checks each value before building on it.
#[verifier::external_body]
pub(crate) fn parse_toml_table(text: &str) -> (r: Option<Vec<(String, String)>>)
    ensures
        (r is Some) == (toml_table_entries(text@) is Some),
        r is Some ==> r->Some_0.deep_view() == toml_table_entries(text@)->Some_0,
        r is Some ==> pairs_keys_unique(r->Some_0.deep_view()),
{
    match text.parse::<toml::Value>() {
        Ok(toml::Value::Table(table)) => Some(
            table
                .into_iter()
                .map(|(k, v)| (k, serde_json::to_string(&v).unwrap_or_default()))
                .collect(),
        ),
        _ => None,
    }
}

/// Relies on `core::str::from_utf8`: it succeeds exactly on valid UTF-8 and
/// yields its decoding.
#[verifier::external_body]
pub(crate) fn utf8_str(bytes: &Vec<u8>) -> (r: Option<&str>)
    ensures
        (r is Some) == vstd::utf8::valid_utf8(bytes@),
        r is Some ==> r->Some_0@ == vstd::utf8::decode_utf8(bytes@),
{
    core::str::from_utf8(bytes.as_slice()).ok()
}

/// The outside template engine's instance type.
#[verifier::external_type_specification]
#[verifier::external_body]
pub struct ExTera(tera::Tera);

/// Relies on `tera::Tera::default`: a fresh engine holds no templates.
#[verifier::external_body]
pub(crate) fn tera_empty() -> (t: tera::Tera)
    ensures
        tera_templates(t) == empty_str_map(),
{
    tera::Tera::default()
}

/// Relies on the `Clone` derive of `tera::Tera`: a clone holds the same
/// templates.
#[verifier::external_body]
pub(crate) fn tera_duplicate(t: &tera::Tera) -> (r: tera::Tera)
    ensures
        tera_templates(r) == tera_templates(*t),
{
    t.clone()
}

/// Relies on `tera::Tera::add_raw_templates`: it registers every pair of the
/// batch under its name, a later pair overriding an earlier one and the
/// batch overriding what was present, and fails exactly when the combined
/// set does not compile (a template does not parse, or inherits from a
/// parent absent from the combined set); on failure the engine's contents
/// are unspecified.
#[verifier::external_body]
pub(crate) fn tera_add_raw_templates(t: &mut tera::Tera, batch: &Vec<(String, String)>) -> (r:
    Result<(), ()>)
    ensures
        (r is Ok) == tera_batch_ok(tera_templates(*old(t)), batch.deep_view()),
        r is Ok ==> tera_templates(*final(t)) == tera_templates(*old(t)).union_prefer_right(
            pairs_map(batch.deep_view()),
        ),
{
    match t.add_raw_templates(batch.iter().map(|p| (p.0.as_str(), p.1.as_str()))) {
        Ok(()) => Ok(()),
        Err(_) => Err(()),
    }
}

/// Relies on `tera::Tera::render`, `tera::Context::insert` and
/// `serde_json::from_str`: the context seen by the engine is the mapping the
/// entries denote, a missing template is reported as such before evaluation
/// starts, and every other failure arises during evaluation.
#[verifier::external_body]
pub(crate) fn tera_render_template(t: &tera::Tera, name: &str, ctx: &ContextValue) -> (r: Result<
    String,
    ErrorKind,
>)
    requires
        pairs_values_json(ctx.entries_seq()),
    ensures
        r is Ok ==> tera_templates(*t).contains_key(name@),
        r is Ok ==> tera_render_may(tera_templates(*t), ctx@, name@, Some(r->Ok_0@)),
        r is Err ==> tera_render_may(tera_templates(*t), ctx@, name@, None),
        r is Err ==> r->Err_0 == ErrorKind::NotFound || r->Err_0 == ErrorKind::Eval,
        !tera_templates(*t).contains_key(name@) ==> r is Err && r->Err_0 == ErrorKind::NotFound,
{
    let mut c = tera::Context::new();
    for (k, v) in ctx.entries.iter() {
        let val: serde_json::Value = serde_json::from_str(v).expect("entry text is JSON");
        c.insert(k.as_str(), &val);
    }
    match t.render(name, &c) {
        Ok(s) => Ok(s),
        Err(e) => match e.kind {
            tera::ErrorKind::TemplateNotFound(_) => Err(ErrorKind::NotFound),
            _ => Err(ErrorKind::Eval),
        },
    }
}

} // verus!
