//! The outside items that the library relies on, each with the contract it is
//! trusted to meet.

use vstd::prelude::*;

use indexmap::{IndexMap, IndexSet};
use wdl_engine::{CompoundValue, PrimitiveValue, Value};

use crate::file::{is_object, root_members, Parsed};
use crate::inputs::distinct_keys;

verus! {

/// A runtime value of the execution engine. The library carries values
/// through without looking inside them.
#[verifier::external_type_specification]
#[verifier::external_body]
pub struct ExValue(wdl_engine::Value);

/// Relies on the derived `Clone` of `wdl_engine::Value`: a clone is the same
/// value (its shared parts are shared, not copied).
pub assume_specification[ <wdl_engine::Value as Clone>::clone ](v: &wdl_engine::Value) -> (r:
    wdl_engine::Value)
    ensures
        r == *v,
;

/// An error of the operating system while reading a file.
#[verifier::external_type_specification]
#[verifier::external_body]
pub struct ExIoError(std::io::Error);

/// An insertion-ordered hash map.
#[verifier::external_type_specification]
#[verifier::external_body]
#[verifier::reject_recursive_types(K)]
#[verifier::reject_recursive_types(V)]
#[verifier::reject_recursive_types(S)]
pub struct ExIndexMap<K, V, S>(indexmap::IndexMap<K, V, S>);

/// An insertion-ordered hash set.
#[verifier::external_type_specification]
#[verifier::external_body]
#[verifier::reject_recursive_types(T)]
#[verifier::reject_recursive_types(S)]
pub struct ExIndexSet<T, S>(indexmap::IndexSet<T, S>);

/// Whether the regular expression `pattern` compiles and matches `text`.
pub uninterp spec fn regex_matches(pattern: Seq<char>, text: Seq<char>) -> bool;

/// What JSON makes of `text` as a value of the engine: `None` where it does
/// not parse; otherwise the value, with the members of the root, in order,
/// where the root is an object.
pub uninterp spec fn json_document(text: Seq<char>) -> Option<(Value, Option<Seq<(Seq<char>, Value)>>)>;

/// What YAML makes of `text` as a value of the engine, in the same terms.
pub uninterp spec fn yaml_document(text: Seq<char>) -> Option<(Value, Option<Seq<(Seq<char>, Value)>>)>;

/// The string value of the engine that holds `text`.
pub uninterp spec fn string_of(text: Seq<char>) -> Value;

/// The entries of an index map from keys to positions, in order.
pub uninterp spec fn index_entries(m: IndexMap<String, usize>) -> Seq<(Seq<char>, usize)>;

/// The members of an index set of strings, in order.
pub uninterp spec fn set_entries(s: IndexSet<String>) -> Seq<Seq<char>>;

/// Relies on `regex::Regex::new` and `regex::Regex::is_match`: the answer
/// depends on the pattern and the text alone.
#[verifier::external_body]
pub(crate) fn pattern_matches(pattern: &str, text: &str) -> (r: bool)
    ensures
        r == regex_matches(pattern@, text@),
{
    match regex::Regex::new(pattern) {
        Ok(re) => re.is_match(text),
        Err(_) => false,
    }
}

/// Relies on `serde_json::from_str` into the engine's `Value`: whether the
/// text parses, and the members of a root object, depend on the text alone.
#[verifier::external_body]
pub(crate) fn parse_json(text: &str) -> (r: Parsed)
    ensures
        r@ == json_document(text@),
        is_object(r@) ==> distinct_keys(root_members(r@)),
{
    match serde_json::from_str::<Value>(text) {
        Err(_) => Parsed::Invalid,
        Ok(value) => {
            let members = match &value {
                Value::Compound(CompoundValue::Object(o)) => Some(
                    o.iter().map(|(k, v)| (k.to_string(), v.clone())).collect(),
                ),
                _ => None,
            };
            Parsed::Document { value, members }
        },
    }
}

/// Relies on `serde_yaml_ng::from_str` into the engine's `Value`: whether the
/// text parses, and the members of a root object, depend on the text alone.
#[verifier::external_body]
pub(crate) fn parse_yaml(text: &str) -> (r: Parsed)
    ensures
        r@ == yaml_document(text@),
        is_object(r@) ==> distinct_keys(root_members(r@)),
{
    match serde_yaml_ng::from_str::<Value>(text) {
        Err(_) => Parsed::Invalid,
        Ok(value) => {
            let members = match &value {
                Value::Compound(CompoundValue::Object(o)) => Some(
                    o.iter().map(|(k, v)| (k.to_string(), v.clone())).collect(),
                ),
                _ => None,
            };
            Parsed::Document { value, members }
        },
    }
}

/// Relies on `wdl_engine::PrimitiveValue::new_string`: a string value that
/// holds `text`.
#[verifier::external_body]
pub(crate) fn string_value(text: &str) -> (r: Value)
    ensures
        r == string_of(text@),
{
    Value::Primitive(PrimitiveValue::new_string(text))
}

/// Relies on `std::path::Path::exists`: whether the file system holds an
/// entry at `path` now. Nothing is promised of the answer.
#[verifier::external_body]
pub(crate) fn path_exists(path: &str) -> (r: bool) {
    std::path::Path::new(path).exists()
}

/// Relies on `indexmap::IndexMap::new`: a map with no entries.
#[verifier::external_body]
pub(crate) fn index_new() -> (r: IndexMap<String, usize>)
    ensures
        index_entries(r) == Seq::<(Seq<char>, usize)>::empty(),
{
    IndexMap::new()
}

/// Relies on `indexmap::IndexMap::get_index_of`: the position of the entry
/// whose key is `key`, if there is one.
#[verifier::external_body]
pub(crate) fn index_of(m: &IndexMap<String, usize>, key: &str) -> (r: Option<usize>)
    ensures
        r matches Some(i) ==> i < index_entries(*m).len() && index_entries(*m)[i as int].0
            == key@,
        r is None ==> forall|i: int|
            0 <= i < index_entries(*m).len() ==> index_entries(*m)[i].0 != key@,
{
    m.get_index_of(key)
}

/// Relies on `indexmap::IndexMap::insert`: a new key goes last; an existing
/// key keeps its place and takes the new value.
#[verifier::external_body]
pub(crate) fn index_insert(m: &mut IndexMap<String, usize>, key: String, value: usize)
    ensures
        (forall|i: int|
            0 <= i < index_entries(*old(m)).len() ==> index_entries(*old(m))[i].0 != key@)
            ==> index_entries(*final(m)) == index_entries(*old(m)).push((key@, value)),
        forall|i: int|
            0 <= i < index_entries(*old(m)).len() && index_entries(*old(m))[i].0 == key@
                ==> index_entries(*final(m)) == index_entries(*old(m)).update(i, (key@, value)),
{
    m.insert(key, value);
}

/// Relies on `indexmap::IndexSet::new`: a set with no members.
#[verifier::external_body]
pub(crate) fn set_new() -> (r: IndexSet<String>)
    ensures
        set_entries(r) == Seq::<Seq<char>>::empty(),
{
    IndexSet::new()
}

/// Relies on `indexmap::IndexSet::len`: the number of members.
#[verifier::external_body]
pub(crate) fn set_len(s: &IndexSet<String>) -> (r: usize)
    ensures
        r == set_entries(*s).len(),
{
    s.len()
}

/// Relies on `indexmap::IndexSet::get_index`: the member at position `i`.
#[verifier::external_body]
pub(crate) fn set_get(s: &IndexSet<String>, i: usize) -> (r: Option<String>)
    requires
        i < set_entries(*s).len(),
    ensures
        r is Some,
        r->Some_0@ == set_entries(*s)[i as int],
{
    s.get_index(i).cloned()
}

/// Relies on `indexmap::IndexSet::insert`: a new member goes last; an
/// existing one leaves the set as it was.
#[verifier::external_body]
pub(crate) fn set_insert(s: &mut IndexSet<String>, value: String) -> (r: bool)
    ensures
        r == !set_entries(*old(s)).contains(value@),
        r ==> set_entries(*final(s)) == set_entries(*old(s)).push(value@),
        !r ==> set_entries(*final(s)) == set_entries(*old(s)),
{
    s.insert(value)
}

/// Relies on `indexmap::IndexSet::swap_remove`: a member is removed by
/// moving the last member into its place.
#[verifier::external_body]
pub(crate) fn set_swap_remove(s: &mut IndexSet<String>, value: &str) -> (r: bool)
    ensures
        r == set_entries(*old(s)).contains(value@),
        !r ==> set_entries(*final(s)) == set_entries(*old(s)),
        forall|i: int|
            0 <= i < set_entries(*old(s)).len() && set_entries(*old(s))[i] == value@
                ==> set_entries(*final(s)) == set_entries(*old(s)).update(
                i,
                set_entries(*old(s)).last(),
            ).drop_last(),
{
    s.swap_remove(value)
}

} // verus!
