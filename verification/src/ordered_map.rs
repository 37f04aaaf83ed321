//! Maps that keep insertion order: `linked_hash_map::LinkedHashMap`.
//!
//! A manifest holds two of them: its scripts, and the record of where each
//! top-level key of the document stands. Verus reads neither the map nor its
//! methods. What a map holds is named (`script_entries`, `slot_entries`), and
//! each method that the crate calls has a wrapper here whose contract says
//! over that name what the method does.

use crate::entries::{has_key, put_last};
use crate::json::{Json, JsonValue};
use linked_hash_map::LinkedHashMap;
use vstd::prelude::*;

verus! {

/// `linked_hash_map::LinkedHashMap`: a hash map that hands its entries out
/// in the order in which they were put in.
#[verifier::external_type_specification]
#[verifier::external_body]
#[verifier::reject_recursive_types(K)]
#[verifier::reject_recursive_types(V)]
#[verifier::reject_recursive_types(S)]
pub struct ExLinkedHashMap<K, V, S>(LinkedHashMap<K, V, S>);

/// What a manifest keeps at the place of a top-level key.
#[derive(Debug)]
pub enum PkgJsonValue {
    /// The key is one of the recognized ones: its value is a field of the
    /// manifest.
    StoredElsewhere,
    /// Any other key, with its value.
    Value(JsonValue),
}

/// What a `PkgJsonValue` stands for.
pub enum Slot {
    Known,
    Raw(Json),
}

impl View for PkgJsonValue {
    type V = Slot;

    open spec fn view(&self) -> Slot {
        match self {
            PkgJsonValue::StoredElsewhere => Slot::Known,
            PkgJsonValue::Value(value) => Slot::Raw(value@),
        }
    }
}

impl Clone for PkgJsonValue {
    fn clone(&self) -> (r: PkgJsonValue)
        ensures
            r@ == self@,
    {
        match self {
            PkgJsonValue::StoredElsewhere => PkgJsonValue::StoredElsewhere,
            PkgJsonValue::Value(value) => PkgJsonValue::Value(value.duplicate()),
        }
    }
}

/// What a list of pairs of strings stands for.
pub open spec fn pairs_view(pairs: Seq<(String, String)>) -> Seq<(Seq<char>, Seq<char>)> {
    Seq::new(pairs.len(), |i: int| (pairs[i].0@, pairs[i].1@))
}

/// What a list of keys with their slots stands for.
pub open spec fn slots_view(slots: Seq<(String, PkgJsonValue)>) -> Seq<(Seq<char>, Slot)> {
    Seq::new(slots.len(), |i: int| (slots[i].0@, slots[i].1@))
}

/// The entries of a map of scripts, in the order in which it hands them out.
pub uninterp spec fn script_entries(map: LinkedHashMap<String, String>) -> Seq<
    (Seq<char>, Seq<char>),
>;

/// The entries of a map of slots, in the order in which it hands them out.
pub uninterp spec fn slot_entries(map: LinkedHashMap<String, PkgJsonValue>) -> Seq<
    (Seq<char>, Slot),
>;

/// `LinkedHashMap::new`: a map without entries.
#[verifier::external_body]
pub(crate) fn scripts_new() -> (map: LinkedHashMap<String, String>)
    ensures
        script_entries(map) == Seq::<(Seq<char>, Seq<char>)>::empty(),
{
    LinkedHashMap::new()
}

/// `LinkedHashMap::insert`: an entry that stood under the key leaves, and
/// the new entry comes last.
#[verifier::external_body]
pub(crate) fn scripts_insert(map: &mut LinkedHashMap<String, String>, key: String, value: String)
    ensures
        script_entries(*final(map)) == put_last(script_entries(*old(map)), key@, value@),
{
    map.insert(key, value);
}

/// `LinkedHashMap::is_empty`: whether the map has no entry.
#[verifier::external_body]
pub(crate) fn scripts_is_empty(map: &LinkedHashMap<String, String>) -> (r: bool)
    ensures
        r == (script_entries(*map).len() == 0),
{
    map.is_empty()
}

/// `LinkedHashMap::contains_key`: whether an entry stands under the key.
#[verifier::external_body]
pub(crate) fn scripts_contains_key(map: &LinkedHashMap<String, String>, key: &str) -> (r: bool)
    ensures
        r == has_key(script_entries(*map), key@),
{
    map.contains_key(key)
}

/// `LinkedHashMap::iter`: the entries in the map's order, each copied.
#[verifier::external_body]
pub(crate) fn scripts_items(map: &LinkedHashMap<String, String>) -> (r: Vec<(String, String)>)
    ensures
        pairs_view(r@) == script_entries(*map),
{
    map.iter().map(|(key, value)| (key.clone(), value.clone())).collect()
}

/// `LinkedHashMap::with_capacity`: a map without entries.
#[verifier::external_body]
pub(crate) fn slots_with_capacity(capacity: usize) -> (map: LinkedHashMap<String, PkgJsonValue>)
    ensures
        slot_entries(map) == Seq::<(Seq<char>, Slot)>::empty(),
{
    LinkedHashMap::with_capacity(capacity)
}

/// `LinkedHashMap::insert`: an entry that stood under the key leaves, and
/// the new entry comes last.
#[verifier::external_body]
pub(crate) fn slots_insert(
    map: &mut LinkedHashMap<String, PkgJsonValue>,
    key: String,
    value: PkgJsonValue,
)
    ensures
        slot_entries(*final(map)) == put_last(slot_entries(*old(map)), key@, value@),
{
    map.insert(key, value);
}

/// `LinkedHashMap::contains_key`: whether an entry stands under the key.
#[verifier::external_body]
pub(crate) fn slots_contains_key(map: &LinkedHashMap<String, PkgJsonValue>, key: &str) -> (r:
    bool)
    ensures
        r == has_key(slot_entries(*map), key@),
{
    map.contains_key(key)
}

/// `LinkedHashMap::iter`: the entries in the map's order, each copied.
#[verifier::external_body]
pub(crate) fn slots_items(map: &LinkedHashMap<String, PkgJsonValue>) -> (r: Vec<
    (String, PkgJsonValue),
>)
    ensures
        slots_view(r@) == slot_entries(*map),
{
    map.iter().map(|(key, value)| (key.clone(), value.clone())).collect()
}

} // verus!
