//! The table that indexes, per world session, the assets still being loaded.
//!
//! The table is a hash map of `bevy_utils`. Verus does not look inside it:
//! what it holds is named by `table_contents`, and the functions of this file
//! state, without proof, what each of the map's methods does to that.
//!
//! The map's own type cannot be declared to Verus, because the bound on its
//! allocator parameter is a trait that this crate cannot name. So the map
//! sits in a struct that Verus takes as opaque.

use vstd::prelude::*;
use crate::asset_model::AssetRef;

verus! {

/// The per-session lists of pending assets, keyed by session handle.
#[verifier::external_body]
pub struct SessionTable {
    map: bevy_utils::HashMap<usize, Vec<AssetRef>>,
}

/// What the table holds: for each session that has an entry, its list.
pub uninterp spec fn table_contents(table: SessionTable) -> Map<usize, Seq<AssetRef>>;

/// `HashMap::default`: a map without entries.
#[verifier::external_body]
pub(crate) fn table_new() -> (table: SessionTable)
    ensures
        forall|key: usize| !table_contents(table).contains_key(key),
{
    SessionTable { map: bevy_utils::HashMap::default() }
}

/// `HashMap::contains_key`: whether the map has an entry for `key`.
#[verifier::external_body]
pub(crate) fn table_contains(table: &SessionTable, key: usize) -> (found: bool)
    ensures
        found == table_contents(*table).contains_key(key),
{
    table.map.contains_key(&key)
}

/// `HashMap::insert`: afterwards `key` maps to `list`, whether or not it had
/// an entry before; the other entries stay.
#[verifier::external_body]
pub(crate) fn table_insert(table: &mut SessionTable, key: usize, list: Vec<AssetRef>)
    ensures
        table_contents(*final(table)) == table_contents(*old(table)).insert(key, list@),
{
    table.map.insert(key, list);
}

/// `HashMap::get`: the list that `key` maps to, or `None` where the map has
/// no entry for it.
#[verifier::external_body]
pub(crate) fn table_get(table: &SessionTable, key: usize) -> (list: Option<&Vec<AssetRef>>)
    ensures
        list.is_some() == table_contents(*table).contains_key(key),
        list.is_some() ==> list.unwrap()@ == table_contents(*table)[key],
{
    table.map.get(&key)
}

/// `HashMap::get_mut`: the list that `key` maps to, for changing in place, or
/// `None` where the map has no entry for it. What the caller leaves in the
/// list is what `key` maps to afterwards; the other entries stay.
#[verifier::external_body]
pub(crate) fn table_get_mut(table: &mut SessionTable, key: usize) -> (list: Option<&mut Vec<AssetRef>>)
    ensures
        list.is_some() == table_contents(*old(table)).contains_key(key),
        list.is_some() ==> list.unwrap()@ == table_contents(*old(table))[key],
        list.is_some() ==> table_contents(*final(table)) == table_contents(*old(table)).insert(
            key,
            final(list.unwrap())@,
        ),
        list.is_none() ==> table_contents(*final(table)) == table_contents(*old(table)),
{
    table.map.get_mut(&key)
}

} // verus!
