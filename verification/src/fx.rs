//! The hash map and hash set of the corpus, which hash with
//! `rustc_hash::FxBuildHasher`. Their contents are the views that `vstd`
//! gives to the standard map and set; what the operations do to those
//! contents is stated here for this hasher. It builds every hasher from
//! the same fixed state, so that a key hashes alike whenever it is
//! hashed, and the keys are plain integers: the map and the set behave as
//! a map and a set of their keys.

use crate::model::Source;
use rustc_hash::{FxBuildHasher, FxHashMap, FxHashSet};
use vstd::prelude::*;

verus! {

/// `rustc_hash::FxBuildHasher`, the builder of the hashers of both
/// collections: a unit value without state.
#[verifier::external_type_specification]
#[verifier::external_body]
pub struct ExFxBuildHasher(FxBuildHasher);

/// `HashMap::insert` on an `FxHashMap`: afterwards `key` maps to `value`
/// and every other key is as before; the value that `key` had comes back.
#[verifier::external_body]
pub(crate) fn fx_map_insert(
    map: &mut FxHashMap<usize, Source>,
    key: usize,
    value: Source,
) -> (previous: Option<Source>)
    ensures
        final(map)@ == old(map)@.insert(key, value),
        previous == (if old(map)@.contains_key(key) {
            Some(old(map)@[key])
        } else {
            None
        }),
{
    map.insert(key, value)
}

/// `HashMap::get` on an `FxHashMap`: the value of `key`, if it has one.
#[verifier::external_body]
pub(crate) fn fx_map_get<'a>(map: &'a FxHashMap<usize, Source>, key: usize) -> (found: Option<
    &'a Source,
>)
    ensures
        found == (if map@.contains_key(key) {
            Some(&map@[key])
        } else {
            None
        }),
{
    map.get(&key)
}

/// `HashMap::len` on an `FxHashMap`: the number of keys.
#[verifier::external_body]
pub(crate) fn fx_map_len(map: &FxHashMap<usize, Source>) -> (n: usize)
    ensures
        n == map@.dom().len(),
{
    map.len()
}

/// `HashSet::insert` on an `FxHashSet`: afterwards the set holds `key`
/// besides what it held; the result says whether `key` is new.
#[verifier::external_body]
pub(crate) fn fx_set_insert(set: &mut FxHashSet<usize>, key: usize) -> (fresh: bool)
    ensures
        final(set)@ == old(set)@.insert(key),
        fresh == !old(set)@.contains(key),
{
    set.insert(key)
}

/// `HashSet::contains` on an `FxHashSet`: whether the set holds `key`.
#[verifier::external_body]
pub(crate) fn fx_set_contains(set: &FxHashSet<usize>, key: usize) -> (held: bool)
    ensures
        held == set@.contains(key),
{
    set.contains(&key)
}

/// `HashSet::len` on an `FxHashSet`: the number of members.
#[verifier::external_body]
pub(crate) fn fx_set_len(set: &FxHashSet<usize>) -> (n: usize)
    ensures
        n == set@.len(),
{
    set.len()
}

} // verus!
