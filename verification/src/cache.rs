//! The memo of resolved categories, keyed by the interned job-type name.

use fxprof_processed_profile::{CategoryPairHandle, StringHandle};
use rustc_hash::{FxBuildHasher, FxHashMap};
use vstd::prelude::*;

verus! {

#[verifier::external_type_specification]
#[verifier::external_body]
pub struct ExFxBuildHasher(FxBuildHasher);

/// For each job-type name seen so far, by its string handle, the category it
/// resolved to. The view of the map is what it holds.
pub type CategoryCache = FxHashMap<StringHandle, CategoryPairHandle>;

/// `HashMap::default` with the Fx hasher: a map without entries.
#[verifier::external_body]
pub(crate) fn cache_new() -> (cache: CategoryCache)
    ensures
        cache@.dom() == Set::<StringHandle>::empty(),
{
    FxHashMap::default()
}

/// `HashMap::get`: the category held for `name`, if there is one. String
/// handles compare and hash by the index they hold.
#[verifier::external_body]
pub(crate) fn cache_get(cache: &CategoryCache, name: StringHandle) -> (found: Option<
    CategoryPairHandle,
>)
    ensures
        found == if cache@.contains_key(name) {
            Some(cache@[name])
        } else {
            None::<CategoryPairHandle>
        },
{
    cache.get(&name).copied()
}

/// `HashMap::insert`: afterwards the map holds `category` for `name`, and
/// every other entry as before.
#[verifier::external_body]
pub(crate) fn cache_insert(
    cache: &mut CategoryCache,
    name: StringHandle,
    category: CategoryPairHandle,
)
    ensures
        final(cache)@ == old(cache)@.insert(name, category),
{
    cache.insert(name, category);
}

} // verus!
