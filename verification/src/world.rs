use vstd::prelude::*;

use crate::chunk::Chunk;
use rustc_hash::{FxBuildHasher, FxHashMap};

verus! {

#[verifier::external_type_specification]
#[verifier::external_body]
pub struct ExFxBuildHasher(FxBuildHasher);

/// The loaded chunks, keyed by their grid position (x, z).
pub type ChunkMap = FxHashMap<(i32, i32), Chunk>;

/// `FxHashMap::default` (std's `HashMap::default` with rustc-hash's
/// hasher builder): claimed to give a map with no entries.
#[verifier::external_body]
pub(crate) fn chunk_map_new() -> (m: ChunkMap)
    ensures
        m@.dom().is_empty(),
{
    FxHashMap::default()
}

/// `HashMap::insert` on a rustc-hash map: claimed to bind `key` to `chunk`
/// and leave every other key as it was.
#[verifier::external_body]
pub(crate) fn chunk_map_insert(m: &mut ChunkMap, key: (i32, i32), chunk: Chunk)
    ensures
        final(m)@ == old(m)@.insert(key, chunk),
{
    m.insert(key, chunk);
}

/// `HashMap::get` on a rustc-hash map: claimed to give the chunk bound to
/// `key`, or `None` where the key is unbound.
#[verifier::external_body]
pub(crate) fn chunk_map_get(m: &ChunkMap, key: (i32, i32)) -> (r: Option<&Chunk>)
    ensures
        match r {
            Some(c) => m@.contains_key(key) && *c == m@[key],
            None => !m@.contains_key(key),
        },
{
    m.get(&key)
}

} // verus!
