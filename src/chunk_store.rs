//! The physical chunk map, chunk keys to byte buffers, and the free list of
//! chunk keys that may be reused: structures of `ic_stable_structures`, each
//! on a memory of its own.

use vstd::prelude::*;
use crate::types::CHUNK_MAX_SIZE;
use ic_stable_structures::{BTreeMap as StableBTreeMap, Vec as StableVec, VectorMemory};

verus! {

/// A B-tree map from chunk key to chunk bytes, on a memory that it alone
/// uses.
#[verifier::external_body]
pub struct ChunkMap {
    inner: StableBTreeMap<u128, Vec<u8>, VectorMemory>,
}

/// A stack of chunk keys, on a memory that it alone uses.
#[verifier::external_body]
pub struct FreeList {
    inner: StableVec<u128, VectorMemory>,
}

/// What a free list holds, bottom first.
pub uninterp spec fn free_contents(f: FreeList) -> Seq<u128>;

/// Relies on `Vec::new`: a vector made on a memory of its own is empty.
#[verifier::external_body]
pub(crate) fn free_list_new() -> (r: FreeList)
    ensures
        free_contents(r).len() == 0,
{
    FreeList { inner: StableVec::new(VectorMemory::default()) }
}

/// Relies on `Vec::len`: the number of items.
#[verifier::external_body]
pub(crate) fn free_list_len(f: &FreeList) -> (r: u64)
    ensures
        r == free_contents(*f).len(),
{
    f.inner.len()
}

/// Relies on `Vec::push`: the item goes on top.
#[verifier::external_body]
pub(crate) fn free_list_push(f: &mut FreeList, key: u128)
    ensures
        free_contents(*final(f)) == free_contents(*old(f)).push(key),
{
    f.inner.push(&key);
}

/// Relies on `Vec::pop`: the top item leaves, if there is one.
#[verifier::external_body]
pub(crate) fn free_list_pop(f: &mut FreeList) -> (r: Option<u128>)
    ensures
        free_contents(*old(f)).len() == 0 ==> r is None && free_contents(*final(f)) == free_contents(*old(f)),
        free_contents(*old(f)).len() > 0 ==> r == Some(free_contents(*old(f)).last())
            && free_contents(*final(f)) == free_contents(*old(f)).drop_last(),
{
    f.inner.pop()
}

/// What a chunk map holds: each chunk key with its bytes.
pub uninterp spec fn chunk_contents(m: ChunkMap) -> Map<u128, Seq<u8>>;

/// Relies on `BTreeMap::new`: a map made on a memory of its own is empty.
#[verifier::external_body]
pub(crate) fn chunk_map_new() -> (r: ChunkMap)
    ensures
        chunk_contents(r).dom().is_empty(),
{
    ChunkMap { inner: StableBTreeMap::new(VectorMemory::default()) }
}

/// Relies on `BTreeMap::get`: the value stored under the key, if any.
#[verifier::external_body]
pub(crate) fn chunk_map_get(m: &ChunkMap, key: u128) -> (r: Option<Vec<u8>>)
    ensures
        r is Some <==> chunk_contents(*m).contains_key(key),
        r is Some ==> r->0@ == chunk_contents(*m)[key],
{
    m.inner.get(&key)
}

/// Relies on `BTreeMap::insert`: the key afterwards maps to the new value,
/// every other key is unchanged. The map records a value's length in 32
/// bits, so only chunk-sized values are taken.
#[verifier::external_body]
pub(crate) fn chunk_map_insert(m: &mut ChunkMap, key: u128, value: Vec<u8>)
    requires
        value@.len() <= CHUNK_MAX_SIZE,
    ensures
        chunk_contents(*final(m)) == chunk_contents(*old(m)).insert(key, value@),
{
    m.inner.insert(key, value);
}

/// Relies on `BTreeMap::last_key_value`: the greatest key, if the map is not
/// empty.
#[verifier::external_body]
pub(crate) fn chunk_map_last_key(m: &ChunkMap) -> (r: Option<u128>)
    ensures
        r is None <==> chunk_contents(*m).dom().is_empty(),
        r is Some ==> chunk_contents(*m).contains_key(r->0),
        r is Some ==> forall|k: u128| #[trigger]
            chunk_contents(*m).contains_key(k) ==> k <= r->0,
{
    m.inner.last_key_value().map(|(k, _)| k)
}

/// The key that comes after every key of a key space: one more than its
/// greatest key, or zero when it is empty.
pub open spec fn next_key_of(keys: Set<u128>) -> int {
    if keys.is_empty() {
        0
    } else {
        1 + choose|k: u128| #[trigger] keys.contains(k) && forall|j: u128| #[trigger]
            keys.contains(j) ==> j <= k
    }
}

/// The key after the greatest key of the map, or zero for an empty map.
/// `None` when the greatest key is already `u128::MAX`.
pub fn get_next_key(map: &ChunkMap) -> (r: Option<u128>)
    ensures
        r is Some <==> next_key_of(chunk_contents(*map).dom()) <= u128::MAX,
        r is Some ==> r->0 == next_key_of(chunk_contents(*map).dom()),
        r is Some ==> !chunk_contents(*map).contains_key(r->0),
        r is Some ==> forall|k: u128| #[trigger] chunk_contents(*map).contains_key(k) ==> k < r->0,
{
    match chunk_map_last_key(map) {
        None => Some(0),
        Some(last) => {
            let ghost keys = chunk_contents(*map).dom();
            proof {
                let k = choose|k: u128| #[trigger] keys.contains(k) && forall|j: u128| #[trigger]
                    keys.contains(j) ==> j <= k;
                assert(keys.contains(last));
                assert(k <= last && last <= k);
            }
            if last == u128::MAX {
                None
            } else {
                Some(last + 1)
            }
        }
    }
}

} // verus!
