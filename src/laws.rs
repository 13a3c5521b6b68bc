//! Properties of the store that span several operations.

use vstd::prelude::*;
use crate::store::{
    appended, created, deleted, index_changed, is_live, keys_of, rekeyed,
    UploadStore,
};
use crate::types::chunk_at;

verus! {

/// `post` follows from `pre` by one operation of the store, or by one that
/// changed nothing.
pub open spec fn step(pre: UploadStore, post: UploadStore) -> bool {
    ||| exists|k: u128| created(pre, k, post)
    ||| exists|u: int, b: Seq<u8>| appended(pre, u, b, post)
    ||| exists|u: int| deleted(pre, u, post)
    ||| exists|a: Seq<char>| index_changed(pre, a, post)
    ||| exists|a: Seq<char>, c: Seq<char>| rekeyed(pre, a, c, post)
    ||| post == pre
}

/// No operation takes an upload key back.
pub proof fn lemma_step_keeps_upload_keys(pre: UploadStore, post: UploadStore)
    requires
        step(pre, post),
    ensures
        pre.next_upload_key() <= post.next_upload_key(),
{
    if exists|k: u128| created(pre, k, post) {
    } else if exists|u: int, b: Seq<u8>| appended(pre, u, b, post) {
    } else if exists|u: int| deleted(pre, u, post) {
        let u = choose|u: int| deleted(pre, u, post);
        assert(post.slots().len() == pre.slots().len());
    } else if exists|a: Seq<char>| index_changed(pre, a, post) {
    } else if exists|a: Seq<char>, c: Seq<char>| rekeyed(pre, a, c, post) {
    }
}

proof fn lemma_run_keeps_upload_keys(run: Seq<UploadStore>, i: int, j: int)
    requires
        forall|t: int| 0 <= t < run.len() - 1 ==> step(#[trigger] run[t], run[t + 1]),
        0 <= i <= j < run.len(),
    ensures
        run[i].next_upload_key() <= run[j].next_upload_key(),
    decreases j - i,
{
    if i < j {
        lemma_run_keeps_upload_keys(run, i, j - 1);
        lemma_step_keeps_upload_keys(run[j - 1], run[j]);
    }
}

/// Along any run of operations, deletions included, the keys that
/// successive uploads are created under strictly increase, so none repeats.
pub proof fn lemma_upload_keys_strictly_increase(
    run: Seq<UploadStore>,
    i: int,
    ki: u128,
    j: int,
    kj: u128,
)
    requires
        forall|t: int| 0 <= t < run.len() - 1 ==> step(#[trigger] run[t], run[t + 1]),
        0 <= i < j < run.len() - 1,
        created(run[i], ki, run[i + 1]),
        created(run[j], kj, run[j + 1]),
    ensures
        ki < kj,
{
    lemma_run_keeps_upload_keys(run, i + 1, j);
}

/// After an upload is deleted it is gone, and its chunk keys sit on top of
/// the free list in their order, so the next appended chunk takes its last
/// chunk key, and the ones before it follow.
pub proof fn lemma_deleted_keys_reused_first(pre: UploadStore, u: int, post: UploadStore)
    requires
        is_live(pre.slots(), u),
        deleted(pre, u, post),
    ensures
        !is_live(post.slots(), u),
        post.free_keys().len() == pre.free_keys().len() + keys_of(pre.slots(), u).len(),
        forall|m: int| 0 <= m < keys_of(pre.slots(), u).len()
            ==> post.free_keys()[pre.free_keys().len() + m] == #[trigger] keys_of(pre.slots(), u)[m],
        keys_of(pre.slots(), u).len() > 0 ==> post.next_chunk_key() == keys_of(pre.slots(), u).last(),
{
}

/// Moving an app id's record to another app id leaves the first with an
/// empty mapping and gives the second exactly the mapping the first had.
pub proof fn lemma_rekey_moves_mapping(
    pre: UploadStore,
    from: Seq<char>,
    to: Seq<char>,
    post: UploadStore,
)
    requires
        pre.apps().contains_key(from),
        from != to,
        rekeyed(pre, from, to, post),
    ensures
        post.lookup(from) == Map::<Seq<char>, u128>::empty(),
        post.lookup(to) == pre.lookup(from),
{
}

/// `run` is a sequence of well-formed states, each following from the one
/// before by one step.
pub open spec fn valid_run(run: Seq<UploadStore>) -> bool {
    &&& forall|t: int| 0 <= t < run.len() - 1 ==> step(#[trigger] run[t], run[t + 1])
    &&& forall|t: int| 0 <= t < run.len() ==> (#[trigger] run[t]).wf()
}

/// One step that does not delete live upload `u` keeps it live, keeps its
/// chunk key at position `m`, and keeps the bytes stored there.
proof fn lemma_step_keeps_chunk(pre: UploadStore, post: UploadStore, u: int, m: int)
    requires
        pre.wf(),
        step(pre, post),
        !deleted(pre, u, post),
        is_live(pre.slots(), u),
        0 <= m < keys_of(pre.slots(), u).len(),
    ensures
        is_live(post.slots(), u),
        m < keys_of(post.slots(), u).len(),
        keys_of(post.slots(), u)[m] == keys_of(pre.slots(), u)[m],
        chunk_at(keys_of(post.slots(), u), post.stored_chunks(), m)
            == chunk_at(keys_of(pre.slots(), u), pre.stored_chunks(), m),
{
    let k = keys_of(pre.slots(), u)[m];
    if exists|c: u128| created(pre, c, post) {
        let c = choose|c: u128| created(pre, c, post);
        assert(post.slots().subrange(0, pre.slots().len() as int)[u] == post.slots()[u]);
    } else if exists|v: int, b: Seq<u8>| appended(pre, v, b, post) {
        let (v, b) = choose|v: int, b: Seq<u8>| appended(pre, v, b, post);
        assert(k != pre.next_chunk_key());
        if v == u {
            assert(keys_of(post.slots(), u)[m] == keys_of(pre.slots(), u).push(pre.next_chunk_key() as u128)[m]);
        } else {
            assert(post.slots()[u] == pre.slots()[u]);
        }
    } else if exists|v: int| deleted(pre, v, post) {
        let v = choose|v: int| deleted(pre, v, post);
        assert(v != u);
        assert(post.slots()[u] == pre.slots()[u]);
    } else if exists|a: Seq<char>| index_changed(pre, a, post) {
    } else if exists|a: Seq<char>, c: Seq<char>| rekeyed(pre, a, c, post) {
    }
}

/// Along a run in which live upload `u` is not deleted, each of its chunks
/// keeps its key and its bytes: recycling a freed key never overwrites a
/// chunk of a live upload.
pub proof fn lemma_live_chunks_survive(run: Seq<UploadStore>, a: int, b: int, u: int, m: int)
    requires
        valid_run(run),
        0 <= a <= b < run.len(),
        forall|t: int| a <= t < b ==> !deleted(#[trigger] run[t], u, run[t + 1]),
        is_live(run[a].slots(), u),
        0 <= m < keys_of(run[a].slots(), u).len(),
    ensures
        is_live(run[b].slots(), u),
        m < keys_of(run[b].slots(), u).len(),
        keys_of(run[b].slots(), u)[m] == keys_of(run[a].slots(), u)[m],
        chunk_at(keys_of(run[b].slots(), u), run[b].stored_chunks(), m)
            == chunk_at(keys_of(run[a].slots(), u), run[a].stored_chunks(), m),
    decreases b - a,
{
    if a < b {
        lemma_live_chunks_survive(run, a, b - 1, u, m);
        lemma_step_keeps_chunk(run[b - 1], run[b], u, m);
    }
}

/// One step keeps a tombstone a tombstone.
proof fn lemma_step_keeps_tombstone(pre: UploadStore, post: UploadStore, u: int)
    requires
        step(pre, post),
        0 <= u < pre.slots().len(),
        pre.slots()[u] is Tombstone,
    ensures
        u < post.slots().len(),
        post.slots()[u] is Tombstone,
{
    if exists|c: u128| created(pre, c, post) {
        let c = choose|c: u128| created(pre, c, post);
        assert(post.slots().subrange(0, pre.slots().len() as int)[u] == post.slots()[u]);
    } else if exists|v: int, b: Seq<u8>| appended(pre, v, b, post) {
        let (v, b) = choose|v: int, b: Seq<u8>| appended(pre, v, b, post);
        assert(post.slots()[u] == pre.slots()[u]);
    } else if exists|v: int| deleted(pre, v, post) {
        let v = choose|v: int| deleted(pre, v, post);
        assert(post.slots()[u] == pre.slots().update(v, crate::store::Slot::Tombstone)[u]);
    } else if exists|a: Seq<char>| index_changed(pre, a, post) {
    } else if exists|a: Seq<char>, c: Seq<char>| rekeyed(pre, a, c, post) {
    }
}

proof fn lemma_run_keeps_tombstone(run: Seq<UploadStore>, a: int, b: int, u: int)
    requires
        forall|t: int| 0 <= t < run.len() - 1 ==> step(#[trigger] run[t], run[t + 1]),
        0 <= a <= b < run.len(),
        0 <= u < run[a].slots().len(),
        run[a].slots()[u] is Tombstone,
    ensures
        u < run[b].slots().len(),
        run[b].slots()[u] is Tombstone,
    decreases b - a,
{
    if a < b {
        lemma_run_keeps_tombstone(run, a, b - 1, u);
        lemma_step_keeps_tombstone(run[b - 1], run[b], u);
    }
}

/// Once upload `u` is deleted it never comes back: in every later state it
/// is not live, so its chunk keys and its details read as absent.
pub proof fn lemma_deleted_stays_gone(run: Seq<UploadStore>, a: int, u: int, b: int)
    requires
        forall|t: int| 0 <= t < run.len() - 1 ==> step(#[trigger] run[t], run[t + 1]),
        0 <= a < b < run.len(),
        deleted(run[a], u, run[a + 1]),
    ensures
        !is_live(run[b].slots(), u),
{
    assert(run[a + 1].slots()[u] == run[a].slots().update(u, crate::store::Slot::Tombstone)[u]);
    lemma_run_keeps_tombstone(run, a + 1, b, u);
}

} // verus!
