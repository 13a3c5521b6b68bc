//! The store: owners, the upload registry, the chunk store with its free
//! list of recyclable chunk keys, and the application index.

use vstd::prelude::*;
use vstd::pervasive::VecAdditionalExecFns;
use crate::assoc::{assoc_get, assoc_map, assoc_remove, assoc_set, keys_unique};
use crate::chunk_store::{
    chunk_contents, chunk_map_get, chunk_map_insert, chunk_map_new, free_contents, free_list_len,
    free_list_new, free_list_pop, free_list_push, get_next_key, next_key_of, ChunkMap, FreeList,
};
use crate::laws::step;
use crate::types::{
    bytes_opt, chunk_at, status_label, AppUploadIDs, StorablePrincipal, Upload, CHUNK_MAX_SIZE,
};

verus! {

/// Why a call was refused.
pub enum Error {
    /// The caller is not an owner.
    Unauthorized,
    Other,
}

/// What is stored under an upload key: a live record, or the marker left by
/// its deletion.
pub enum Slot {
    Live(Upload),
    Tombstone,
}

/// The metadata of an upload, without its chunk keys.
pub struct UploadDataResult {
    pub index: u128,
    pub original_name: String,
    pub file_size: u128,
    pub isotopic_app_id: String,
    pub platform: String,
    pub status: String,
    pub upload_timestamp: u64,
    pub chunks_length: u32,
}

/// Slot `u` holds a live upload.
pub open spec fn is_live(slots: Seq<Slot>, u: int) -> bool {
    0 <= u < slots.len() && slots[u] is Live
}

/// The chunk keys of the upload in slot `u`.
pub open spec fn keys_of(slots: Seq<Slot>, u: int) -> Seq<u128> {
    slots[u]->Live_0.chunk_indeces@
}

/// Two uploads agree in everything but their chunk keys.
pub open spec fn same_metadata(a: Upload, b: Upload) -> bool {
    &&& a.index == b.index
    &&& a.original_name == b.original_name
    &&& a.file_size == b.file_size
    &&& a.chunks_length == b.chunks_length
    &&& a.isotopic_app_id == b.isotopic_app_id
    &&& a.platform == b.platform
    &&& a.status == b.status
    &&& a.upload_timestamp == b.upload_timestamp
}

/// Every chunk key is in one place at most: referenced once by one live
/// upload, or once in the free list. All of them are in the chunk map.
pub open spec fn chunk_keys_sound(slots: Seq<Slot>, free: Seq<u128>, stored: Set<u128>) -> bool {
    &&& forall|u: int, i: int|
        is_live(slots, u) && 0 <= i < keys_of(slots, u).len() ==> stored.contains(
            #[trigger] keys_of(slots, u)[i],
        )
    &&& forall|j: int| 0 <= j < free.len() ==> stored.contains(#[trigger] free[j])
    &&& forall|j1: int, j2: int|
        0 <= j1 < free.len() && 0 <= j2 < free.len() && #[trigger] free[j1] == #[trigger] free[j2]
            ==> j1 == j2
    &&& forall|u1: int, i1: int, u2: int, i2: int|
        is_live(slots, u1) && is_live(slots, u2) && 0 <= i1 < keys_of(slots, u1).len() && 0 <= i2
            < keys_of(slots, u2).len() && #[trigger] keys_of(slots, u1)[i1] == #[trigger] keys_of(
            slots,
            u2,
        )[i2] ==> u1 == u2 && i1 == i2
    &&& forall|u: int, i: int, j: int|
        is_live(slots, u) && 0 <= i < keys_of(slots, u).len() && 0 <= j < free.len()
            ==> #[trigger] keys_of(slots, u)[i] != #[trigger] free[j]
}

/// The chunk store, upload registry and application index, with the owners
/// that may change them.
pub struct UploadStore {
    owners: Vec<StorablePrincipal>,
    uploads: Vec<Slot>,
    chunks: ChunkMap,
    free_chunk_keys: FreeList,
    app_uploads: Vec<(String, AppUploadIDs)>,
}

impl UploadStore {
    /// The owners' identities, in the order they were registered.
    pub closed spec fn owner_ids(&self) -> Seq<Seq<u8>> {
        self.owners@.map_values(|p: StorablePrincipal| p.principal@)
    }

    /// The slot of each upload key, in key order.
    pub closed spec fn slots(&self) -> Seq<Slot> {
        self.uploads@
    }

    /// The chunk map: chunk key to bytes.
    pub closed spec fn stored_chunks(&self) -> Map<u128, Seq<u8>> {
        chunk_contents(self.chunks)
    }

    /// The free list; its last key is the next one reused.
    pub closed spec fn free_keys(&self) -> Seq<u128> {
        free_contents(self.free_chunk_keys)
    }

    /// The application index: app id to its platform record.
    pub closed spec fn apps(&self) -> Map<Seq<char>, AppUploadIDs> {
        assoc_map(self.app_uploads@)
    }

    pub closed spec fn wf(&self) -> bool {
        &&& chunk_keys_sound(self.uploads@, free_contents(self.free_chunk_keys), chunk_contents(self.chunks).dom())
        &&& forall|u: int| is_live(self.uploads@, u) ==> #[trigger] self.uploads@[u]->Live_0.index == u
        &&& keys_unique(self.app_uploads@)
        &&& forall|a: Seq<char>| #[trigger] assoc_map(self.app_uploads@).contains_key(a)
            ==> assoc_map(self.app_uploads@)[a].wf()
    }

    pub open spec fn is_owner(&self, id: Seq<u8>) -> bool {
        self.owner_ids().contains(id)
    }

    /// The key that the next created upload gets.
    pub open spec fn next_upload_key(&self) -> int {
        self.slots().len() as int
    }

    /// The chunk key that the next appended chunk gets: the most recently
    /// freed key, else the one after the greatest stored key.
    pub open spec fn next_chunk_key(&self) -> int {
        if self.free_keys().len() > 0 {
            self.free_keys().last() as int
        } else {
            next_key_of(self.stored_chunks().dom())
        }
    }

    /// The platform mapping of an app id; empty for an unknown one.
    pub open spec fn lookup(&self, app_id: Seq<char>) -> Map<Seq<char>, u128> {
        if self.apps().contains_key(app_id) {
            self.apps()[app_id].view()
        } else {
            Map::empty()
        }
    }
}

/// The two byte strings are equal.
fn same_bytes(a: &Vec<u8>, b: &Vec<u8>) -> (r: bool)
    ensures
        r == (a@ == b@),
{
    if a.len() != b.len() {
        return false;
    }
    let mut i: usize = 0;
    while i < a.len()
        invariant
            a@.len() == b@.len(),
            i <= a@.len(),
            forall|j: int| 0 <= j < i ==> a@[j] == b@[j],
        decreases a@.len() - i,
    {
        if a[i] != b[i] {
            return false;
        }
        i = i + 1;
    }
    proof {
        assert(a@ =~= b@);
    }
    true
}

impl UploadStore {
    /// A well-formed store keeps its chunk keys apart: each is referenced
    /// by at most one position of one live upload, or sits once in the free
    /// list, never both, and all of them are stored. Each live upload's
    /// `index` is its own key.
    pub proof fn lemma_wf_sound(&self)
        requires
            self.wf(),
        ensures
            chunk_keys_sound(self.slots(), self.free_keys(), self.stored_chunks().dom()),
            forall|u: int| is_live(self.slots(), u) ==> #[trigger] self.slots()[u]->Live_0.index == u,
    {
    }

    /// An empty store. Its owners are `owners` when given, else `caller`
    /// alone.
    pub fn init(caller: StorablePrincipal, owners: Option<Vec<StorablePrincipal>>) -> (r: UploadStore)
        ensures
            r.wf(),
            owners is None ==> r.owner_ids() == seq![caller.principal@],
            owners is Some ==> r.owner_ids() == owners->0@.map_values(|p: StorablePrincipal| p.principal@),
            r.slots().len() == 0,
            r.stored_chunks().dom().is_empty(),
            r.free_keys().len() == 0,
            r.apps().dom().is_empty(),
    {
        let list = match owners {
            None => {
                let mut v: Vec<StorablePrincipal> = Vec::new();
                v.push(caller);
                v
            },
            Some(v) => v,
        };
        let r = UploadStore {
            owners: list,
            uploads: Vec::new(),
            chunks: chunk_map_new(),
            free_chunk_keys: free_list_new(),
            app_uploads: Vec::new(),
        };
        proof {
            assert(r.owner_ids() =~= r.owners@.map_values(|p: StorablePrincipal| p.principal@));
            if owners is None {
                assert(r.owner_ids() =~= seq![caller.principal@]);
            }
            assert(assoc_map(r.app_uploads@) == Map::<Seq<char>, AppUploadIDs>::empty());
            assert(r.apps().dom() =~= Set::<Seq<char>>::empty());
        }
        r
    }

    /// Whether `principal` is a registered owner.
    pub fn check_owners(&self, principal: &StorablePrincipal) -> (r: bool)
        ensures
            r == self.is_owner(principal.principal@),
    {
        let mut i: usize = 0;
        while i < self.owners.len()
            invariant
                i <= self.owners@.len(),
                forall|j: int| 0 <= j < i ==> self.owner_ids()[j] != principal.principal@,
            decreases self.owners@.len() - i,
        {
            if same_bytes(&self.owners[i].principal, &principal.principal) {
                proof {
                    assert(self.owner_ids()[i as int] == principal.principal@);
                }
                return true;
            }
            i = i + 1;
        }
        proof {
            if self.owner_ids().contains(principal.principal@) {
                let j = choose|j: int| 0 <= j < self.owner_ids().len() && self.owner_ids()[j] == principal.principal@;
                assert(false);
            }
        }
        false
    }

    /// `Ok` for an owner, `Unauthorized` for anyone else.
    pub fn owner_only_guard(&self, caller: &StorablePrincipal) -> (r: Result<(), Error>)
        ensures
            r is Ok <==> self.is_owner(caller.principal@),
            r is Err ==> r->Err_0 == Error::Unauthorized,
    {
        if self.check_owners(caller) {
            Ok(())
        } else {
            Err(Error::Unauthorized)
        }
    }

    /// The live upload under `upload_index`; none for an unknown or deleted
    /// key.
    pub fn get_upload_by_index(&self, upload_index: u128) -> (r: Option<&Upload>)
        ensures
            r is Some <==> is_live(self.slots(), upload_index as int),
            r is Some ==> *r->0 == self.slots()[upload_index as int]->Live_0,
    {
        if upload_index >= self.uploads.len() as u128 {
            return None;
        }
        match &self.uploads[upload_index as usize] {
            Slot::Live(u) => Some(u),
            Slot::Tombstone => None,
        }
    }

    /// Logical chunk `chunk_index` of the upload under `upload_index`.
    pub fn get_upload_chunk(&self, upload_index: u128, chunk_index: u128) -> (r: Option<Vec<u8>>)
        ensures
            !is_live(self.slots(), upload_index as int) ==> r is None,
            is_live(self.slots(), upload_index as int) ==> bytes_opt(r) == chunk_at(
                keys_of(self.slots(), upload_index as int),
                self.stored_chunks(),
                chunk_index as int,
            ),
    {
        match self.get_upload_by_index(upload_index) {
            None => None,
            Some(upload) => upload.get_chunk(chunk_index, &self.chunks),
        }
    }

    /// Registers a new upload with no chunks under the next upload key, and
    /// returns that key. Owners only.
    pub fn init_new_upload(
        &mut self,
        caller: &StorablePrincipal,
        original_name: String,
        file_size: u128,
        isotopic_app_id: String,
        platform: String,
        upload_timestamp: u64,
    ) -> (r: Result<u128, Error>)
        requires
            old(self).wf(),
        ensures
            final(self).wf(),
            step(*old(self), *final(self)),
            r is Err <==> !old(self).is_owner(caller.principal@),
            r is Err ==> r->Err_0 == Error::Unauthorized && *final(self) == *old(self),
            r is Ok ==> created(*old(self), r->Ok_0, *final(self)),
            r is Ok ==> ({
                let up = final(self).slots()[r->Ok_0 as int]->Live_0;
                &&& up.original_name == original_name
                &&& up.file_size == file_size
                &&& up.chunks_length == crate::types::expected_chunks(file_size)
                &&& up.isotopic_app_id == isotopic_app_id
                &&& up.platform == platform
                &&& up.status == crate::types::UploadStatus::Init
                &&& up.upload_timestamp == upload_timestamp
            }),
    {
        if !self.check_owners(caller) {
            return Err(Error::Unauthorized);
        }
        let index = self.uploads.len() as u128;
        let up = Upload::new(index, original_name, file_size, isotopic_app_id, platform, upload_timestamp);
        self.uploads.push(Slot::Live(up));
        proof {
            let o = old(self).uploads@;
            let n = self.uploads@;
            assert(n.subrange(0, o.len() as int) =~= o);
            assert forall|u: int| is_live(n, u) && u < o.len() implies (#[trigger] n[u]) == o[u] && is_live(o, u) by {}
            assert forall|u: int, i: int| is_live(n, u) && 0 <= i < keys_of(n, u).len()
                implies #[trigger] keys_of(n, u)[i] == keys_of(o, u)[i] && is_live(o, u) by {
                assert(u < o.len());
            }
        }
        proof {
            assert(created(*old(self), index, *self));
        }
        Ok(index)
    }
}

impl UploadStore {
    /// Appends `chunk` to the upload under `upload_index`, as its next logical
    /// chunk. Owners only. `Ok(false)`, with nothing changed, when the chunk
    /// is over [`CHUNK_MAX_SIZE`], the upload is unknown or deleted, or the
    /// chunk key space is used up.
    pub fn upload_chunk(&mut self, caller: &StorablePrincipal, upload_index: u128, chunk: Vec<u8>) -> (r: Result<bool, Error>)
        requires
            old(self).wf(),
        ensures
            final(self).wf(),
            step(*old(self), *final(self)),
            r is Err <==> !old(self).is_owner(caller.principal@),
            r is Err ==> r->Err_0 == Error::Unauthorized && *final(self) == *old(self),
            r is Ok && (chunk@.len() > CHUNK_MAX_SIZE || !is_live(old(self).slots(), upload_index as int)
                || old(self).next_chunk_key() > u128::MAX) ==> r == Ok::<bool, Error>(false) && *final(self) == *old(self),
            r is Ok && chunk@.len() <= CHUNK_MAX_SIZE && is_live(old(self).slots(), upload_index as int)
                && old(self).next_chunk_key() <= u128::MAX ==> r == Ok::<bool, Error>(true)
                && appended(*old(self), upload_index as int, chunk@, *final(self)),
    {
        if !self.check_owners(caller) {
            return Err(Error::Unauthorized);
        }
        if chunk.len() > CHUNK_MAX_SIZE {
            return Ok(false);
        }
        if upload_index >= self.uploads.len() as u128 {
            return Ok(false);
        }
        let ui = upload_index as usize;
        let current = match &self.uploads[ui] {
            Slot::Live(up) => up,
            Slot::Tombstone => {
                return Ok(false);
            },
        };
        let ghost pre = *self;
        let ghost bytes = chunk@;
        let key = if free_list_len(&self.free_chunk_keys) > 0 {
            free_list_pop(&mut self.free_chunk_keys).unwrap()
        } else {
            match get_next_key(&self.chunks) {
                Some(k) => k,
                None => {
                    return Ok(false);
                },
            }
        };
        proof {
            assert(key == pre.next_chunk_key());
            // The key is referenced by no live upload and is not left in the
            // free list.
            let slots = pre.uploads@;
            if free_contents(pre.free_chunk_keys).len() > 0 {
                let last = free_contents(pre.free_chunk_keys).len() - 1;
                assert(free_contents(pre.free_chunk_keys)[last] == key);
                assert forall|u: int, i: int| is_live(slots, u) && 0 <= i < keys_of(slots, u).len()
                    implies #[trigger] keys_of(slots, u)[i] != key by {
                    assert(keys_of(slots, u)[i] != free_contents(pre.free_chunk_keys)[last]);
                }
                assert forall|j: int| 0 <= j < free_contents(self.free_chunk_keys).len()
                    implies #[trigger] free_contents(self.free_chunk_keys)[j] != key by {
                    assert(free_contents(self.free_chunk_keys)[j] == free_contents(pre.free_chunk_keys)[j]);
                }
            } else {
                assert forall|u: int, i: int| is_live(slots, u) && 0 <= i < keys_of(slots, u).len()
                    implies #[trigger] keys_of(slots, u)[i] != key by {
                    assert(chunk_contents(pre.chunks).dom().contains(keys_of(slots, u)[i]));
                }
            }
        }
        chunk_map_insert(&mut self.chunks, key, chunk);
        let extended = current.with_chunk(key);
        self.uploads.set(ui, Slot::Live(extended));
        proof {
            let o = pre.uploads@;
            let n = self.uploads@;
            let u0 = upload_index as int;
            assert(keys_of(n, u0) == keys_of(o, u0).push(key));
            assert forall|v: int| 0 <= v < n.len() && v != u0 implies #[trigger] n[v] == o[v] by {}
            let stored = chunk_contents(self.chunks).dom();
            let free = free_contents(self.free_chunk_keys);
            assert forall|u: int, i: int| is_live(n, u) && 0 <= i < keys_of(n, u).len()
                implies #[trigger] keys_of(n, u)[i] == (if u == u0 && i == keys_of(o, u0).len() { key } else { keys_of(o, u)[i] })
                && is_live(o, u) by {
                if u != u0 {
                    assert(n[u] == o[u]);
                }
            }
            assert forall|j: int| 0 <= j < free.len() implies #[trigger] free[j] == free_contents(pre.free_chunk_keys)[j] by {}
            assert(chunk_keys_sound(n, free, stored)) by {
                assert forall|u1: int, i1: int, u2: int, i2: int|
                    is_live(n, u1) && is_live(n, u2) && 0 <= i1 < keys_of(n, u1).len() && 0 <= i2
                        < keys_of(n, u2).len() && #[trigger] keys_of(n, u1)[i1] == #[trigger] keys_of(n, u2)[i2]
                    implies u1 == u2 && i1 == i2 by {
                    let a = keys_of(n, u1)[i1];
                    let b = keys_of(n, u2)[i2];
                    if !(u1 == u0 && i1 == keys_of(o, u0).len()) && !(u2 == u0 && i2 == keys_of(o, u0).len()) {
                        assert(keys_of(o, u1)[i1] == keys_of(o, u2)[i2]);
                    }
                }
                assert forall|u: int, i: int, j: int|
                    is_live(n, u) && 0 <= i < keys_of(n, u).len() && 0 <= j < free.len()
                    implies #[trigger] keys_of(n, u)[i] != #[trigger] free[j] by {
                    if !(u == u0 && i == keys_of(o, u0).len()) {
                        assert(keys_of(o, u)[i] != free_contents(pre.free_chunk_keys)[j]);
                    }
                }
                assert forall|j1: int, j2: int|
                    0 <= j1 < free.len() && 0 <= j2 < free.len() && #[trigger] free[j1] == #[trigger] free[j2]
                    implies j1 == j2 by {
                    assert(free_contents(pre.free_chunk_keys)[j1] == free_contents(pre.free_chunk_keys)[j2]);
                }
                assert forall|u: int, i: int| is_live(n, u) && 0 <= i < keys_of(n, u).len()
                    implies stored.contains(#[trigger] keys_of(n, u)[i]) by {
                    if !(u == u0 && i == keys_of(o, u0).len()) {
                        assert(chunk_contents(pre.chunks).dom().contains(keys_of(o, u)[i]));
                    }
                }
                assert forall|j: int| 0 <= j < free.len() implies stored.contains(#[trigger] free[j]) by {
                    assert(chunk_contents(pre.chunks).dom().contains(free_contents(pre.free_chunk_keys)[j]));
                }
            }
            if free_contents(pre.free_chunk_keys).len() > 0 {
                assert(free =~= free_contents(pre.free_chunk_keys).drop_last());
            }
        }
        proof {
            assert(appended(pre, upload_index as int, bytes, *self));
        }
        Ok(true)
    }

    /// Deletes the upload under `index`: its chunk keys go to the free list,
    /// in order, and its slot becomes a tombstone. Owners only. `Ok(false)`,
    /// with nothing changed, for an unknown or already deleted upload.
    pub fn delete_upload(&mut self, caller: &StorablePrincipal, index: u128) -> (r: Result<bool, Error>)
        requires
            old(self).wf(),
        ensures
            final(self).wf(),
            step(*old(self), *final(self)),
            r is Err <==> !old(self).is_owner(caller.principal@),
            r is Err ==> r->Err_0 == Error::Unauthorized && *final(self) == *old(self),
            r is Ok && !is_live(old(self).slots(), index as int) ==> r == Ok::<bool, Error>(false)
                && *final(self) == *old(self),
            r is Ok && is_live(old(self).slots(), index as int) ==> r == Ok::<bool, Error>(true)
                && deleted(*old(self), index as int, *final(self)),
    {
        if !self.check_owners(caller) {
            return Err(Error::Unauthorized);
        }
        if index >= self.uploads.len() as u128 {
            return Ok(false);
        }
        let ui = index as usize;
        let ghost pre = *self;
        let keys = match &self.uploads[ui] {
            Slot::Live(up) => &up.chunk_indeces,
            Slot::Tombstone => {
                return Ok(false);
            },
        };
        let ghost gone = keys@;
        let mut i: usize = 0;
        while i < keys.len()
            invariant
                self.uploads == pre.uploads,
                self.chunks == pre.chunks,
                self.owners == pre.owners,
                self.app_uploads == pre.app_uploads,
                gone == keys_of(pre.uploads@, index as int),
                keys@ == gone,
                i <= gone.len(),
                free_contents(self.free_chunk_keys) == free_contents(pre.free_chunk_keys) + gone.subrange(0, i as int),
            decreases gone.len() - i,
        {
            free_list_push(&mut self.free_chunk_keys, keys[i]);
            i = i + 1;
            proof {
                assert(gone.subrange(0, i as int) =~= gone.subrange(0, i - 1).push(gone[i - 1]));
            }
        }
        proof {
            assert(gone.subrange(0, gone.len() as int) =~= gone);
        }
        self.uploads.set(ui, Slot::Tombstone);
        proof {
            let o = pre.uploads@;
            let n = self.uploads@;
            let u0 = index as int;
            let gone = keys_of(o, u0);
            let of = free_contents(pre.free_chunk_keys);
            let free = free_contents(self.free_chunk_keys);
            let stored = chunk_contents(self.chunks).dom();
            assert(free == of + gone);
            assert forall|u: int| is_live(n, u) implies u != u0 && #[trigger] n[u] == o[u] && is_live(o, u) by {}
            assert forall|j: int| 0 <= j < free.len() implies #[trigger] free[j] == (if j < of.len() { of[j] } else { gone[j - of.len()] }) by {}
            assert(chunk_keys_sound(n, free, stored)) by {
                assert forall|u1: int, i1: int, u2: int, i2: int|
                    is_live(n, u1) && is_live(n, u2) && 0 <= i1 < keys_of(n, u1).len() && 0 <= i2
                        < keys_of(n, u2).len() && #[trigger] keys_of(n, u1)[i1] == #[trigger] keys_of(n, u2)[i2]
                    implies u1 == u2 && i1 == i2 by {
                    assert(keys_of(o, u1)[i1] == keys_of(o, u2)[i2]);
                }
                assert forall|u: int, i: int, j: int|
                    is_live(n, u) && 0 <= i < keys_of(n, u).len() && 0 <= j < free.len()
                    implies #[trigger] keys_of(n, u)[i] != #[trigger] free[j] by {
                    assert(keys_of(n, u)[i] == keys_of(o, u)[i]);
                    if j < of.len() {
                        assert(keys_of(o, u)[i] != of[j]);
                    } else {
                        assert(keys_of(o, u)[i] != keys_of(o, u0)[j - of.len()]);
                    }
                }
                assert forall|j1: int, j2: int|
                    0 <= j1 < free.len() && 0 <= j2 < free.len() && #[trigger] free[j1] == #[trigger] free[j2]
                    implies j1 == j2 by {
                    if j1 < of.len() && j2 < of.len() {
                        assert(of[j1] == of[j2]);
                    } else if j1 < of.len() {
                        assert(keys_of(o, u0)[j2 - of.len()] != of[j1]);
                    } else if j2 < of.len() {
                        assert(keys_of(o, u0)[j1 - of.len()] != of[j2]);
                    } else {
                        assert(keys_of(o, u0)[j1 - of.len()] == keys_of(o, u0)[j2 - of.len()]);
                    }
                }
                assert forall|u: int, i: int| is_live(n, u) && 0 <= i < keys_of(n, u).len()
                    implies stored.contains(#[trigger] keys_of(n, u)[i]) by {
                    assert(keys_of(n, u)[i] == keys_of(o, u)[i]);
                }
                assert forall|j: int| 0 <= j < free.len() implies stored.contains(#[trigger] free[j]) by {
                    if j < of.len() {
                        assert(stored.contains(of[j]));
                    } else {
                        assert(stored.contains(keys_of(o, u0)[j - of.len()]));
                    }
                }
            }
        }
        proof {
            assert(deleted(pre, index as int, *self));
        }
        Ok(true)
    }
}

/// `post` is `pre` after chunk `bytes` was appended to upload `u`: the
/// bytes are stored under the next chunk key, which leaves the free list if
/// it came from there, which no live upload referenced, and which becomes
/// the upload's last chunk key.
/// Nothing else changes.
pub open spec fn appended(pre: UploadStore, u: int, bytes: Seq<u8>, post: UploadStore) -> bool {
    let k = pre.next_chunk_key() as u128;
    &&& is_live(pre.slots(), u)
    &&& pre.next_chunk_key() <= u128::MAX
    &&& forall|v: int, i: int| is_live(pre.slots(), v) && 0 <= i < keys_of(pre.slots(), v).len()
        ==> #[trigger] keys_of(pre.slots(), v)[i] != k
    &&& post.stored_chunks() == pre.stored_chunks().insert(k, bytes)
    &&& post.free_keys() == (if pre.free_keys().len() > 0 {
        pre.free_keys().drop_last()
    } else {
        pre.free_keys()
    })
    &&& post.slots().len() == pre.slots().len()
    &&& is_live(post.slots(), u)
    &&& keys_of(post.slots(), u) == keys_of(pre.slots(), u).push(k)
    &&& same_metadata(post.slots()[u]->Live_0, pre.slots()[u]->Live_0)
    &&& forall|v: int| 0 <= v < pre.slots().len() && v != u ==> #[trigger] post.slots()[v] == pre.slots()[v]
    &&& post.apps() == pre.apps()
    &&& post.owner_ids() == pre.owner_ids()
}

/// `post` is `pre` after upload `u` was deleted: its chunk keys are pushed
/// onto the free list in order, its slot is a tombstone, and the chunk bytes
/// stay where they are. Nothing else changes.
pub open spec fn deleted(pre: UploadStore, u: int, post: UploadStore) -> bool {
    &&& is_live(pre.slots(), u)
    &&& post.free_keys() == pre.free_keys() + keys_of(pre.slots(), u)
    &&& post.slots() == pre.slots().update(u, Slot::Tombstone)
    &&& post.stored_chunks() == pre.stored_chunks()
    &&& post.apps() == pre.apps()
    &&& post.owner_ids() == pre.owner_ids()
}

impl UploadStore {
    /// The bytes stored under physical chunk key `index`. Owners only.
    pub fn get_chunk_at_stored_index(&self, caller: &StorablePrincipal, index: u128) -> (r: Result<Option<Vec<u8>>, Error>)
        ensures
            r is Err <==> !self.is_owner(caller.principal@),
            r is Err ==> r->Err_0 == Error::Unauthorized,
            r is Ok ==> bytes_opt(r->Ok_0) == (if self.stored_chunks().contains_key(index) {
                Some(self.stored_chunks()[index])
            } else {
                None
            }),
    {
        if !self.check_owners(caller) {
            return Err(Error::Unauthorized);
        }
        Ok(chunk_map_get(&self.chunks, index))
    }

    /// The physical chunk keys of the upload under `upload_index`, in logical
    /// order; none for an unknown or deleted upload. Owners only.
    pub fn get_upload_chunk_indeces(&self, caller: &StorablePrincipal, upload_index: u128) -> (r: Result<Option<Vec<u128>>, Error>)
        ensures
            r is Err <==> !self.is_owner(caller.principal@),
            r is Err ==> r->Err_0 == Error::Unauthorized,
            r is Ok ==> (r->Ok_0 is Some <==> is_live(self.slots(), upload_index as int)),
            r is Ok && r->Ok_0 is Some ==> r->Ok_0->0@ == keys_of(self.slots(), upload_index as int),
    {
        if !self.check_owners(caller) {
            return Err(Error::Unauthorized);
        }
        match self.get_upload_by_index(upload_index) {
            None => Ok(None),
            Some(upload) => {
                let mut keys: Vec<u128> = Vec::new();
                let mut i: usize = 0;
                while i < upload.chunk_indeces.len()
                    invariant
                        i <= upload.chunk_indeces@.len(),
                        keys@ == upload.chunk_indeces@.subrange(0, i as int),
                    decreases upload.chunk_indeces@.len() - i,
                {
                    keys.push(upload.chunk_indeces[i]);
                    i = i + 1;
                    proof {
                        assert(keys@ =~= upload.chunk_indeces@.subrange(0, i as int));
                    }
                }
                proof {
                    assert(keys@ =~= upload.chunk_indeces@);
                }
                Ok(Some(keys))
            },
        }
    }

    /// The metadata of the upload under `upload_index`, with its status as
    /// text; none for an unknown or deleted upload.
    pub fn get_upload_details_by_index(&self, upload_index: u128) -> (r: Option<UploadDataResult>)
        ensures
            r is Some <==> is_live(self.slots(), upload_index as int),
            r is Some ==> ({
                let d = r->0;
                let up = self.slots()[upload_index as int]->Live_0;
                &&& d.index == up.index
                &&& d.original_name == up.original_name
                &&& d.file_size == up.file_size
                &&& d.isotopic_app_id == up.isotopic_app_id
                &&& d.platform == up.platform
                &&& d.status@ == status_label(up.status)
                &&& d.upload_timestamp == up.upload_timestamp
                &&& d.chunks_length == up.chunks_length
            }),
    {
        match self.get_upload_by_index(upload_index) {
            None => None,
            Some(upload) => Some(UploadDataResult {
                index: upload.index,
                original_name: upload.original_name.clone(),
                file_size: upload.file_size,
                isotopic_app_id: upload.isotopic_app_id.clone(),
                platform: upload.platform.clone(),
                status: upload.status.label(),
                upload_timestamp: upload.upload_timestamp,
                chunks_length: upload.chunks_length,
            }),
        }
    }

    /// Sets, replaces or (with `upload_id` none) removes the upload of
    /// `platform` under app id `iso_app_id`. Owners only. Removing from an
    /// unknown app id creates nothing and gives `Ok(false)`; removing a
    /// platform that is not there gives `Ok(false)` too.
    pub fn set_platform_upload(&mut self, caller: &StorablePrincipal, iso_app_id: String, platform: String, upload_id: Option<u128>) -> (r: Result<bool, Error>)
        requires
            old(self).wf(),
        ensures
            final(self).wf(),
            step(*old(self), *final(self)),
            r is Err <==> !old(self).is_owner(caller.principal@),
            r is Err ==> r->Err_0 == Error::Unauthorized && *final(self) == *old(self),
            r is Ok && !old(self).apps().contains_key(iso_app_id@) && upload_id is None
                ==> r == Ok::<bool, Error>(false) && *final(self) == *old(self),
            r is Ok && (old(self).apps().contains_key(iso_app_id@) || upload_id is Some) ==> {
                &&& index_changed(*old(self), iso_app_id@, *final(self))
                &&& upload_id is Some ==> r == Ok::<bool, Error>(true) && final(self).lookup(iso_app_id@)
                    == old(self).lookup(iso_app_id@).insert(platform@, upload_id->0)
                &&& upload_id is None ==> r == Ok::<bool, Error>(old(self).lookup(iso_app_id@).contains_key(platform@))
                    && final(self).lookup(iso_app_id@) == old(self).lookup(iso_app_id@).remove(platform@)
            },
    {
        if !self.check_owners(caller) {
            return Err(Error::Unauthorized);
        }
        let ghost pre = *self;
        let ghost a = iso_app_id@;
        match assoc_remove(&mut self.app_uploads, &iso_app_id) {
            None => match upload_id {
                None => Ok(false),
                Some(id) => {
                    let rec = AppUploadIDs::single(platform, id);
                    assoc_set(&mut self.app_uploads, iso_app_id, rec);
                    proof {
                        assert(Map::<Seq<char>, u128>::empty().insert(platform@, id) =~= pre.lookup(a).insert(platform@, id));
                        assert(assoc_map(self.app_uploads@).remove(a) =~= assoc_map(pre.app_uploads@).remove(a));
                        self.lemma_index_set(pre, a);
                    }
                    proof {
                        assert(index_changed(pre, a, *self));
                    }
                    Ok(true)
                },
            },
            Some(mut rec) => {
                let done = match upload_id {
                    None => rec.remove_platform(&platform),
                    Some(id) => {
                        rec.set_platform(platform, id);
                        true
                    },
                };
                assoc_set(&mut self.app_uploads, iso_app_id, rec);
                proof {
                    assert(assoc_map(self.app_uploads@) =~= pre.apps().insert(a, rec));
                    assert(assoc_map(self.app_uploads@).remove(a) =~= assoc_map(pre.app_uploads@).remove(a));
                    self.lemma_index_set(pre, a);
                }
                proof {
                    assert(index_changed(pre, a, *self));
                }
                Ok(done)
            },
        }
    }

    proof fn lemma_index_set(&self, pre: UploadStore, a: Seq<char>)
        requires
            pre.wf(),
            keys_unique(self.app_uploads@),
            assoc_map(self.app_uploads@).contains_key(a),
            assoc_map(self.app_uploads@)[a].wf(),
            assoc_map(self.app_uploads@).remove(a) == assoc_map(pre.app_uploads@).remove(a),
            self.uploads == pre.uploads,
            self.chunks == pre.chunks,
            self.free_chunk_keys == pre.free_chunk_keys,
            self.owners == pre.owners,
        ensures
            self.wf(),
            index_changed(pre, a, *self),
    {
        let m = assoc_map(self.app_uploads@);
        assert forall|b: Seq<char>| #[trigger] m.contains_key(b) implies m[b].wf() by {
            if b != a {
                assert(m.remove(a).contains_key(b));
                assert(m.remove(a)[b] == m[b]);
                assert(assoc_map(pre.app_uploads@).remove(a)[b] == assoc_map(pre.app_uploads@)[b]);
                assert(assoc_map(pre.app_uploads@).contains_key(b));
            }
        }
        assert(self.apps().dom() =~= pre.apps().dom().insert(a)) by {
            assert forall|b: Seq<char>| self.apps().dom().contains(b) <==> pre.apps().dom().insert(a).contains(b) by {
                if b != a {
                    assert(m.remove(a).contains_key(b) == m.contains_key(b));
                    assert(assoc_map(pre.app_uploads@).remove(a).contains_key(b) == assoc_map(pre.app_uploads@).contains_key(b));
                }
            }
        }
    }

    /// Moves the whole platform record of `old_iso_id` to `new_iso_id`,
    /// replacing any record there. Owners only. `Ok(false)`, with nothing
    /// changed, when `old_iso_id` has no record.
    pub fn mutate_uploads_to_new_iso_id(&mut self, caller: &StorablePrincipal, old_iso_id: &String, new_iso_id: String) -> (r: Result<bool, Error>)
        requires
            old(self).wf(),
        ensures
            final(self).wf(),
            step(*old(self), *final(self)),
            r is Err <==> !old(self).is_owner(caller.principal@),
            r is Err ==> r->Err_0 == Error::Unauthorized && *final(self) == *old(self),
            r is Ok && !old(self).apps().contains_key(old_iso_id@) ==> r == Ok::<bool, Error>(false)
                && *final(self) == *old(self),
            r is Ok && old(self).apps().contains_key(old_iso_id@) ==> r == Ok::<bool, Error>(true)
                && rekeyed(*old(self), old_iso_id@, new_iso_id@, *final(self)),
    {
        if !self.check_owners(caller) {
            return Err(Error::Unauthorized);
        }
        let ghost pre = *self;
        let ghost new_key = new_iso_id@;
        match assoc_remove(&mut self.app_uploads, old_iso_id) {
            Some(rec) => {
                assoc_set(&mut self.app_uploads, new_iso_id, rec);
                proof {
                    let m = assoc_map(self.app_uploads@);
                    assert forall|b: Seq<char>| #[trigger] m.contains_key(b) implies m[b].wf() by {
                        if b != new_iso_id@ {
                            assert(assoc_map(pre.app_uploads@).contains_key(b));
                        }
                    }
                }
                proof {
                    assert(rekeyed(pre, old_iso_id@, new_key, *self));
                }
                Ok(true)
            },
            None => Ok(false),
        }
    }

    /// The platform mapping of app id `iso_id`, as (platform, upload key)
    /// pairs with each platform once; empty for an unknown app id.
    pub fn get_uploads_by_iso_id(&self, iso_id: &String) -> (r: Vec<(String, u128)>)
        requires
            self.wf(),
        ensures
            keys_unique(r@),
            assoc_map(r@) == self.lookup(iso_id@),
    {
        match assoc_get(&self.app_uploads, iso_id) {
            None => {
                let r: Vec<(String, u128)> = Vec::new();
                proof {
                    assert(assoc_map(r@) == Map::<Seq<char>, u128>::empty());
                }
                r
            },
            Some(rec) => rec.entries(),
        }
    }
}

/// The largest chunk that the store takes, in bytes.
pub fn get_chunk_max_size() -> (r: usize)
    ensures
        r == CHUNK_MAX_SIZE,
{
    CHUNK_MAX_SIZE
}

/// `post` is `pre` with the record of app id `a` set (to whatever `post`
/// says); every other app id, and everything outside the index, unchanged.
pub open spec fn index_changed(pre: UploadStore, a: Seq<char>, post: UploadStore) -> bool {
    &&& post.apps().dom() == pre.apps().dom().insert(a)
    &&& post.apps().remove(a) == pre.apps().remove(a)
    &&& post.slots() == pre.slots()
    &&& post.stored_chunks() == pre.stored_chunks()
    &&& post.free_keys() == pre.free_keys()
    &&& post.owner_ids() == pre.owner_ids()
}

/// `post` is `pre` with the record of app id `from` moved to `to`,
/// replacing any record of `to`. Nothing else changes.
pub open spec fn rekeyed(pre: UploadStore, from: Seq<char>, to: Seq<char>, post: UploadStore) -> bool {
    &&& post.apps() == pre.apps().remove(from).insert(to, pre.apps()[from])
    &&& post.slots() == pre.slots()
    &&& post.stored_chunks() == pre.stored_chunks()
    &&& post.free_keys() == pre.free_keys()
    &&& post.owner_ids() == pre.owner_ids()
}

/// `post` is `pre` with one upload added, under `key`: the next upload key
/// of `pre`. Nothing else changes.
pub open spec fn created(pre: UploadStore, key: u128, post: UploadStore) -> bool {
    &&& key == pre.next_upload_key()
    &&& post.slots().len() == pre.slots().len() + 1
    &&& post.slots().subrange(0, pre.slots().len() as int) == pre.slots()
    &&& is_live(post.slots(), key as int)
    &&& post.slots()[key as int]->Live_0.index == key
    &&& keys_of(post.slots(), key as int).len() == 0
    &&& post.stored_chunks() == pre.stored_chunks()
    &&& post.free_keys() == pre.free_keys()
    &&& post.apps() == pre.apps()
    &&& post.owner_ids() == pre.owner_ids()
}

} // verus!
