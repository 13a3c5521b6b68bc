//! The records of the store: uploads, their status, the per-application
//! platform index, and owner identities.

use vstd::prelude::*;
use vstd::string::StringExecFns;
use crate::assoc::{assoc_get, assoc_map, assoc_remove, assoc_set, keys_unique};
use crate::chunk_store::{chunk_contents, chunk_map_get, ChunkMap};

verus! {

/// The largest chunk, in bytes.
pub const CHUNK_MAX_SIZE: usize = 1048576;

/// An owner identity: the bytes of a principal.
pub struct StorablePrincipal {
    pub principal: Vec<u8>,
}

/// The platform uploads of one application: each platform label mapped to
/// an upload key.
pub struct AppUploadIDs {
    platform_uploads: Vec<(String, u128)>,
}

impl AppUploadIDs {
    /// The mapping from platform label to upload key.
    pub closed spec fn view(&self) -> Map<Seq<char>, u128> {
        assoc_map(self.platform_uploads@)
    }

    /// No platform occurs twice.
    pub closed spec fn wf(&self) -> bool {
        keys_unique(self.platform_uploads@)
    }

    /// A record with one platform entry.
    pub fn single(platform: String, upload: u128) -> (r: AppUploadIDs)
        ensures
            r.wf(),
            r.view() == Map::<Seq<char>, u128>::empty().insert(platform@, upload),
    {
        let mut r = AppUploadIDs { platform_uploads: Vec::new() };
        proof {
            assert(assoc_map(r.platform_uploads@) == Map::<Seq<char>, u128>::empty());
        }
        assoc_set(&mut r.platform_uploads, platform, upload);
        r
    }

    /// Sets the upload of `platform`, replacing any earlier one.
    pub fn set_platform(&mut self, platform: String, upload: u128)
        requires
            old(self).wf(),
        ensures
            final(self).wf(),
            final(self).view() == old(self).view().insert(platform@, upload),
    {
        assoc_set(&mut self.platform_uploads, platform, upload);
    }

    /// Removes the entry of `platform`; true iff it was there.
    pub fn remove_platform(&mut self, platform: &String) -> (r: bool)
        requires
            old(self).wf(),
        ensures
            final(self).wf(),
            r == old(self).view().contains_key(platform@),
            final(self).view() == old(self).view().remove(platform@),
    {
        assoc_remove(&mut self.platform_uploads, platform).is_some()
    }

    /// The upload of `platform`, if it has one.
    pub fn get_platform(&self, platform: &String) -> (r: Option<u128>)
        requires
            self.wf(),
        ensures
            r is Some <==> self.view().contains_key(platform@),
            r is Some ==> r->0 == self.view()[platform@],
    {
        match assoc_get(&self.platform_uploads, platform) {
            Some(u) => Some(*u),
            None => None,
        }
    }

    /// The entries as (platform, upload key) pairs, each platform once.
    pub fn entries(&self) -> (r: Vec<(String, u128)>)
        requires
            self.wf(),
        ensures
            keys_unique(r@),
            assoc_map(r@) == self.view(),
    {
        let mut r: Vec<(String, u128)> = Vec::new();
        let mut i: usize = 0;
        while i < self.platform_uploads.len()
            invariant
                i <= self.platform_uploads@.len(),
                r@.len() == i,
                forall|j: int| 0 <= j < i ==> (#[trigger] r@[j]).0@ == self.platform_uploads@[j].0@
                    && r@[j].1 == self.platform_uploads@[j].1,
            decreases self.platform_uploads@.len() - i,
        {
            let (p, u) = (self.platform_uploads[i].0.clone(), self.platform_uploads[i].1);
            r.push((p, u));
            i = i + 1;
        }
        proof {
            lemma_same_keys(r@, self.platform_uploads@);
        }
        r
    }
}

/// Two lists whose entries agree in keys' characters and in values stand for
/// the same map.
proof fn lemma_same_keys(a: Seq<(String, u128)>, b: Seq<(String, u128)>)
    requires
        a.len() == b.len(),
        forall|j: int| 0 <= j < a.len() ==> (#[trigger] a[j]).0@ == b[j].0@ && a[j].1 == b[j].1,
    ensures
        assoc_map(a) == assoc_map(b),
        keys_unique(b) ==> keys_unique(a),
    decreases a.len(),
{
    if a.len() > 0 {
        lemma_same_keys(a.drop_last(), b.drop_last());
        assert(a.last().0@ == b.last().0@);
    }
    if keys_unique(b) {
        assert forall|i: int, j: int|
            0 <= i < a.len() && 0 <= j < a.len() && #[trigger] a[i].0@ == #[trigger] a[j].0@
            implies i == j by {
            assert(b[i].0@ == b[j].0@);
        }
    }
}

/// Where an upload stands.
#[derive(Clone, Copy)]
pub enum UploadStatus {
    Init,
    Uploading,
    Ready,
    Unavailable,
}

/// The name of a status.
pub open spec fn status_label(s: UploadStatus) -> Seq<char> {
    match s {
        UploadStatus::Init => "Init"@,
        UploadStatus::Uploading => "Uploading"@,
        UploadStatus::Ready => "Ready"@,
        UploadStatus::Unavailable => "Unavailable"@,
    }
}

impl UploadStatus {
    /// The status's name, as text.
    pub fn label(&self) -> (r: String)
        ensures
            r@ == status_label(*self),
    {
        match self {
            UploadStatus::Init => String::from_str("Init"),
            UploadStatus::Uploading => String::from_str("Uploading"),
            UploadStatus::Ready => String::from_str("Ready"),
            UploadStatus::Unavailable => String::from_str("Unavailable"),
        }
    }
}

/// The number of chunks that a file of `file_size` bytes is expected to take,
/// one more than its whole chunks, held at `u32::MAX` where that is larger.
pub open spec fn expected_chunks(file_size: u128) -> u32 {
    let n = file_size / (CHUNK_MAX_SIZE as u128) + 1;
    if n > u32::MAX {
        u32::MAX
    } else {
        n as u32
    }
}

/// One logical file transfer.
pub struct Upload {
    pub index: u128,
    pub original_name: String,
    pub file_size: u128,
    /// The physical chunk keys; position `i` holds logical chunk `i`.
    pub chunk_indeces: Vec<u128>,
    pub chunks_length: u32,
    pub isotopic_app_id: String,
    pub platform: String,
    pub status: UploadStatus,
    pub upload_timestamp: u64,
}

/// The bytes of an optional buffer.
pub open spec fn bytes_opt(r: Option<Vec<u8>>) -> Option<Seq<u8>> {
    match r {
        Some(v) => Some(v@),
        None => None,
    }
}

/// Logical chunk `i` of a file whose chunk keys are `keys`: the bytes stored
/// under the key at position `i`, or nothing past the end.
pub open spec fn chunk_at(keys: Seq<u128>, chunks: Map<u128, Seq<u8>>, i: int) -> Option<Seq<u8>> {
    if 0 <= i < keys.len() && chunks.contains_key(keys[i]) {
        Some(chunks[keys[i]])
    } else {
        None
    }
}

impl Upload {
    /// The bytes of logical chunk `index`, read from `chunks`.
    pub fn get_chunk(&self, index: u128, chunks: &ChunkMap) -> (r: Option<Vec<u8>>)
        ensures
            bytes_opt(r) == chunk_at(self.chunk_indeces@, chunk_contents(*chunks), index as int),
    {
        if self.chunk_indeces.len() as u128 <= index {
            return None;
        }
        let stored_index = self.chunk_indeces[index as usize];
        chunk_map_get(chunks, stored_index)
    }

    /// This upload with `key` appended to its chunk keys.
    pub fn with_chunk(&self, key: u128) -> (r: Upload)
        ensures
            r.chunk_indeces@ == self.chunk_indeces@.push(key),
            r.index == self.index,
            r.original_name == self.original_name,
            r.file_size == self.file_size,
            r.chunks_length == self.chunks_length,
            r.isotopic_app_id == self.isotopic_app_id,
            r.platform == self.platform,
            r.status == self.status,
            r.upload_timestamp == self.upload_timestamp,
    {
        let mut keys: Vec<u128> = Vec::new();
        let mut i: usize = 0;
        while i < self.chunk_indeces.len()
            invariant
                i <= self.chunk_indeces@.len(),
                keys@ == self.chunk_indeces@.subrange(0, i as int),
            decreases self.chunk_indeces@.len() - i,
        {
            keys.push(self.chunk_indeces[i]);
            i = i + 1;
            proof {
                assert(keys@ =~= self.chunk_indeces@.subrange(0, i as int));
            }
        }
        keys.push(key);
        proof {
            assert(keys@ =~= self.chunk_indeces@.push(key));
        }
        Upload {
            index: self.index,
            original_name: self.original_name.clone(),
            file_size: self.file_size,
            chunk_indeces: keys,
            chunks_length: self.chunks_length,
            isotopic_app_id: self.isotopic_app_id.clone(),
            platform: self.platform.clone(),
            status: self.status,
            upload_timestamp: self.upload_timestamp,
        }
    }

    /// A fresh upload with no chunks yet, in status `Init`.
    pub fn new(
        index: u128,
        original_name: String,
        file_size: u128,
        isotopic_app_id: String,
        platform: String,
        upload_timestamp: u64,
    ) -> (r: Upload)
        ensures
            r.index == index,
            r.original_name == original_name,
            r.file_size == file_size,
            r.chunk_indeces@.len() == 0,
            r.chunks_length == expected_chunks(file_size),
            r.isotopic_app_id == isotopic_app_id,
            r.platform == platform,
            r.status == UploadStatus::Init,
            r.upload_timestamp == upload_timestamp,
    {
        let whole: u128 = file_size / (CHUNK_MAX_SIZE as u128);
        Upload {
            index,
            original_name,
            file_size,
            chunk_indeces: Vec::new(),
            chunks_length: if whole >= u32::MAX as u128 {
                u32::MAX
            } else {
                (whole + 1) as u32
            },
            isotopic_app_id,
            platform,
            status: UploadStatus::Init,
            upload_timestamp,
        }
    }
}

} // verus!
