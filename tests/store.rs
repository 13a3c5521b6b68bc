use isotopic_icp_store_backend::store::{get_chunk_max_size, Error, UploadStore};
use isotopic_icp_store_backend::types::{StorablePrincipal, UploadStatus, CHUNK_MAX_SIZE};

fn owner() -> StorablePrincipal {
    StorablePrincipal { principal: vec![1, 2, 3] }
}

fn stranger() -> StorablePrincipal {
    StorablePrincipal { principal: vec![9] }
}

fn store() -> UploadStore {
    UploadStore::init(owner(), None)
}

fn create(s: &mut UploadStore, size: u128) -> u128 {
    s.init_new_upload(&owner(), "file.bin".to_string(), size, "app".to_string(), "web".to_string(), 42)
        .ok()
        .unwrap()
}

fn chunk_keys(s: &UploadStore, u: u128) -> Option<Vec<u128>> {
    s.get_upload_chunk_indeces(&owner(), u).ok().unwrap()
}

fn lookup(s: &UploadStore, app: &str) -> Vec<(String, u128)> {
    let mut v = s.get_uploads_by_iso_id(&app.to_string());
    v.sort();
    v
}

#[test]
fn end_to_end_two_chunks() {
    let mut s = store();
    let u = create(&mut s, 2_000_000);
    assert_eq!(s.get_upload_details_by_index(u).unwrap().chunks_length, 2);
    let a = vec![7u8; 1_048_576];
    let b = vec![8u8; 951_424];
    assert!(s.upload_chunk(&owner(), u, a.clone()).ok().unwrap());
    assert!(s.upload_chunk(&owner(), u, b.clone()).ok().unwrap());
    assert_eq!(s.get_upload_chunk(u, 0), Some(a));
    assert_eq!(s.get_upload_chunk(u, 1), Some(b));
    assert_eq!(s.get_upload_chunk(u, 2), None);
}

#[test]
fn end_to_end_freed_key_is_reused() {
    let mut s = store();
    let u1 = create(&mut s, 10);
    assert!(s.upload_chunk(&owner(), u1, vec![1, 2, 3]).ok().unwrap());
    let freed = chunk_keys(&s, u1).unwrap()[0];
    assert!(s.delete_upload(&owner(), u1).ok().unwrap());
    let u2 = create(&mut s, 10);
    assert!(s.upload_chunk(&owner(), u2, vec![4, 5]).ok().unwrap());
    assert_eq!(chunk_keys(&s, u2), Some(vec![freed]));
    assert_eq!(s.get_upload_chunk(u2, 0), Some(vec![4, 5]));
}

#[test]
fn upload_keys_increase_across_deletes() {
    let mut s = store();
    let a = create(&mut s, 1);
    let b = create(&mut s, 1);
    assert!(s.delete_upload(&owner(), b).ok().unwrap());
    let c = create(&mut s, 1);
    assert!(s.delete_upload(&owner(), a).ok().unwrap());
    let d = create(&mut s, 1);
    assert_eq!((a, b, c, d), (0, 1, 2, 3));
}

#[test]
fn oversized_chunk_is_refused() {
    let mut s = store();
    let u = create(&mut s, 5);
    assert!(s.upload_chunk(&owner(), u, vec![0]).ok().unwrap());
    let big = vec![0u8; CHUNK_MAX_SIZE + 1];
    assert_eq!(s.upload_chunk(&owner(), u, big).ok(), Some(false));
    assert_eq!(chunk_keys(&s, u), Some(vec![0]));
    let exact = vec![3u8; CHUNK_MAX_SIZE];
    assert_eq!(s.upload_chunk(&owner(), u, exact).ok(), Some(true));
    assert_eq!(chunk_keys(&s, u), Some(vec![0, 1]));
}

#[test]
fn chunks_of_two_uploads_are_kept_apart() {
    let mut s = store();
    let u = create(&mut s, 5);
    let v = create(&mut s, 5);
    assert!(s.upload_chunk(&owner(), u, vec![1]).ok().unwrap());
    assert!(s.upload_chunk(&owner(), v, vec![2]).ok().unwrap());
    assert!(s.upload_chunk(&owner(), u, vec![3]).ok().unwrap());
    assert_eq!(chunk_keys(&s, u), Some(vec![0, 2]));
    assert_eq!(chunk_keys(&s, v), Some(vec![1]));
    assert_eq!(s.get_upload_chunk(u, 1), Some(vec![3]));
    assert_eq!(s.get_upload_chunk(v, 0), Some(vec![2]));
    assert_eq!(s.get_upload_chunk(v, 1), None);
    assert_eq!(s.get_upload_chunk(7, 0), None);
    assert_eq!(s.get_chunk_at_stored_index(&owner(), 2).ok().unwrap(), Some(vec![3]));
    assert_eq!(s.get_chunk_at_stored_index(&owner(), 3).ok().unwrap(), None);
}

#[test]
fn delete_frees_keys_in_stack_order() {
    let mut s = store();
    let u = create(&mut s, 5);
    for b in 0..3u8 {
        assert!(s.upload_chunk(&owner(), u, vec![b]).ok().unwrap());
    }
    assert!(s.delete_upload(&owner(), u).ok().unwrap());
    assert_eq!(chunk_keys(&s, u), None);
    assert!(s.get_upload_details_by_index(u).is_none());
    assert_eq!(s.get_upload_chunk(u, 0), None);
    assert_eq!(s.delete_upload(&owner(), u).ok(), Some(false));
    assert_eq!(s.upload_chunk(&owner(), u, vec![1]).ok(), Some(false));
    let v = create(&mut s, 5);
    for b in 0..4u8 {
        assert!(s.upload_chunk(&owner(), v, vec![b]).ok().unwrap());
    }
    assert_eq!(chunk_keys(&s, v), Some(vec![2, 1, 0, 3]));
    // Freed bytes stay until their key is written again.
    assert_eq!(s.get_upload_chunk(v, 3), Some(vec![3]));
}

#[test]
fn removing_missing_platform_creates_nothing() {
    let mut s = store();
    assert_eq!(s.set_platform_upload(&owner(), "app".to_string(), "ios".to_string(), None).ok(), Some(false));
    assert!(lookup(&s, "app").is_empty());
    assert_eq!(s.set_platform_upload(&owner(), "app".to_string(), "ios".to_string(), Some(4)).ok(), Some(true));
    assert_eq!(s.set_platform_upload(&owner(), "app".to_string(), "web".to_string(), None).ok(), Some(false));
    assert_eq!(lookup(&s, "app"), vec![("ios".to_string(), 4)]);
}

#[test]
fn platform_entries_set_replace_remove() {
    let mut s = store();
    assert_eq!(s.set_platform_upload(&owner(), "app".to_string(), "ios".to_string(), Some(1)).ok(), Some(true));
    assert_eq!(s.set_platform_upload(&owner(), "app".to_string(), "web".to_string(), Some(2)).ok(), Some(true));
    assert_eq!(s.set_platform_upload(&owner(), "app".to_string(), "ios".to_string(), Some(3)).ok(), Some(true));
    assert_eq!(lookup(&s, "app"), vec![("ios".to_string(), 3), ("web".to_string(), 2)]);
    assert_eq!(s.set_platform_upload(&owner(), "app".to_string(), "ios".to_string(), None).ok(), Some(true));
    assert_eq!(lookup(&s, "app"), vec![("web".to_string(), 2)]);
    assert!(lookup(&s, "other").is_empty());
}

#[test]
fn rekey_moves_whole_mapping() {
    let mut s = store();
    s.set_platform_upload(&owner(), "old".to_string(), "ios".to_string(), Some(1)).ok().unwrap();
    s.set_platform_upload(&owner(), "old".to_string(), "web".to_string(), Some(2)).ok().unwrap();
    s.set_platform_upload(&owner(), "new".to_string(), "mac".to_string(), Some(9)).ok().unwrap();
    assert_eq!(s.mutate_uploads_to_new_iso_id(&owner(), &"old".to_string(), "new".to_string()).ok(), Some(true));
    assert!(lookup(&s, "old").is_empty());
    assert_eq!(lookup(&s, "new"), vec![("ios".to_string(), 1), ("web".to_string(), 2)]);
    assert_eq!(s.mutate_uploads_to_new_iso_id(&owner(), &"old".to_string(), "x".to_string()).ok(), Some(false));
    assert!(lookup(&s, "x").is_empty());
}

#[test]
fn strangers_are_unauthorized() {
    let mut s = store();
    let u = create(&mut s, 1);
    assert!(matches!(
        s.init_new_upload(&stranger(), "f".to_string(), 1, "a".to_string(), "p".to_string(), 0),
        Err(Error::Unauthorized)
    ));
    assert!(matches!(s.upload_chunk(&stranger(), u, vec![1]), Err(Error::Unauthorized)));
    assert!(matches!(s.delete_upload(&stranger(), u), Err(Error::Unauthorized)));
    assert!(matches!(s.get_chunk_at_stored_index(&stranger(), 0), Err(Error::Unauthorized)));
    assert!(matches!(s.get_upload_chunk_indeces(&stranger(), u), Err(Error::Unauthorized)));
    assert!(matches!(
        s.set_platform_upload(&stranger(), "a".to_string(), "p".to_string(), Some(1)),
        Err(Error::Unauthorized)
    ));
    assert!(matches!(
        s.mutate_uploads_to_new_iso_id(&stranger(), &"a".to_string(), "b".to_string()),
        Err(Error::Unauthorized)
    ));
    assert!(s.owner_only_guard(&stranger()).is_err());
    assert!(s.owner_only_guard(&owner()).is_ok());
    assert_eq!(chunk_keys(&s, u), Some(vec![]));
}

#[test]
fn explicit_owner_set_replaces_caller() {
    let s = UploadStore::init(owner(), Some(vec![stranger()]));
    assert!(s.check_owners(&stranger()));
    assert!(!s.check_owners(&owner()));
    assert!(!s.check_owners(&StorablePrincipal { principal: vec![1, 2] }));
}

#[test]
fn details_project_metadata() {
    let mut s = store();
    let u = s
        .init_new_upload(&owner(), "movie.mp4".to_string(), 1_048_576, "iso".to_string(), "android".to_string(), 77)
        .ok()
        .unwrap();
    let d = s.get_upload_details_by_index(u).unwrap();
    assert_eq!(d.index, u);
    assert_eq!(d.original_name, "movie.mp4");
    assert_eq!(d.file_size, 1_048_576);
    assert_eq!(d.isotopic_app_id, "iso");
    assert_eq!(d.platform, "android");
    assert_eq!(d.status, "Init");
    assert_eq!(d.upload_timestamp, 77);
    assert_eq!(d.chunks_length, 2);
    assert_eq!(s.get_upload_by_index(u).unwrap().chunks_length, 2);
    assert!(s.get_upload_by_index(u + 1).is_none());
}

#[test]
fn chunks_length_formula() {
    let mut s = store();
    let sizes: [(u128, u32); 4] = [(0, 1), (1_048_575, 1), (1_048_576, 2), (5 * 1_048_576 + 1, 6)];
    for (size, expect) in sizes {
        let u = create(&mut s, size);
        assert_eq!(s.get_upload_details_by_index(u).unwrap().chunks_length, expect);
    }
}

#[test]
fn status_labels() {
    assert_eq!(UploadStatus::Init.label(), "Init");
    assert_eq!(UploadStatus::Uploading.label(), "Uploading");
    assert_eq!(UploadStatus::Ready.label(), "Ready");
    assert_eq!(UploadStatus::Unavailable.label(), "Unavailable");
}

#[test]
fn chunk_max_size_is_one_mebibyte() {
    assert_eq!(get_chunk_max_size(), 1_048_576);
}

#[test]
fn rekey_onto_itself_keeps_record() {
    let mut s = store();
    s.set_platform_upload(&owner(), "same".to_string(), "ios".to_string(), Some(5)).ok().unwrap();
    assert_eq!(s.mutate_uploads_to_new_iso_id(&owner(), &"same".to_string(), "same".to_string()).ok(), Some(true));
    assert_eq!(lookup(&s, "same"), vec![("ios".to_string(), 5)]);
}

#[test]
fn two_stores_keep_their_own_chunks() {
    let mut a = store();
    let ua = create(&mut a, 1);
    assert!(a.upload_chunk(&owner(), ua, vec![1]).ok().unwrap());
    let mut b = store();
    let ub = create(&mut b, 1);
    assert!(b.upload_chunk(&owner(), ub, vec![2]).ok().unwrap());
    assert_eq!(a.get_upload_chunk(ua, 0), Some(vec![1]));
    assert_eq!(b.get_upload_chunk(ub, 0), Some(vec![2]));
}

#[test]
fn chunks_length_saturates() {
    let mut s = store();
    let u = create(&mut s, u128::MAX);
    assert_eq!(s.get_upload_details_by_index(u).unwrap().chunks_length, u32::MAX);
    let v = create(&mut s, (u32::MAX as u128 - 1) * 1_048_576);
    assert_eq!(s.get_upload_details_by_index(v).unwrap().chunks_length, u32::MAX);
    let w = create(&mut s, (u32::MAX as u128) * 1_048_576);
    assert_eq!(s.get_upload_details_by_index(w).unwrap().chunks_length, u32::MAX);
}
