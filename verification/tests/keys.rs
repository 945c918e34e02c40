use veritysetup::key::VolumeKeyStore;

#[test]
fn release_zeroizes_and_removes() {
    let mut store = VolumeKeyStore::new();
    let secret = vec![0xDE, 0xAD, 0xBE, 0xEF];
    let id = store.store(&secret, "volume-key".to_string());
    let released = store.release(id).unwrap();
    assert_eq!(released.id, id);
    assert_eq!(released.keylength, 4);
    assert_eq!(released.key, vec![0u8; 4]);
    // the key is gone; a second release finds nothing
    assert!(store.release(id).is_none());
}

#[test]
fn keys_get_distinct_ids_and_exact_buffers() {
    let mut store = VolumeKeyStore::new();
    let a = store.store(&vec![1, 2, 3], "a".to_string());
    let b = store.store(&vec![4, 5], "b".to_string());
    assert_ne!(a, b);
    let kb = store.release(b).unwrap();
    assert_eq!(kb.keylength, 2);
    let ka = store.release(a).unwrap();
    assert_eq!(ka.keylength, 3);
}

#[test]
fn release_of_unknown_id_is_none() {
    let mut store = VolumeKeyStore::new();
    assert!(store.release(42).is_none());
}
