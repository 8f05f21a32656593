use mammon::store::Store;
use mammon::Error;

#[test]
fn persists_across_reopen() {
    let mut st = Store::new();
    st.store("a".to_string(), vec![1u8, 2, 3]).unwrap();
    let blob = st.log_bytes();
    let catalog_doc = st.catalog_document().unwrap();
    let empties_doc = st.empties_document().unwrap();
    drop(st);
    let st2 = Store::open(blob, &catalog_doc, &empties_doc).unwrap();
    assert_eq!(st2.retrieve(&"a".to_string()).unwrap(), vec![1u8, 2, 3]);
}

#[test]
fn reopen_preserves_everything() {
    let mut st = Store::new();
    st.store("a".to_string(), vec![1u8, 2]).unwrap();
    st.store("b".to_string(), vec![3u8, 4, 5]).unwrap();
    st.delete(&"a".to_string()).unwrap();
    let st2 = st.reopen().unwrap();
    assert_eq!(st2.retrieve(&"b".to_string()).unwrap(), vec![3u8, 4, 5]);
    assert_eq!(st2.retrieve(&"a".to_string()).unwrap_err(), Error::KeyNotFound);
    assert_eq!(st2.catalog_len(), 1);
    assert_eq!(st2.empties_len(), 1);
    assert_eq!(st2.log_size(), st.log_size());
}

#[test]
fn fresh_store_documents_reopen_empty() {
    let st = Store::new();
    let blob = st.log_bytes();
    let catalog_doc = st.catalog_document().unwrap();
    let empties_doc = st.empties_document().unwrap();
    let st2 = Store::open(blob, &catalog_doc, &empties_doc).unwrap();
    assert_eq!(st2.catalog_len(), 0);
    assert_eq!(st2.empties_len(), 0);
    assert_eq!(st2.log_size(), 0);
}

#[test]
fn open_rejects_empty_metadata_file() {
    // An empty file is not a valid zero-entry document.
    match Store::open(Vec::new(), &Vec::new(), &Vec::new()) {
        Err(e) => assert_eq!(e, Error::CorruptMetadata),
        Ok(_) => panic!("an empty metadata file must be refused"),
    }
}

#[test]
fn open_rejects_garbage_metadata() {
    let st = Store::new();
    let empties_doc = st.empties_document().unwrap();
    let garbage = vec![0xffu8, 0x00, 0x13, 0x37];
    match Store::open(Vec::new(), &garbage, &empties_doc) {
        Err(e) => assert_eq!(e, Error::CorruptMetadata),
        Ok(_) => panic!("garbage metadata must be refused"),
    }
}

#[test]
fn open_accepts_externally_encoded_documents() {
    // Documents written by ciborium directly, not by the store.
    let pairs: Vec<(String, (u64, u64))> = vec![("k".to_string(), (0u64, 3u64))];
    let mut catalog_doc: Vec<u8> = Vec::new();
    ciborium::ser::into_writer(&pairs, &mut catalog_doc).unwrap();
    let empties: Vec<(u64, u64)> = Vec::new();
    let mut empties_doc: Vec<u8> = Vec::new();
    ciborium::ser::into_writer(&empties, &mut empties_doc).unwrap();
    let st = Store::open(vec![7u8, 8, 9], &catalog_doc, &empties_doc).unwrap();
    assert_eq!(st.retrieve(&"k".to_string()).unwrap(), vec![7u8, 8, 9]);
}

#[test]
fn truncated_read_is_surfaced() {
    // A catalog entry reaching past the end of the log is a distinct
    // error, never zero-padded.
    let pairs: Vec<(String, (u64, u64))> = vec![("k".to_string(), (1u64, 5u64))];
    let mut catalog_doc: Vec<u8> = Vec::new();
    ciborium::ser::into_writer(&pairs, &mut catalog_doc).unwrap();
    let empties: Vec<(u64, u64)> = Vec::new();
    let mut empties_doc: Vec<u8> = Vec::new();
    ciborium::ser::into_writer(&empties, &mut empties_doc).unwrap();
    let st = Store::open(vec![1u8, 2, 3], &catalog_doc, &empties_doc).unwrap();
    assert_eq!(st.retrieve(&"k".to_string()).unwrap_err(), Error::TruncatedRead);
}

#[test]
fn long_and_unicode_keys_persist() {
    let mut st = Store::new();
    let long_key = "k".repeat(5000);
    st.store(long_key.clone(), vec![1u8]).unwrap();
    st.store("cl\u{e9} \u{1F600}".to_string(), vec![2u8, 3]).unwrap();
    let st2 = st.reopen().unwrap();
    assert_eq!(st2.retrieve(&long_key).unwrap(), vec![1u8]);
    assert_eq!(st2.retrieve(&"cl\u{e9} \u{1F600}".to_string()).unwrap(), vec![2u8, 3]);
}

#[test]
fn huge_location_is_a_truncated_read() {
    let pairs: Vec<(String, (u64, u64))> = vec![("k".to_string(), (u64::MAX, u64::MAX))];
    let mut catalog_doc: Vec<u8> = Vec::new();
    ciborium::ser::into_writer(&pairs, &mut catalog_doc).unwrap();
    let empties: Vec<(u64, u64)> = Vec::new();
    let mut empties_doc: Vec<u8> = Vec::new();
    ciborium::ser::into_writer(&empties, &mut empties_doc).unwrap();
    let st = Store::open(vec![1u8], &catalog_doc, &empties_doc).unwrap();
    assert_eq!(st.retrieve(&"k".to_string()).unwrap_err(), Error::TruncatedRead);
}

#[test]
fn duplicate_keys_in_document_last_wins() {
    let pairs: Vec<(String, (u64, u64))> =
        vec![("k".to_string(), (0u64, 1u64)), ("k".to_string(), (1u64, 2u64))];
    let mut catalog_doc: Vec<u8> = Vec::new();
    ciborium::ser::into_writer(&pairs, &mut catalog_doc).unwrap();
    let empties: Vec<(u64, u64)> = Vec::new();
    let mut empties_doc: Vec<u8> = Vec::new();
    ciborium::ser::into_writer(&empties, &mut empties_doc).unwrap();
    let st = Store::open(vec![10u8, 20, 30], &catalog_doc, &empties_doc).unwrap();
    assert_eq!(st.catalog_len(), 1);
    assert_eq!(st.retrieve(&"k".to_string()).unwrap(), vec![20u8, 30]);
}
