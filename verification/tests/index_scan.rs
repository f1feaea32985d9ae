use blobidx::index::PathIndex;

#[test]
fn index_prefix_scan_is_sorted_and_exact() {
    let mut ix = PathIndex::new();
    ix.insert(b"b/z", b"3");
    ix.insert(b"a/y", b"2");
    ix.insert(b"a/x", b"1");
    let hits = ix.scan_prefix(b"a/");
    assert_eq!(
        hits,
        vec![(b"a/x".to_vec(), b"1".to_vec()), (b"a/y".to_vec(), b"2".to_vec())]
    );
}

#[test]
fn index_insert_overwrites_duplicate_key() {
    let mut ix = PathIndex::new();
    ix.insert(b"k", b"old");
    ix.insert(b"k", b"new");
    assert_eq!(ix.scan_prefix(b""), vec![(b"k".to_vec(), b"new".to_vec())]);
}

#[test]
fn index_scan_of_empty_index_is_empty() {
    let ix = PathIndex::new();
    assert!(ix.scan_prefix(b"").is_empty());
    assert!(ix.scan_prefix(b"a").is_empty());
}

#[test]
fn index_scan_prefix_longer_than_keys_is_empty() {
    let mut ix = PathIndex::new();
    ix.insert(b"ab", b"1");
    assert!(ix.scan_prefix(b"ab/c").is_empty());
}

#[test]
fn index_keys_that_equal_the_prefix_are_included() {
    let mut ix = PathIndex::new();
    ix.insert(b"a", b"1");
    ix.insert(b"ab", b"2");
    ix.insert(b"b", b"3");
    assert_eq!(
        ix.scan_prefix(b"a"),
        vec![(b"a".to_vec(), b"1".to_vec()), (b"ab".to_vec(), b"2".to_vec())]
    );
}
