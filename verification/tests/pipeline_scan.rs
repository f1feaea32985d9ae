use std::sync::{Arc, Mutex};

use blobidx::pipeline::Pipeline;
use blobidx::store::BytesStore;

/// Shares a verified byte store behind the lock that radixdb's attach
/// operation expects of a blob store.
#[derive(Debug, Clone)]
struct SharedStore(Arc<Mutex<BytesStore>>);

impl radixdb::store::BlobStore for SharedStore {
    type Error = anyhow::Error;

    fn read(&self, id: &[u8]) -> Result<radixdb::store::Blob<'static>, Self::Error> {
        let store = self.0.lock().unwrap();
        match store.read(id) {
            Ok(bytes) => Ok(radixdb::store::Blob::copy_from_slice(&bytes)),
            Err(e) => Err(anyhow::Error::msg(format!("{:?}", e))),
        }
    }

    fn write(&self, data: &[u8]) -> Result<Vec<u8>, Self::Error> {
        let mut store = self.0.lock().unwrap();
        Ok(store.write(data))
    }

    fn sync(&self) -> Result<(), Self::Error> {
        let store = self.0.lock().unwrap();
        match store.sync() {
            Ok(()) => Ok(()),
            Err(e) => Err(anyhow::Error::msg(format!("{:?}", e))),
        }
    }
}

#[test]
fn prefix_scan_yields_matching_entries_in_order() {
    let mut p = Pipeline::new();
    p.record_file(b"a/x", b"1", b"one");
    p.record_file(b"a/y", b"2", b"two");
    p.record_file(b"b/z", b"3", b"three");
    let hits = p.scan_prefix(b"a/");
    assert_eq!(
        hits,
        vec![(b"a/x".to_vec(), b"1".to_vec()), (b"a/y".to_vec(), b"2".to_vec())]
    );
    let all = p.scan_prefix(b"");
    assert_eq!(all.len(), 3);
    assert_eq!(all[2], (b"b/z".to_vec(), b"3".to_vec()));
}

#[test]
fn duplicate_path_last_write_wins() {
    let mut p = Pipeline::new();
    p.record_file(b"a/x", b"first", b"one");
    p.record_file(b"a/x", b"second", b"one");
    let hits = p.scan_prefix(b"a/");
    assert_eq!(hits, vec![(b"a/x".to_vec(), b"second".to_vec())]);
    // both calls were still recorded
    assert_eq!(p.count(), 2);
}

#[test]
fn scan_is_restartable() {
    let mut p = Pipeline::new();
    p.record_file(b"a/x", b"1", b"one");
    let first = p.scan_prefix(b"a/");
    let second = p.scan_prefix(b"a/");
    assert_eq!(first, second);
}

#[test]
fn digest_matches_content_hash() {
    let mut p = Pipeline::new();
    let d = p.record_file(b"f", b"/abs/f", b"abcd");
    assert_eq!(d, *blake3::hash(b"abcd").as_bytes());
}

#[test]
fn end_to_end_scan_digest_attach() {
    let mut p = Pipeline::new();
    let d1 = p.record_file(b"dir1/file1.txt", b"/root/dir1/file1.txt", b"abcd");
    let d2 = p.record_file(b"dir1/dir2/file2.bin", b"/root/dir1/dir2/file2.bin", b"");
    assert_eq!(p.count(), 2);
    assert_ne!(d1, d2);
    assert_eq!(d1, *blake3::hash(b"abcd").as_bytes());
    assert_eq!(d2, *blake3::hash(b"").as_bytes());

    let hits = p.scan_prefix(b"dir1/");
    assert_eq!(hits.len(), 2);
    assert_eq!(
        hits[0],
        (
            b"dir1/dir2/file2.bin".to_vec(),
            b"/root/dir1/dir2/file2.bin".to_vec()
        )
    );
    assert_eq!(
        hits[1],
        (b"dir1/file1.txt".to_vec(), b"/root/dir1/file1.txt".to_vec())
    );

    // attach the index to a fresh verified store and scan the attached tree
    let mut tree = radixdb::RadixTree::default();
    for (k, v) in p.scan_prefix(b"") {
        tree.insert(k, v);
    }
    let shared = SharedStore(Arc::new(Mutex::new(BytesStore::new())));
    let attached = tree.try_attached(shared.clone()).unwrap();
    let mut seen = Vec::new();
    for item in attached.try_iter() {
        let (k, v) = item.unwrap();
        if k.as_ref().starts_with(b"dir1/") {
            let bytes = v.load(&shared).unwrap();
            seen.push((k.as_ref().to_vec(), bytes.as_ref().to_vec()));
        }
    }
    assert_eq!(seen.len(), 2);
    assert_eq!(
        seen[0],
        (
            b"dir1/dir2/file2.bin".to_vec(),
            b"/root/dir1/dir2/file2.bin".to_vec()
        )
    );
    assert_eq!(
        seen[1],
        (b"dir1/file1.txt".to_vec(), b"/root/dir1/file1.txt".to_vec())
    );

    let store_len = shared.0.lock().unwrap().len();
    assert!(store_len > 0);

    // the report: count, raw digest bytes, flat and store sizes net of digests
    let summary = p.summary(store_len);
    assert_eq!(summary.count, 2);
    assert_eq!(summary.digest_bytes, 64);
    let flat = postcard::to_allocvec(&vec![
        (b"dir1/file1.txt".to_vec(), d1.to_vec()),
        (b"dir1/dir2/file2.bin".to_vec(), d2.to_vec()),
    ])
    .unwrap();
    assert_eq!(summary.flat_overhead, flat.len() as u64 - 64);
    if store_len >= 64 {
        assert_eq!(summary.store_overhead, store_len - 64);
    } else {
        assert_eq!(summary.store_overhead, 0);
    }
}

#[test]
fn summary_of_empty_pipeline() {
    let p = Pipeline::new();
    let s = p.summary(0);
    assert_eq!(s.count, 0);
    assert_eq!(s.digest_bytes, 0);
    // an empty list still serializes to its count prefix, one byte
    assert_eq!(s.flat_overhead, 1);
    assert_eq!(s.store_overhead, 0);
}

#[test]
fn store_overhead_is_zero_when_store_is_smaller_than_digests() {
    let mut p = Pipeline::new();
    p.record_file(b"a", b"/a", b"x");
    p.record_file(b"b", b"/b", b"y");
    let s = p.summary(10);
    assert_eq!(s.digest_bytes, 64);
    assert_eq!(s.store_overhead, 0);
    let s2 = p.summary(100);
    assert_eq!(s2.store_overhead, 36);
}
