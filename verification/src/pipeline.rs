//! The scan pipeline's bookkeeping: for each regular file the caller hands in
//! the path pair and the file's bytes; the pipeline digests the contents,
//! appends a scan record, and inserts the path pair into the path index. At
//! the end it compares the flat serialized size of the (path, digest) list
//! with a blob store's final size, net of the raw digest bytes.

use vstd::prelude::*;

use crate::index::{index_entries, is_prefix_of, lex_lt, PathIndex};

verus! {

/// The 32-byte content digest of `data`; depends on the bytes alone.
pub uninterp spec fn digest_of(data: Seq<u8>) -> Seq<u8>;

/// The flat serialization of a (path, digest) list; depends on the list
/// contents alone.
pub uninterp spec fn flat_encoding(list: Seq<(Seq<u8>, Seq<u8>)>) -> Seq<u8>;

/// Relies on blake3::hash: a 32-byte digest computed from the input bytes
/// alone.
#[verifier::external_body]
fn hash_bytes(data: &[u8]) -> (r: [u8; 32])
    ensures
        r@ == digest_of(data@),
{
    *blake3::hash(data).as_bytes()
}

/// The byte strings held by a list of pairs of byte vectors.
pub open spec fn pairs_view(list: Seq<(Vec<u8>, Vec<u8>)>) -> Seq<(Seq<u8>, Seq<u8>)> {
    list.map_values(|p: (Vec<u8>, Vec<u8>)| (p.0@, p.1@))
}

/// Relies on postcard::to_allocvec: the flat serialization of the list, a
/// function of the list contents alone. Each pair is written as a varint
/// length prefix plus the bytes of each component, after one varint holding
/// the pair count, so with 32-byte digests every pair costs at least 34
/// bytes. Serializing into a growable vector cannot fail: the alloc flavour
/// of the serializer never reports a full buffer.
#[verifier::external_body]
fn flat_serialize(list: &Vec<(Vec<u8>, Vec<u8>)>) -> (r: Vec<u8>)
    ensures
        r@ == flat_encoding(pairs_view(list@)),
        (forall|i: int| #![trigger list@[i]] 0 <= i < list@.len() ==> list@[i].1@.len() == 32)
            ==> r@.len() >= 1 + 34 * list@.len(),
{
    postcard::to_allocvec(list).unwrap()
}

/// The size report of a finished scan.
pub struct Summary {
    /// Number of files recorded.
    pub count: u64,
    /// Raw digest bytes over all records: 32 per file.
    pub digest_bytes: u64,
    /// Size of the flat serialized (path, digest) list, net of digest bytes.
    pub flat_overhead: u64,
    /// Final size of the blob store the index was attached to, net of digest
    /// bytes; zero where the store log is smaller than the digest total.
    pub store_overhead: u64,
}

/// The digest-and-insert phase of a scan: the ordered record list and the
/// path index being filled.
pub struct Pipeline {
    index: PathIndex,
    records: Vec<(Vec<u8>, [u8; 32])>,
}

impl Pipeline {
    /// The (relative path, digest) records so far, oldest first.
    pub closed spec fn recs(self) -> Seq<(Seq<u8>, Seq<u8>)> {
        self.records@.map_values(|p: (Vec<u8>, [u8; 32])| (p.0@, p.1@))
    }

    /// The entries of the path index being filled.
    pub closed spec fn entries(self) -> Map<Seq<u8>, Seq<u8>> {
        index_entries(self.index)
    }

    /// A pipeline with no records and an empty index.
    pub fn new() -> (p: Self)
        ensures
            p.recs() == Seq::<(Seq<u8>, Seq<u8>)>::empty(),
            p.entries() == Map::<Seq<u8>, Seq<u8>>::empty(),
    {
        let p = Pipeline { index: PathIndex::new(), records: Vec::new() };
        proof {
            assert(p.recs() =~= Seq::<(Seq<u8>, Seq<u8>)>::empty());
        }
        p
    }

    /// Number of records so far.
    pub fn count(&self) -> (n: usize)
        ensures
            n == self.recs().len(),
    {
        self.records.len()
    }

    /// Records one regular file: digests its contents, appends the
    /// (relative path, digest) record, and inserts relative path -> absolute
    /// path into the index (last write wins on a duplicate path). Returns the
    /// digest.
    pub fn record_file(&mut self, relative: &[u8], absolute: &[u8], contents: &[u8]) -> (digest:
        [u8; 32])
        ensures
            digest@ == digest_of(contents@),
            final(self).recs() == old(self).recs().push((relative@, digest_of(contents@))),
            final(self).entries() == old(self).entries().insert(relative@, absolute@),
    {
        let digest = hash_bytes(contents);
        self.index.insert(relative, absolute);
        let rel = vstd::slice::slice_to_vec(relative);
        self.records.push((rel, digest));
        proof {
            assert(self.recs() =~= old(self).recs().push((relative@, digest_of(contents@))));
        }
        digest
    }

    /// All index entries whose key starts with `prefix`, each exactly once,
    /// in strictly increasing lexicographic key order. An empty prefix lists
    /// every entry.
    pub fn scan_prefix(&self, prefix: &[u8]) -> (r: Vec<(Vec<u8>, Vec<u8>)>)
        ensures
            forall|i: int|
                #![trigger r@[i]]
                0 <= i < r@.len() ==> is_prefix_of(prefix@, r@[i].0@) && self.entries().contains_key(
                    r@[i].0@,
                ) && self.entries()[r@[i].0@] == r@[i].1@,
            forall|k: Seq<u8>|
                #[trigger] self.entries().contains_key(k) && is_prefix_of(prefix@, k)
                    ==> exists|i: int| #![trigger r@[i]] 0 <= i < r@.len() && r@[i].0@ == k,
            forall|i: int, j: int|
                #![trigger r@[i], r@[j]]
                0 <= i < j < r@.len() ==> lex_lt(r@[i].0@, r@[j].0@),
    {
        self.index.scan_prefix(prefix)
    }

    /// The size report: entry count, raw digest bytes (32 per record), the
    /// flat list size net of digest bytes, and the store size net of digest
    /// bytes, given the final size of the store the index was attached to.
    pub fn summary(&self, store_len: u64) -> (s: Summary)
        ensures
            s.count == self.recs().len(),
            s.digest_bytes == 32 * s.count,
            s.flat_overhead == flat_encoding(self.recs()).len() - 32 * (s.count as int),
            s.store_overhead == if store_len >= s.digest_bytes {
                store_len - s.digest_bytes
            } else {
                0
            },
    {
        let mut pairs: Vec<(Vec<u8>, Vec<u8>)> = Vec::new();
        let mut i: usize = 0;
        while i < self.records.len()
            invariant
                i <= self.records@.len(),
                pairs@.len() == i,
                forall|j: int|
                    #![trigger pairs@[j]]
                    0 <= j < i ==> pairs@[j].0@ == self.records@[j].0@ && pairs@[j].1@
                        == self.records@[j].1@ && pairs@[j].1@.len() == 32,
            decreases self.records@.len() - i,
        {
            let pr = &self.records[i];
            let k = vstd::slice::slice_to_vec(pr.0.as_slice());
            let d = vstd::slice::slice_to_vec(vstd::array::array_as_slice(&pr.1));
            pairs.push((k, d));
            i += 1;
        }
        proof {
            assert(pairs_view(pairs@) =~= self.recs());
        }
        let flat = flat_serialize(&pairs);
        let flat_len_us = flat.len();
        let count = self.records.len();
        proof {
            assert(flat@.len() >= 1 + 34 * count);
        }
        let count64 = count as u64;
        let digest_bytes = 32u64 * count64;
        let flat_len = flat_len_us as u64;
        let flat_overhead = flat_len - digest_bytes;
        let store_overhead = if store_len >= digest_bytes {
            store_len - digest_bytes
        } else {
            0
        };
        Summary { count: count64, digest_bytes, flat_overhead, store_overhead }
    }
}

} // verus!
