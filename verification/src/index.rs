//! The path index: an ordered key/value container keyed by byte strings,
//! supporting insertion (last write wins) and lexicographic prefix scans.
//! The container itself is radixdb's radix tree, consumed through a narrow
//! trusted interface — an empty tree, an insert, and a sorted listing of all
//! entries; the prefix scan itself is verified code over that listing.
//! Everything is specified against the model `index_entries`, the map of
//! entries the tree holds.

use vstd::prelude::*;

verus! {

/// `p` is a prefix of `k`.
pub open spec fn is_prefix_of(p: Seq<u8>, k: Seq<u8>) -> bool {
    p.len() <= k.len() && k.subrange(0, p.len() as int) == p
}

/// Strict lexicographic order on byte strings.
pub open spec fn lex_lt(a: Seq<u8>, b: Seq<u8>) -> bool
    decreases a.len(),
{
    if b.len() == 0 {
        false
    } else if a.len() == 0 {
        true
    } else if a[0] < b[0] {
        true
    } else if a[0] > b[0] {
        false
    } else {
        lex_lt(a.skip(1), b.skip(1))
    }
}

/// An ordered map from byte-string keys to byte-string values, backed by a
/// radix tree whose elements are kept lexicographically sorted.
#[verifier::external_body]
pub struct PathIndex {
    tree: radixdb::RadixTree,
}

/// The entries the index currently holds.
pub uninterp spec fn index_entries(ix: PathIndex) -> Map<Seq<u8>, Seq<u8>>;

/// The entries of an index that holds nothing.
pub open spec fn empty_entries() -> Map<Seq<u8>, Seq<u8>> {
    Map::empty()
}

/// Relies on radixdb::RadixTree::default, which builds a tree with no
/// elements.
#[verifier::external_body]
fn empty_index() -> (ix: PathIndex)
    ensures
        index_entries(ix) == empty_entries(),
{
    PathIndex { tree: radixdb::RadixTree::default() }
}

/// Relies on radixdb::RadixTree::insert, which adds the key/value pair and
/// silently replaces the value of a key that is already present.
#[verifier::external_body]
fn insert_raw(ix: &mut PathIndex, key: &[u8], value: &[u8])
    ensures
        index_entries(*final(ix)) == index_entries(*old(ix)).insert(key@, value@),
{
    ix.tree.insert(key, value);
}

/// Relies on radixdb::RadixTree::iter, which yields every entry of the tree
/// exactly once, in lexicographic key order (radixdb keeps tree elements
/// lexicographically sorted).
#[verifier::external_body]
fn all_entries_raw(ix: &PathIndex) -> (r: Vec<(Vec<u8>, Vec<u8>)>)
    ensures
        forall|i: int|
            #![trigger r@[i]]
            0 <= i < r@.len() ==> index_entries(*ix).contains_key(r@[i].0@) && index_entries(
                *ix,
            )[r@[i].0@] == r@[i].1@,
        forall|k: Seq<u8>|
            #[trigger] index_entries(*ix).contains_key(k) ==> exists|i: int|
                #![trigger r@[i]]
                0 <= i < r@.len() && r@[i].0@ == k,
        forall|i: int, j: int|
            #![trigger r@[i], r@[j]]
            0 <= i < j < r@.len() ==> lex_lt(r@[i].0@, r@[j].0@),
{
    ix.tree.iter().map(|kv: (radixdb::node::IterKey, radixdb::node::Value)| (
        kv.0.as_ref().to_vec(),
        kv.1.as_ref().to_vec(),
    )).collect()
}

/// Whether `key` starts with `prefix`.
fn has_prefix(prefix: &[u8], key: &[u8]) -> (r: bool)
    ensures
        r == is_prefix_of(prefix@, key@),
{
    if prefix.len() > key.len() {
        return false;
    }
    let mut i: usize = 0;
    while i < prefix.len()
        invariant
            prefix@.len() <= key@.len(),
            i <= prefix@.len(),
            forall|j: int| 0 <= j < i ==> prefix@[j] == key@[j],
        decreases prefix@.len() - i,
    {
        if prefix[i] != key[i] {
            proof {
                assert(key@.subrange(0, prefix@.len() as int)[i as int] == key@[i as int]);
            }
            return false;
        }
        i += 1;
    }
    proof {
        assert(key@.subrange(0, prefix@.len() as int) =~= prefix@);
    }
    true
}

impl PathIndex {
    /// An index with no entries.
    pub fn new() -> (ix: Self)
        ensures
            index_entries(ix) == empty_entries(),
    {
        empty_index()
    }

    /// Inserts the pair; on a duplicate key the last write wins.
    pub fn insert(&mut self, key: &[u8], value: &[u8])
        ensures
            index_entries(*final(self)) == index_entries(*old(self)).insert(key@, value@),
    {
        insert_raw(self, key, value)
    }

    /// All entries whose key starts with `prefix`, each exactly once, in
    /// strictly increasing lexicographic key order. An empty prefix lists
    /// every entry.
    #[verifier::loop_isolation(false)]
    #[verifier::rlimit(50)]
    pub fn scan_prefix(&self, prefix: &[u8]) -> (r: Vec<(Vec<u8>, Vec<u8>)>)
        ensures
            forall|i: int|
                #![trigger r@[i]]
                0 <= i < r@.len() ==> is_prefix_of(prefix@, r@[i].0@) && index_entries(
                    *self,
                ).contains_key(r@[i].0@) && index_entries(*self)[r@[i].0@] == r@[i].1@,
            forall|k: Seq<u8>|
                #[trigger] index_entries(*self).contains_key(k) && is_prefix_of(prefix@, k)
                    ==> exists|i: int| #![trigger r@[i]] 0 <= i < r@.len() && r@[i].0@ == k,
            forall|i: int, j: int|
                #![trigger r@[i], r@[j]]
                0 <= i < j < r@.len() ==> lex_lt(r@[i].0@, r@[j].0@),
    {
        let all = all_entries_raw(self);
        let mut r: Vec<(Vec<u8>, Vec<u8>)> = Vec::new();
        let mut i: usize = 0;
        while i < all.len()
            invariant
                i <= all@.len(),
                forall|idx: int|
                    #![trigger r@[idx]]
                    0 <= idx < r@.len() ==> is_prefix_of(prefix@, r@[idx].0@) && index_entries(
                        *self,
                    ).contains_key(r@[idx].0@) && index_entries(*self)[r@[idx].0@] == r@[idx].1@,
                forall|idx: int|
                    #![trigger r@[idx]]
                    0 <= idx < r@.len() ==> exists|j: int|
                        #![trigger all@[j]]
                        0 <= j < i && r@[idx].0@ == all@[j].0@ && r@[idx].1@ == all@[j].1@,
                forall|j: int|
                    #![trigger all@[j]]
                    0 <= j < i && is_prefix_of(prefix@, all@[j].0@) ==> exists|idx: int|
                        #![trigger r@[idx]]
                        0 <= idx < r@.len() && r@[idx].0@ == all@[j].0@,
                forall|idx1: int, idx2: int|
                    #![trigger r@[idx1], r@[idx2]]
                    0 <= idx1 < idx2 < r@.len() ==> lex_lt(r@[idx1].0@, r@[idx2].0@),
            decreases all@.len() - i,
        {
            let pr = &all[i];
            let keep = has_prefix(prefix, pr.0.as_slice());
            let ghost r_before = r@;
            if keep {
                let k = vstd::slice::slice_to_vec(pr.0.as_slice());
                let v = vstd::slice::slice_to_vec(pr.1.as_slice());
                r.push((k, v));
                proof {
                    assert(r@[r@.len() - 1].0@ == all@[i as int].0@);
                    assert(r@[r@.len() - 1].1@ == all@[i as int].1@);
                    assert forall|idx1: int, idx2: int|
                        0 <= idx1 < idx2 < r@.len() implies lex_lt(
                        #[trigger] r@[idx1].0@,
                        #[trigger] r@[idx2].0@,
                    ) by {
                        if idx2 == r@.len() - 1 {
                            let j = choose|j: int|
                                #![trigger all@[j]]
                                0 <= j < i && r_before[idx1].0@ == all@[j].0@ && r_before[idx1].1@
                                    == all@[j].1@;
                            assert(lex_lt(all@[j].0@, all@[i as int].0@));
                        }
                    }
                }
            }
            proof {
                assert forall|j: int|
                    0 <= j <= i && is_prefix_of(prefix@, #[trigger] all@[j].0@) implies exists|
                    idx: int,
                |
                    #![trigger r@[idx]]
                    0 <= idx < r@.len() && r@[idx].0@ == all@[j].0@ by {
                    if j == i {
                        assert(keep);
                        assert(r@[r@.len() - 1].0@ == all@[i as int].0@);
                    } else {
                        let idx = choose|idx: int|
                            0 <= idx < r_before.len() && #[trigger] r_before[idx].0@ == all@[j].0@;
                        assert(r@[idx] == r_before[idx]);
                    }
                }
            }
            i += 1;
        }
        proof {
            assert forall|k: Seq<u8>|
                #[trigger] index_entries(*self).contains_key(k) && is_prefix_of(
                    prefix@,
                    k,
                ) implies exists|idx: int| #![trigger r@[idx]] 0 <= idx < r@.len() && r@[idx].0@
                == k by {
                let j = choose|j: int| #![trigger all@[j]] 0 <= j < all@.len() && all@[j].0@ == k;
                assert(is_prefix_of(prefix@, all@[j].0@));
            }
        }
        r
    }
}

} // verus!

