//! The append-only blob store: a single growable byte log. Each write appends
//! one self-framed record, `venc(payload length) ++ payload`, and returns the
//! varint encoding of the byte offset where the record starts; that id is all
//! a reader ever needs to get the identical bytes back. Offsets never shift,
//! so ids stay valid for the lifetime of the store.

use vstd::prelude::*;

use crate::varint::{
    decode_varint, encode_varint, lemma_vdec_extend, lemma_vdec_venc, vdec, venc, venc_len,
};

verus! {

/// Why a read failed.
#[derive(Debug, Clone, Copy, PartialEq, Eq, Structural)]
pub enum StoreError {
    /// The id is not exactly one complete 64-bit varint.
    MalformedId,
    /// The offset has no decodable length prefix, or the declared length
    /// exceeds the bytes that remain in the log.
    CorruptFraming,
}

/// The record appended to the log for a payload `b`.
pub open spec fn frame(b: Seq<u8>) -> Seq<u8> {
    venc(b.len()) + b
}

/// What a read of `id` against the log `log` returns: the id must be exactly
/// one varint holding an offset into the log; at that offset a varint length
/// prefix must declare no more bytes than remain; the payload follows the
/// prefix immediately.
pub open spec fn spec_read(log: Seq<u8>, id: Seq<u8>) -> Result<Seq<u8>, StoreError> {
    match vdec(id) {
        None => Err(StoreError::MalformedId),
        Some((off, c)) => if c != id.len() {
            Err(StoreError::MalformedId)
        } else if off > log.len() {
            Err(StoreError::CorruptFraming)
        } else {
            match vdec(log.skip(off as int)) {
                None => Err(StoreError::CorruptFraming),
                Some((len, c2)) => if off + c2 + len > log.len() {
                    Err(StoreError::CorruptFraming)
                } else {
                    Ok(log.subrange(off as int + c2, off as int + c2 + len))
                },
            }
        },
    }
}

/// An in-memory blob store over an append-only byte log.
#[derive(Debug)]
pub struct BytesStore {
    data: Vec<u8>,
}

impl View for BytesStore {
    type V = Seq<u8>;

    closed spec fn view(&self) -> Seq<u8> {
        self.data@
    }
}

impl Default for BytesStore {
    fn default() -> (s: Self)
        ensures
            s@ == Seq::<u8>::empty(),
    {
        BytesStore::new()
    }
}

impl BytesStore {
    /// A store with an empty log.
    pub fn new() -> (s: Self)
        ensures
            s@ == Seq::<u8>::empty(),
    {
        let s = BytesStore { data: Vec::new() };
        proof {
            assert(s@ =~= Seq::<u8>::empty());
        }
        s
    }

    /// Current size of the log in bytes; never decreases.
    pub fn len(&self) -> (n: u64)
        ensures
            n == self@.len(),
    {
        self.data.len() as u64
    }

    /// Appends the length-prefixed record for `bytes` and returns the varint
    /// encoding of the offset where the record starts, the blob's id.
    pub fn write(&mut self, bytes: &[u8]) -> (id: Vec<u8>)
        ensures
            final(self)@ == old(self)@ + frame(bytes@),
            id@ == venc(old(self)@.len()),
    {
        let id = encode_varint(self.data.len() as u64);
        let mut prefix = encode_varint(bytes.len() as u64);
        self.data.append(&mut prefix);
        let mut payload = vstd::slice::slice_to_vec(bytes);
        self.data.append(&mut payload);
        proof {
            assert(self@ =~= old(self)@ + frame(bytes@));
        }
        id
    }

    /// Returns exactly the bytes that the write which produced `id` appended,
    /// per `spec_read`: `MalformedId` where `id` is not one complete varint,
    /// `CorruptFraming` where no well-formed record starts at the offset.
    pub fn read(&self, id: &[u8]) -> (r: Result<Vec<u8>, StoreError>)
        ensures
            ({
                let s = spec_read(self@, id@);
                match r {
                    Ok(v) => s == Ok::<Seq<u8>, StoreError>(v@),
                    Err(e) => s == Err::<Seq<u8>, StoreError>(e),
                }
            }),
    {
        proof {
            assert(id@.skip(0) =~= id@);
        }
        match decode_varint(id, 0) {
            None => Err(StoreError::MalformedId),
            Some((off, c)) => {
                if c != id.len() {
                    return Err(StoreError::MalformedId);
                }
                if off > self.data.len() as u64 {
                    return Err(StoreError::CorruptFraming);
                }
                let off_us = off as usize;
                match decode_varint(self.data.as_slice(), off_us) {
                    None => Err(StoreError::CorruptFraming),
                    Some((len, c2)) => {
                        let avail = self.data.len() - off_us - c2;
                        if len > avail as u64 {
                            return Err(StoreError::CorruptFraming);
                        }
                        let start = off_us + c2;
                        let end = start + len as usize;
                        let part = vstd::slice::slice_subrange(self.data.as_slice(), start, end);
                        Ok(vstd::slice::slice_to_vec(part))
                    },
                }
            },
        }
    }

    /// Flushing is a no-op for the in-memory log and always succeeds; the
    /// store is untouched, so bytes read afterwards never change.
    pub fn sync(&self) -> (r: Result<(), StoreError>)
        ensures
            r == Ok::<(), StoreError>(()),
    {
        Ok(())
    }
}

/// The log after a sequence of writes, applied oldest first.
pub open spec fn log_after(init: Seq<u8>, writes: Seq<Seq<u8>>) -> Seq<u8>
    decreases writes.len(),
{
    if writes.len() == 0 {
        init
    } else {
        log_after(init, writes.drop_last()) + frame(writes.last())
    }
}

/// Total framed size of a sequence of writes: for each payload, its varint
/// length prefix plus the payload itself.
pub open spec fn frames_len(writes: Seq<Seq<u8>>) -> nat
    decreases writes.len(),
{
    if writes.len() == 0 {
        0
    } else {
        frames_len(writes.drop_last()) + venc_len(writes.last().len()) + writes.last().len()
    }
}

/// Monotonic length law: after any sequence of writes the log has grown by
/// exactly the sum of `venc_len(|b|) + |b|` over the payloads written.
pub proof fn lemma_len_after_writes(init: Seq<u8>, writes: Seq<Seq<u8>>)
    ensures
        log_after(init, writes).len() == init.len() + frames_len(writes),
    decreases writes.len(),
{
    if writes.len() > 0 {
        lemma_len_after_writes(init, writes.drop_last());
    }
}

/// Round-trip law: writing `b` to a store whose log is `log` yields an id
/// that reads back exactly `b` from the grown log.
pub proof fn lemma_write_read_round_trip(log: Seq<u8>, b: Seq<u8>)
    requires
        log.len() <= u64::MAX,
        b.len() <= u64::MAX,
    ensures
        spec_read(log + frame(b), venc(log.len())) == Ok::<Seq<u8>, StoreError>(b),
{
    let id = venc(log.len());
    lemma_vdec_venc(log.len(), Seq::<u8>::empty());
    assert(id + Seq::<u8>::empty() =~= id);
    let grown = log + frame(b);
    assert(grown.skip(log.len() as int) =~= frame(b));
    lemma_vdec_venc(b.len(), b);
    let c2 = venc_len(b.len());
    assert(grown.subrange(log.len() as int + c2, log.len() as int + c2 + b.len()) =~= b);
}

/// Offset stability law: an id that reads `v` still reads `v` after any
/// further bytes are appended to the log; later writes never disturb the
/// bytes an earlier write made readable.
pub proof fn lemma_offset_stability(log: Seq<u8>, ext: Seq<u8>, id: Seq<u8>, v: Seq<u8>)
    requires
        spec_read(log, id) == Ok::<Seq<u8>, StoreError>(v),
    ensures
        spec_read(log + ext, id) == Ok::<Seq<u8>, StoreError>(v),
{
    match vdec(id) {
        None => {
            assert(false);
        },
        Some((off, c)) => {
            match vdec(log.skip(off as int)) {
                None => {
                    assert(false);
                },
                Some((len, c2)) => {
                    assert((log + ext).skip(off as int) =~= log.skip(off as int) + ext);
                    lemma_vdec_extend(log.skip(off as int), ext, 0);
                    assert((log + ext).subrange(off as int + c2, off as int + c2 + len) =~= log
                        .subrange(off as int + c2, off as int + c2 + len));
                },
            }
        },
    }
}

/// Malformed id law: trailing bytes after a complete varint id are rejected
/// as `MalformedId`, whatever the log holds.
pub proof fn lemma_trailing_bytes_rejected(log: Seq<u8>, id: Seq<u8>)
    requires
        vdec(id) matches Some(p) && p.1 < id.len(),
    ensures
        spec_read(log, id) == Err::<Seq<u8>, StoreError>(StoreError::MalformedId),
{
}

/// Dangling offset law: a well-formed id whose offset points past the end of
/// the log is rejected as `CorruptFraming`.
pub proof fn lemma_dangling_offset_rejected(log: Seq<u8>, off: nat)
    requires
        off > log.len(),
        off <= u64::MAX,
    ensures
        spec_read(log, venc(off)) == Err::<Seq<u8>, StoreError>(StoreError::CorruptFraming),
{
    lemma_vdec_venc(off, Seq::<u8>::empty());
    assert(venc(off) + Seq::<u8>::empty() =~= venc(off));
}

} // verus!
