//! The container parser, lookup index and archive handle.
//!
//! `open` validates the fixed header, the manifest table and its three
//! reserved slots, builds the immutable id-to-entry index in one pass, and
//! returns a handle over the read-only mapping. `get` looks an id up,
//! slices the stored payload out of the mapping, and hands it to an
//! injected decompression capability. The handle is never mutated after
//! `open`, so lookups need no locking.

use vstd::prelude::*;
use vstd::slice::slice_index_get;

use crate::bytes::{le16, le32, le64, read_le16, read_le32, read_le64};
use crate::trusted::{mmap_len, mmap_slice, mmap_view};

verus! {

/// One manifest entry: the byte range and metadata of one stored blob.
/// The checksum is recorded but not validated.
#[derive(Clone, Copy, Debug, PartialEq, Eq, Structural)]
pub struct MftEntry {
    pub offset: u64,
    pub size: u32,
    pub extra_bytes: u16,
    pub flags: u8,
    pub crc: u32,
}

/// Why an archive failed to open: every variant names the field or
/// invariant that was violated.
#[derive(Clone, Copy, Debug, PartialEq, Eq, Structural)]
pub enum OpenError {
    /// The file is too short to hold the fixed header.
    Truncated,
    /// The version byte is not the supported one.
    BadVersion,
    /// The header magic bytes mismatch.
    BadMagic,
    /// The declared manifest region leaves the file, or cannot hold the
    /// table header.
    ManifestOutOfBounds,
    /// The manifest table magic bytes mismatch.
    BadTableMagic,
    /// The manifest region is not a whole number of entries, or holds
    /// fewer than the three reserved slots.
    BadManifestLength,
    /// Reserved slot 0, the manifest table's own entry, has the wrong
    /// discriminator or flags.
    BadManifestSlot,
    /// Reserved slot 1, the id index, has the wrong discriminator or flags.
    BadIndexSlot,
    /// The id index region leaves the file.
    IndexOutOfBounds,
    /// The id index region is not a whole number of id pairs.
    BadIndexLength,
    /// An id pair records a manifest position of zero or past the table.
    BadIndexPosition,
    /// Reserved slot 2, the manifest's self-description, has the wrong
    /// discriminator or flags.
    BadSelfSlot,
    /// Reserved slot 2 does not re-state the header's declared manifest
    /// offset and size.
    SelfSlotMismatch,
}

/// Why a lookup failed: a payload leaving the mapping, or a failing codec.
#[derive(Clone, Copy, Debug, PartialEq, Eq, Structural)]
pub enum GetError {
    /// The entry's recorded byte range leaves the mapped file, or cannot
    /// hold the payload header.
    Bounds,
    /// The decompression capability failed, or broke its output-length
    /// contract.
    Codec,
}

/// The manifest entry stored at byte address `base`.
pub open spec fn spec_entry(s: Seq<u8>, base: int) -> MftEntry {
    MftEntry {
        offset: le64(s, base),
        size: le32(s, base + 8),
        extra_bytes: le16(s, base + 12),
        flags: s[base + 14],
        crc: le32(s, base + 20),
    }
}

pub open spec fn header_fits(s: Seq<u8>) -> bool {
    s.len() >= 40
}

pub open spec fn version_ok(s: Seq<u8>) -> bool {
    s[0] == 151
}

pub open spec fn magic_ok(s: Seq<u8>) -> bool {
    s[1] == 65 && s[2] == 78 && s[3] == 26
}

/// The header's declared manifest byte offset.
pub open spec fn mft_offset(s: Seq<u8>) -> u64 {
    le64(s, 24)
}

/// The header's declared manifest byte size.
pub open spec fn mft_size(s: Seq<u8>) -> u32 {
    le32(s, 32)
}

pub open spec fn mft_in_bounds(s: Seq<u8>) -> bool {
    mft_size(s) >= 24 && mft_offset(s) + mft_size(s) <= s.len()
}

pub open spec fn table_magic_ok(s: Seq<u8>) -> bool {
    let o = mft_offset(s) as int;
    s[o] == 77 && s[o + 1] == 102 && s[o + 2] == 116 && s[o + 3] == 26
}

/// How many entries the manifest region holds after its table header.
pub open spec fn entry_count(s: Seq<u8>) -> int {
    (mft_size(s) - 24) as int / 24
}

pub open spec fn entries_len_ok(s: Seq<u8>) -> bool {
    (mft_size(s) - 24) % 24 == 0 && entry_count(s) >= 3
}

/// The manifest entry at table position `k` (zero-based).
pub open spec fn entry_at(s: Seq<u8>, k: int) -> MftEntry {
    spec_entry(s, mft_offset(s) + 24 + 24 * k)
}

/// A reserved slot must carry discriminator zero and both the live and the
/// head flag bits.
pub open spec fn slot_flags_ok(e: MftEntry) -> bool {
    e.extra_bytes == 0 && e.flags & 3 == 3
}

pub open spec fn index_in_bounds(s: Seq<u8>) -> bool {
    entry_at(s, 1).offset + entry_at(s, 1).size <= s.len()
}

pub open spec fn index_len_ok(s: Seq<u8>) -> bool {
    entry_at(s, 1).size % 8 == 0
}

/// How many id pairs the index region holds.
pub open spec fn pair_count(s: Seq<u8>) -> int {
    entry_at(s, 1).size as int / 8
}

/// The id pair at index position `j`: an asset id and a 1-based manifest
/// position.
pub open spec fn pair_at(s: Seq<u8>, j: int) -> (u32, u32) {
    let o = entry_at(s, 1).offset as int;
    (le32(s, o + 8 * j), le32(s, o + 8 * j + 4))
}

/// All id pairs of the index region, in stored order.
pub open spec fn pairs(s: Seq<u8>) -> Seq<(u32, u32)> {
    Seq::new(pair_count(s) as nat, |j: int| pair_at(s, j))
}

/// Every pair with a non-zero id must record a position inside the table.
pub open spec fn positions_ok(s: Seq<u8>) -> bool {
    forall|j: int|
        0 <= j < pairs(s).len() ==> ((#[trigger] pairs(s)[j]).0 == 0 || (1 <= pairs(s)[j].1
            && pairs(s)[j].1 <= entry_count(s)))
}

pub open spec fn self_slot_ok(s: Seq<u8>) -> bool {
    entry_at(s, 2).offset == mft_offset(s) && entry_at(s, 2).size == mft_size(s)
}

/// The error `open` reports for the file `s`, or `None` where the file
/// honors the layout; the checks run in the order written here.
pub open spec fn spec_open_err(s: Seq<u8>) -> Option<OpenError> {
    if !header_fits(s) {
        Some(OpenError::Truncated)
    } else if !version_ok(s) {
        Some(OpenError::BadVersion)
    } else if !magic_ok(s) {
        Some(OpenError::BadMagic)
    } else if !mft_in_bounds(s) {
        Some(OpenError::ManifestOutOfBounds)
    } else if !table_magic_ok(s) {
        Some(OpenError::BadTableMagic)
    } else if !entries_len_ok(s) {
        Some(OpenError::BadManifestLength)
    } else if !slot_flags_ok(entry_at(s, 0)) {
        Some(OpenError::BadManifestSlot)
    } else if !slot_flags_ok(entry_at(s, 1)) {
        Some(OpenError::BadIndexSlot)
    } else if !index_in_bounds(s) {
        Some(OpenError::IndexOutOfBounds)
    } else if !index_len_ok(s) {
        Some(OpenError::BadIndexLength)
    } else if !positions_ok(s) {
        Some(OpenError::BadIndexPosition)
    } else if !slot_flags_ok(entry_at(s, 2)) {
        Some(OpenError::BadSelfSlot)
    } else if !self_slot_ok(s) {
        Some(OpenError::SelfSlotMismatch)
    } else {
        None
    }
}

/// Whether the id-to-entry sequence holds `id`.
pub open spec fn has_id(ix: Seq<(u32, MftEntry)>, id: u32) -> bool {
    exists|k: int| 0 <= k < ix.len() && (#[trigger] ix[k]).0 == id
}

/// The entry recorded for `id`, scanning from the front.
pub open spec fn lookup(ix: Seq<(u32, MftEntry)>, id: u32) -> Option<MftEntry>
    decreases ix.len(),
{
    if ix.len() == 0 {
        None
    } else if ix[0].0 == id {
        Some(ix[0].1)
    } else {
        lookup(ix.drop_first(), id)
    }
}

/// The index built from the id pairs `ps` of the file `s`: id zero is a
/// sentinel for an unused slot and is skipped, and on duplicate ids the
/// first occurrence wins.
pub open spec fn build_index(s: Seq<u8>, ps: Seq<(u32, u32)>) -> Seq<(u32, MftEntry)>
    decreases ps.len(),
{
    if ps.len() == 0 {
        Seq::empty()
    } else {
        let prefix = build_index(s, ps.drop_last());
        let last = ps.last();
        if last.0 == 0 || has_id(prefix, last.0) {
            prefix
        } else {
            prefix.push((last.0, entry_at(s, last.1 - 1)))
        }
    }
}

/// Reads the manifest entry stored at `base`.
fn read_entry(b: &[u8], base: usize) -> (r: MftEntry)
    requires
        base + 24 <= b@.len(),
    ensures
        r == spec_entry(b@, base as int),
{
    let n = b.len();
    MftEntry {
        offset: read_le64(b, base),
        size: read_le32(b, base + 8),
        extra_bytes: read_le16(b, base + 12),
        flags: *slice_index_get(b, base + 14),
        crc: read_le32(b, base + 20),
    }
}

/// Whether the index vector already holds `id`.
fn contains_id(ix: &Vec<(u32, MftEntry)>, id: u32) -> (r: bool)
    ensures
        r == has_id(ix@, id),
{
    let n = ix.len();
    let mut k: usize = 0;
    while k < n
        invariant
            n == ix@.len(),
            0 <= k <= n,
            forall|m: int| 0 <= m < k ==> (#[trigger] ix@[m]).0 != id,
        decreases n - k,
    {
        if ix[k].0 == id {
            return true;
        }
        k += 1;
    }
    false
}

/// The opened archive: the read-only mapping and the immutable index
/// built at open time. Nothing mutates the handle after `open`, so
/// concurrent lookups share it safely.
pub struct Archive {
    mmap: memmap2::Mmap,
    index: Vec<(u32, MftEntry)>,
}

impl Archive {
    /// The bytes of the mapped archive file.
    pub closed spec fn bytes(&self) -> Seq<u8> {
        mmap_view(self.mmap)
    }

    /// The id-to-entry index, in first-occurrence order.
    pub closed spec fn entries(&self) -> Seq<(u32, MftEntry)> {
        self.index@
    }

    /// A handle as `open` builds it: the file honors the layout and the
    /// index is exactly the one built from the index region.
    pub closed spec fn wf(&self) -> bool {
        &&& spec_open_err(self.bytes()) is None
        &&& self.entries() == build_index(self.bytes(), pairs(self.bytes()))
    }

    /// Opens an archive over a read-only mapping: validates the header,
    /// the manifest table and its three reserved slots, and builds the
    /// index, skipping id zero, first occurrence winning on duplicates.
    /// Fails with the error naming the first violated invariant, exactly
    /// as `spec_open_err` states it.
    #[verifier::rlimit(80)]
    pub fn open(data: memmap2::Mmap) -> (r: Result<Archive, OpenError>)
        ensures
            match r {
                Ok(a) => spec_open_err(mmap_view(data)) is None && a.wf() && a.bytes() == mmap_view(
                    data,
                ),
                Err(e) => spec_open_err(mmap_view(data)) == Some(e),
            },
    {
        let ghost s = mmap_view(data);
        let n = mmap_len(&data);
        if n < 40 {
            return Err(OpenError::Truncated);
        }
        let header = mmap_slice(&data, 0, 40);
        if *slice_index_get(header, 0) != 151 {
            return Err(OpenError::BadVersion);
        }
        if *slice_index_get(header, 1) != 65 || *slice_index_get(header, 2) != 78
            || *slice_index_get(header, 3) != 26 {
            return Err(OpenError::BadMagic);
        }
        let mft_off = read_le64(header, 24);
        let mft_sz = read_le32(header, 32);
        proof {
            assert(mft_off == mft_offset(s));
            assert(mft_sz == mft_size(s));
        }
        if mft_sz < 24 {
            return Err(OpenError::ManifestOutOfBounds);
        }
        let mft_end = match mft_off.checked_add(mft_sz as u64) {
            Some(e) => e,
            None => {
                return Err(OpenError::ManifestOutOfBounds);
            },
        };
        if mft_end > n as u64 {
            return Err(OpenError::ManifestOutOfBounds);
        }
        let mft = mmap_slice(&data, mft_off as usize, mft_sz as usize);
        if *slice_index_get(mft, 0) != 77 || *slice_index_get(mft, 1) != 102 || *slice_index_get(
            mft,
            2,
        ) != 116 || *slice_index_get(mft, 3) != 26 {
            return Err(OpenError::BadTableMagic);
        }
        let body = mft_sz - 24;
        if body % 24 != 0 || body / 24 < 3 {
            return Err(OpenError::BadManifestLength);
        }
        let n_entries = body / 24;
        let e0 = read_entry(mft, 24);
        proof {
            assert(e0 == entry_at(s, 0));
        }
        if !(e0.extra_bytes == 0 && e0.flags & 3 == 3) {
            return Err(OpenError::BadManifestSlot);
        }
        let e1 = read_entry(mft, 48);
        proof {
            assert(e1 == entry_at(s, 1));
        }
        if !(e1.extra_bytes == 0 && e1.flags & 3 == 3) {
            return Err(OpenError::BadIndexSlot);
        }
        let ix_end = match e1.offset.checked_add(e1.size as u64) {
            Some(e) => e,
            None => {
                return Err(OpenError::IndexOutOfBounds);
            },
        };
        if ix_end > n as u64 {
            return Err(OpenError::IndexOutOfBounds);
        }
        if e1.size % 8 != 0 {
            return Err(OpenError::BadIndexLength);
        }
        let ix_region = mmap_slice(&data, e1.offset as usize, e1.size as usize);
        let n_pairs = e1.size / 8;
        let mut index: Vec<(u32, MftEntry)> = Vec::new();
        let mut j: u32 = 0;
        proof {
            assert(pairs(s).take(0) =~= Seq::<(u32, u32)>::empty());
        }
        while j < n_pairs
            invariant
                s == mmap_view(data),
                n == s.len(),
                header_fits(s),
                version_ok(s),
                magic_ok(s),
                mft_in_bounds(s),
                table_magic_ok(s),
                entries_len_ok(s),
                slot_flags_ok(entry_at(s, 0)),
                slot_flags_ok(entry_at(s, 1)),
                index_in_bounds(s),
                index_len_ok(s),
                e1 == entry_at(s, 1),
                mft_off == mft_offset(s),
                mft_sz == mft_size(s),
                n_entries == entry_count(s),
                n_pairs == pair_count(s),
                ix_region@ == s.subrange(
                    entry_at(s, 1).offset as int,
                    entry_at(s, 1).offset as int + entry_at(s, 1).size as int,
                ),
                mft@ == s.subrange(mft_offset(s) as int, mft_offset(s) as int + mft_size(s) as int),
                0 <= j <= n_pairs,
                index@ == build_index(s, pairs(s).take(j as int)),
                forall|k: int|
                    0 <= k < j ==> ((#[trigger] pairs(s)[k]).0 == 0 || (1 <= pairs(s)[k].1
                        && pairs(s)[k].1 <= entry_count(s))),
            decreases n_pairs - j,
        {
            let id = read_le32(ix_region, (j * 8) as usize);
            let p = read_le32(ix_region, (j * 8 + 4) as usize);
            proof {
                assert((id, p) == pairs(s)[j as int]);
            }
            if id != 0 {
                if p == 0 || p > n_entries {
                    return Err(OpenError::BadIndexPosition);
                }
                if !contains_id(&index, id) {
                    let ent = read_entry(mft, 24 + 24 * ((p - 1) as usize));
                    proof {
                        assert(ent == entry_at(s, p as int - 1));
                    }
                    index.push((id, ent));
                }
            }
            proof {
                assert(pairs(s).take(j as int + 1).drop_last() =~= pairs(s).take(j as int));
                assert(pairs(s).take(j as int + 1).last() == pairs(s)[j as int]);
            }
            j += 1;
        }
        proof {
            assert(pairs(s).take(n_pairs as int) =~= pairs(s));
            assert(positions_ok(s));
        }
        let e2 = read_entry(mft, 72);
        proof {
            assert(e2 == entry_at(s, 2));
        }
        if !(e2.extra_bytes == 0 && e2.flags & 3 == 3) {
            return Err(OpenError::BadSelfSlot);
        }
        if e2.offset != mft_off || e2.size != mft_sz {
            return Err(OpenError::SelfSlotMismatch);
        }
        Ok(Archive { mmap: data, index })
    }

    /// Looks `file_id` up in the index.
    fn find(&self, file_id: u32) -> (r: Option<MftEntry>)
        ensures
            r == lookup(self.entries(), file_id),
    {
        let n = self.index.len();
        let mut k: usize = 0;
        while k < n
            invariant
                n == self.index@.len(),
                0 <= k <= n,
                forall|m: int| 0 <= m < k ==> (#[trigger] self.index@[m]).0 != file_id,
            decreases n - k,
        {
            if self.index[k].0 == file_id {
                proof {
                    lemma_lookup_at(self.index@, file_id, k as int);
                }
                return Some(self.index[k].1);
            }
            k += 1;
        }
        proof {
            lemma_lookup_none(self.index@, file_id);
        }
        None
    }

    /// Looks an asset up and decompresses it through the injected codec.
    ///
    /// An absent id, and a present id whose payload shape this version
    /// does not support (discriminator other than 8), are absent results,
    /// never errors. A payload leaving the mapping is a bounds error. For
    /// a supported payload the codec is handed the stored bytes and the
    /// recorded uncompressed size; whatever it returns, a produced buffer
    /// is returned only if its length equals that recorded size, and any
    /// codec failure is a codec error scoped to this one lookup.
    pub fn get<F: Fn(&[u8], u32) -> Option<Vec<u8>>>(&self, file_id: u32, codec: F) -> (r: Result<
        Option<Vec<u8>>,
        GetError,
    >)
        requires
            self.wf(),
            forall|d: &[u8], sz: u32| call_requires(codec, (d, sz)),
        ensures
            match lookup(self.entries(), file_id) {
                None => r == Ok::<Option<Vec<u8>>, GetError>(None),
                Some(e) => {
                    if e.extra_bytes != 8 {
                        r == Ok::<Option<Vec<u8>>, GetError>(None)
                    } else if !(e.size >= 8 && e.offset + e.size <= self.bytes().len()) {
                        r == Err::<Option<Vec<u8>>, GetError>(GetError::Bounds)
                    } else {
                        match r {
                            Ok(Some(buf)) => buf@.len() == le32(self.bytes(), e.offset + 4)
                                && exists|d: &[u8]|
                                d@ == self.bytes().subrange(
                                    e.offset as int,
                                    e.offset + e.size,
                                ) && #[trigger] call_ensures(
                                    codec,
                                    (d, le32(self.bytes(), e.offset + 4)),
                                    Some(buf),
                                ),
                            Err(ge) => ge == GetError::Codec && (exists|
                                d: &[u8],
                                o: Option<Vec<u8>>,
                            |
                                d@ == self.bytes().subrange(e.offset as int, e.offset + e.size)
                                    && #[trigger] call_ensures(
                                    codec,
                                    (d, le32(self.bytes(), e.offset + 4)),
                                    o,
                                ) && match o {
                                    None => true,
                                    Some(b) => b@.len() != le32(self.bytes(), e.offset + 4),
                                }),
                            Ok(None) => false,
                        }
                    }
                },
            },
    {
        let ent = match self.find(file_id) {
            None => {
                return Ok(None);
            },
            Some(e) => e,
        };
        if ent.extra_bytes != 8 {
            return Ok(None);
        }
        let n = mmap_len(&self.mmap);
        if ent.size < 8 {
            return Err(GetError::Bounds);
        }
        let end = match ent.offset.checked_add(ent.size as u64) {
            Some(e) => e,
            None => {
                return Err(GetError::Bounds);
            },
        };
        if end > n as u64 {
            return Err(GetError::Bounds);
        }
        let payload = mmap_slice(&self.mmap, ent.offset as usize, ent.size as usize);
        let sz = read_le32(payload, 4);
        proof {
            assert(sz == le32(self.bytes(), ent.offset + 4));
        }
        let out = codec(payload, sz);
        proof {
            assert(call_ensures(codec, (payload, sz), out));
        }
        finish_decode(sz, out)
    }
}

/// Accepts a codec result exactly when the codec produced a buffer of the
/// promised uncompressed length; anything else is a codec error.
pub fn finish_decode(expected: u32, out: Option<Vec<u8>>) -> (r: Result<Option<Vec<u8>>, GetError>)
    ensures
        match out {
            None => r == Err::<Option<Vec<u8>>, GetError>(GetError::Codec),
            Some(buf) => if buf@.len() == expected {
                r == Ok::<Option<Vec<u8>>, GetError>(Some(buf))
            } else {
                r == Err::<Option<Vec<u8>>, GetError>(GetError::Codec)
            },
        },
{
    match out {
        None => Err(GetError::Codec),
        Some(buf) => {
            if buf.len() == expected as usize {
                Ok(Some(buf))
            } else {
                Err(GetError::Codec)
            }
        },
    }
}

proof fn lemma_lookup_push(ix: Seq<(u32, MftEntry)>, x: (u32, MftEntry), id: u32)
    ensures
        lookup(ix.push(x), id) == if lookup(ix, id) is Some {
            lookup(ix, id)
        } else if x.0 == id {
            Some(x.1)
        } else {
            None::<MftEntry>
        },
    decreases ix.len(),
{
    if ix.len() == 0 {
        assert(ix.push(x)[0] == x);
        assert(ix.push(x).drop_first() =~= Seq::<(u32, MftEntry)>::empty());
        assert(lookup(Seq::<(u32, MftEntry)>::empty(), id) is None);
        assert(lookup(ix.push(x), id) == if x.0 == id {
            Some(x.1)
        } else {
            lookup(ix.push(x).drop_first(), id)
        });
    } else {
        assert(ix.push(x)[0] == ix[0]);
        assert(ix.push(x).drop_first() =~= ix.drop_first().push(x));
        lemma_lookup_push(ix.drop_first(), x, id);
        assert(lookup(ix.push(x), id) == if ix[0].0 == id {
            Some(ix[0].1)
        } else {
            lookup(ix.drop_first().push(x), id)
        });
    }
}

proof fn lemma_lookup_has(ix: Seq<(u32, MftEntry)>, id: u32)
    ensures
        (lookup(ix, id) is Some) == has_id(ix, id),
    decreases ix.len(),
{
    if ix.len() == 0 {
    } else if ix[0].0 == id {
        assert(has_id(ix, id));
    } else {
        lemma_lookup_has(ix.drop_first(), id);
        if has_id(ix, id) {
            let k = choose|k: int| 0 <= k < ix.len() && (#[trigger] ix[k]).0 == id;
            assert(ix.drop_first()[k - 1] == ix[k]);
            assert(has_id(ix.drop_first(), id));
        }
        if has_id(ix.drop_first(), id) {
            let k = choose|k: int|
                0 <= k < ix.drop_first().len() && (#[trigger] ix.drop_first()[k]).0 == id;
            assert(ix[k + 1] == ix.drop_first()[k]);
            assert(has_id(ix, id));
        }
    }
}

/// The index built from the id pairs of a file contains exactly the
/// non-zero ids among them, and maps each id to the manifest entry at the
/// 1-based position its first occurrence records.
#[verifier::rlimit(100)]
pub proof fn lemma_index_exact(s: Seq<u8>, ps: Seq<(u32, u32)>)
    ensures
        forall|id: u32|
            #[trigger] has_id(build_index(s, ps), id) <==> (id != 0 && exists|j: int|
                0 <= j < ps.len() && (#[trigger] ps[j]).0 == id),
        forall|j: int|
            (0 <= j < ps.len() && (#[trigger] ps[j]).0 != 0 && (forall|k: int|
                0 <= k < j ==> (#[trigger] ps[k]).0 != ps[j].0)) ==> lookup(
                build_index(s, ps),
                ps[j].0,
            ) == Some(entry_at(s, ps[j].1 - 1)),
    decreases ps.len(),
{
    if ps.len() == 0 {
        return ;
    }
    let pre = ps.drop_last();
    let b_pre = build_index(s, pre);
    let l = ps.last();
    let b = build_index(s, ps);
    lemma_index_exact(s, pre);
    let pushed = !(l.0 == 0 || has_id(b_pre, l.0));
    assert forall|id: u32| #[trigger] has_id(b, id) implies (id != 0 && exists|j: int|
        0 <= j < ps.len() && (#[trigger] ps[j]).0 == id) by {
        let k = choose|k: int| 0 <= k < b.len() && (#[trigger] b[k]).0 == id;
        if pushed && k == b.len() - 1 {
            assert(ps[ps.len() - 1].0 == id);
        } else {
            assert(b[k] == b_pre[k]);
            assert(has_id(b_pre, id));
            let j = choose|j: int| 0 <= j < pre.len() && (#[trigger] pre[j]).0 == id;
            assert(ps[j].0 == id);
        }
    }
    assert forall|id: u32|
        (id != 0 && exists|j: int|
            0 <= j < ps.len() && (#[trigger] ps[j]).0 == id) implies #[trigger] has_id(
        b,
        id,
    ) by {
        let j = choose|j: int| 0 <= j < ps.len() && (#[trigger] ps[j]).0 == id;
        if j < ps.len() - 1 {
            assert(pre[j].0 == id);
            assert(has_id(b_pre, id));
            let k = choose|k: int| 0 <= k < b_pre.len() && (#[trigger] b_pre[k]).0 == id;
            assert(b[k].0 == id);
            assert(has_id(b, id));
        } else {
            // the witness is the last pair
            if pushed {
                assert(b[b.len() - 1].0 == id);
                assert(has_id(b, id));
            } else {
                assert(has_id(b_pre, id));
                let k = choose|k: int| 0 <= k < b_pre.len() && (#[trigger] b_pre[k]).0 == id;
                assert(b[k].0 == id);
                assert(has_id(b, id));
            }
        }
    }
    assert forall|j: int|
        (0 <= j < ps.len() && (#[trigger] ps[j]).0 != 0 && (forall|k: int|
            0 <= k < j ==> (#[trigger] ps[k]).0 != ps[j].0)) implies lookup(b, ps[j].0) == Some(
        entry_at(s, ps[j].1 - 1),
    ) by {
        let id = ps[j].0;
        if j < ps.len() - 1 {
            assert(pre[j] == ps[j]);
            assert forall|k: int| 0 <= k < j implies (#[trigger] pre[k]).0 != id by {
                assert(pre[k] == ps[k]);
            }
            assert(lookup(b_pre, id) == Some(entry_at(s, pre[j].1 - 1)));
            if pushed {
                lemma_lookup_push(b_pre, (l.0, entry_at(s, l.1 - 1)), id);
            }
        } else {
            // the first occurrence is the last pair itself
            assert forall|k: int| 0 <= k < pre.len() implies (#[trigger] pre[k]).0 != id by {
                assert(pre[k] == ps[k]);
            }
            assert(!(exists|k: int| 0 <= k < pre.len() && (#[trigger] pre[k]).0 == id));
            assert(!has_id(b_pre, id));
            assert(pushed);
            lemma_lookup_has(b_pre, id);
            lemma_lookup_push(b_pre, (l.0, entry_at(s, l.1 - 1)), id);
        }
    }
}

impl Archive {
    /// For a well-formed handle the index is exact: it holds an id exactly
    /// when a non-zero id pair in the file's index region records it, and
    /// maps it to the manifest entry at the 1-based position of the id's
    /// first occurrence.
    pub proof fn lemma_index_is_exact(&self)
        requires
            self.wf(),
        ensures
            forall|id: u32|
                #[trigger] has_id(self.entries(), id) <==> (id != 0 && exists|j: int|
                    0 <= j < pairs(self.bytes()).len() && (#[trigger] pairs(
                        self.bytes(),
                    )[j]).0 == id),
            forall|j: int|
                (0 <= j < pairs(self.bytes()).len() && (#[trigger] pairs(self.bytes())[j]).0 != 0
                    && (forall|k: int|
                    0 <= k < j ==> (#[trigger] pairs(self.bytes())[k]).0 != pairs(
                        self.bytes(),
                    )[j].0)) ==> lookup(self.entries(), pairs(self.bytes())[j].0) == Some(
                    entry_at(self.bytes(), pairs(self.bytes())[j].1 - 1),
                ),
    {
        lemma_index_exact(self.bytes(), pairs(self.bytes()));
    }
}

proof fn lemma_lookup_at(ix: Seq<(u32, MftEntry)>, id: u32, k: int)
    requires
        0 <= k < ix.len(),
        ix[k].0 == id,
        forall|m: int| 0 <= m < k ==> (#[trigger] ix[m]).0 != id,
    ensures
        lookup(ix, id) == Some(ix[k].1),
    decreases ix.len(),
{
    if k > 0 {
        assert(ix.drop_first()[k - 1] == ix[k]);
        assert forall|m: int| 0 <= m < k - 1 implies (#[trigger] ix.drop_first()[m]).0 != id by {
            assert(ix.drop_first()[m] == ix[m + 1]);
        }
        lemma_lookup_at(ix.drop_first(), id, k - 1);
    }
}

proof fn lemma_lookup_none(ix: Seq<(u32, MftEntry)>, id: u32)
    requires
        forall|m: int| 0 <= m < ix.len() ==> (#[trigger] ix[m]).0 != id,
    ensures
        lookup(ix, id) is None,
    decreases ix.len(),
{
    if ix.len() > 0 {
        assert forall|m: int| 0 <= m < ix.drop_first().len() implies (#[trigger] ix.drop_first()[m]).0
            != id by {
            assert(ix.drop_first()[m] == ix[m + 1]);
        }
        lemma_lookup_none(ix.drop_first(), id);
    }
}

} // verus!
