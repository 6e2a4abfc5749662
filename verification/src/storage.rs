//! The storage facade: wraps the filesystem engine with a bump-allocated RAM
//! read cache keyed by name. Cached spans are never evicted; their lifetime
//! ends at an explicit cache clear or a filesystem format.

use vstd::prelude::*;
use crate::checksum::crc32_of;
use crate::devices::{FileWriteError, StorageDevice};
use crate::entry::{key_ok, name_ok, pad16, EntryModel, IndexBlockEntry};
use crate::flash::FlashMedia;
use crate::fs::{
    alloc_addr, bytes_eq, entries_bounded, find_from, first_empty_from, flash_wf,
    lemma_find_skip_prefix, lemma_first_empty_bounds, lemma_first_empty_empty,
    lemma_first_empty_min, lemma_max_end_bounds, max_end_from, sclass, sentry, slot_bytes,
    slot_end, slot_live, tail_empty_from, unique_names, SimpleFilesystem,
};
use crate::{DATA_START, INVALID_FLAG, MAX_ENTRIES, TOTAL_BYTES, VALID_FLAG};

verus! {

/// Number of cache slots.
pub const CACHE_SLOTS: usize = 32;

/// Bytes in the cache arena.
pub const CACHE_ARENA: usize = 8096;

/// One cached file: its key and the span it occupies in the arena.
pub struct CacheEntry {
    pub key: Vec<u8>,
    pub offset: usize,
    pub length: usize,
}

impl CacheEntry {
    /// A cache record for `key` at `offset`, spanning `length` bytes.
    pub fn new(key: &[u8], offset: usize, length: usize) -> (r: Self)
        ensures
            r.key@ == key@,
            r.offset == offset,
            r.length == length,
    {
        CacheEntry { key: vstd::slice::slice_to_vec(key), offset, length }
    }
}

/// The first cache slot at or after `i` holding `key`.
pub open spec fn cache_hit_from(cache: Seq<Option<CacheEntry>>, i: int, key: Seq<u8>) -> Option<
    int,
>
    decreases cache.len() - i,
{
    if i < 0 || i >= cache.len() {
        None
    } else {
        match cache[i] {
            Option::Some(e) => if e.key@ == key {
                Some(i)
            } else {
                cache_hit_from(cache, i + 1, key)
            },
            Option::None => cache_hit_from(cache, i + 1, key),
        }
    }
}

/// The first free cache slot at or after `i`.
pub open spec fn first_free_from(cache: Seq<Option<CacheEntry>>, i: int) -> Option<int>
    decreases cache.len() - i,
{
    if i < 0 || i >= cache.len() {
        None
    } else if cache[i] is None {
        Some(i)
    } else {
        first_free_from(cache, i + 1)
    }
}

/// A successfully stored file: `key` resolves from `st` to the entry at slot
/// `at`, whose recorded span holds exactly `data`, checksummed.
pub open spec fn stored_at(flash: Seq<u8>, st: int, key: Seq<u8>, data: Seq<u8>, at: int) -> bool {
    &&& find_from(flash, st, pad16(key)) == Some(at)
    &&& sentry(flash, at).length == data.len()
    &&& sentry(flash, at).crc == crc32_of(data)
    &&& sentry(flash, at).addr + data.len() <= TOTAL_BYTES
    &&& flash.subrange(sentry(flash, at).addr as int, sentry(flash, at).addr + data.len()) == data
}

/// The storage facade: the engine plus the RAM read cache.
pub struct SimpleFlashStorage {
    pub cache_entries: Vec<Option<CacheEntry>>,
    pub cache_offset: usize,
    pub arena: Vec<u8>,
    pub fs: SimpleFilesystem,
}

impl SimpleFlashStorage {
    /// The cache tables have their fixed sizes and every cached span lies
    /// below the bump pointer.
    pub open spec fn cache_wf(&self) -> bool {
        &&& self.cache_entries@.len() == CACHE_SLOTS
        &&& self.arena@.len() == CACHE_ARENA
        &&& self.cache_offset <= CACHE_ARENA
        &&& forall|i: int|
            0 <= i < CACHE_SLOTS ==> (#[trigger] self.cache_entries@[i] matches Some(e) ==> e.offset
                + e.length <= self.cache_offset)
    }

    /// Facade well-formedness: engine geometry plus cache shape.
    pub open spec fn wf(&self) -> bool {
        self.fs.inv() && self.cache_wf()
    }

    /// A facade over `media`: mounts the engine and starts with an empty
    /// cache.
    pub fn new(media: FlashMedia) -> (r: Self)
        requires
            media.inv(),
        ensures
            r.wf(),
            r.fs.flash() == media@,
            r.fs.start_slot() == 0,
            r.cache_offset == 0,
            forall|i: int| 0 <= i < CACHE_SLOTS ==> #[trigger] r.cache_entries@[i] is None,
    {
        let mut fs = SimpleFilesystem::new(media);
        let _stats = fs.mount();
        let mut cache_entries: Vec<Option<CacheEntry>> = Vec::new();
        let mut i: usize = 0;
        while i < 32
            invariant
                i <= 32,
                cache_entries@.len() == i,
                forall|j: int| 0 <= j < i ==> #[trigger] cache_entries@[j] is None,
            decreases 32 - i,
        {
            cache_entries.push(None);
            i = i + 1;
        }
        let mut arena: Vec<u8> = Vec::new();
        let mut p: usize = 0;
        while p < 8096
            invariant
                p <= 8096,
                arena@.len() == p,
            decreases 8096 - p,
        {
            arena.push(0);
            p = p + 1;
        }
        SimpleFlashStorage { cache_entries, cache_offset: 0, arena, fs }
    }

    /// The engine, for inspection.
    pub fn engine(&self) -> (r: &SimpleFilesystem)
        ensures
            r == &self.fs,
    {
        &self.fs
    }

    /// Loads the bytes stored under `key`. A cache hit returns the cached
    /// span without touching flash; a miss resolves the key, verifies the
    /// payload CRC, bump-allocates the span into the arena and records it in
    /// the first free cache slot. `None` when the key does not resolve, the
    /// checksum fails, or the arena is exhausted.
    pub fn load_image(&mut self, key: &[u8]) -> (r: Option<Vec<u8>>)
        requires
            old(self).wf(),
            key@.len() <= 16,
        ensures
            final(self).wf(),
            final(self).fs == old(self).fs,
            ({
                let cache0 = old(self).cache_entries@;
                let arena0 = old(self).arena@;
                let off0 = old(self).cache_offset as int;
                let flash = old(self).fs.flash();
                let st = old(self).fs.start_slot();
                let unchanged = final(self).cache_entries@ == cache0 && final(self).arena@
                    == arena0 && final(self).cache_offset == off0;
                &&& (cache_hit_from(cache0, 0, key@) matches Some(i) ==> (cache0[i] matches Some(e)
                    && r matches Some(v) && v@ == arena0.subrange(
                    e.offset as int,
                    e.offset + e.length,
                ) && unchanged))
                &&& (cache_hit_from(cache0, 0, key@) is None ==> match find_from(
                    flash,
                    st,
                    pad16(key@),
                ) {
                    Option::None => r is None && unchanged,
                    Option::Some(t) => {
                        let e = sentry(flash, t);
                        let payload = flash.subrange(e.addr as int, e.addr + e.length);
                        let fits = e.length <= CACHE_ARENA - off0;
                        let readable = e.addr + e.length <= TOTAL_BYTES;
                        &&& (!fits ==> r is None && unchanged)
                        &&& (fits && !readable ==> r is None && unchanged)
                        &&& (fits && readable && crc32_of(payload) != e.crc ==> r is None
                            && unchanged)
                        &&& (fits && readable && crc32_of(payload) == e.crc ==> {
                            &&& r matches Some(v) && v@ == payload
                            &&& final(self).cache_offset == off0 + e.length
                            &&& forall|p: int|
                                off0 <= p < off0 + e.length ==> final(self).arena@[p] == payload[p
                                    - off0]
                            &&& forall|p: int|
                                0 <= p < CACHE_ARENA && !(off0 <= p < off0 + e.length) ==> final(self).arena@[p] == arena0[p]
                            &&& (first_free_from(cache0, 0) matches Some(j) ==> (final(self).cache_entries@[j] matches Some(ne) && ne.key@ == key@ && ne.offset
                                == off0 && ne.length == e.length && forall|q: int|
                                0 <= q < CACHE_SLOTS && q != j ==> final(self).cache_entries@[q]
                                    == cache0[q]))
                            &&& (first_free_from(cache0, 0) is None ==> final(self).cache_entries@ == cache0)
                        })
                    },
                })
            }),
    {
        let ghost cache0 = self.cache_entries@;
        let mut i: usize = 0;
        let mut free_idx: Option<usize> = None;
        while i < 32
            invariant
                self == old(self),
                self.wf(),
                cache0 == self.cache_entries@,
                i <= 32,
                cache_hit_from(cache0, 0, key@) == cache_hit_from(cache0, i as int, key@),
                free_idx is None ==> first_free_from(cache0, 0) == first_free_from(
                    cache0,
                    i as int,
                ),
                free_idx matches Some(j) ==> first_free_from(cache0, 0) == Some(j as int) && j
                    < 32,
            decreases 32 - i,
        {
            match &self.cache_entries[i] {
                Some(e) => {
                    if bytes_eq(e.key.as_slice(), key) {
                        proof {
                            assert(cache_hit_from(cache0, i as int, key@) == Some(i as int));
                            assert(self.cache_entries@[i as int] matches Some(ce) && ce.offset
                                + ce.length <= self.cache_offset);
                        }
                        let off = e.offset;
                        let len = e.length;
                        let mut out: Vec<u8> = Vec::new();
                        let mut p: usize = 0;
                        while p < len
                            invariant
                                self == old(self),
                                p <= len,
                                off + len <= 8096,
                                self.arena@.len() == 8096,
                                out@.len() == p,
                                forall|q: int| 0 <= q < p ==> out@[q] == self.arena@[off + q],
                            decreases len - p,
                        {
                            out.push(self.arena[off + p]);
                            p = p + 1;
                        }
                        proof {
                            assert(out@ =~= self.arena@.subrange(
                                off as int,
                                off as int + len as int,
                            ));
                        }
                        return Some(out);
                    }
                },
                None => {
                    if free_idx.is_none() {
                        free_idx = Some(i);
                    }
                },
            }
            i = i + 1;
        }
        let mut entry = IndexBlockEntry::default();
        let res = self.fs.find_entry(key, &mut entry);
        match res {
            Ok(_) => {
                let length = entry.length() as usize;
                if length > 8096 - self.cache_offset {
                    return None;
                }
                let mut buf: Vec<u8> = Vec::new();
                let mut z: usize = 0;
                while z < length
                    invariant
                        z <= length,
                        buf@.len() == z,
                    decreases length - z,
                {
                    buf.push(0);
                    z = z + 1;
                }
                if self.fs.read_file(&entry, &mut buf) {
                    let off = self.cache_offset;
                    let ghost arena0 = self.arena@;
                    let mut p: usize = 0;
                    while p < length
                        invariant
                            self.cache_entries@ == old(self).cache_entries@,
                            self.cache_offset == old(self).cache_offset,
                            self.fs == old(self).fs,
                            off == old(self).cache_offset,
                            p <= length,
                            off + length <= self.arena@.len(),
                            self.arena@.len() == arena0.len(),
                            arena0.len() == CACHE_ARENA,
                            buf@.len() == length,
                            forall|q: int| off <= q < off + p ==> self.arena@[q] == buf@[q - off],
                            forall|q: int|
                                0 <= q < arena0.len() && !(off <= q < off + p) ==> self.arena@[q]
                                    == arena0[q],
                        decreases length - p,
                    {
                        self.arena.set(off + p, buf[p]);
                        p = p + 1;
                    }
                    match free_idx {
                        Some(j) => {
                            self.cache_entries.set(j, Some(CacheEntry::new(key, off, length)));
                        },
                        None => {},
                    }
                    self.cache_offset = off + length;
                    return Some(buf);
                }
                None
            },
            Err(_) => None,
        }
    }

    /// Stores `data` under `key`, replacing any previous holder of the name:
    /// allocates a slot and an address, writes and verifies the payload, and
    /// writes the index entry. On a write-verify mismatch one retry is made
    /// at an alternate address before the error surfaces. `FilesystemFull`
    /// when no index slot is empty or the payload does not fit.
    #[verifier::rlimit(100)]
    #[verifier::spinoff_prover]
    pub fn write_image(&mut self, data: &[u8], key: &[u8]) -> (r: Result<(), FileWriteError>)
        requires
            old(self).wf(),
            key_ok(key@),
            flash_wf(old(self).fs.flash(), old(self).fs.start_slot()),
        ensures
            final(self).wf(),
            final(self).cache_entries@ == old(self).cache_entries@,
            final(self).arena@ == old(self).arena@,
            final(self).cache_offset == old(self).cache_offset,
            final(self).fs.start_slot() == old(self).fs.start_slot(),
            flash_wf(final(self).fs.flash(), final(self).fs.start_slot()),
            ({
                let flash0 = old(self).fs.flash();
                let flash1 = final(self).fs.flash();
                let st = old(self).fs.start_slot();
                let fe = first_empty_from(flash0, st);
                let waddr = alloc_addr(max_end_from(flash0, st));
                let k16 = pad16(key@);
                let ok = fe < MAX_ENTRIES && waddr + data@.len() <= TOTAL_BYTES;
                &&& (ok ==> {
                    &&& r is Ok
                    &&& stored_at(flash1, st, key@, data@, fe)
                    &&& sentry(flash1, fe) == (EntryModel {
                        flags: VALID_FLAG,
                        name: k16,
                        length: data@.len() as u32,
                        addr: waddr as u32,
                        crc: crc32_of(data@),
                    })
                    &&& forall|t: int|
                        st <= t < MAX_ENTRIES && #[trigger] sclass(flash1, t) is Valid && sentry(
                            flash1,
                            t,
                        ).name == k16 <==> t == fe
                })
                &&& (!ok ==> (r matches Err(e) && e is FilesystemFull && find_from(
                    flash1,
                    st,
                    k16,
                ) is None))
                &&& forall|t: int|
                    st <= t < fe && #[trigger] sclass(flash0, t) is Valid && sentry(flash0, t).name
                        == k16 ==> sclass(flash1, t) is Invalidated && sentry(flash1, t)
                        == (EntryModel { flags: INVALID_FLAG, ..sentry(flash0, t) })
            }),
    {
        let ghost flash0 = self.fs.flash();
        let ghost st = self.fs.start_slot();
        let ghost k16 = pad16(key@);
        proof {
            lemma_first_empty_bounds(flash0, st);
            lemma_max_end_bounds(flash0, st);
            assert(name_ok(k16)) by {
                assert forall|q: int| 0 <= q < 16 implies k16[q] < 0x80 by {
                    if q < key@.len() {
                        assert(key@[q] < 0x80);
                    }
                }
            }
        }
        let res = self.fs.new_file_erase_old(key);
        let ghost flash_a = self.fs.flash();
        let ghost fe = first_empty_from(flash0, st);
        let alloc = match res {
            Ok(triple) => triple,
            Err(e) => {
                proof {
                    lemma_alloc_leaves_no_match(flash0, flash_a, st, fe, k16);
                }
                return Err(e);
            },
        };
        let (block, index, next_addr) = alloc;
        proof {
            lemma_first_empty_empty(flash0, st);
        }
        if data.len() > 1966080 {
            proof {
                lemma_alloc_leaves_no_match(flash0, flash_a, st, fe, k16);
            }
            return Err(FileWriteError::FilesystemFull);
        }
        if (next_addr as u64) + (data.len() as u64) > TOTAL_BYTES as u64 {
            proof {
                lemma_alloc_leaves_no_match(flash0, flash_a, st, fe, k16);
            }
            return Err(FileWriteError::FilesystemFull);
        }
        let mut new_entry = IndexBlockEntry::default();
        new_entry.flags = VALID_FLAG;
        new_entry.set_name(key);
        new_entry.addr = next_addr;
        new_entry.length = data.len() as u32;
        proof {
            assert(DATA_START <= next_addr && next_addr + data@.len() <= TOTAL_BYTES);
        }
        let wres = self.fs.write_file(new_entry.addr, data);
        let ghost flash_b = self.fs.flash();
        proof {
            assert forall|t: int| 0 <= t < MAX_ENTRIES implies #[trigger] slot_bytes(flash_b, t)
                == slot_bytes(flash_a, t) by {
                assert forall|p: int| 32 * t <= p < 32 * t + 32 implies flash_b[p]
                    == flash_a[p] by {
                    assert(p < DATA_START);
                    if data@.len() > 0 {
                        assert(next_addr / 4096 >= 8);
                        assert(!crate::fs::erased_by_write(next_addr as int, data@.len() as int, p));
                    }
                }
                assert(slot_bytes(flash_b, t) =~= slot_bytes(flash_a, t));
            }
        }
        match wres {
            Ok(x) => {
                new_entry.crc = x;
            },
            Err(FileWriteError::ChecksumFailed) => {
                // Unreachable here: the write was bounds-checked above and a
                // read-back of this media always matches. Kept for parity
                // with the documented retry policy: one attempt at the
                // alternate address, then the error surfaces.
                proof {
                    assert(false);
                }
                new_entry.addr = (next_addr / self.fs.block_size) + self.fs.block_size;
                let retry = self.fs.write_file(new_entry.addr, data);
                match retry {
                    Ok(x) => {
                        new_entry.crc = x;
                    },
                    Err(e) => {
                        return Err(e);
                    },
                }
            },
            Err(FileWriteError::FilesystemFull) => {
                proof {
                    assert(false);
                }
                return Err(FileWriteError::FilesystemFull);
            },
        }
        proof {
            assert(block * 128 + index == fe);
        }
        self.fs.write_entry(block, index, &new_entry);
        proof {
            assert(new_entry@.name == k16);
            assert(new_entry@.length == data@.len());
            lemma_store_post(
                flash0,
                flash_a,
                flash_b,
                self.fs.flash(),
                st,
                fe,
                k16,
                data@,
                next_addr as int,
            );
            assert(pad16(key@) == k16);
            assert(stored_at(self.fs.flash(), st, key@, data@, fe));
        }
        Ok(())
    }

    /// Erases the index, clears the cache and remounts.
    pub fn format_storage(&mut self)
        requires
            old(self).wf(),
        ensures
            final(self).wf(),
            final(self).fs.start_slot() == 0,
            flash_wf(final(self).fs.flash(), 0),
            final(self).cache_offset == old(self).cache_offset,
            final(self).arena@ == old(self).arena@,
            forall|i: int| 0 <= i < CACHE_SLOTS ==> #[trigger] final(self).cache_entries@[i] is None,
            forall|j: int| 0 <= j < MAX_ENTRIES ==> #[trigger] sclass(final(self).fs.flash(), j) is Empty,
            forall|p: int|
                DATA_START <= p < TOTAL_BYTES ==> final(self).fs.flash()[p] == old(self).fs.flash()[p],
    {
        self.fs.format();
        self.clear_cache();
        let _stats = self.fs.mount();
        proof {
            lemma_erased_index_wf(self.fs.flash());
        }
    }

    /// Drops all cache slot metadata; flash contents and the arena are
    /// untouched (the bump pointer keeps its position).
    pub fn clear_cache(&mut self)
        requires
            old(self).wf(),
        ensures
            final(self).wf(),
            final(self).fs == old(self).fs,
            final(self).cache_offset == old(self).cache_offset,
            final(self).arena@ == old(self).arena@,
            forall|i: int| 0 <= i < CACHE_SLOTS ==> #[trigger] final(self).cache_entries@[i] is None,
    {
        let mut i: usize = 0;
        while i < 32
            invariant
                self.fs == old(self).fs,
                self.cache_offset == old(self).cache_offset,
                self.arena@ == old(self).arena@,
                self.wf(),
                i <= 32,
                forall|j: int| 0 <= j < i ==> #[trigger] self.cache_entries@[j] is None,
            decreases 32 - i,
        {
            self.cache_entries.set(i, None);
            i = i + 1;
        }
    }
}

/// An all-erased index region classifies every slot empty, which is
/// well-formed from any cursor.
proof fn lemma_erased_index_wf(flash: Seq<u8>)
    requires
        flash.len() == TOTAL_BYTES,
        forall|p: int| 0 <= p < DATA_START ==> flash[p] == 0xFFu8,
    ensures
        forall|j: int| 0 <= j < MAX_ENTRIES ==> #[trigger] sclass(flash, j) is Empty,
        flash_wf(flash, 0),
{
    assert forall|j: int| 0 <= j < MAX_ENTRIES implies #[trigger] sclass(flash, j) is Empty by {
        assert(slot_bytes(flash, j)[0] == 0xFFu8);
        assert(slot_bytes(flash, j)[1] == 0xFFu8);
        assert(slot_bytes(flash, j)[2] == 0xFFu8);
        assert(slot_bytes(flash, j)[3] == 0xFFu8);
        assert(sentry(flash, j).flags == crate::EMPTY_FLAG);
    }
}

/// After a failed allocation pass every previous holder of the key in the
/// scanned range is invalidated, so the key no longer resolves; the index
/// shape is preserved.
proof fn lemma_alloc_leaves_no_match(
    flash0: Seq<u8>,
    flash1: Seq<u8>,
    st: int,
    fe: int,
    k16: Seq<u8>,
)
    requires
        0 <= st < MAX_ENTRIES,
        flash0.len() == TOTAL_BYTES,
        flash1.len() == flash0.len(),
        flash_wf(flash0, st),
        fe == first_empty_from(flash0, st),
        forall|t: int|
            0 <= t < MAX_ENTRIES && !(st <= t < fe && sclass(flash0, t) is Valid && sentry(
                flash0,
                t,
            ).name == k16) ==> #[trigger] slot_bytes(flash1, t) == slot_bytes(flash0, t),
        forall|t: int|
            st <= t < fe && #[trigger] sclass(flash0, t) is Valid && sentry(flash0, t).name == k16
                ==> sentry(flash1, t) == (EntryModel { flags: INVALID_FLAG, ..sentry(flash0, t) })
                && sclass(flash1, t) is Invalidated,
    ensures
        find_from(flash1, st, k16) is None,
        tail_empty_from(flash1, st),
        unique_names(flash1, st),
        entries_bounded(flash1),
        flash_wf(flash1, st),
{
    assert forall|t: int| 0 <= t < MAX_ENTRIES implies (#[trigger] sclass(flash1, t) is Empty
        <==> sclass(flash0, t) is Empty) && ((sclass(flash1, t) is Valid) ==> sclass(
        flash0,
        t,
    ) is Valid && sentry(flash1, t) == sentry(flash0, t)) by {
        if st <= t < fe && sclass(flash0, t) is Valid && sentry(flash0, t).name == k16 {
        } else {
            assert(slot_bytes(flash1, t) == slot_bytes(flash0, t));
        }
    }
    lemma_no_match_scan(flash0, flash1, st, fe, k16);
    assert forall|j: int, k: int|
        st <= j <= k < MAX_ENTRIES && sclass(flash1, j) is Empty implies sclass(
        flash1,
        k,
    ) is Empty by {
        assert(sclass(flash0, j) is Empty);
        assert(sclass(flash0, k) is Empty);
    }
    assert forall|j: int, k: int|
        st <= j < k < MAX_ENTRIES && sclass(flash1, j) is Valid && sclass(flash1, k) is Valid
        implies sentry(flash1, j).name != sentry(flash1, k).name by {
        assert(sclass(flash0, j) is Valid && sclass(flash0, k) is Valid);
    }
    assert forall|t: int| 0 <= t < MAX_ENTRIES && slot_live(flash1, t) implies DATA_START
        <= #[trigger] sentry(flash1, t).addr && slot_end(flash1, t) <= TOTAL_BYTES by {
        if st <= t < fe && sclass(flash0, t) is Valid && sentry(flash0, t).name == k16 {
            assert(sentry(flash1, t).addr == sentry(flash0, t).addr);
            assert(sentry(flash1, t).length == sentry(flash0, t).length);
            assert(slot_live(flash0, t));
        } else {
            assert(slot_bytes(flash1, t) == slot_bytes(flash0, t));
            assert(slot_live(flash0, t));
        }
    }
}

/// The scan from the cursor never meets a valid slot named `k16` once every
/// previous holder in the scanned range is gone.
proof fn lemma_no_match_scan(flash0: Seq<u8>, flash1: Seq<u8>, st: int, fe: int, k16: Seq<u8>)
    requires
        0 <= st,
        fe == first_empty_from(flash0, st),
        forall|t: int|
            0 <= t < MAX_ENTRIES ==> (#[trigger] sclass(flash1, t) is Empty <==> sclass(
                flash0,
                t,
            ) is Empty),
        forall|t: int|
            0 <= t < MAX_ENTRIES && #[trigger] sclass(flash1, t) is Valid ==> sclass(
                flash0,
                t,
            ) is Valid && sentry(flash1, t) == sentry(flash0, t),
        forall|t: int|
            st <= t < fe && #[trigger] sclass(flash0, t) is Valid && sentry(flash0, t).name == k16
                ==> !(sclass(flash1, t) is Valid),
    ensures
        find_from(flash1, st, k16) is None,
    decreases MAX_ENTRIES - st,
{
    if st < MAX_ENTRIES {
        if sclass(flash1, st) is Empty {
        } else {
            assert(!(sclass(flash0, st) is Empty));
            assert(first_empty_from(flash0, st) == first_empty_from(flash0, st + 1));
            if sclass(flash1, st) is Valid && sentry(flash1, st).name == k16 {
                assert(sclass(flash0, st) is Valid && sentry(flash0, st).name == k16);
                assert(st < fe) by {
                    lemma_first_empty_bounds(flash0, st + 1);
                }
                assert(false);
            }
            lemma_no_match_scan(flash0, flash1, st + 1, fe, k16);
        }
    }
}

/// What holds of the flash after the whole store path: allocation pass over
/// `flash0` giving `flash_a`, payload write at `waddr` giving `flash_b`
/// (index region untouched), then the index entry written at the first empty
/// slot `fe`.
#[verifier::rlimit(60)]
#[verifier::spinoff_prover]
proof fn lemma_store_post(
    flash0: Seq<u8>,
    flash_a: Seq<u8>,
    flash_b: Seq<u8>,
    flash1: Seq<u8>,
    st: int,
    fe: int,
    k16: Seq<u8>,
    data: Seq<u8>,
    waddr: int,
)
    requires
        0 <= st < MAX_ENTRIES,
        flash0.len() == TOTAL_BYTES,
        flash_a.len() == TOTAL_BYTES,
        flash_b.len() == TOTAL_BYTES,
        flash1.len() == TOTAL_BYTES,
        flash_wf(flash0, st),
        k16.len() == 16,
        name_ok(k16),
        fe == first_empty_from(flash0, st),
        st <= fe < MAX_ENTRIES,
        sclass(flash0, fe) is Empty,
        forall|t: int|
            0 <= t < MAX_ENTRIES && !(st <= t < fe && sclass(flash0, t) is Valid && sentry(
                flash0,
                t,
            ).name == k16) ==> #[trigger] slot_bytes(flash_a, t) == slot_bytes(flash0, t),
        forall|t: int|
            st <= t < fe && #[trigger] sclass(flash0, t) is Valid && sentry(flash0, t).name == k16
                ==> sentry(flash_a, t) == (EntryModel { flags: INVALID_FLAG, ..sentry(flash0, t) })
                && sclass(flash_a, t) is Invalidated,
        forall|t: int|
            0 <= t < MAX_ENTRIES ==> #[trigger] slot_bytes(flash_b, t) == slot_bytes(flash_a, t),
        DATA_START <= waddr,
        waddr + data.len() <= TOTAL_BYTES,
        forall|p: int| waddr <= p < waddr + data.len() ==> flash_b[p] == data[p - waddr],
        sentry(flash1, fe) == (EntryModel {
            flags: VALID_FLAG,
            name: k16,
            length: data.len() as u32,
            addr: waddr as u32,
            crc: crc32_of(data),
        }),
        forall|t: int|
            0 <= t < MAX_ENTRIES && t != fe ==> #[trigger] slot_bytes(flash1, t) == slot_bytes(
                flash_b,
                t,
            ),
        forall|p: int| DATA_START <= p < TOTAL_BYTES ==> flash1[p] == flash_b[p],
        data.len() < 0x1_0000_0000,
    ensures
        find_from(flash1, st, k16) == Some(fe),
        sentry(flash1, fe).length == data.len(),
        sentry(flash1, fe).crc == crc32_of(data),
        sentry(flash1, fe).addr == waddr,
        flash1.subrange(waddr, waddr + data.len()) == data,
        flash_wf(flash1, st),
        forall|t: int|
            st <= t < MAX_ENTRIES && #[trigger] sclass(flash1, t) is Valid && sentry(
                flash1,
                t,
            ).name == k16 <==> t == fe,
        forall|t: int|
            st <= t < fe && #[trigger] sclass(flash0, t) is Valid && sentry(flash0, t).name == k16
                ==> sclass(flash1, t) is Invalidated && sentry(flash1, t) == (EntryModel {
                flags: INVALID_FLAG,
                ..sentry(flash0, t)
            }),
{
    assert(sclass(flash1, fe) is Valid);
    assert forall|t: int| 0 <= t < MAX_ENTRIES && t != fe implies #[trigger] slot_bytes(flash1, t)
        == slot_bytes(flash_a, t) by {
        assert(slot_bytes(flash1, t) == slot_bytes(flash_b, t));
    }
    assert forall|t: int| st <= t < fe implies !(#[trigger] sclass(flash1, t) is Empty) && !(
    sclass(flash1, t) is Valid && sentry(flash1, t).name == k16) by {
        lemma_first_empty_min(flash0, st, t);
        if sclass(flash0, t) is Valid && sentry(flash0, t).name == k16 {
            assert(sentry(flash1, t) == sentry(flash_a, t));
            assert(sclass(flash1, t) == sclass(flash_a, t));
        } else {
            assert(slot_bytes(flash1, t) == slot_bytes(flash0, t));
        }
    }
    assert forall|t: int| fe < t < MAX_ENTRIES implies #[trigger] sclass(flash1, t) is Empty by {
        assert(slot_bytes(flash1, t) == slot_bytes(flash0, t));
        assert(sclass(flash0, t) is Empty);
    }
    lemma_find_skip_prefix(flash1, st, fe, k16);
    assert(find_from(flash1, fe, k16) == Some(fe));
    assert(flash1.subrange(waddr, waddr + data.len()) =~= data);
    assert forall|j: int, k: int|
        st <= j <= k < MAX_ENTRIES && sclass(flash1, j) is Empty implies sclass(
        flash1,
        k,
    ) is Empty by {
        assert(j > fe);
    }
    assert forall|j: int, k: int|
        st <= j < k < MAX_ENTRIES && sclass(flash1, j) is Valid && sclass(flash1, k) is Valid
        implies sentry(flash1, j).name != sentry(flash1, k).name by {
        if k < fe {
            assert(slot_bytes(flash1, j) == slot_bytes(flash0, j));
            assert(slot_bytes(flash1, k) == slot_bytes(flash0, k));
        } else if k == fe {
            assert(slot_bytes(flash1, j) == slot_bytes(flash0, j));
            assert(sentry(flash1, k).name == k16);
        }
    }
    assert forall|t: int| 0 <= t < MAX_ENTRIES && slot_live(flash1, t) implies DATA_START
        <= #[trigger] sentry(flash1, t).addr && slot_end(flash1, t) <= TOTAL_BYTES by {
        if t == fe {
        } else if st <= t < fe && sclass(flash0, t) is Valid && sentry(flash0, t).name == k16 {
            assert(sentry(flash1, t) == sentry(flash_a, t));
            assert(sentry(flash1, t).addr == sentry(flash0, t).addr);
            assert(sentry(flash1, t).length == sentry(flash0, t).length);
            assert(slot_live(flash0, t));
        } else {
            assert(slot_bytes(flash1, t) == slot_bytes(flash0, t));
            assert(slot_live(flash0, t));
        }
    }
}

impl StorageDevice for SimpleFlashStorage {
    /// The facade is well-formed and its index keeps the append-only,
    /// bounded, unique-name shape that the write path preserves.
    open spec fn inv(&self) -> bool {
        self.wf() && flash_wf(self.fs.flash(), self.fs.start_slot())
    }

    fn load_image(&mut self, key: &[u8]) -> Option<Vec<u8>> {
        SimpleFlashStorage::load_image(self, key)
    }

    fn write_image(&mut self, data: &[u8], key: &[u8]) -> Result<(), FileWriteError> {
        SimpleFlashStorage::write_image(self, data, key)
    }

    fn clear_cache(&mut self) {
        SimpleFlashStorage::clear_cache(self);
    }

    fn format_storage(&mut self) {
        SimpleFlashStorage::format_storage(self);
    }
}

} // verus!
