//! The filesystem engine: index-region scanning, allocation, in-place
//! invalidation, compaction and CRC-verified payload writes, all over an
//! owned [`FlashMedia`].
//!
//! The index occupies the first 8 blocks of flash: 1024 slots of 32 bytes,
//! numbered flat from 0 (slot `s` lives at byte `32*s`; block `s / 128`,
//! index `s % 128`). Scans run forward from the mount cursor and stop at the
//! first `Empty` slot: by the append-only discipline nothing valid follows an
//! erased slot.

use vstd::prelude::*;
use crate::checksum::{crc32, crc32_of};
use crate::entry::{
    class_of, le_bytes32, lemma_encode_decode, name_ok, pad16, read_le32, spec_decode, spec_encode,
    u32_le_bytes, EntryModel, IndexBlockEntry, IndexEntryError, SlotClass,
};
use crate::devices::FileWriteError;
use crate::entry::append_bytes;
use crate::flash::FlashMedia;
use crate::{
    BLOCK_SIZE, DATA_START, EMPTY_FLAG, ENTRIES_PER_BLOCK, INDEX_BLOCKS, INVALID_FLAG, MAX_ENTRIES,
    TOTAL_BLOCKS, TOTAL_BYTES, VALID_FLAG, WRITE_SIZE,
};

verus! {

/// The 32 bytes of index slot `s`.
pub open spec fn slot_bytes(flash: Seq<u8>, s: int) -> Seq<u8> {
    flash.subrange(32 * s, 32 * s + 32)
}

/// Classification of index slot `s`.
pub open spec fn sclass(flash: Seq<u8>, s: int) -> SlotClass {
    class_of(slot_bytes(flash, s))
}

/// The decoded entry at index slot `s`.
pub open spec fn sentry(flash: Seq<u8>, s: int) -> EntryModel {
    spec_decode(slot_bytes(flash, s))
}

/// A slot whose payload region is still occupied: valid or invalidated.
pub open spec fn slot_live(flash: Seq<u8>, s: int) -> bool {
    sclass(flash, s) is Valid || sclass(flash, s) is Invalidated
}

/// One byte past the payload of the entry at slot `s`.
pub open spec fn slot_end(flash: Seq<u8>, s: int) -> int {
    sentry(flash, s).addr + sentry(flash, s).length
}

/// The first slot at or after `s` that is `Empty`; the slot capacity when
/// none is.
pub open spec fn first_empty_from(flash: Seq<u8>, s: int) -> int
    decreases MAX_ENTRIES - s,
{
    if s < 0 || s >= MAX_ENTRIES {
        MAX_ENTRIES as int
    } else if sclass(flash, s) is Empty {
        s
    } else {
        first_empty_from(flash, s + 1)
    }
}

/// The first valid slot at or after `s` whose name field equals `name`,
/// scanning up at most to the first empty slot.
pub open spec fn find_from(flash: Seq<u8>, s: int, name: Seq<u8>) -> Option<int>
    decreases MAX_ENTRIES - s,
{
    if s < 0 || s >= MAX_ENTRIES {
        None
    } else if sclass(flash, s) is Empty {
        None
    } else if sclass(flash, s) is Valid && sentry(flash, s).name == name {
        Some(s)
    } else {
        find_from(flash, s + 1, name)
    }
}

/// What slot `s` contributes to the next-write-address computation.
pub open spec fn slot_contrib(flash: Seq<u8>, s: int) -> int {
    if slot_live(flash, s) {
        slot_end(flash, s)
    } else {
        0
    }
}

/// The largest payload end over the live slots at or after `s`, scanning up
/// to the first empty slot.
pub open spec fn max_end_from(flash: Seq<u8>, s: int) -> int
    decreases MAX_ENTRIES - s,
{
    if s < 0 || s >= MAX_ENTRIES {
        0
    } else if sclass(flash, s) is Empty {
        0
    } else {
        let rest = max_end_from(flash, s + 1);
        if slot_contrib(flash, s) > rest {
            slot_contrib(flash, s)
        } else {
            rest
        }
    }
}

/// How many slots at or after `s`, up to the first empty slot, have class `c`.
pub open spec fn count_from(flash: Seq<u8>, s: int, c: SlotClass) -> int
    decreases MAX_ENTRIES - s,
{
    if s < 0 || s >= MAX_ENTRIES {
        0
    } else if sclass(flash, s) is Empty {
        0
    } else {
        (if sclass(flash, s) == c {
            1int
        } else {
            0int
        }) + count_from(flash, s + 1, c)
    }
}

/// The next write address for a given largest live payload end: the start of
/// the data region when nothing is allocated yet, else the end rounded up to
/// the 256-byte write granularity (capped at the largest aligned `u32`, which
/// lies far past the device and is rejected by the payload writer).
pub open spec fn alloc_addr(m: int) -> int {
    if m == 0 {
        DATA_START as int
    } else if m > 0xFFFFFF00 {
        0xFFFFFF00
    } else if m % 256 == 0 {
        m
    } else {
        m + (256 - m % 256)
    }
}

/// Append-only shape of the index seen from `start`: after the first empty
/// slot every slot is empty.
pub open spec fn tail_empty_from(flash: Seq<u8>, start: int) -> bool {
    forall|j: int, k: int|
        start <= j <= k < MAX_ENTRIES && sclass(flash, j) is Empty ==> sclass(flash, k) is Empty
}

/// Every live entry's payload lies inside the data region.
pub open spec fn entries_bounded(flash: Seq<u8>) -> bool {
    forall|s: int|
        0 <= s < MAX_ENTRIES && slot_live(flash, s) ==> DATA_START <= #[trigger] sentry(
            flash,
            s,
        ).addr && slot_end(flash, s) <= TOTAL_BYTES
}

/// No two valid slots at or after `start` share a name: the write path
/// invalidates the previous holder of a name before allocating a new slot.
pub open spec fn unique_names(flash: Seq<u8>, start: int) -> bool {
    forall|j: int, k: int|
        start <= j < k < MAX_ENTRIES && sclass(flash, j) is Valid && sclass(flash, k) is Valid
            ==> sentry(flash, j).name != sentry(flash, k).name
}

/// The reachable-state shape of the index region that the write path
/// preserves.
pub open spec fn flash_wf(flash: Seq<u8>, start: int) -> bool {
    tail_empty_from(flash, start) && entries_bounded(flash) && unique_names(flash, start)
}

/// Whether a payload write of `len >= 1` bytes at `addr` freshly erases byte
/// position `p`: interior and ending spanned blocks are erased
/// unconditionally, the start block only when `addr` is block-aligned (an
/// unaligned start means a prior allocation in the same region already
/// erased that block, whose earlier bytes may still hold another payload).
pub open spec fn erased_by_write(addr: int, len: int, p: int) -> bool {
    let first = addr / 4096;
    let last = (addr + len - 1) / 4096;
    ||| (addr % 4096 == 0 && first * 4096 <= p < first * 4096 + 4096)
    ||| ((first + 1) * 4096 <= p < (last + 1) * 4096)
}

/// The larger of two integers.
pub open spec fn imax(a: int, b: int) -> int {
    if a > b {
        a
    } else {
        b
    }
}

/// The largest live payload end is never negative.
pub proof fn lemma_max_end_nonneg(flash: Seq<u8>, s: int)
    ensures
        max_end_from(flash, s) >= 0,
    decreases MAX_ENTRIES - s,
{
    if 0 <= s < MAX_ENTRIES && !(sclass(flash, s) is Empty) {
        lemma_max_end_nonneg(flash, s + 1);
    }
}

/// Whether some valid slot at or after `start` bears `nm`.
pub open spec fn resolvable(flash: Seq<u8>, start: int, nm: Seq<u8>) -> bool {
    exists|t: int|
        start <= t < MAX_ENTRIES && #[trigger] sclass(flash, t) is Valid && sentry(flash, t).name
            == nm
}

/// The first empty slot lies between `start` and the slot capacity.
pub proof fn lemma_first_empty_bounds(flash: Seq<u8>, start: int)
    requires
        0 <= start <= MAX_ENTRIES,
    ensures
        start <= first_empty_from(flash, start) <= MAX_ENTRIES,
    decreases MAX_ENTRIES - start,
{
    if start < MAX_ENTRIES && !(sclass(flash, start) is Empty) {
        lemma_first_empty_bounds(flash, start + 1);
    }
}

/// When a first empty slot exists, it is indeed empty.
pub proof fn lemma_first_empty_empty(flash: Seq<u8>, start: int)
    requires
        0 <= start,
    ensures
        first_empty_from(flash, start) < MAX_ENTRIES ==> sclass(
            flash,
            first_empty_from(flash, start),
        ) is Empty,
    decreases MAX_ENTRIES - start,
{
    if start < MAX_ENTRIES && !(sclass(flash, start) is Empty) {
        lemma_first_empty_empty(flash, start + 1);
    }
}

/// No slot before the first empty one is empty.
pub proof fn lemma_first_empty_min(flash: Seq<u8>, start: int, j: int)
    requires
        0 <= start <= j < first_empty_from(flash, start),
    ensures
        !(sclass(flash, j) is Empty),
    decreases j - start,
{
    if sclass(flash, start) is Empty {
        assert(first_empty_from(flash, start) == start);
    } else if start < j {
        assert(first_empty_from(flash, start) == first_empty_from(flash, start + 1));
        lemma_first_empty_min(flash, start + 1, j);
    }
}

/// A scan that meets neither an empty slot nor a valid slot named `nm`
/// before `b` resolves the same way from `a` as from `b`.
pub proof fn lemma_find_skip_prefix(flash: Seq<u8>, a: int, b: int, nm: Seq<u8>)
    requires
        0 <= a <= b,
        forall|t: int|
            a <= t < b ==> !(#[trigger] sclass(flash, t) is Empty) && !(sclass(flash, t) is Valid
                && sentry(flash, t).name == nm),
    ensures
        find_from(flash, a, nm) == find_from(flash, b, nm),
    decreases b - a,
{
    if a < b {
        if a >= MAX_ENTRIES {
        } else {
            lemma_find_skip_prefix(flash, a + 1, b, nm);
        }
    }
}

/// With every live payload inside the data region, the largest live end is
/// zero or lies inside it too.
pub proof fn lemma_max_end_bounds(flash: Seq<u8>, s: int)
    requires
        entries_bounded(flash),
    ensures
        max_end_from(flash, s) == 0 || (DATA_START <= max_end_from(flash, s) <= TOTAL_BYTES),
    decreases MAX_ENTRIES - s,
{
    if 0 <= s < MAX_ENTRIES && !(sclass(flash, s) is Empty) {
        lemma_max_end_bounds(flash, s + 1);
    }
}

/// Class counts are never negative.
pub proof fn lemma_count_nonneg(flash: Seq<u8>, s: int, c: SlotClass)
    ensures
        count_from(flash, s, c) >= 0,
    decreases MAX_ENTRIES - s,
{
    if 0 <= s < MAX_ENTRIES && !(sclass(flash, s) is Empty) {
        lemma_count_nonneg(flash, s + 1, c);
    }
}

/// `new` differs from `old` exactly by `patch` written at `a`.
pub open spec fn updated_range(old: Seq<u8>, new: Seq<u8>, a: int, patch: Seq<u8>) -> bool {
    &&& new.len() == old.len()
    &&& forall|p: int| a <= p < a + patch.len() ==> new[p] == patch[p - a]
    &&& forall|p: int|
        0 <= p < old.len() && !(a <= p < a + patch.len()) ==> new[p] == old[p]
}

/// A patch confined to the 32 bytes of slot `s` leaves every other slot's
/// bytes, and the whole data region, unchanged.
pub proof fn lemma_patch_in_slot(old: Seq<u8>, new: Seq<u8>, s: int, off: int, patch: Seq<u8>)
    requires
        0 <= s < MAX_ENTRIES,
        0 <= off,
        off + patch.len() <= 32,
        old.len() == TOTAL_BYTES,
        updated_range(old, new, 32 * s + off, patch),
    ensures
        forall|t: int|
            0 <= t < MAX_ENTRIES && t != s ==> #[trigger] slot_bytes(new, t) == slot_bytes(old, t),
        forall|p: int| DATA_START <= p < TOTAL_BYTES ==> new[p] == old[p],
{
    assert forall|t: int| 0 <= t < MAX_ENTRIES && t != s implies #[trigger] slot_bytes(new, t)
        == slot_bytes(old, t) by {
        assert(slot_bytes(new, t) =~= slot_bytes(old, t));
    }
}

/// Whether every byte of `buf[from..to)` is ASCII.
fn bytes_ascii(buf: &[u8], from: usize, to: usize) -> (r: bool)
    requires
        from <= to <= buf@.len(),
    ensures
        r == (forall|j: int| from <= j < to ==> buf@[j] < 0x80),
{
    let mut i: usize = from;
    while i < to
        invariant
            from <= i <= to <= buf@.len(),
            forall|j: int| from <= j < i ==> buf@[j] < 0x80,
        decreases to - i,
    {
        if buf[i] >= 0x80 {
            return false;
        }
        i = i + 1;
    }
    true
}

/// Whether two byte strings are equal.
pub(crate) fn bytes_eq(a: &[u8], b: &[u8]) -> (r: bool)
    ensures
        r == (a@ == b@),
{
    if a.len() != b.len() {
        assert(a@.len() != b@.len());
        return false;
    }
    let mut i: usize = 0;
    while i < a.len()
        invariant
            i <= a@.len(),
            a@.len() == b@.len(),
            forall|j: int| 0 <= j < i ==> a@[j] == b@[j],
        decreases a@.len() - i,
    {
        if a[i] != b[i] {
            return false;
        }
        i = i + 1;
    }
    assert(a@ =~= b@);
    true
}

/// The key padded with NUL bytes to the 16-byte name field width.
fn pad_key(key: &[u8]) -> (r: Vec<u8>)
    requires
        key@.len() <= 16,
    ensures
        r@ == pad16(key@),
{
    let mut out: Vec<u8> = Vec::new();
    let mut i: usize = 0;
    while i < 16
        invariant
            i <= 16,
            key@.len() <= 16,
            out@.len() == i,
            forall|j: int| 0 <= j < i ==> out@[j] == pad16(key@)[j],
        decreases 16 - i,
    {
        if i < key.len() {
            out.push(key[i]);
        } else {
            out.push(0);
        }
        i = i + 1;
    }
    assert(out@ =~= pad16(key@));
    out
}

/// The next write address for a largest live payload end: the first
/// data-region byte when nothing is allocated, else the end rounded up to
/// the write granularity (saturating at the largest aligned address).
fn round_next_addr(largest: u64) -> (r: u32)
    requires
        largest <= 0x1_FFFF_FFFE,
    ensures
        r == alloc_addr(largest as int),
{
    let mut next_addr: u32 = 32768;
    if largest > 0 {
        let mut v: u64 = largest;
        let rem = v % 256;
        if rem > 0 {
            v = v + (256 - rem);
        }
        if v > 0xFFFFFF00 {
            next_addr = 0xFFFFFF00;
        } else {
            next_addr = v as u32;
        }
    }
    next_addr
}

/// Counts of each slot class reported by a mount scan.
#[derive(PartialEq, Eq, Structural, Clone, Copy, Debug)]
pub struct MountStats {
    pub valid: u32,
    pub invalid: u32,
    pub corrupt: u32,
    pub empty: u32,
}

/// The filesystem engine. It owns the flash media; geometry constants are
/// carried as fields and pinned by [`SimpleFilesystem::inv`].
pub struct SimpleFilesystem {
    pub media: FlashMedia,
    pub total_blocks: u32,
    pub block_size: u32,
    pub write_size: u32,
    pub index_start: (u32, u32),
    pub max_index_blocks: u32,
    pub max_entries_per_block: u32,
}

impl SimpleFilesystem {
    /// The flash contents.
    pub open spec fn flash(&self) -> Seq<u8> {
        self.media@
    }

    /// The mount cursor as a flat slot number.
    pub open spec fn start_slot(&self) -> int {
        self.index_start.0 * ENTRIES_PER_BLOCK + self.index_start.1
    }

    /// Geometry fields hold the fixed device layout and the cursor names a
    /// real slot.
    pub open spec fn inv(&self) -> bool {
        &&& self.media.inv()
        &&& self.total_blocks == TOTAL_BLOCKS
        &&& self.block_size == BLOCK_SIZE
        &&& self.write_size == WRITE_SIZE
        &&& self.max_index_blocks == INDEX_BLOCKS
        &&& self.max_entries_per_block == ENTRIES_PER_BLOCK
        &&& self.index_start.0 < INDEX_BLOCKS
        &&& self.index_start.1 < ENTRIES_PER_BLOCK
    }

    /// A fresh engine over `media`, cursor at the first slot. The caller
    /// mounts it before use.
    pub fn new(media: FlashMedia) -> (r: Self)
        requires
            media.inv(),
        ensures
            r.inv(),
            r.flash() == media@,
            r.start_slot() == 0,
    {
        SimpleFilesystem {
            media,
            total_blocks: 480,
            block_size: 4096,
            write_size: 256,
            index_start: (0, 0),
            max_index_blocks: 8,
            max_entries_per_block: 128,
        }
    }

    /// The mount cursor (block, slot).
    pub fn cursor(&self) -> (r: (u32, u32))
        ensures
            r == self.index_start,
    {
        self.index_start
    }

    /// Reads and classifies one index slot. `Ok` means a valid entry, decoded
    /// into `entry`; an invalidated slot is decoded too; an empty slot leaves
    /// `entry` untouched; unreadable name bytes or an unknown flags value are
    /// corrupt.
    pub fn get_entry_in_index(
        &self,
        block: u32,
        index: u32,
        entry: &mut IndexBlockEntry,
    ) -> (r: Result<(), IndexEntryError>)
        requires
            self.inv(),
            block < INDEX_BLOCKS,
            index < ENTRIES_PER_BLOCK,
        ensures
            ({
                let s = block * ENTRIES_PER_BLOCK + index;
                match sclass(self.flash(), s as int) {
                    SlotClass::Empty => r matches Err(IndexEntryError::EmptyEntry) && *final(entry)
                        == *old(entry),
                    SlotClass::Invalidated => r matches Err(IndexEntryError::InvalidatedEntry)
                        && final(entry)@ == sentry(self.flash(), s as int) && final(entry).wf(),
                    SlotClass::Valid => r matches Ok(_) && final(entry)@ == sentry(
                        self.flash(),
                        s as int,
                    ) && final(entry).wf(),
                    SlotClass::Corrupt => r matches Err(IndexEntryError::CorruptEntry),
                }
            }),
    {
        let ghost s = (block * ENTRIES_PER_BLOCK + index) as int;
        let addr = block * self.block_size + index * 32;
        let buf = self.media.read(addr, 32);
        proof {
            assert(buf@ == slot_bytes(self.flash(), s));
        }
        let flags = read_le32(buf.as_slice(), 0);
        assert(flags == sentry(self.flash(), s).flags);
        if flags == EMPTY_FLAG {
            return Err(IndexEntryError::EmptyEntry);
        }
        if !bytes_ascii(buf.as_slice(), 4, 20) {
            assert(!name_ok(sentry(self.flash(), s).name)) by {
                let j = choose|j: int| 4 <= j < 20 && !(buf@[j] < 0x80);
                assert(sentry(self.flash(), s).name[j - 4] == buf@[j]);
            }
            return Err(IndexEntryError::CorruptEntry);
        }
        assert(name_ok(sentry(self.flash(), s).name)) by {
            assert forall|j: int| 0 <= j < 16 implies sentry(self.flash(), s).name[j] < 0x80 by {
                assert(sentry(self.flash(), s).name[j] == buf@[j + 4]);
            }
        }
        entry.from_bytes(buf.as_slice());
        if flags == INVALID_FLAG {
            return Err(IndexEntryError::InvalidatedEntry);
        }
        if flags != VALID_FLAG {
            return Err(IndexEntryError::CorruptEntry);
        }
        Ok(())
    }

    /// Overwrites only the 4-byte flags field of a slot with the `INVALID`
    /// sentinel. On NOR flash this is a pure bit-clear of a valid entry's
    /// flags, so it needs no erase.
    pub fn invalidate_entry(&mut self, block: u32, index: u32)
        requires
            old(self).inv(),
            block < INDEX_BLOCKS,
            index < ENTRIES_PER_BLOCK,
        ensures
            final(self).inv(),
            final(self).index_start == old(self).index_start,
            ({
                let s = (block * ENTRIES_PER_BLOCK + index) as int;
                let flash0 = old(self).flash();
                let flash1 = final(self).flash();
                &&& updated_range(flash0, flash1, 32 * s, u32_le_bytes(INVALID_FLAG))
                &&& forall|t: int|
                    0 <= t < MAX_ENTRIES && t != s ==> #[trigger] slot_bytes(flash1, t)
                        == slot_bytes(flash0, t)
                &&& forall|p: int| DATA_START <= p < TOTAL_BYTES ==> flash1[p] == flash0[p]
                &&& sentry(flash1, s) == EntryModel {
                    flags: INVALID_FLAG,
                    ..sentry(flash0, s)
                }
                &&& sclass(flash1, s) == (if name_ok(sentry(flash0, s).name) {
                    SlotClass::Invalidated
                } else {
                    SlotClass::Corrupt
                })
            }),
    {
        let ghost s = (block * ENTRIES_PER_BLOCK + index) as int;
        let ghost flash0 = self.flash();
        let addr = block * self.block_size + index * 32;
        let flag_bytes = le_bytes32(INVALID_FLAG);
        self.media.write(addr, flag_bytes.as_slice());
        proof {
            assert(updated_range(flash0, self.flash(), 32 * s, u32_le_bytes(INVALID_FLAG)));
            lemma_patch_in_slot(flash0, self.flash(), s, 0, u32_le_bytes(INVALID_FLAG));
            assert(slot_bytes(self.flash(), s).subrange(0, 4) =~= u32_le_bytes(INVALID_FLAG));
            assert(slot_bytes(self.flash(), s).subrange(4, 20) =~= slot_bytes(flash0, s).subrange(
                4,
                20,
            ));
            assert(slot_bytes(self.flash(), s).subrange(20, 24) =~= slot_bytes(flash0, s).subrange(
                20,
                24,
            ));
            assert(slot_bytes(self.flash(), s).subrange(24, 28) =~= slot_bytes(flash0, s).subrange(
                24,
                28,
            ));
            assert(slot_bytes(self.flash(), s).subrange(28, 32) =~= slot_bytes(flash0, s).subrange(
                28,
                32,
            ));
        }
    }

    /// Writes a whole 32-byte encoded entry into a slot.
    pub fn write_entry(&mut self, block: u32, index: u32, entry: &IndexBlockEntry)
        requires
            old(self).inv(),
            block < INDEX_BLOCKS,
            index < ENTRIES_PER_BLOCK,
            entry.wf(),
        ensures
            final(self).inv(),
            final(self).index_start == old(self).index_start,
            ({
                let s = (block * ENTRIES_PER_BLOCK + index) as int;
                let flash0 = old(self).flash();
                let flash1 = final(self).flash();
                &&& updated_range(flash0, flash1, 32 * s, spec_encode(entry@))
                &&& slot_bytes(flash1, s) == spec_encode(entry@)
                &&& sentry(flash1, s) == entry@
                &&& forall|t: int|
                    0 <= t < MAX_ENTRIES && t != s ==> #[trigger] slot_bytes(flash1, t)
                        == slot_bytes(flash0, t)
                &&& forall|p: int| DATA_START <= p < TOTAL_BYTES ==> flash1[p] == flash0[p]
            }),
    {
        let ghost s = (block * ENTRIES_PER_BLOCK + index) as int;
        let ghost flash0 = self.flash();
        let addr = block * self.block_size + 32 * index;
        let bytes = entry.to_bytes();
        self.media.write(addr, bytes.as_slice());
        proof {
            assert(updated_range(flash0, self.flash(), 32 * s, spec_encode(entry@)));
            lemma_patch_in_slot(flash0, self.flash(), s, 0, spec_encode(entry@));
            assert(slot_bytes(self.flash(), s) =~= spec_encode(entry@));
            assert(sentry(self.flash(), s) == entry@) by {
                crate::entry::lemma_le32_of_bytes(entry@.flags);
                crate::entry::lemma_le32_of_bytes(entry@.length);
                crate::entry::lemma_le32_of_bytes(entry@.addr);
                crate::entry::lemma_le32_of_bytes(entry@.crc);
                assert(spec_encode(entry@).subrange(0, 4) =~= u32_le_bytes(entry@.flags));
                assert(spec_encode(entry@).subrange(4, 20) =~= entry@.name);
                assert(spec_encode(entry@).subrange(20, 24) =~= u32_le_bytes(entry@.length));
                assert(spec_encode(entry@).subrange(24, 28) =~= u32_le_bytes(entry@.addr));
                assert(spec_encode(entry@).subrange(28, 32) =~= u32_le_bytes(entry@.crc));
            }
        }
    }

    /// Erases the index blocks only. Data blocks keep their bytes; they are
    /// reclaimed incidentally once address allocation reaches them again.
    pub fn format(&mut self)
        requires
            old(self).inv(),
        ensures
            final(self).inv(),
            final(self).index_start == old(self).index_start,
            final(self).flash().len() == old(self).flash().len(),
            forall|p: int| 0 <= p < DATA_START ==> final(self).flash()[p] == 0xFFu8,
            forall|p: int|
                DATA_START <= p < TOTAL_BYTES ==> final(self).flash()[p] == old(self).flash()[p],
    {
        let mut b: u32 = 0;
        while b < 8
            invariant
                b <= 8,
                self.inv(),
                self.index_start == old(self).index_start,
                forall|p: int| 0 <= p < b * BLOCK_SIZE ==> self.flash()[p] == 0xFFu8,
                forall|p: int|
                    b * BLOCK_SIZE <= p < TOTAL_BYTES ==> self.flash()[p] == old(self).flash()[p],
            decreases 8 - b,
        {
            let ghost pre = self.flash();
            self.media.erase_block(b);
            proof {
                assert forall|p: int| 0 <= p < (b + 1) * BLOCK_SIZE implies self.flash()[p]
                    == 0xFFu8 by {
                    if b * BLOCK_SIZE <= p {
                        assert(p < b * BLOCK_SIZE + BLOCK_SIZE);
                    } else {
                        assert(pre[p] == 0xFFu8);
                        assert(self.flash()[p] == pre[p]);
                    }
                }
                assert forall|p: int| (b + 1) * BLOCK_SIZE <= p < TOTAL_BYTES implies
                    self.flash()[p] == old(self).flash()[p] by {
                    assert(pre[p] == old(self).flash()[p]);
                    assert(self.flash()[p] == pre[p]);
                }
            }
            b = b + 1;
        }
    }

    /// Classifies every slot from the first coordinate forward, stopping at
    /// the first empty slot; tallies each class and records the first
    /// non-empty coordinate (the very first slot, whenever any slot is in
    /// use) as the mount cursor. The scan is read-only and idempotent: the
    /// counts and the cursor are functions of the flash contents alone.
    pub fn mount(&mut self) -> (r: MountStats)
        requires
            old(self).inv(),
        ensures
            final(self).inv(),
            final(self).media == old(self).media,
            final(self).flash() == old(self).flash(),
            final(self).start_slot() == 0,
            r.valid == count_from(old(self).flash(), 0, SlotClass::Valid),
            r.invalid == count_from(old(self).flash(), 0, SlotClass::Invalidated),
            r.corrupt == count_from(old(self).flash(), 0, SlotClass::Corrupt),
            r.empty == MAX_ENTRIES - first_empty_from(old(self).flash(), 0),
    {
        let ghost flash = self.flash();
        let mut entry = IndexBlockEntry::default();
        let mut count_valid: u32 = 0;
        let mut count_invalid: u32 = 0;
        let mut count_corrupt: u32 = 0;
        let mut first_used: Option<(u32, u32)> = None;
        let mut s: u32 = 0;
        let mut done = false;
        while s < 1024 && !done
            invariant
                self == old(self),
                self.inv(),
                flash == self.flash(),
                s <= 1024,
                count_valid + count_invalid + count_corrupt == s,
                count_from(flash, 0, SlotClass::Valid) == count_valid + count_from(
                    flash,
                    s as int,
                    SlotClass::Valid,
                ),
                count_from(flash, 0, SlotClass::Invalidated) == count_invalid + count_from(
                    flash,
                    s as int,
                    SlotClass::Invalidated,
                ),
                count_from(flash, 0, SlotClass::Corrupt) == count_corrupt + count_from(
                    flash,
                    s as int,
                    SlotClass::Corrupt,
                ),
                first_empty_from(flash, 0) == (if done {
                    s as int
                } else {
                    first_empty_from(flash, s as int)
                }),
                done ==> s < 1024 && sclass(flash, s as int) is Empty,
                s > 0 && !done ==> (first_used matches Some(c) && c == (0u32, 0u32)),
                first_used matches Some(c) ==> c == (0u32, 0u32),
            decreases 1024 - s + (if done {
                0int
            } else {
                1int
            }),
        {
            let block = s / 128;
            let index = s % 128;
            let res = self.get_entry_in_index(block, index, &mut entry);
            match res {
                Ok(_) => {
                    if first_used.is_none() {
                        first_used = Some((block, index));
                    }
                    count_valid = count_valid + 1;
                    s = s + 1;
                },
                Err(IndexEntryError::EmptyEntry) => {
                    proof {
                        assert(first_empty_from(flash, s as int) == s as int);
                    }
                    done = true;
                },
                Err(IndexEntryError::InvalidatedEntry) => {
                    if first_used.is_none() {
                        first_used = Some((block, index));
                    }
                    count_invalid = count_invalid + 1;
                    s = s + 1;
                },
                Err(_) => {
                    if first_used.is_none() {
                        first_used = Some((block, index));
                    }
                    count_corrupt = count_corrupt + 1;
                    s = s + 1;
                },
            }
        }
        let count_empty: u32 = if done {
            1024 - s
        } else {
            0
        };
        match first_used {
            Some(c) => {
                self.index_start = c;
            },
            None => {
                self.index_start = (0, 0);
            },
        }
        MountStats {
            valid: count_valid,
            invalid: count_invalid,
            corrupt: count_corrupt,
            empty: count_empty,
        }
    }

    /// Scans forward from the mount cursor for the first valid entry whose
    /// stored name equals `name` (NUL-padded); decodes it into `entry` and
    /// returns its coordinates. `NotFound` at the first empty slot or at
    /// index exhaustion.
    pub fn find_entry(&self, name: &[u8], entry: &mut IndexBlockEntry) -> (r: Result<
        (u32, u32),
        IndexEntryError,
    >)
        requires
            self.inv(),
            name@.len() <= 16,
        ensures
            match find_from(self.flash(), self.start_slot(), pad16(name@)) {
                Some(t) => r matches Ok(c) && c.0 == t / 128 && c.1 == t % 128 && final(entry)@
                    == sentry(self.flash(), t) && final(entry).wf(),
                None => r matches Err(IndexEntryError::NotFound),
            },
    {
        let ghost flash = self.flash();
        let ghost key = pad16(name@);
        let padded = pad_key(name);
        let mut s: u32 = self.index_start.0 * 128 + self.index_start.1;
        assert(s == self.start_slot());
        while s < 1024
            invariant
                self.inv(),
                flash == self.flash(),
                self.start_slot() <= s <= 1024,
                padded@ == key,
                key == pad16(name@),
                find_from(flash, self.start_slot(), key) == find_from(flash, s as int, key),
            decreases 1024 - s,
        {
            let res = self.get_entry_in_index(s / 128, s % 128, entry);
            match res {
                Ok(_) => {
                    if bytes_eq(entry.name_bytes().as_slice(), padded.as_slice()) {
                        proof {
                            assert(sclass(flash, s as int) is Valid);
                            assert(sentry(flash, s as int).name == key);
                            assert(find_from(flash, s as int, key) == Some(s as int));
                        }
                        return Ok((s / 128, s % 128));
                    }
                },
                Err(IndexEntryError::EmptyEntry) => {
                    proof {
                        assert(sclass(flash, s as int) is Empty);
                        assert(find_from(flash, s as int, key) is None);
                    }
                    return Err(IndexEntryError::NotFound);
                },
                Err(_) => {},
            }
            s = s + 1;
        }
        Err(IndexEntryError::NotFound)
    }

    /// Scans forward from the mount cursor for the first empty slot.
    /// `NotFound` when the index is full.
    pub fn find_empty_entry(&self, entry: &mut IndexBlockEntry) -> (r: Result<
        (u32, u32),
        IndexEntryError,
    >)
        requires
            self.inv(),
        ensures
            ({
                let fe = first_empty_from(self.flash(), self.start_slot());
                if fe < MAX_ENTRIES {
                    r matches Ok(c) && c.0 == fe / 128 && c.1 == fe % 128
                } else {
                    r matches Err(IndexEntryError::NotFound)
                }
            }),
    {
        let ghost flash = self.flash();
        let mut s: u32 = self.index_start.0 * 128 + self.index_start.1;
        while s < 1024
            invariant
                self.inv(),
                flash == self.flash(),
                self.start_slot() <= s <= 1024,
                first_empty_from(flash, self.start_slot()) == first_empty_from(flash, s as int),
            decreases 1024 - s,
        {
            let res = self.get_entry_in_index(s / 128, s % 128, entry);
            match res {
                Err(IndexEntryError::EmptyEntry) => {
                    return Ok((s / 128, s % 128));
                },
                _ => {},
            }
            s = s + 1;
        }
        Err(IndexEntryError::NotFound)
    }

    /// Reads an entry's payload into `data` and checks its CRC against the
    /// recorded one. False on a checksum mismatch or when the recorded span
    /// lies outside the usable blocks; reads are never retried.
    pub fn read_file(&self, entry: &IndexBlockEntry, data: &mut Vec<u8>) -> (r: bool)
        requires
            self.inv(),
            old(data)@.len() == entry@.length,
        ensures
            ({
                let a = entry@.addr as int;
                let l = entry@.length as int;
                if a + l <= TOTAL_BYTES {
                    &&& final(data)@ == self.flash().subrange(a, a + l)
                    &&& r == (crc32_of(final(data)@) == entry@.crc)
                } else {
                    r == false && final(data)@ == old(data)@
                }
            }),
    {
        if (entry.addr as u64) + (entry.length as u64) > TOTAL_BYTES as u64 {
            return false;
        }
        let buf = self.media.read(entry.addr, entry.length);
        *data = buf;
        let data_crc = crc32(data.as_slice());
        data_crc == entry.crc
    }

    /// Writes `data` at `addr`: rejects a span past the usable blocks,
    /// erases the spanned blocks (the start block only when `addr` is
    /// aligned), programs the payload in 256-byte chunks, then re-reads the
    /// whole span and compares checksums, returning the payload CRC for the
    /// index entry.
    pub fn write_file(&mut self, addr: u32, data: &[u8]) -> (r: Result<u32, FileWriteError>)
        requires
            old(self).inv(),
        ensures
            final(self).inv(),
            final(self).index_start == old(self).index_start,
            ({
                let a = addr as int;
                let len = data@.len() as int;
                let flash0 = old(self).flash();
                let flash1 = final(self).flash();
                if a + len > TOTAL_BYTES {
                    r matches Err(e) && e is FilesystemFull && flash1 == flash0
                } else if len == 0 {
                    r matches Ok(c) && c == crc32_of(data@) && flash1 == flash0
                } else {
                    &&& r matches Ok(c) && c == crc32_of(data@)
                    &&& flash1.len() == flash0.len()
                    &&& forall|p: int| a <= p < a + len ==> flash1[p] == data@[p - a]
                    &&& forall|p: int|
                        0 <= p < TOTAL_BYTES && !(a <= p < a + len) && erased_by_write(a, len, p)
                            ==> flash1[p] == 0xFF
                    &&& forall|p: int|
                        0 <= p < TOTAL_BYTES && !(a <= p < a + len) && !erased_by_write(a, len, p)
                            ==> flash1[p] == flash0[p]
                }
            }),
    {
        let ghost flash0 = self.flash();
        let ghost a = addr as int;
        let ghost glen = data@.len() as int;
        if data.len() > 1966080 {
            return Err(FileWriteError::FilesystemFull);
        }
        if (addr as u64) + (data.len() as u64) > TOTAL_BYTES as u64 {
            return Err(FileWriteError::FilesystemFull);
        }
        let n: usize = data.len();
        if n == 0 {
            return Ok(crc32(data));
        }
        let len: u32 = n as u32;
        let start_block = addr / 4096;
        let last_block = (addr + len - 1) / 4096;
        if addr % 4096 == 0 {
            self.media.erase_block(start_block);
        }
        let ghost after_start = self.flash();
        let mut b = start_block + 1;
        while b <= last_block
            invariant
                self.inv(),
                self.index_start == old(self).index_start,
                start_block == a / 4096,
                last_block == (a + glen - 1) / 4096,
                a + glen <= TOTAL_BYTES,
                glen >= 1,
                0 <= a,
                start_block + 1 <= b <= last_block + 1,
                after_start.len() == TOTAL_BYTES,
                self.flash().len() == TOTAL_BYTES,
                forall|p: int|
                    (start_block + 1) * 4096 <= p < b * 4096 ==> self.flash()[p] == 0xFFu8,
                forall|p: int|
                    0 <= p < TOTAL_BYTES && !((start_block + 1) * 4096 <= p < b * 4096)
                        ==> self.flash()[p] == after_start[p],
            decreases last_block + 1 - b,
        {
            let ghost pre = self.flash();
            self.media.erase_block(b);
            proof {
                assert forall|p: int|
                    (start_block + 1) * 4096 <= p < (b + 1) * 4096 implies self.flash()[p]
                    == 0xFFu8 by {
                    if p < b * 4096 {
                        assert(pre[p] == 0xFFu8);
                        assert(self.flash()[p] == pre[p]);
                    } else {
                        assert(p < b * 4096 + 4096);
                    }
                }
                assert forall|p: int|
                    0 <= p < TOTAL_BYTES && !((start_block + 1) * 4096 <= p < (b + 1) * 4096)
                    implies self.flash()[p] == after_start[p] by {
                    assert(self.flash()[p] == pre[p]);
                    assert(pre[p] == after_start[p]);
                }
            }
            b = b + 1;
        }
        let ghost erased = self.flash();
        proof {
            assert forall|p: int|
                0 <= p < TOTAL_BYTES && erased_by_write(a, glen, p) implies erased[p] == 0xFFu8 by {
                if a % 4096 == 0 && (a / 4096) * 4096 <= p < (a / 4096) * 4096 + 4096 {
                    assert(after_start[p] == 0xFFu8);
                    if !((start_block + 1) * 4096 <= p < b * 4096) {
                        assert(erased[p] == after_start[p]);
                    }
                }
            }
            assert forall|p: int|
                0 <= p < TOTAL_BYTES && !erased_by_write(a, glen, p) implies erased[p]
                == flash0[p] by {
                assert(!((start_block + 1) * 4096 <= p < b * 4096));
                assert(erased[p] == after_start[p]);
                if a % 4096 == 0 {
                    assert(!((a / 4096) * 4096 <= p < (a / 4096) * 4096 + 4096));
                }
            }
        }
        let mut i: usize = 0;
        while i + 256 < n
            invariant
                self.inv(),
                self.index_start == old(self).index_start,
                n == data@.len(),
                a == addr,
                a + n <= TOTAL_BYTES,
                i <= n,
                erased.len() == TOTAL_BYTES,
                self.flash().len() == TOTAL_BYTES,
                forall|p: int| a <= p < a + i ==> self.flash()[p] == data@[p - a],
                forall|p: int|
                    0 <= p < TOTAL_BYTES && !(a <= p < a + i) ==> self.flash()[p] == erased[p],
            decreases n - i,
        {
            let ghost pre = self.flash();
            let chunk = vstd::slice::slice_subrange(data, i, i + 256);
            self.media.write(addr + i as u32, chunk);
            proof {
                assert forall|p: int| a <= p < a + i + 256 implies self.flash()[p] == data@[p
                    - a] by {
                    if p < a + i {
                        assert(pre[p] == data@[p - a]);
                        assert(self.flash()[p] == pre[p]);
                    } else {
                        assert(self.flash()[p] == chunk@[p - (a + i)]);
                    }
                }
                assert forall|p: int|
                    0 <= p < TOTAL_BYTES && !(a <= p < a + i + 256) implies self.flash()[p]
                    == erased[p] by {
                    assert(self.flash()[p] == pre[p]);
                }
            }
            i = i + 256;
        }
        let last_bit = n - i;
        if last_bit != 0 {
            let ghost pre = self.flash();
            let chunk = vstd::slice::slice_subrange(data, i, n);
            self.media.write(addr + i as u32, chunk);
            proof {
                assert forall|p: int| a <= p < a + n implies self.flash()[p] == data@[p - a] by {
                    if p < a + i {
                        assert(pre[p] == data@[p - a]);
                        assert(self.flash()[p] == pre[p]);
                    } else {
                        assert(self.flash()[p] == chunk@[p - (a + i)]);
                    }
                }
            }
        }
        let ghost written = self.flash();
        assert(forall|p: int| a <= p < a + n ==> written[p] == data@[p - a]);
        assert(forall|p: int|
            0 <= p < TOTAL_BYTES && !(a <= p < a + n) ==> written[p] == erased[p]);
        let mut rb: Vec<u8> = Vec::new();
        let mut j: usize = 0;
        while j + 256 < n
            invariant
                self.inv(),
                self.flash() == written,
                self.index_start == old(self).index_start,
                n == data@.len(),
                a == addr,
                a + n <= TOTAL_BYTES,
                j <= n,
                rb@.len() == j,
                forall|p: int| 0 <= p < j ==> rb@[p] == written[a + p],
            decreases n - j,
        {
            let chunk = self.media.read(addr + j as u32, 256);
            append_bytes(&mut rb, &chunk);
            j = j + 256;
        }
        if n - j != 0 {
            let chunk = self.media.read(addr + j as u32, (n - j) as u32);
            append_bytes(&mut rb, &chunk);
        }
        assert(rb@ =~= data@);
        let write_hash = crc32(data);
        let read_hash = crc32(rb.as_slice());
        if write_hash == read_hash {
            return Ok(write_hash);
        }
        assert(false);
        Err(FileWriteError::ChecksumFailed)
    }

    /// The allocation pass for a whole-file replace: one forward scan from
    /// the mount cursor that tracks the largest payload end over every live
    /// (valid or invalidated) entry, invalidates any valid entry bearing
    /// `name`, and returns the first empty coordinate together with the next
    /// write address (the largest end rounded up to the write granularity,
    /// or the first data-region byte when nothing is allocated).
    /// `FilesystemFull` when no empty slot exists; matching entries are
    /// invalidated even then.
    #[verifier::rlimit(100)]
    #[verifier::spinoff_prover]
    pub fn new_file_erase_old(&mut self, name: &[u8]) -> (r: Result<(u32, u32, u32), FileWriteError>)
        requires
            old(self).inv(),
            name@.len() <= 16,
        ensures
            final(self).inv(),
            final(self).index_start == old(self).index_start,
            ({
                let flash0 = old(self).flash();
                let flash1 = final(self).flash();
                let st = old(self).start_slot();
                let fe = first_empty_from(flash0, st);
                let key = pad16(name@);
                &&& flash1.len() == flash0.len()
                &&& forall|t: int|
                    0 <= t < MAX_ENTRIES && !(st <= t < fe && sclass(flash0, t) is Valid && sentry(
                        flash0,
                        t,
                    ).name == key) ==> #[trigger] slot_bytes(flash1, t) == slot_bytes(flash0, t)
                &&& forall|t: int|
                    st <= t < fe && #[trigger] sclass(flash0, t) is Valid && sentry(flash0, t).name
                        == key ==> sentry(flash1, t) == (EntryModel {
                        flags: INVALID_FLAG,
                        ..sentry(flash0, t)
                    }) && sclass(flash1, t) is Invalidated
                &&& forall|p: int| DATA_START <= p < TOTAL_BYTES ==> flash1[p] == flash0[p]
                &&& if fe < MAX_ENTRIES {
                    r matches Ok(c) && c.0 == fe / 128 && c.1 == fe % 128 && c.2 == alloc_addr(
                        max_end_from(flash0, st),
                    )
                } else {
                    r matches Err(e) && e is FilesystemFull
                }
            }),
    {
        let ghost flash0 = self.flash();
        let ghost st = self.start_slot();
        let ghost key = pad16(name@);
        let padded = pad_key(name);
        let mut entry = IndexBlockEntry::default();
        let mut largest: u64 = 0;
        let mut found: Option<(u32, u32)> = None;
        let mut s: u32 = self.index_start.0 * 128 + self.index_start.1;
        let mut done = false;
        proof {
            lemma_max_end_nonneg(flash0, st);
        }
        while s < 1024 && !done
            invariant
                self.inv(),
                self.index_start == old(self).index_start,
                padded@ == key,
                key == pad16(name@),
                st == self.start_slot(),
                st <= s <= 1024,
                flash0.len() == TOTAL_BYTES,
                self.flash().len() == TOTAL_BYTES,
                largest <= 0x1_FFFF_FFFE,
                first_empty_from(flash0, st) == (if done {
                    s as int
                } else {
                    first_empty_from(flash0, s as int)
                }),
                imax(
                    largest as int,
                    if done {
                        0int
                    } else {
                        max_end_from(flash0, s as int)
                    },
                ) == max_end_from(flash0, st),
                done ==> s < 1024 && sclass(flash0, s as int) is Empty,
                done ==> (found matches Some(c) && c.0 == s / 128 && c.1 == s % 128),
                !done ==> found is None,
                forall|t: int|
                    0 <= t < MAX_ENTRIES && !(st <= t < s && sclass(flash0, t) is Valid && sentry(
                        flash0,
                        t,
                    ).name == key) ==> #[trigger] slot_bytes(self.flash(), t) == slot_bytes(
                        flash0,
                        t,
                    ),
                forall|t: int|
                    st <= t < s && #[trigger] sclass(flash0, t) is Valid && sentry(flash0, t).name
                        == key ==> sentry(self.flash(), t) == (EntryModel {
                        flags: INVALID_FLAG,
                        ..sentry(flash0, t)
                    }) && sclass(self.flash(), t) is Invalidated,
                forall|p: int| DATA_START <= p < TOTAL_BYTES ==> self.flash()[p] == flash0[p],
            decreases 1024 - s + (if done {
                0int
            } else {
                1int
            }),
        {
            let block = s / 128;
            let index = s % 128;
            proof {
                assert(slot_bytes(self.flash(), s as int) == slot_bytes(flash0, s as int));
            }
            let res = self.get_entry_in_index(block, index, &mut entry);
            match res {
                Ok(_) => {
                    let end: u64 = entry.addr as u64 + entry.length as u64;
                    if end > largest {
                        largest = end;
                    }
                    proof {
                        assert(sclass(flash0, s as int) is Valid);
                        assert(slot_contrib(flash0, s as int) == slot_end(flash0, s as int));
                    }
                    if bytes_eq(entry.name_bytes().as_slice(), padded.as_slice()) {
                        let ghost pre = self.flash();
                        self.invalidate_entry(block, index);
                        proof {
                            assert(name_ok(sentry(pre, s as int).name));
                            assert forall|t: int|
                                0 <= t < MAX_ENTRIES && !(st <= t < s + 1 && sclass(
                                    flash0,
                                    t,
                                ) is Valid && sentry(flash0, t).name == key) implies #[trigger]
                            slot_bytes(self.flash(), t) == slot_bytes(flash0, t) by {
                                assert(t != s);
                                assert(slot_bytes(self.flash(), t) == slot_bytes(pre, t));
                            }
                        }
                    }
                    s = s + 1;
                },
                Err(IndexEntryError::InvalidatedEntry) => {
                    let end: u64 = entry.addr as u64 + entry.length as u64;
                    if end > largest {
                        largest = end;
                    }
                    proof {
                        assert(sclass(flash0, s as int) is Invalidated);
                        assert(slot_contrib(flash0, s as int) == slot_end(flash0, s as int));
                    }
                    s = s + 1;
                },
                Err(IndexEntryError::EmptyEntry) => {
                    proof {
                        assert(first_empty_from(flash0, s as int) == s as int);
                        assert(max_end_from(flash0, s as int) == 0);
                    }
                    found = Some((block, index));
                    done = true;
                },
                Err(_) => {
                    proof {
                        assert(slot_contrib(flash0, s as int) == 0);
                        lemma_max_end_nonneg(flash0, s as int + 1);
                    }
                    s = s + 1;
                },
            }
        }
        let next_addr: u32 = round_next_addr(largest);
        assert(next_addr == alloc_addr(max_end_from(flash0, st)));
        match found {
            Some(c) => Ok((c.0, c.1, next_addr)),
            None => Err(FileWriteError::FilesystemFull),
        }
    }

    /// Compacts the index: copies every valid entry, in scan order, into the
    /// run of empty slots that begins at the first empty coordinate,
    /// invalidating each original, then advances the mount cursor to that
    /// coordinate. Best-effort: with no empty slot it does nothing, and when
    /// the empty run is shorter than the number of valid entries it stops
    /// early and leaves the cursor alone (every entry stays reachable either
    /// way). Every name resolves to the same payload record afterwards; only
    /// index coordinates change.
    #[verifier::spinoff_prover]
    pub fn defrag_index(&mut self)
        requires
            old(self).inv(),
            tail_empty_from(old(self).flash(), old(self).start_slot()),
            unique_names(old(self).flash(), old(self).start_slot()),
        ensures
            final(self).inv(),
            ({
                let flash0 = old(self).flash();
                let flash1 = final(self).flash();
                let st0 = old(self).start_slot();
                let st1 = final(self).start_slot();
                let fe = first_empty_from(flash0, st0);
                let nvalid = count_from(flash0, st0, SlotClass::Valid);
                &&& flash1.len() == flash0.len()
                &&& forall|p: int| DATA_START <= p < TOTAL_BYTES ==> flash1[p] == flash0[p]
                &&& st1 == (if fe < MAX_ENTRIES && nvalid <= MAX_ENTRIES - fe {
                    fe
                } else {
                    st0
                })
                &&& tail_empty_from(flash1, st1)
                &&& unique_names(flash1, st1)
                &&& (entries_bounded(flash0) ==> entries_bounded(flash1))
                &&& forall|nm: Seq<u8>|
                    #[trigger] resolvable(flash1, st1, nm) <==> resolvable(flash0, st0, nm)
                &&& forall|s1: int, s2: int|
                    st1 <= s1 < MAX_ENTRIES && st0 <= s2 < MAX_ENTRIES && #[trigger] sclass(
                        flash1,
                        s1,
                    ) is Valid && #[trigger] sclass(flash0, s2) is Valid && sentry(flash1, s1).name
                        == sentry(flash0, s2).name ==> sentry(flash1, s1).addr == sentry(
                        flash0,
                        s2,
                    ).addr && sentry(flash1, s1).length == sentry(flash0, s2).length && sentry(
                        flash1,
                        s1,
                    ).crc == sentry(flash0, s2).crc
            }),
    {
        let ghost flash0 = self.flash();
        let ghost st = self.start_slot();
        proof {
            lemma_first_empty_bounds(flash0, st);
            lemma_count_nonneg(flash0, st, SlotClass::Valid);
        }
        let mut scratch = IndexBlockEntry::default();
        let first_empty = match self.find_empty_entry(&mut scratch) {
            Ok(c) => c,
            Err(_) => {
                proof {
                    assert(first_empty_from(flash0, st) == MAX_ENTRIES);
                    lemma_defrag_trivial(flash0, st);
                }
                return ;
            },
        };
        let fe: u32 = first_empty.0 * 128 + first_empty.1;
        proof {
            assert(fe as int == first_empty_from(flash0, st));
            lemma_first_empty_empty(flash0, st);
        }
        let mut target: u32 = fe;
        let mut s: u32 = self.index_start.0 * 128 + self.index_start.1;
        let mut moved_entry = IndexBlockEntry::default();
        let mut exhausted = false;
        let ghost mut tgt: Map<int, int> = Map::empty();
        let ghost mut src: Map<int, int> = Map::empty();
        while s < fe && !exhausted
            invariant
                self.inv(),
                self.index_start == old(self).index_start,
                st == self.start_slot(),
                fe as int == first_empty_from(flash0, st),
                st <= s,
                first_empty.0 == fe / 128 && first_empty.1 == fe % 128,
                defrag_inv(flash0, self.flash(), st, s as int, fe as int, target as int, tgt, src),
                exhausted ==> target == 1024 && sclass(flash0, s as int) is Valid,
            decreases fe - s + (if exhausted {
                0int
            } else {
                1int
            }),
        {
            proof {
                assert(slot_bytes(self.flash(), s as int) == slot_bytes(flash0, s as int));
                lemma_first_empty_min(flash0, st, s as int);
            }
            let res = self.get_entry_in_index(s / 128, s % 128, &mut moved_entry);
            match res {
                Ok(_) => {
                    if target >= 1024 {
                        exhausted = true;
                    } else {
                        let ghost cur0 = self.flash();
                        proof {
                            assert(sclass(flash0, s as int) is Valid);
                            assert(moved_entry@ == sentry(flash0, s as int));
                            assert(slot_bytes(flash0, s as int).len() == 32);
                            lemma_encode_decode(slot_bytes(flash0, s as int));
                        }
                        self.write_entry(target / 128, target % 128, &moved_entry);
                        let ghost cur1 = self.flash();
                        self.invalidate_entry(s / 128, s % 128);
                        proof {
                            assert(slot_bytes(cur1, s as int) == slot_bytes(flash0, s as int));
                            assert(name_ok(sentry(cur1, s as int).name));
                            lemma_defrag_step(
                                flash0,
                                cur0,
                                cur1,
                                self.flash(),
                                st,
                                s as int,
                                fe as int,
                                target as int,
                                tgt,
                                src,
                            );
                            tgt = tgt.insert(s as int, target as int);
                            src = src.insert(target as int, s as int);
                        }
                        target = target + 1;
                        s = s + 1;
                    }
                },
                Err(IndexEntryError::EmptyEntry) => {
                    proof {
                        assert(sclass(flash0, s as int) is Empty);
                        assert(false);
                    }
                    s = s + 1;
                },
                Err(_) => {
                    proof {
                        lemma_defrag_skip(
                            flash0,
                            self.flash(),
                            st,
                            s as int,
                            fe as int,
                            target as int,
                            tgt,
                            src,
                        );
                    }
                    s = s + 1;
                },
            }
        }
        proof {
            lemma_count_nonneg(flash0, s as int, SlotClass::Valid);
            if exhausted {
                assert(count_from(flash0, s as int, SlotClass::Valid) == 1 + count_from(
                    flash0,
                    s as int + 1,
                    SlotClass::Valid,
                ));
                lemma_count_nonneg(flash0, s as int + 1, SlotClass::Valid);
                assert(count_from(flash0, st, SlotClass::Valid) > MAX_ENTRIES - fe);
            } else {
                assert(s == fe);
                assert(count_from(flash0, fe as int, SlotClass::Valid) == 0);
                assert(count_from(flash0, st, SlotClass::Valid) <= MAX_ENTRIES - fe);
            }
        }
        if !exhausted {
            self.index_start = first_empty;
        }
        proof {
            let st1 = self.start_slot();
            lemma_defrag_final(
                flash0,
                self.flash(),
                st,
                s as int,
                fe as int,
                target as int,
                st1,
                tgt,
                src,
            );
        }
    }
}

/// The loop invariant of index compaction, relating the original flash
/// `flash0` to the current one `cur`: slots before the walk cursor `s` have
/// had their valid entries copied (in order, with no duplicate names) into
/// the target run `[fe, target)` and invalidated in place, and everything
/// else is untouched.
spec fn defrag_inv(
    flash0: Seq<u8>,
    cur: Seq<u8>,
    st: int,
    s: int,
    fe: int,
    target: int,
    tgt: Map<int, int>,
    src: Map<int, int>,
) -> bool {
    &&& flash0.len() == TOTAL_BYTES
    &&& cur.len() == TOTAL_BYTES
    &&& tail_empty_from(flash0, st)
    &&& unique_names(flash0, st)
    &&& fe == first_empty_from(flash0, st)
    &&& sclass(flash0, fe) is Empty
    &&& 0 <= st <= s <= fe < MAX_ENTRIES
    &&& fe <= target <= MAX_ENTRIES
    &&& count_from(flash0, st, SlotClass::Valid) == (target - fe) + count_from(
        flash0,
        s,
        SlotClass::Valid,
    )
    &&& forall|t: int|
        (0 <= t < st) || (s <= t < fe) || (target <= t < MAX_ENTRIES)
            ==> #[trigger] slot_bytes(cur, t) == slot_bytes(flash0, t)
    &&& forall|t: int|
        st <= t < s && #[trigger] sclass(flash0, t) is Valid ==> sentry(cur, t) == (EntryModel {
            flags: INVALID_FLAG,
            ..sentry(flash0, t)
        }) && sclass(cur, t) is Invalidated
    &&& forall|t: int|
        st <= t < s && !(#[trigger] sclass(flash0, t) is Valid) ==> slot_bytes(cur, t)
            == slot_bytes(flash0, t)
    &&& forall|t: int|
        st <= t < s && #[trigger] sclass(flash0, t) is Valid ==> tgt.dom().contains(t) && fe
            <= tgt.index(t) < target && slot_bytes(cur, tgt.index(t)) == slot_bytes(flash0, t)
    &&& forall|k: int|
        #![trigger src.index(k)]
        fe <= k < target ==> src.dom().contains(k) && st <= src.index(k) < s && sclass(
            flash0,
            src.index(k),
        ) is Valid && slot_bytes(cur, k) == slot_bytes(flash0, src.index(k))
    &&& forall|k1: int, k2: int|
        fe <= k1 < k2 < target ==> sentry(cur, k1).name != sentry(cur, k2).name
    &&& forall|p: int| DATA_START <= p < TOTAL_BYTES ==> cur[p] == flash0[p]
}

/// Walking one non-valid, non-empty slot preserves the compaction invariant.
#[verifier::spinoff_prover]
proof fn lemma_defrag_skip(
    flash0: Seq<u8>,
    cur: Seq<u8>,
    st: int,
    s: int,
    fe: int,
    target: int,
    tgt: Map<int, int>,
    src: Map<int, int>,
)
    requires
        defrag_inv(flash0, cur, st, s, fe, target, tgt, src),
        s < fe,
        !(sclass(flash0, s) is Valid),
        !(sclass(flash0, s) is Empty),
    ensures
        defrag_inv(flash0, cur, st, s + 1, fe, target, tgt, src),
{
    assert(count_from(flash0, s, SlotClass::Valid) == count_from(flash0, s + 1, SlotClass::Valid));
    assert forall|t: int|
        st <= t < s + 1 && #[trigger] sclass(flash0, t) is Valid implies sentry(cur, t)
        == (EntryModel { flags: INVALID_FLAG, ..sentry(flash0, t) }) && sclass(
        cur,
        t,
    ) is Invalidated by {
        assert(t < s);
    }
    assert forall|t: int|
        st <= t < s + 1 && #[trigger] sclass(flash0, t) is Valid implies tgt.dom().contains(t)
        && fe <= tgt.index(t) < target && slot_bytes(cur, tgt.index(t)) == slot_bytes(
        flash0,
        t,
    ) by {
        assert(t < s);
    }
}

/// Copying the valid entry at the walk cursor into the next target slot and
/// invalidating the original preserves the compaction invariant. `cur1` is
/// the flash after the copy, `cur2` after the invalidation.
#[verifier::spinoff_prover]
proof fn lemma_defrag_step(
    flash0: Seq<u8>,
    cur0: Seq<u8>,
    cur1: Seq<u8>,
    cur2: Seq<u8>,
    st: int,
    s: int,
    fe: int,
    target: int,
    tgt: Map<int, int>,
    src: Map<int, int>,
)
    requires
        defrag_inv(flash0, cur0, st, s, fe, target, tgt, src),
        s < fe,
        target < MAX_ENTRIES,
        sclass(flash0, s) is Valid,
        cur1.len() == cur0.len(),
        slot_bytes(cur1, target) == slot_bytes(flash0, s),
        forall|t: int|
            0 <= t < MAX_ENTRIES && t != target ==> #[trigger] slot_bytes(cur1, t) == slot_bytes(
                cur0,
                t,
            ),
        forall|p: int| DATA_START <= p < TOTAL_BYTES ==> cur1[p] == cur0[p],
        cur2.len() == cur1.len(),
        sentry(cur2, s) == (EntryModel { flags: INVALID_FLAG, ..sentry(cur1, s) }),
        sclass(cur2, s) is Invalidated,
        forall|t: int|
            0 <= t < MAX_ENTRIES && t != s ==> #[trigger] slot_bytes(cur2, t) == slot_bytes(
                cur1,
                t,
            ),
        forall|p: int| DATA_START <= p < TOTAL_BYTES ==> cur2[p] == cur1[p],
    ensures
        defrag_inv(
            flash0,
            cur2,
            st,
            s + 1,
            fe,
            target + 1,
            tgt.insert(s, target),
            src.insert(target, s),
        ),
{
    let tgt1 = tgt.insert(s, target);
    let src1 = src.insert(target, s);
    assert(slot_bytes(cur1, s) == slot_bytes(flash0, s));
    assert(count_from(flash0, s, SlotClass::Valid) == 1 + count_from(
        flash0,
        s + 1,
        SlotClass::Valid,
    ));
    assert forall|t: int|
        (0 <= t < st) || (s + 1 <= t < fe) || (target + 1 <= t < MAX_ENTRIES) implies #[trigger]
    slot_bytes(cur2, t) == slot_bytes(flash0, t) by {
        assert(t != s && t != target);
        assert(slot_bytes(cur2, t) == slot_bytes(cur1, t));
        assert(slot_bytes(cur1, t) == slot_bytes(cur0, t));
    }
    assert forall|t: int|
        st <= t < s + 1 && #[trigger] sclass(flash0, t) is Valid implies sentry(cur2, t)
        == (EntryModel { flags: INVALID_FLAG, ..sentry(flash0, t) }) && sclass(
        cur2,
        t,
    ) is Invalidated by {
        if t < s {
            assert(t != target);
            assert(slot_bytes(cur2, t) == slot_bytes(cur1, t));
            assert(slot_bytes(cur1, t) == slot_bytes(cur0, t));
        } else {
            assert(sentry(cur2, s) == (EntryModel { flags: INVALID_FLAG, ..sentry(flash0, s) }));
        }
    }
    assert forall|t: int|
        st <= t < s + 1 && !(#[trigger] sclass(flash0, t) is Valid) implies slot_bytes(cur2, t)
        == slot_bytes(flash0, t) by {
        assert(t != s && t != target);
        assert(slot_bytes(cur2, t) == slot_bytes(cur1, t));
        assert(slot_bytes(cur1, t) == slot_bytes(cur0, t));
    }
    assert(slot_bytes(cur2, target) == slot_bytes(cur1, target));
    assert forall|t: int|
        st <= t < s + 1 && #[trigger] sclass(flash0, t) is Valid implies tgt1.dom().contains(t)
        && fe <= tgt1.index(t) < target + 1 && slot_bytes(cur2, tgt1.index(t)) == slot_bytes(
        flash0,
        t,
    ) by {
        if t < s {
            let k0 = tgt.index(t);
            assert(fe <= k0 < target && slot_bytes(cur0, k0) == slot_bytes(flash0, t));
            assert(k0 != target && k0 != s);
            assert(slot_bytes(cur2, k0) == slot_bytes(cur1, k0));
            assert(slot_bytes(cur1, k0) == slot_bytes(cur0, k0));
            assert(tgt1.index(t) == k0);
        } else {
            assert(tgt1.index(t) == target);
            assert(slot_bytes(cur2, target) == slot_bytes(flash0, t));
        }
    }
    assert forall|k: int|
        #![trigger src1.index(k)]
        fe <= k < target + 1 implies src1.dom().contains(k) && st <= src1.index(k) < s + 1
        && sclass(flash0, src1.index(k)) is Valid && slot_bytes(cur2, k) == slot_bytes(
        flash0,
        src1.index(k),
    ) by {
        if k < target {
            let t0 = src.index(k);
            assert(st <= t0 < s && sclass(flash0, t0) is Valid && slot_bytes(cur0, k)
                == slot_bytes(flash0, t0));
            assert(k != s && k != target);
            assert(slot_bytes(cur2, k) == slot_bytes(cur1, k));
            assert(slot_bytes(cur1, k) == slot_bytes(cur0, k));
            assert(src1.index(k) == t0);
        } else {
            assert(src1.index(k) == s);
            assert(slot_bytes(cur2, k) == slot_bytes(flash0, s));
        }
    }
    assert forall|k1: int, k2: int| fe <= k1 < k2 < target + 1 implies sentry(cur2, k1).name
        != sentry(cur2, k2).name by {
        assert(k1 != s);
        assert(slot_bytes(cur2, k1) == slot_bytes(cur1, k1));
        if k2 < target {
            assert(slot_bytes(cur2, k1) == slot_bytes(cur0, k1));
            assert(k2 != s);
            assert(slot_bytes(cur2, k2) == slot_bytes(cur0, k2));
            assert(sentry(cur2, k1).name == sentry(cur0, k1).name);
            assert(sentry(cur2, k2).name == sentry(cur0, k2).name);
        } else {
            let t0 = src.index(k1);
            assert(st <= t0 < s && sclass(flash0, t0) is Valid && slot_bytes(cur0, k1)
                == slot_bytes(flash0, t0));
            assert(slot_bytes(cur2, k1) == slot_bytes(cur0, k1));
            assert(sentry(cur2, k1).name == sentry(flash0, t0).name);
            assert(sentry(cur2, k2).name == sentry(flash0, s).name);
            assert(sentry(flash0, t0).name != sentry(flash0, s).name);
        }
    }
}

/// With no empty slot, compaction leaves the index as it stands, which
/// trivially preserves every resolution.
proof fn lemma_defrag_trivial(flash0: Seq<u8>, st: int)
    requires
        tail_empty_from(flash0, st),
        unique_names(flash0, st),
    ensures
        forall|s1: int, s2: int|
            st <= s1 < MAX_ENTRIES && st <= s2 < MAX_ENTRIES && #[trigger] sclass(
                flash0,
                s1,
            ) is Valid && #[trigger] sclass(flash0, s2) is Valid && sentry(flash0, s1).name
                == sentry(flash0, s2).name ==> sentry(flash0, s1).addr == sentry(flash0, s2).addr
                && sentry(flash0, s1).length == sentry(flash0, s2).length && sentry(
                flash0,
                s1,
            ).crc == sentry(flash0, s2).crc,
{
    assert forall|s1: int, s2: int|
        st <= s1 < MAX_ENTRIES && st <= s2 < MAX_ENTRIES && #[trigger] sclass(
            flash0,
            s1,
        ) is Valid && #[trigger] sclass(flash0, s2) is Valid && sentry(flash0, s1).name == sentry(
            flash0,
            s2,
        ).name implies sentry(flash0, s1).addr == sentry(flash0, s2).addr && sentry(
        flash0,
        s1,
    ).length == sentry(flash0, s2).length && sentry(flash0, s1).crc == sentry(
        flash0,
        s2,
    ).crc by {
        if s1 != s2 {
            assert(sentry(flash0, s1).name != sentry(flash0, s2).name);
        }
    }
}

/// What the compaction invariant yields once the walk has finished (either
/// at the first empty coordinate, or early with the target run full): shape,
/// uniqueness, boundedness and every resolution are carried over to the new
/// cursor.
#[verifier::rlimit(60)]
#[verifier::spinoff_prover]
proof fn lemma_defrag_final(
    flash0: Seq<u8>,
    cur: Seq<u8>,
    st: int,
    send: int,
    fe: int,
    target: int,
    st1: int,
    tgt: Map<int, int>,
    src: Map<int, int>,
)
    requires
        defrag_inv(flash0, cur, st, send, fe, target, tgt, src),
        st1 == st || (st1 == fe && send == fe),
    ensures
        tail_empty_from(cur, st1),
        unique_names(cur, st1),
        (entries_bounded(flash0) ==> entries_bounded(cur)),
        forall|nm: Seq<u8>| #[trigger] resolvable(cur, st1, nm) <==> resolvable(flash0, st, nm),
        forall|s1: int, s2: int|
            st1 <= s1 < MAX_ENTRIES && st <= s2 < MAX_ENTRIES && #[trigger] sclass(
                cur,
                s1,
            ) is Valid && #[trigger] sclass(flash0, s2) is Valid && sentry(cur, s1).name == sentry(
                flash0,
                s2,
            ).name ==> sentry(cur, s1).addr == sentry(flash0, s2).addr && sentry(cur, s1).length
                == sentry(flash0, s2).length && sentry(cur, s1).crc == sentry(flash0, s2).crc,
{
    assert forall|t: int| fe <= t < target implies #[trigger] sclass(cur, t) is Valid && (
    entries_bounded(flash0) ==> DATA_START <= sentry(cur, t).addr && slot_end(cur, t)
        <= TOTAL_BYTES) by {
        let t0 = src.index(t);
        assert(st <= t0 < send && sclass(flash0, t0) is Valid && slot_bytes(cur, t) == slot_bytes(
            flash0,
            t0,
        ));
        assert(sclass(cur, t) == sclass(flash0, t0));
        assert(sentry(cur, t) == sentry(flash0, t0));
    }
    assert forall|t: int| target <= t < MAX_ENTRIES implies #[trigger] sclass(cur, t) is Empty by {
        assert(slot_bytes(cur, t) == slot_bytes(flash0, t));
        assert(sclass(flash0, t) is Empty);
    }
    assert forall|t: int| st <= t < send implies !(#[trigger] sclass(cur, t) is Empty) && !(sclass(
        cur,
        t,
    ) is Valid) by {
        lemma_first_empty_min(flash0, st, t);
        if !(sclass(flash0, t) is Valid) {
            assert(slot_bytes(cur, t) == slot_bytes(flash0, t));
        }
    }
    assert forall|t: int| send <= t < fe implies #[trigger] slot_bytes(cur, t) == slot_bytes(
        flash0,
        t,
    ) && !(sclass(cur, t) is Empty) by {
        lemma_first_empty_min(flash0, st, t);
    }
    assert forall|j: int, k: int|
        st1 <= j <= k < MAX_ENTRIES && sclass(cur, j) is Empty implies sclass(
        cur,
        k,
    ) is Empty by {
        assert(j >= target);
    }
    assert forall|j: int, k: int|
        st1 <= j < k < MAX_ENTRIES && sclass(cur, j) is Valid && sclass(cur, k) is Valid implies
    sentry(cur, j).name != sentry(cur, k).name by {
        assert(k < target);
        if j < fe {
            assert(send <= j);
            assert(slot_bytes(cur, j) == slot_bytes(flash0, j));
            assert(sclass(flash0, j) is Valid);
            assert(sentry(cur, j).name == sentry(flash0, j).name);
            if k < fe {
                assert(slot_bytes(cur, k) == slot_bytes(flash0, k));
                assert(sclass(flash0, k) is Valid);
                assert(sentry(cur, k).name == sentry(flash0, k).name);
            } else {
                let t0 = src.index(k);
                assert(st <= t0 < send && sclass(flash0, t0) is Valid && slot_bytes(cur, k)
                    == slot_bytes(flash0, t0));
                assert(sentry(cur, k).name == sentry(flash0, t0).name);
                assert(t0 < j);
            }
        }
    }
    assert forall|nm: Seq<u8>| #[trigger]
        resolvable(cur, st1, nm) implies resolvable(flash0, st, nm) by {
        let k = choose|t: int|
            st1 <= t < MAX_ENTRIES && #[trigger] sclass(cur, t) is Valid && sentry(cur, t).name
                == nm;
        if fe <= k < target {
            let t0 = src.index(k);
            assert(st <= t0 < send && sclass(flash0, t0) is Valid && slot_bytes(cur, k)
                == slot_bytes(flash0, t0));
            assert(sclass(flash0, t0) is Valid && sentry(flash0, t0).name == nm);
        } else {
            assert(send <= k < fe);
            assert(slot_bytes(cur, k) == slot_bytes(flash0, k));
            assert(sclass(flash0, k) is Valid && sentry(flash0, k).name == nm);
        }
    }
    assert forall|nm: Seq<u8>| #[trigger]
        resolvable(flash0, st, nm) implies resolvable(cur, st1, nm) by {
        let t = choose|u: int|
            st <= u < MAX_ENTRIES && #[trigger] sclass(flash0, u) is Valid && sentry(flash0, u).name
                == nm;
        assert(!(sclass(flash0, t) is Empty));
        if t >= fe {
            assert(sclass(flash0, t) is Empty);
        }
        if t < send {
            let k = tgt.index(t);
            assert(fe <= k < target && slot_bytes(cur, k) == slot_bytes(flash0, t));
            assert(sclass(cur, k) is Valid && sentry(cur, k).name == nm);
            assert(st1 <= k);
        } else {
            assert(slot_bytes(cur, t) == slot_bytes(flash0, t));
            assert(sclass(cur, t) is Valid && sentry(cur, t).name == nm);
            assert(st1 <= t);
        }
    }
    assert forall|s1: int, s2: int|
        st1 <= s1 < MAX_ENTRIES && st <= s2 < MAX_ENTRIES && #[trigger] sclass(
            cur,
            s1,
        ) is Valid && #[trigger] sclass(flash0, s2) is Valid && sentry(cur, s1).name == sentry(
            flash0,
            s2,
        ).name implies sentry(cur, s1).addr == sentry(flash0, s2).addr && sentry(cur, s1).length
        == sentry(flash0, s2).length && sentry(cur, s1).crc == sentry(flash0, s2).crc by {
        assert(!(sclass(flash0, s2) is Empty));
        if s2 >= fe {
            assert(sclass(flash0, s2) is Empty);
        }
        if fe <= s1 < target {
            let t0 = src.index(s1);
            assert(st <= t0 < send && sclass(flash0, t0) is Valid && slot_bytes(cur, s1)
                == slot_bytes(flash0, t0));
            assert(sentry(cur, s1) == sentry(flash0, t0));
            if t0 != s2 {
                assert(sentry(flash0, t0).name != sentry(flash0, s2).name);
            }
        } else {
            assert(send <= s1 < fe);
            assert(slot_bytes(cur, s1) == slot_bytes(flash0, s1));
            if s1 != s2 {
                assert(sentry(flash0, s1).name != sentry(flash0, s2).name);
            }
        }
    }
    if entries_bounded(flash0) {
        assert forall|t: int|
            0 <= t < MAX_ENTRIES && slot_live(cur, t) implies DATA_START <= #[trigger] sentry(
            cur,
            t,
        ).addr && slot_end(cur, t) <= TOTAL_BYTES by {
            if t < st || send <= t < fe {
                assert(slot_bytes(cur, t) == slot_bytes(flash0, t));
            } else if st <= t < send {
                if sclass(flash0, t) is Valid {
                    assert(sentry(cur, t).addr == sentry(flash0, t).addr);
                    assert(sentry(cur, t).length == sentry(flash0, t).length);
                    assert(slot_live(flash0, t));
                } else {
                    assert(slot_bytes(cur, t) == slot_bytes(flash0, t));
                }
            } else if fe <= t < target {
                assert(sclass(cur, t) is Valid);
            } else {
                assert(sclass(cur, t) is Empty);
            }
        }
    }
}

} // verus!
