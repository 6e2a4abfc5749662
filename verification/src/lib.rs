//! A log-structured flash filesystem for a small handheld device: a
//! fixed-capacity binary index of named entries backed by an append-mostly
//! data region, with CRC-verified writes, corruption-tolerant scanning and
//! index compaction.

use vstd::prelude::*;

mod checksum;
mod devices;
mod entry;
mod flash;
mod fs;
mod game;
mod image;
mod series25;
mod laws;
mod storage;

pub use checksum::crc32_of;
pub use devices::{
    spec_button_mask, BatteryMonitorDevice, Buttons, ButtonsDevice, CommError, DisplayDevice,
    FileWriteError, StorageDevice, SysTimerDevice, ToneDevice, WatchdogDevice, WatchdogTimeouts,
};
pub use flash::FlashMedia;
pub use fs::{
    alloc_addr, count_from, entries_bounded, find_from, first_empty_from, flash_wf, max_end_from,
    sclass, sentry, slot_bytes, slot_end, slot_live, tail_empty_from, unique_names, MountStats,
    SimpleFilesystem,
};
pub use game::StateKind;
pub use image::{
    img_data_offset, img_encoding, img_frame_offset, img_height, img_tiles, img_wf, img_width,
    le16_at, PawAnimation, PawImage, PawImageHeader,
};
pub use series25::{jedec_start_from, FlashInfo, Identification};
pub use laws::{
    lemma_collision_drops_valid_count, lemma_crc_deterministic, lemma_defrag_preserves_resolution,
    lemma_find_none_no_match, lemma_find_ok, lemma_mount_idempotent, lemma_nonsentinel_is_corrupt,
    lemma_store_load_round_trip,
};
pub use storage::{
    cache_hit_from, first_free_from, stored_at, CacheEntry, SimpleFlashStorage, CACHE_ARENA,
    CACHE_SLOTS,
};
pub use entry::{
    EntryModel, IndexBlockEntry, IndexEntryError, SlotClass, class_of, key_ok, lemma_encode_decode,
    name_ok, pad16, spec_decode, spec_encode,
};

verus! {

/// Size in bytes of one erasable flash block (sector).
pub const BLOCK_SIZE: u32 = 4096;

/// Write granularity: payload writes are issued in chunks of this many bytes.
pub const WRITE_SIZE: u32 = 256;

/// Usable flash blocks (2 MB device minus a 32-block reserved tail).
pub const TOTAL_BLOCKS: u32 = 480;

/// Blocks at the start of flash that hold the entry index.
pub const INDEX_BLOCKS: u32 = 8;

/// Bytes of one encoded index entry.
pub const ENTRY_SIZE: u32 = 32;

/// Index entry slots per block.
pub const ENTRIES_PER_BLOCK: u32 = 128;

/// Total index entry capacity.
pub const MAX_ENTRIES: u32 = 1024;

/// First byte of the data region (just past the index blocks).
pub const DATA_START: u32 = 32768;

/// Total usable flash bytes.
pub const TOTAL_BYTES: u32 = 1966080;

/// Flag sentinel of a slot that has never been written since erase.
pub const EMPTY_FLAG: u32 = 0xFFFF_FFFF;

/// Flag sentinel of an entry that has been invalidated in place.
pub const INVALID_FLAG: u32 = 0x0000_AA99;

/// Flag sentinel of a live entry.
pub const VALID_FLAG: u32 = 0x0000_AA9F;

/// The sentinels are chosen so that a `VALID` flags field can be turned into
/// `INVALID` by clearing bits only, which is the one in-place rewrite NOR
/// flash allows without an erase.
pub proof fn lemma_invalid_reachable_from_valid()
    ensures
        VALID_FLAG & INVALID_FLAG == INVALID_FLAG,
{
    assert(0x0000_AA9Fu32 & 0x0000_AA99u32 == 0x0000_AA99u32) by (bit_vector);
}

} // verus!
