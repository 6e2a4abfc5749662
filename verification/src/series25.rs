//! Identification and geometry helpers for 25-series SPI flash chips: JEDEC
//! manufacturer/device identification decoding and unit conversions between
//! pages, sectors and blocks.

use vstd::prelude::*;

verus! {

/// The index of the first byte of a JEDEC answer that is not the 0x7F
/// continuation code, looking at most up to the last two bytes; the first
/// byte when every looked-at byte is a continuation.
pub open spec fn jedec_start_from(b: Seq<u8>, i: int) -> int
    decreases b.len() - i,
{
    if i < 0 || i >= b.len() - 2 {
        0
    } else if b[i] != 0x7F {
        i
    } else {
        jedec_start_from(b, i + 1)
    }
}

/// 3-byte JEDEC manufacturer and device identification: the manufacturer's
/// ID code followed by a manufacturer-specific device ID, preceded on the
/// wire by a run of continuation codes.
pub struct Identification {
    bytes: [u8; 3],
    continuations: u8,
}

impl View for Identification {
    type V = (Seq<u8>, u8);

    closed spec fn view(&self) -> (Seq<u8>, u8) {
        (self.bytes@, self.continuations)
    }
}

impl Identification {
    /// Builds an identification from raw JEDEC ID bytes: skips the leading
    /// 0x7F continuation codes and keeps the next three bytes.
    pub fn from_jedec_id(buf: &[u8]) -> (r: Identification)
        requires
            3 <= buf@.len() <= 258,
        ensures
            ({
                let start = jedec_start_from(buf@, 0);
                &&& r@.0 == seq![buf@[start], buf@[start + 1], buf@[start + 2]]
                &&& r@.1 == start
            }),
    {
        let mut start_idx: usize = 0;
        let n: usize = buf.len() - 2;
        let mut i: usize = 0;
        let mut found = false;
        while i < n && !found
            invariant
                i <= n,
                n == buf@.len() - 2,
                3 <= buf@.len() <= 258,
                jedec_start_from(buf@, 0) == (if found {
                    i as int
                } else {
                    jedec_start_from(buf@, i as int)
                }),
                found ==> start_idx == i && i < n,
                !found ==> start_idx == 0,
            decreases n - i + (if found {
                0int
            } else {
                1int
            }),
        {
            if buf[i] != 0x7F {
                start_idx = i;
                found = true;
            } else {
                i = i + 1;
            }
        }
        let bytes: [u8; 3] = [buf[start_idx], buf[start_idx + 1], buf[start_idx + 2]];
        assert(bytes@ =~= seq![buf@[start_idx as int], buf@[start_idx + 1], buf@[start_idx + 2]]);
        Identification { bytes, continuations: start_idx as u8 }
    }

    /// The JEDEC manufacturer code for this chip.
    pub fn mfr_code(&self) -> (r: u8)
        ensures
            r == self@.0[0],
    {
        self.bytes[0]
    }

    /// The manufacturer-specific device ID for this chip.
    pub fn device_id(&self) -> (r: &[u8])
        ensures
            r@ == self@.0.subrange(1, 3),
    {
        vstd::slice::slice_subrange(self.bytes.as_slice(), 1, 3)
    }

    /// The number of continuation codes that preceded the manufacturer ID.
    pub fn continuation_count(&self) -> (r: u8)
        ensures
            r == self@.1,
    {
        self.continuations
    }
}

/// Geometry of one flash chip, in pages, sectors and blocks.
pub struct FlashInfo {
    pub id: u32,
    pub page_size: u16,
    pub sector_size: u32,
    pub page_count: u32,
    pub sector_count: u32,
    pub block_size: u32,
    pub block_count: u32,
    pub capacity_kb: u32,
}

impl FlashInfo {
    /// The sector containing a page address.
    pub fn page_to_sector(&self, page_address: &u32) -> (r: u32)
        requires
            self.sector_size > 0,
            *page_address * self.page_size <= u32::MAX,
        ensures
            r == (*page_address * self.page_size) as int / self.sector_size as int,
    {
        return ((*page_address) * (self.page_size as u32)) / self.sector_size;
    }

    /// The block containing a page address.
    pub fn page_to_block(&self, page_address: &u32) -> (r: u32)
        requires
            self.block_size > 0,
            *page_address * self.page_size <= u32::MAX,
        ensures
            r == (*page_address * self.page_size) as int / self.block_size as int,
    {
        return ((*page_address) * (self.page_size as u32)) / self.block_size;
    }

    /// The block containing a sector address.
    pub fn sector_to_block(&self, sector_address: &u32) -> (r: u32)
        requires
            self.block_size > 0,
            *sector_address * self.sector_size <= u32::MAX,
        ensures
            r == (*sector_address * self.sector_size) as int / self.block_size as int,
    {
        return ((*sector_address) * self.sector_size) / self.block_size;
    }

    /// The first page of a sector address.
    pub fn sector_to_page(&self, sector_address: &u32) -> (r: u32)
        requires
            self.page_size > 0,
            *sector_address * self.sector_size <= u32::MAX,
        ensures
            r == (*sector_address * self.sector_size) as int / self.page_size as int,
    {
        return ((*sector_address) * self.sector_size) / (self.page_size as u32);
    }

    /// The first page of a block address.
    pub fn block_to_page(&self, block_adress: &u32) -> (r: u32)
        requires
            self.page_size > 0,
            *block_adress * self.block_size <= u32::MAX,
        ensures
            r == (*block_adress * self.block_size) as int / self.page_size as int,
    {
        return ((*block_adress) * self.block_size) / (self.page_size as u32);
    }
}

} // verus!
