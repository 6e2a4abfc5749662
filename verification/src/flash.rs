//! An owned model of the serial NOR flash the engine writes to: byte-range
//! reads, bounded-chunk writes and whole-block erases over a fixed 480-block
//! geometry. Erasing sets every byte of a block to 0xFF.

use vstd::prelude::*;
use crate::{BLOCK_SIZE, TOTAL_BLOCKS, TOTAL_BYTES, WRITE_SIZE};

verus! {

/// The usable flash array, owned by the filesystem engine.
pub struct FlashMedia {
    bytes: Vec<u8>,
}

impl View for FlashMedia {
    type V = Seq<u8>;

    closed spec fn view(&self) -> Seq<u8> {
        self.bytes@
    }
}

impl FlashMedia {
    /// The media covers exactly the usable blocks.
    pub open spec fn inv(&self) -> bool {
        self@.len() == TOTAL_BYTES
    }

    /// Freshly erased flash: every byte 0xFF.
    pub fn new() -> (r: Self)
        ensures
            r.inv(),
            forall|p: int| 0 <= p < r@.len() ==> r@[p] == 0xFFu8,
    {
        let mut bytes: Vec<u8> = Vec::new();
        let mut i: usize = 0;
        while i < 1966080
            invariant
                i <= 1966080,
                bytes@.len() == i,
                forall|p: int| 0 <= p < i ==> bytes@[p] == 0xFFu8,
            decreases 1966080 - i,
        {
            bytes.push(0xFF);
            i = i + 1;
        }
        FlashMedia { bytes }
    }

    /// Reads `len` bytes starting at `addr`.
    pub fn read(&self, addr: u32, len: u32) -> (r: Vec<u8>)
        requires
            addr + len <= self@.len(),
        ensures
            r@ == self@.subrange(addr as int, addr as int + len as int),
    {
        let mut out: Vec<u8> = Vec::new();
        let mut i: usize = 0;
        let base: usize = addr as usize;
        let n: usize = len as usize;
        let total: usize = self.bytes.len();
        while i < n
            invariant
                i <= n,
                base + n <= total,
                total == self@.len(),
                out@.len() == i,
                forall|j: int| 0 <= j < i ==> out@[j] == self@[base + j],
            decreases n - i,
        {
            out.push(self.bytes[base + i]);
            i = i + 1;
        }
        assert(out@ =~= self@.subrange(addr as int, addr as int + len as int));
        out
    }

    /// Reads the single byte at `addr`.
    pub fn get_byte(&self, addr: u32) -> (r: u8)
        requires
            addr < self@.len(),
        ensures
            r == self@[addr as int],
    {
        self.bytes[addr as usize]
    }

    /// Overwrites the single byte at `addr`; lets a harness place arbitrary
    /// content (for example corrupted slots) on the media.
    pub fn set_byte(&mut self, addr: u32, value: u8)
        requires
            addr < old(self)@.len(),
        ensures
            final(self)@ == old(self)@.update(addr as int, value),
    {
        self.bytes.set(addr as usize, value);
    }

    /// Programs `data` at `addr`: one bounded write chunk, at most the 256-byte
    /// page size.
    pub fn write(&mut self, addr: u32, data: &[u8])
        requires
            data@.len() <= WRITE_SIZE,
            addr + data@.len() <= old(self)@.len(),
        ensures
            final(self)@.len() == old(self)@.len(),
            forall|p: int|
                addr <= p < addr + data@.len() ==> final(self)@[p] == data@[p - addr],
            forall|p: int|
                0 <= p < old(self)@.len() && !(addr <= p < addr + data@.len()) ==> final(self)@[p]
                    == old(self)@[p],
    {
        let mut i: usize = 0;
        let base: usize = addr as usize;
        let n: usize = data.len();
        let total: usize = self.bytes.len();
        while i < n
            invariant
                n == data@.len(),
                i <= n,
                base + n <= total,
                total == self@.len(),
                self@.len() == old(self)@.len(),
                forall|p: int| base <= p < base + i ==> self@[p] == data@[p - base],
                forall|p: int|
                    0 <= p < self@.len() && !(base <= p < base + i) ==> self@[p] == old(self)@[p],
            decreases data@.len() - i,
        {
            self.bytes.set(base + i, data[i]);
            i = i + 1;
        }
    }

    /// Erases one 4096-byte block: every byte of the block becomes 0xFF.
    pub fn erase_block(&mut self, block: u32)
        requires
            block < TOTAL_BLOCKS,
            old(self).inv(),
        ensures
            final(self).inv(),
            forall|p: int|
                block * BLOCK_SIZE <= p < block * BLOCK_SIZE + BLOCK_SIZE ==> final(self)@[p]
                    == 0xFFu8,
            forall|p: int|
                0 <= p < old(self)@.len() && !(block * BLOCK_SIZE <= p < block * BLOCK_SIZE
                    + BLOCK_SIZE) ==> final(self)@[p] == old(self)@[p],
    {
        let base: usize = (block as usize) * 4096;
        let mut i: usize = 0;
        let total: usize = self.bytes.len();
        while i < 4096
            invariant
                i <= 4096,
                base + 4096 <= total,
                total == self@.len(),
                self@.len() == old(self)@.len(),
                forall|p: int| base <= p < base + i ==> self@[p] == 0xFFu8,
                forall|p: int|
                    0 <= p < self@.len() && !(base <= p < base + i) ==> self@[p] == old(self)@[p],
            decreases 4096 - i,
        {
            self.bytes.set(base + i, 0xFF);
            i = i + 1;
        }
    }
}

} // verus!
