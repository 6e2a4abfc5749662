//! The index entry codec: a fixed 32-byte little-endian record that describes
//! one stored file (`flags`, 16-byte NUL-padded ASCII `name`, `length`,
//! `addr`, `crc`). Encoding and decoding are explicit byte-level transforms;
//! decoding tolerates arbitrary input so that corrupt slots can still be
//! classified.

use vstd::prelude::*;
use crate::{EMPTY_FLAG, INVALID_FLAG, VALID_FLAG};

verus! {

/// Scan outcome for a single slot, or for a whole lookup.
#[derive(Debug)]
pub enum IndexEntryError {
    EmptyEntry,
    InvalidatedEntry,
    CorruptEntry,
    NotFound,
}

/// The mathematical value of an index entry.
pub ghost struct EntryModel {
    pub flags: u32,
    pub name: Seq<u8>,
    pub length: u32,
    pub addr: u32,
    pub crc: u32,
}

/// Classification of one 32-byte index slot.
pub enum SlotClass {
    Empty,
    Invalidated,
    Valid,
    Corrupt,
}

/// The `u32` read little-endian from four bytes.
pub open spec fn le32_of(b: Seq<u8>) -> u32
    recommends
        b.len() == 4,
{
    (b[0] + b[1] * 0x100 + b[2] * 0x10000 + b[3] * 0x1000000) as u32
}

/// The four little-endian bytes of a `u32`.
pub open spec fn u32_le_bytes(x: u32) -> Seq<u8> {
    seq![
        (x % 0x100) as u8,
        ((x / 0x100) % 0x100) as u8,
        ((x / 0x10000) % 0x100) as u8,
        ((x / 0x1000000) % 0x100) as u8,
    ]
}

/// Reading back the four bytes of a `u32` gives the same value.
pub proof fn lemma_le32_of_bytes(x: u32)
    ensures
        u32_le_bytes(x).len() == 4,
        le32_of(u32_le_bytes(x)) == x,
{
    assert((x % 0x100) + ((x / 0x100) % 0x100) * 0x100 + ((x / 0x10000) % 0x100) * 0x10000 + ((x
        / 0x1000000) % 0x100) * 0x1000000 == x) by (nonlinear_arith);
}

/// Re-encoding the value read from four bytes gives the same bytes.
pub proof fn lemma_bytes_of_le32(b: Seq<u8>)
    requires
        b.len() == 4,
    ensures
        u32_le_bytes(le32_of(b)) == b,
{
    let x = le32_of(b);
    assert(x == b[0] + b[1] * 0x100 + b[2] * 0x10000 + b[3] * 0x1000000);
    assert(x % 0x100 == b[0] && (x / 0x100) % 0x100 == b[1] && (x / 0x10000) % 0x100 == b[2] && (x
        / 0x1000000) % 0x100 == b[3]) by (nonlinear_arith)
        requires
            x == b[0] + b[1] * 0x100 + b[2] * 0x10000 + b[3] * 0x1000000,
            b[0] < 0x100,
            b[1] < 0x100,
            b[2] < 0x100,
            b[3] < 0x100,
    ;
    assert(u32_le_bytes(le32_of(b)) =~= b);
}

/// A file name key padded with NUL bytes to the fixed 16-byte field width.
pub open spec fn pad16(key: Seq<u8>) -> Seq<u8> {
    Seq::new(16, |i: int| if i < key.len() { key[i] } else { 0u8 })
}

/// A stored name field is readable text when every byte is ASCII.
pub open spec fn name_ok(name: Seq<u8>) -> bool {
    forall|i: int| 0 <= i < name.len() ==> name[i] < 0x80
}

/// A key is storable when it fits the name field and is ASCII.
pub open spec fn key_ok(key: Seq<u8>) -> bool {
    key.len() <= 16 && name_ok(key)
}

/// The entry described by 32 bytes of slot content.
pub open spec fn spec_decode(b: Seq<u8>) -> EntryModel
    recommends
        b.len() >= 32,
{
    EntryModel {
        flags: le32_of(b.subrange(0, 4)),
        name: b.subrange(4, 20),
        length: le32_of(b.subrange(20, 24)),
        addr: le32_of(b.subrange(24, 28)),
        crc: le32_of(b.subrange(28, 32)),
    }
}

/// The 32 bytes that encode an entry.
pub open spec fn spec_encode(e: EntryModel) -> Seq<u8>
    recommends
        e.name.len() == 16,
{
    u32_le_bytes(e.flags) + e.name + u32_le_bytes(e.length) + u32_le_bytes(e.addr) + u32_le_bytes(
        e.crc,
    )
}

/// How a 32-byte slot is classified: erased slots are `Empty`, unreadable
/// names are `Corrupt`, then the flag sentinels decide; any flags value other
/// than the three sentinels is `Corrupt`.
pub open spec fn class_of(b: Seq<u8>) -> SlotClass
    recommends
        b.len() >= 32,
{
    let e = spec_decode(b);
    if e.flags == EMPTY_FLAG {
        SlotClass::Empty
    } else if !name_ok(e.name) {
        SlotClass::Corrupt
    } else if e.flags == INVALID_FLAG {
        SlotClass::Invalidated
    } else if e.flags == VALID_FLAG {
        SlotClass::Valid
    } else {
        SlotClass::Corrupt
    }
}

/// Re-encoding a decoded 32-byte slot gives back exactly the same bytes.
pub proof fn lemma_encode_decode(b: Seq<u8>)
    requires
        b.len() == 32,
    ensures
        spec_encode(spec_decode(b)) == b,
{
    lemma_bytes_of_le32(b.subrange(0, 4));
    lemma_bytes_of_le32(b.subrange(20, 24));
    lemma_bytes_of_le32(b.subrange(24, 28));
    lemma_bytes_of_le32(b.subrange(28, 32));
    assert(spec_encode(spec_decode(b)) =~= b);
}

/// One stored file's index record.
pub struct IndexBlockEntry {
    pub flags: u32,
    pub _name: Vec<u8>,
    pub length: u32,
    pub addr: u32,
    pub crc: u32,
}

impl View for IndexBlockEntry {
    type V = EntryModel;

    open spec fn view(&self) -> EntryModel {
        EntryModel {
            flags: self.flags,
            name: self._name@,
            length: self.length,
            addr: self.addr,
            crc: self.crc,
        }
    }
}

impl IndexBlockEntry {
    /// The name field always holds exactly 16 bytes.
    pub open spec fn wf(&self) -> bool {
        self._name@.len() == 16
    }

    /// The flags field.
    pub fn flags(&self) -> (r: u32)
        ensures
            r == self@.flags,
    {
        self.flags
    }

    /// The payload length in bytes.
    pub fn length(&self) -> (r: u32)
        ensures
            r == self@.length,
    {
        self.length
    }

    /// The absolute flash byte address of the payload.
    pub fn addr(&self) -> (r: u32)
        ensures
            r == self@.addr,
    {
        self.addr
    }

    /// The CRC recorded over the payload bytes.
    pub fn crc(&self) -> (r: u32)
        ensures
            r == self@.crc,
    {
        self.crc
    }

    /// The raw 16-byte NUL-padded name field.
    pub fn name_bytes(&self) -> (r: &Vec<u8>)
        ensures
            r@ == self@.name,
    {
        &self._name
    }

    /// Replaces the name field with `key`, NUL-padded to 16 bytes.
    pub fn set_name(&mut self, key: &[u8])
        requires
            key@.len() <= 16,
        ensures
            final(self)@.name == pad16(key@),
            final(self).wf(),
            final(self)@.flags == old(self)@.flags,
            final(self)@.length == old(self)@.length,
            final(self)@.addr == old(self)@.addr,
            final(self)@.crc == old(self)@.crc,
    {
        let mut name: Vec<u8> = Vec::new();
        let mut i: usize = 0;
        while i < 16
            invariant
                i <= 16,
                key@.len() <= 16,
                name@.len() == i,
                forall|j: int| 0 <= j < i ==> name@[j] == pad16(key@)[j],
            decreases 16 - i,
        {
            if i < key.len() {
                name.push(key[i]);
            } else {
                name.push(0);
            }
            i = i + 1;
        }
        assert(name@ =~= pad16(key@));
        self._name = name;
    }

    /// Encodes the entry into its 32-byte on-flash form.
    pub fn to_bytes(&self) -> (r: Vec<u8>)
        requires
            self.wf(),
        ensures
            r@ == spec_encode(self@),
            r@.len() == 32,
    {
        let mut out = le_bytes32(self.flags);
        let mut i: usize = 0;
        while i < 16
            invariant
                i <= 16,
                self.wf(),
                out@.len() == 4 + i,
                out@ =~= u32_le_bytes(self@.flags) + self@.name.take(i as int),
            decreases 16 - i,
        {
            out.push(self._name[i]);
            assert(self@.name.take(i + 1 as int) =~= self@.name.take(i as int).push(
                self@.name[i as int],
            ));
            i = i + 1;
        }
        assert(self@.name.take(16) =~= self@.name);
        let mut tail = le_bytes32(self.length);
        append_bytes(&mut out, &tail);
        tail = le_bytes32(self.addr);
        append_bytes(&mut out, &tail);
        tail = le_bytes32(self.crc);
        append_bytes(&mut out, &tail);
        assert(out@ =~= spec_encode(self@));
        out
    }

    /// Decodes 32 bytes of slot content into the entry fields. Any input is
    /// accepted; the result mirrors the bytes exactly.
    pub fn from_bytes(&mut self, data: &[u8])
        requires
            data@.len() >= 32,
        ensures
            final(self)@ == spec_decode(data@),
            final(self).wf(),
    {
        self.flags = read_le32(data, 0);
        let name = vstd::slice::slice_subrange(data, 4, 20);
        let mut key: Vec<u8> = Vec::new();
        let mut i: usize = 0;
        while i < 16
            invariant
                i <= 16,
                name@.len() == 16,
                name@ == data@.subrange(4, 20),
                key@.len() == i,
                forall|j: int| 0 <= j < i ==> key@[j] == name@[j],
            decreases 16 - i,
        {
            key.push(name[i]);
            i = i + 1;
        }
        assert(key@ =~= data@.subrange(4, 20));
        self._name = key;
        self.length = read_le32(data, 20);
        self.addr = read_le32(data, 24);
        self.crc = read_le32(data, 28);
    }
}

/// The `u32` stored little-endian at `data[at..at + 4]`.
pub(crate) fn read_le32(data: &[u8], at: usize) -> (r: u32)
    requires
        at + 4 <= data@.len(),
    ensures
        r == le32_of(data@.subrange(at as int, at + 4)),
{
    let b = data[at] as u32 + (data[at + 1] as u32) * 0x100 + (data[at + 2] as u32) * 0x10000 + (
    data[at + 3] as u32) * 0x1000000;
    assert(data@.subrange(at as int, at + 4)[0] == data@[at as int]);
    assert(data@.subrange(at as int, at + 4)[1] == data@[at + 1]);
    assert(data@.subrange(at as int, at + 4)[2] == data@[at + 2]);
    assert(data@.subrange(at as int, at + 4)[3] == data@[at + 3]);
    b
}

/// The four little-endian bytes of `x`.
pub(crate) fn le_bytes32(x: u32) -> (r: Vec<u8>)
    ensures
        r@ == u32_le_bytes(x),
{
    let mut out: Vec<u8> = Vec::new();
    out.push((x % 0x100) as u8);
    out.push(((x / 0x100) % 0x100) as u8);
    out.push(((x / 0x10000) % 0x100) as u8);
    out.push(((x / 0x1000000) % 0x100) as u8);
    assert(out@ =~= u32_le_bytes(x));
    out
}

/// Appends all of `src` to `dst`.
pub(crate) fn append_bytes(dst: &mut Vec<u8>, src: &Vec<u8>)
    ensures
        final(dst)@ == old(dst)@ + src@,
{
    let mut i: usize = 0;
    while i < src.len()
        invariant
            i <= src@.len(),
            dst@ =~= old(dst)@ + src@.take(i as int),
        decreases src@.len() - i,
    {
        dst.push(src[i]);
        assert(src@.take(i + 1 as int) =~= src@.take(i as int).push(src@[i as int]));
        i = i + 1;
    }
    assert(src@.take(src@.len() as int) =~= src@);
}

impl Default for IndexBlockEntry {
    /// An all-zero entry with a full-width NUL name.
    fn default() -> (r: Self)
        ensures
            r.wf(),
            r@.flags == 0,
            r@.length == 0,
            r@.addr == 0,
            r@.crc == 0,
            r@.name == pad16(Seq::<u8>::empty()),
    {
        let mut e = IndexBlockEntry { flags: 0, _name: Vec::new(), length: 0, addr: 0, crc: 0 };
        let empty: Vec<u8> = Vec::new();
        e.set_name(empty.as_slice());
        assert(e@.name =~= pad16(Seq::<u8>::empty()));
        e
    }
}

} // verus!
