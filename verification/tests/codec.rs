use pawpet::IndexBlockEntry;

#[test]
fn entry_encodes_little_endian_fields() {
    let mut e = IndexBlockEntry::default();
    e.flags = 0x0000AA9F;
    e.set_name(b"foo");
    e.length = 4;
    e.addr = 32768;
    e.crc = 0x11223344;
    let bytes = e.to_bytes();
    assert_eq!(bytes.len(), 32);
    assert_eq!(&bytes[0..4], &[0x9F, 0xAA, 0x00, 0x00]);
    assert_eq!(&bytes[4..8], &[b'f', b'o', b'o', 0]);
    assert_eq!(&bytes[8..20], &[0u8; 12]);
    assert_eq!(&bytes[20..24], &[4, 0, 0, 0]);
    assert_eq!(&bytes[24..28], &[0x00, 0x80, 0x00, 0x00]);
    assert_eq!(&bytes[28..32], &[0x44, 0x33, 0x22, 0x11]);
}

#[test]
fn entry_decode_round_trips() {
    let mut e = IndexBlockEntry::default();
    e.flags = 0x0000AA99;
    e.set_name(b"sprite.img");
    e.length = 1000;
    e.addr = 40960;
    e.crc = 0xDEADBEEF;
    let bytes = e.to_bytes();
    let mut back = IndexBlockEntry::default();
    back.from_bytes(&bytes);
    assert_eq!(back.flags(), 0x0000AA99);
    assert_eq!(back.name_bytes().as_slice(), e.name_bytes().as_slice());
    assert_eq!(back.length(), 1000);
    assert_eq!(back.addr(), 40960);
    assert_eq!(back.crc(), 0xDEADBEEF);
}

#[test]
fn set_name_pads_with_nul_bytes() {
    let mut e = IndexBlockEntry::default();
    e.set_name(b"ab");
    let name = e.name_bytes();
    assert_eq!(name.len(), 16);
    assert_eq!(&name[0..2], b"ab");
    assert!(name[2..].iter().all(|&b| b == 0));
    e.set_name(b"0123456789abcdef");
    assert_eq!(e.name_bytes().as_slice(), b"0123456789abcdef");
}
