use pawpet::{FlashInfo, Identification};

#[test]
fn test_decode_jedec_id() {
    let cypress_id_bytes = [0x7F, 0x7F, 0x7F, 0x7F, 0x7F, 0x7F, 0xC2, 0x22, 0x08];
    let ident = Identification::from_jedec_id(&cypress_id_bytes);
    assert_eq!(0xC2, ident.mfr_code());
    assert_eq!(6, ident.continuation_count());
    let device_id = ident.device_id();
    assert_eq!(device_id[0], 0x22);
    assert_eq!(device_id[1], 0x08);
}

#[test]
fn jedec_without_continuations_starts_at_zero() {
    let id_bytes = [0xC8, 0x40, 0x15, 0x00];
    let ident = Identification::from_jedec_id(&id_bytes);
    assert_eq!(0xC8, ident.mfr_code());
    assert_eq!(0, ident.continuation_count());
    assert_eq!(ident.device_id(), &[0x40, 0x15]);
}

fn demo_info() -> FlashInfo {
    FlashInfo {
        id: 0,
        page_size: 256,
        sector_size: 0x1000,
        sector_count: 512,
        page_count: 8192,
        block_size: 0x10000,
        block_count: 32,
        capacity_kb: 2048,
    }
}

#[test]
fn flash_info_unit_conversions() {
    let info = demo_info();
    assert_eq!(info.page_to_sector(&32), 2);
    assert_eq!(info.page_to_block(&512), 2);
    assert_eq!(info.sector_to_block(&32), 2);
    assert_eq!(info.sector_to_page(&2), 32);
    assert_eq!(info.block_to_page(&2), 512);
}
