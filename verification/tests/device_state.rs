use pawpet::{Buttons, PawAnimation, PawImage, StateKind, WatchdogTimeouts};

#[test]
fn button_masks_are_distinct_bits() {
    let buttons = [
        Buttons::A,
        Buttons::B,
        Buttons::C,
        Buttons::P,
        Buttons::Up,
        Buttons::Right,
        Buttons::Down,
        Buttons::Left,
    ];
    let mut seen: u8 = 0;
    for b in buttons {
        let m = b.mask();
        assert_eq!(m.count_ones(), 1);
        assert_eq!(seen & m, 0);
        seen |= m;
    }
    assert_eq!(seen, 0xFF);
}

#[test]
fn watchdog_timeouts_compare() {
    assert_eq!(WatchdogTimeouts::Seconds8, WatchdogTimeouts::Seconds8);
    assert_ne!(WatchdogTimeouts::Millis64, WatchdogTimeouts::Seconds128);
}

#[test]
fn state_kinds_are_distinct() {
    assert!(matches!(StateKind::Menu, StateKind::Menu));
    assert_ne!(StateKind::Main, StateKind::Egg);
}

#[test]
fn single_tile_image_reads_header() {
    // width 2, height 3, encoding 0 (bitmap), tile count 1, then pixel data.
    let data: &'static [u8] = &[2, 0, 3, 0, 0, 0, 1, 0, 0xAB, 0xCD];
    let img = PawImage::new(Some(data));
    assert_eq!(img.width, 2);
    assert_eq!(img.height, 3);
    assert_eq!(img.encoding, 0);
    assert_eq!(img.image_ptr_offset, 10);
}

#[test]
fn sprite_map_frame_offsets_resolve() {
    // Two tiles: the offset table holds [0, 5]; frame data follows it.
    let data: &'static [u8] = &[
        4, 0, 4, 0, 2, 0, 2, 0, // header: w=4 h=4 enc=2 tiles=2
        0, 0, 5, 0, // frame offsets
        1, 2, 3, 4, 5, 6, 7, 8, 9, 10,
    ];
    let mut img = PawImage::new(Some(data));
    assert_eq!(img.encoding, 2);
    assert_eq!(img.image_ptr_offset, 8 + 4 + 0);
    img.set_frame(1);
    assert_eq!(img.image_ptr_offset, 8 + 4 + 5);
}

#[test]
fn animation_advances_and_loops() {
    let data: &'static [u8] = &[
        1, 0, 1, 0, 0, 0, 2, 0, // header: two tiles
        0, 0, 3, 0, // frame offsets
        1, 2, 3, 4, 5,
    ];
    let mut anim = PawAnimation::new((0, 2), 1);
    anim.set_image(Some(data));
    assert_eq!(anim.image.frame, 0);
    anim.tick();
    assert_eq!(anim.tick, 1);
    assert_eq!(anim.image.frame, 0);
    anim.tick();
    // tick passed ticks_per_frame: frame advances
    assert_eq!(anim.tick, 0);
    assert_eq!(anim.image.frame, 1);
    anim.tick();
    anim.tick();
    // upper loop bound reached: frame wraps to 0
    assert_eq!(anim.image.frame, 0);
}

#[test]
fn image_colors_update() {
    let mut img = PawImage::new_no_data();
    img.set_colors(false, true, Some(true));
    assert_eq!(img.on_color, false);
    assert_eq!(img.off_color, true);
    assert_eq!(img.alpha_color, Some(true));
}
