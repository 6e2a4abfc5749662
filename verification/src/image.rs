//! Sprite image state: a packed image asset starts with an 8-byte
//! little-endian header (`width`, `height`, `encoding`, `tile_count`), and a
//! multi-tile asset follows it with a table of 2-byte frame offsets. The
//! image state tracks the byte offset of the selected frame's pixel data;
//! an animation advances the frame on a tick counter.

use vstd::prelude::*;

verus! {

/// The `u16` read little-endian at `b[at..at + 2]`.
pub open spec fn le16_at(b: Seq<u8>, at: int) -> u16
    recommends
        0 <= at,
        at + 2 <= b.len(),
{
    (b[at] + b[at + 1] * 0x100) as u16
}

/// The width field of an image asset's header.
pub open spec fn img_width(d: Seq<u8>) -> u16 {
    le16_at(d, 0)
}

/// The height field of an image asset's header.
pub open spec fn img_height(d: Seq<u8>) -> u16 {
    le16_at(d, 2)
}

/// The encoding field of an image asset's header.
pub open spec fn img_encoding(d: Seq<u8>) -> u16 {
    le16_at(d, 4)
}

/// The tile count field of an image asset's header.
pub open spec fn img_tiles(d: Seq<u8>) -> u16 {
    le16_at(d, 6)
}

/// The frame-offset table entry for `frame` of a multi-tile asset.
pub open spec fn img_frame_offset(d: Seq<u8>, frame: int) -> u16 {
    le16_at(d, 8 + 2 * frame)
}

/// The byte offset where the pixel data of `frame` starts: past the header
/// and a 2-byte slack for single-tile assets, past the offset table plus the
/// frame's recorded offset for sprite maps.
pub open spec fn img_data_offset(d: Seq<u8>, frame: int) -> int {
    if img_tiles(d) > 1 {
        8 + 2 * img_tiles(d) + img_frame_offset(d, frame)
    } else {
        10
    }
}

/// The bytes of an asset reach far enough to read the header and, for a
/// sprite map, the selected frame's offset entry without overflowing the
/// 16-bit table-length arithmetic.
pub open spec fn img_wf(d: Seq<u8>, frame: int) -> bool {
    &&& d.len() >= 8
    &&& (img_tiles(d) > 1 ==> img_tiles(d) <= 0x7FFF && 8 + 2 * frame + 1 < d.len())
}

/// The 8-byte header of a packed image asset.
pub struct PawImageHeader {
    pub width: u16,
    pub height: u16,
    pub encoding: u16,
    pub tile_count: u16,
}

/// One drawable image asset and its selected frame.
pub struct PawImage {
    pub on_color: bool,
    pub off_color: bool,
    pub alpha_color: Option<bool>,
    pub data: Option<&'static [u8]>,
    pub frame: u8,
    pub image_ptr_offset: usize,
    pub encoding: u8,
    pub width: u8,
    pub height: u8,
}

impl PawImage {
    /// The cached header fields and data offset agree with the asset bytes
    /// and the selected frame.
    pub open spec fn header_ok(&self) -> bool {
        self.data matches Some(d) ==> {
            &&& img_wf(d@, self.frame as int)
            &&& self.image_ptr_offset == img_data_offset(d@, self.frame as int)
            &&& self.encoding == img_encoding(d@) as u8
            &&& self.width == img_width(d@) as u8
            &&& self.height == img_height(d@) as u8
        }
    }

    /// An image over `data`, initially at frame 0, drawn in white-on-black.
    pub fn new(data: Option<&'static [u8]>) -> (r: Self)
        requires
            data matches Some(d) ==> img_wf(d@, 0),
        ensures
            r.data == data,
            r.frame == 0,
            r.on_color == true,
            r.off_color == false,
            r.alpha_color is None,
            r.header_ok(),
    {
        let mut s = Self {
            off_color: false,
            on_color: true,
            alpha_color: None,
            data,
            frame: 0,
            image_ptr_offset: 0,
            encoding: 0,
            width: 0,
            height: 0,
        };
        s.set_image(data);
        return s;
    }

    /// An image with no asset attached.
    pub fn new_no_data() -> (r: Self)
        ensures
            r.data is None,
            r.frame == 0,
            r.on_color == true,
            r.off_color == false,
            r.alpha_color is None,
            r.header_ok(),
    {
        Self {
            off_color: false,
            on_color: true,
            alpha_color: None,
            data: None,
            frame: 0,
            image_ptr_offset: 0,
            encoding: 0,
            width: 0,
            height: 0,
        }
    }

    /// Attaches an asset, re-reading the header for the current frame.
    pub fn set_image(&mut self, data: Option<&'static [u8]>)
        requires
            data matches Some(d) ==> img_wf(d@, old(self).frame as int),
        ensures
            final(self).data == data,
            final(self).frame == old(self).frame,
            final(self).on_color == old(self).on_color,
            final(self).off_color == old(self).off_color,
            final(self).alpha_color == old(self).alpha_color,
            final(self).header_ok(),
    {
        self.data = data;
        self.update_image_data_offset();
    }

    /// Sets the drawing colors.
    pub fn set_colors(&mut self, on_color: bool, off_color: bool, alpha_color: Option<bool>)
        ensures
            final(self).on_color == on_color,
            final(self).off_color == off_color,
            final(self).alpha_color == alpha_color,
            final(self).data == old(self).data,
            final(self).frame == old(self).frame,
            final(self).image_ptr_offset == old(self).image_ptr_offset,
            final(self).encoding == old(self).encoding,
            final(self).width == old(self).width,
            final(self).height == old(self).height,
    {
        self.on_color = on_color;
        self.off_color = off_color;
        self.alpha_color = alpha_color;
    }

    /// Re-reads the cached header fields and the selected frame's data
    /// offset from the asset bytes. Does nothing without an asset.
    pub fn update_image_data_offset(&mut self)
        requires
            old(self).data matches Some(d) ==> img_wf(d@, old(self).frame as int),
        ensures
            final(self).data == old(self).data,
            final(self).frame == old(self).frame,
            final(self).on_color == old(self).on_color,
            final(self).off_color == old(self).off_color,
            final(self).alpha_color == old(self).alpha_color,
            final(self).header_ok(),
            old(self).data is None ==> *final(self) == *old(self),
    {
        match self.data {
            None => {},
            Some(data) => {
                let width = read_le16(data, 0);
                let height = read_le16(data, 2);
                let encoding = read_le16(data, 4);
                let tile_count = read_le16(data, 6);
                self.image_ptr_offset = 8 + 2;
                if tile_count > 1 {
                    let frame_offsets_length = tile_count * 2;
                    let frame = (self.frame as usize) * 2;
                    let frame_offset = read_le16(data, 8 + frame);
                    self.image_ptr_offset = 8 + (frame_offsets_length as usize) + (frame_offset
                        as usize);
                }
                self.width = width as u8;
                self.height = height as u8;
                self.encoding = encoding as u8;
            },
        }
    }

    /// Selects a frame, re-reading its data offset.
    pub fn set_frame(&mut self, frame: u8)
        requires
            old(self).data matches Some(d) ==> img_wf(d@, frame as int),
        ensures
            final(self).data == old(self).data,
            final(self).frame == frame,
            final(self).on_color == old(self).on_color,
            final(self).off_color == old(self).off_color,
            final(self).alpha_color == old(self).alpha_color,
            final(self).header_ok(),
    {
        self.frame = frame;
        self.update_image_data_offset();
    }
}

/// The `u16` stored little-endian at `data[at..at + 2]`.
fn read_le16(data: &[u8], at: usize) -> (r: u16)
    requires
        at + 2 <= data@.len(),
    ensures
        r == le16_at(data@, at as int),
{
    data[at] as u16 + (data[at + 1] as u16) * 0x100
}

/// A looping animation over a multi-frame image.
pub struct PawAnimation {
    pub image: PawImage,
    pub ticks_per_frame: u16,
    pub tick: u16,
    pub loop_bounds: (u8, u8),
}

impl PawAnimation {
    /// An animation looping over the frames in `bounds`, advancing every
    /// `ticks_per_frame` ticks; no asset is attached yet.
    pub fn new(bounds: (u8, u8), ticks_per_frame: u16) -> (r: Self)
        ensures
            r.image.data is None,
            r.image.frame == 0,
            r.image.header_ok(),
            r.ticks_per_frame == ticks_per_frame,
            r.tick == 0,
            r.loop_bounds == bounds,
    {
        Self { image: PawImage::new(None), ticks_per_frame, tick: 0, loop_bounds: bounds }
    }

    /// Attaches an asset to the underlying image.
    pub fn set_image(&mut self, data: Option<&'static [u8]>)
        requires
            data matches Some(d) ==> img_wf(d@, old(self).image.frame as int),
        ensures
            final(self).image.data == data,
            final(self).image.frame == old(self).image.frame,
            final(self).image.header_ok(),
            final(self).tick == old(self).tick,
            final(self).ticks_per_frame == old(self).ticks_per_frame,
            final(self).loop_bounds == old(self).loop_bounds,
    {
        self.image.set_image(data);
    }

    /// Advances the tick counter; past `ticks_per_frame` it wraps and steps
    /// the frame, looping back to frame 0 at the upper loop bound.
    pub fn tick(&mut self)
        requires
            old(self).tick < 0xFFFF,
            old(self).image.frame < 0xFF,
            old(self).image.header_ok(),
            old(self).image.data matches Some(d) ==> img_wf(d@, 0) && (old(self).image.frame + 1
                < old(self).loop_bounds.1 ==> img_wf(d@, old(self).image.frame + 1)),
        ensures
            final(self).ticks_per_frame == old(self).ticks_per_frame,
            final(self).loop_bounds == old(self).loop_bounds,
            final(self).image.data == old(self).image.data,
            final(self).image.header_ok(),
            old(self).tick + 1 > old(self).ticks_per_frame ==> final(self).tick == 0 && final(self).image.frame == (if old(self).image.frame + 1 >= old(self).loop_bounds.1 {
                0
            } else {
                old(self).image.frame + 1
            }),
            old(self).tick + 1 <= old(self).ticks_per_frame ==> final(self).tick == old(self).tick
                + 1 && final(self).image == old(self).image,
    {
        self.tick = self.tick + 1;
        if self.tick > self.ticks_per_frame {
            self.tick = 0;
            if self.image.frame + 1 >= self.loop_bounds.1 {
                self.image.set_frame(0);
            } else {
                self.image.set_frame(self.image.frame + 1);
            }
        }
    }

    /// Sets the drawing colors of the underlying image.
    pub fn set_colors(&mut self, on_color: bool, off_color: bool, alpha_color: Option<bool>)
        ensures
            final(self).image.on_color == on_color,
            final(self).image.off_color == off_color,
            final(self).image.alpha_color == alpha_color,
            final(self).image.data == old(self).image.data,
            final(self).image.frame == old(self).image.frame,
            final(self).tick == old(self).tick,
            final(self).ticks_per_frame == old(self).ticks_per_frame,
            final(self).loop_bounds == old(self).loop_bounds,
    {
        self.image.set_colors(on_color, off_color, alpha_color);
    }

    /// Selects a frame of the underlying image.
    pub fn set_frame(&mut self, frame: u8)
        requires
            old(self).image.data matches Some(d) ==> img_wf(d@, frame as int),
        ensures
            final(self).image.data == old(self).image.data,
            final(self).image.frame == frame,
            final(self).image.header_ok(),
            final(self).tick == old(self).tick,
            final(self).ticks_per_frame == old(self).ticks_per_frame,
            final(self).loop_bounds == old(self).loop_bounds,
    {
        self.image.set_frame(frame);
    }
}

} // verus!
