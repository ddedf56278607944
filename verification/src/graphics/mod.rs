//! The framebuffer: a double buffer the kernel draws into, and what the monitor's EDID tells.

pub mod edid;

use vstd::prelude::*;

verus! {

/// A pixel color packed as the 32-bit framebuffer stores it: `0x00RRGGBB`.
pub open spec fn pack_rgb(r: u8, g: u8, b: u8) -> u32 {
    ((r as u32) * 0x10000 + (g as u32) * 0x100 + (b as u32)) as u32
}

/// The back buffer of a double-buffered hardware framebuffer. The kernel draws into it, and a
/// flush copies it to the screen.
pub struct DoubleBuffer {
    back_buffer: Vec<u32>,
    width: u64,
    height: u64,
    pitch: u64,
}

impl DoubleBuffer {
    /// The pixels of the back buffer, row after row, `pitch / 4` pixels per row.
    pub closed spec fn pixels(&self) -> Seq<u32> {
        self.back_buffer@
    }

    /// Width of the visible area in pixels.
    pub closed spec fn width_spec(&self) -> u64 {
        self.width
    }

    /// Height of the visible area in pixels.
    pub closed spec fn height_spec(&self) -> u64 {
        self.height
    }

    /// Bytes per row.
    pub closed spec fn pitch_spec(&self) -> u64 {
        self.pitch
    }

    /// The pixel `(x, y)` is on the screen.
    pub open spec fn on_screen(&self, x: i32, y: i32) -> bool {
        0 <= x < self.width_spec() && 0 <= y < self.height_spec()
    }

    /// Where pixel `(x, y)` sits in the back buffer.
    pub open spec fn pixel_index(&self, x: i32, y: i32) -> int {
        y * (self.pitch_spec() / 4) + x
    }

    /// Wraps a hardware framebuffer of `width` x `height` pixels, `pitch` bytes per row and
    /// `bpp` bits per pixel. Only 32-bit framebuffers are supported. The back buffer starts
    /// black.
    pub fn new(width: u64, height: u64, pitch: u64, bpp: u16) -> (r: Self)
        requires
            bpp == 32,
            (pitch / 4) * height <= usize::MAX,
        ensures
            r.width_spec() == width,
            r.height_spec() == height,
            r.pitch_spec() == pitch,
            r.pixels() == Seq::new(((pitch / 4) * height) as nat, |i: int| 0u32),
    {
        // Calculate the number of pixels in the framebuffer and allocate the back buffer.
        let pixels_count = (pitch / 4) * height;
        let back_buffer = vec![0u32; pixels_count as usize];
        assert(back_buffer@ =~= Seq::new(((pitch / 4) * height) as nat, |i: int| 0u32));
        Self { back_buffer, width, height, pitch }
    }

    /// The size of the visible area, `(width, height)`, each truncated to 32 bits.
    pub fn size(&self) -> (r: (u32, u32))
        ensures
            r == (self.width_spec() as u32, self.height_spec() as u32),
    {
        (self.width as u32, self.height as u32)
    }

    /// The back buffer, for a flush to copy to the screen.
    pub fn back_buffer(&self) -> (r: &Vec<u32>)
        ensures
            r@ == self.pixels(),
    {
        &self.back_buffer
    }

    /// Draws the pixel `(x, y)` in the color `(r, g, b)`; pixels that are off-screen are
    /// dropped.
    pub fn draw_pixel(&mut self, x: i32, y: i32, r: u8, g: u8, b: u8)
        requires
            old(self).on_screen(x, y) ==> old(self).pixel_index(x, y) < old(self).pixels().len(),
        ensures
            final(self).width_spec() == old(self).width_spec(),
            final(self).height_spec() == old(self).height_spec(),
            final(self).pitch_spec() == old(self).pitch_spec(),
            final(self).pixels() == if old(self).on_screen(x, y) {
                old(self).pixels().update(old(self).pixel_index(x, y), pack_rgb(r, g, b))
            } else {
                old(self).pixels()
            },
    {
        // Drop pixels that are off-screen.
        if x >= 0 && (x as u64) < self.width && y >= 0 && (y as u64) < self.height {
            let row = self.pitch / 4;
            let len = self.back_buffer.len();
            proof {
                assert(self.on_screen(x, y));
                assert((y as u64) * row + (x as u64) == self.pixel_index(x, y));
            }
            let index = ((y as u64) * row + (x as u64)) as usize;
            let rr = r as u32;
            let gg = g as u32;
            let bb = b as u32;
            assert((rr << 16u32) | (gg << 8u32) | bb == rr * 0x10000 + gg * 0x100 + bb)
                by (bit_vector)
                requires
                    rr < 256,
                    gg < 256,
                    bb < 256,
            ;
            let raw_color = (rr << 16u32) | (gg << 8u32) | bb;
            self.back_buffer.set(index, raw_color);
        }
    }
}

/// A reader over a byte slice, handing the bytes out in order.
pub struct SliceReader<'a> {
    data: &'a [u8],
    pos: usize,
}

impl<'a> SliceReader<'a> {
    /// The bytes read from.
    pub closed spec fn data_spec(&self) -> Seq<u8> {
        self.data@
    }

    /// How many bytes were handed out.
    pub closed spec fn position(&self) -> int {
        self.pos as int
    }

    /// A reader at the start of `data`.
    pub fn new(data: &'a [u8]) -> (r: Self)
        ensures
            r.data_spec() == data@,
            r.position() == 0,
    {
        SliceReader { data, pos: 0 }
    }

    /// Copies the next bytes into `buf`, as many as fit and are left; returns how many.
    /// `Some(0)` marks the end of the data.
    pub fn read(&mut self, buf: &mut [u8]) -> (r: Option<usize>)
        ensures
            final(self).data_spec() == old(self).data_spec(),
            ({
                let data = old(self).data_spec();
                let pos = old(self).position();
                if pos >= data.len() {
                    &&& r == Some(0usize)
                    &&& final(self).position() == pos
                    &&& final(buf)@ == old(buf)@
                } else {
                    let n = if data.len() - pos < old(buf)@.len() {
                        data.len() - pos
                    } else {
                        old(buf)@.len() as int
                    };
                    &&& r == Some(n as usize)
                    &&& final(self).position() == pos + n
                    &&& final(buf)@ == data.subrange(pos, pos + n) + old(buf)@.subrange(
                        n,
                        old(buf)@.len() as int,
                    )
                }
            }),
    {
        if self.pos >= self.data.len() {
            return Some(0);  // EOF
        }
        let data_len = self.data.len();
        let remain = data_len - self.pos;
        let read_len = if remain < buf.len() { remain } else { buf.len() };
        let mut i: usize = 0;
        while i < read_len
            invariant
                i <= read_len,
                read_len <= remain,
                read_len <= buf@.len(),
                buf@.len() == old(buf)@.len(),
                remain == self.data@.len() - self.pos,
                self.pos + read_len <= self.data@.len(),
                data_len == self.data@.len(),
                self.pos == old(self).pos,
                self.data@ == old(self).data@,
                forall|k: int| 0 <= k < i ==> buf@[k] == self.data@[self.pos + k],
                forall|k: int| i <= k < buf@.len() ==> buf@[k] == old(buf)@[k],
            decreases read_len - i,
        {
            buf[i] = self.data[self.pos + i];
            i = i + 1;
        }
        proof {
            assert(buf@ =~= self.data@.subrange(self.pos as int, self.pos + read_len)
                + old(buf)@.subrange(read_len as int, old(buf)@.len() as int));
        }
        self.pos = self.pos + read_len;
        Some(read_len)
    }
}

} // verus!
