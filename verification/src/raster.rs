//! A decoded raster image held as plain values: dimensions plus one RGBA byte
//! buffer, four channel bytes per pixel, rows stored top to bottom.
//!
//! The two pack transforms (re-tiling, vertical compositing) are rectangle
//! copies, so the one primitive proved here is `blit_rect`; everything else is
//! stated over `chan`, the per-channel reading of the buffer.

use vstd::prelude::*;

verus! {

/// An RGBA image: `pixels` holds `4 * width * height` bytes, row-major,
/// four bytes (R, G, B, A) per pixel.
pub struct Raster {
    pub width: u32,
    pub height: u32,
    pub pixels: Vec<u8>,
}

/// The byte offset of channel `c` of the pixel at `(x, y)` in a buffer of
/// row width `w`.
pub open spec fn chan_index(w: int, x: int, y: int, c: int) -> int {
    4 * (y * w + x) + c
}

/// A channel offset for in-range coordinates lies within the buffer.
proof fn lemma_chan_index_bound(w: int, h: int, x: int, y: int, c: int)
    by (nonlinear_arith)
    requires
        0 <= x < w,
        0 <= y < h,
        0 <= c < 4,
    ensures
        0 <= chan_index(w, x, y, c) < 4 * w * h,
{
}

/// Distinct in-range coordinates have distinct channel offsets.
proof fn lemma_chan_index_distinct(
    w: int,
    h: int,
    x1: int,
    y1: int,
    c1: int,
    x2: int,
    y2: int,
    c2: int,
)
    by (nonlinear_arith)
    requires
        0 <= x1 < w,
        0 <= y1 < h,
        0 <= c1 < 4,
        0 <= x2 < w,
        0 <= y2 < h,
        0 <= c2 < 4,
        !(x1 == x2 && y1 == y2 && c1 == c2),
    ensures
        chan_index(w, x1, y1, c1) != chan_index(w, x2, y2, c2),
{
}

impl Raster {
    /// The buffer length agrees with the dimensions.
    pub open spec fn wf(self) -> bool {
        self.pixels@.len() == 4 * self.width * self.height
    }

    /// Channel `c` (0 = R, 1 = G, 2 = B, 3 = A) of the pixel at `(x, y)`.
    pub open spec fn chan(self, x: int, y: int, c: int) -> u8 {
        self.pixels@[chan_index(self.width as int, x, y, c)]
    }

    /// Builds a fully transparent (all channels zero) image.
    pub fn new_zero(width: u32, height: u32) -> (r: Raster)
        requires
            4 * (width as int) * (height as int) <= usize::MAX,
        ensures
            r.wf(),
            r.width == width,
            r.height == height,
            forall|x: int, y: int, c: int|
                0 <= x < width && 0 <= y < height && 0 <= c < 4 ==> #[trigger] r.chan(x, y, c)
                    == 0u8,
    {
        proof {
            assert(0 <= (width as int) * (height as int) && 4 * ((width as int) * (height as int))
                == 4 * (width as int) * (height as int)) by (nonlinear_arith);
        }
        let wh: usize = (width as usize) * (height as usize);
        let n: usize = 4 * wh;
        let mut pixels: Vec<u8> = Vec::with_capacity(n);
        for i in 0..n
            invariant
                pixels@.len() == i,
                forall|j: int| 0 <= j < i ==> #[trigger] pixels@[j] == 0u8,
        {
            pixels.push(0u8);
        }
        let r = Raster { width, height, pixels };
        assert forall|x: int, y: int, c: int|
            0 <= x < width && 0 <= y < height && 0 <= c < 4 implies #[trigger] r.chan(x, y, c)
            == 0u8 by {
            lemma_chan_index_bound(width as int, height as int, x, y, c);
        }
        r
    }

    /// Reads one channel byte.
    pub fn chan_at(&self, x: u32, y: u32, c: u32) -> (b: u8)
        requires
            self.wf(),
            x < self.width,
            y < self.height,
            c < 4,
        ensures
            b == self.chan(x as int, y as int, c as int),
    {
        let n = self.pixels.len();
        proof {
            lemma_chan_index_bound(
                self.width as int,
                self.height as int,
                x as int,
                y as int,
                c as int,
            );
        }
        let idx: usize = 4 * ((y as usize) * (self.width as usize) + (x as usize)) + (c as usize);
        self.pixels[idx]
    }

    /// Writes one channel byte; every other channel keeps its value.
    pub fn set_chan(&mut self, x: u32, y: u32, c: u32, b: u8)
        requires
            old(self).wf(),
            x < old(self).width,
            y < old(self).height,
            c < 4,
        ensures
            final(self).wf(),
            final(self).width == old(self).width,
            final(self).height == old(self).height,
            final(self).chan(x as int, y as int, c as int) == b,
            forall|x2: int, y2: int, c2: int|
                0 <= x2 < final(self).width && 0 <= y2 < final(self).height && 0 <= c2 < 4 && !(x2
                    == x as int && y2 == y as int && c2 == c as int) ==> #[trigger] final(self).chan(
                    x2,
                    y2,
                    c2,
                ) == old(self).chan(x2, y2, c2),
    {
        let n = self.pixels.len();
        proof {
            lemma_chan_index_bound(
                self.width as int,
                self.height as int,
                x as int,
                y as int,
                c as int,
            );
        }
        let idx: usize = 4 * ((y as usize) * (self.width as usize) + (x as usize)) + (c as usize);
        self.pixels.set(idx, b);
        assert forall|x2: int, y2: int, c2: int|
            0 <= x2 < self.width && 0 <= y2 < self.height && 0 <= c2 < 4 && !(x2 == x as int && y2
                == y as int && c2 == c as int) implies #[trigger] self.chan(x2, y2, c2) == old(
            self,
        ).chan(x2, y2, c2) by {
            lemma_chan_index_bound(self.width as int, self.height as int, x2, y2, c2);
            lemma_chan_index_distinct(
                self.width as int,
                self.height as int,
                x2,
                y2,
                c2,
                x as int,
                y as int,
                c as int,
            );
        }
    }

    /// Copies the `w x h` rectangle of `src` at `(sx, sy)` onto this image at
    /// `(dx, dy)`; every channel outside the destination rectangle keeps its
    /// value.
    pub fn blit_rect(&mut self, src: &Raster, sx: u32, sy: u32, w: u32, h: u32, dx: u32, dy: u32)
        requires
            old(self).wf(),
            src.wf(),
            sx + w <= src.width,
            sy + h <= src.height,
            dx + w <= old(self).width,
            dy + h <= old(self).height,
        ensures
            final(self).wf(),
            final(self).width == old(self).width,
            final(self).height == old(self).height,
            forall|x: int, y: int, c: int|
                dx <= x < dx + w && dy <= y < dy + h && 0 <= c < 4 ==> #[trigger] final(self).chan(
                    x,
                    y,
                    c,
                ) == src.chan(x - dx + sx, y - dy + sy, c),
            forall|x: int, y: int, c: int|
                0 <= x < final(self).width && 0 <= y < final(self).height && 0 <= c < 4 && !(dx <= x
                    < dx + w && dy <= y < dy + h) ==> #[trigger] final(self).chan(x, y, c) == old(
                    self,
                ).chan(x, y, c),
    {
        for y in 0..h
            invariant
                self.wf(),
                self.width == old(self).width,
                self.height == old(self).height,
                src.wf(),
                sx + w <= src.width,
                sy + h <= src.height,
                dx + w <= self.width,
                dy + h <= self.height,
                forall|x2: int, y2: int, c2: int|
                    dx <= x2 < dx + w && dy <= y2 < dy + y && 0 <= c2 < 4 ==> #[trigger] self.chan(
                        x2,
                        y2,
                        c2,
                    ) == src.chan(x2 - dx + sx, y2 - dy + sy, c2),
                forall|x2: int, y2: int, c2: int|
                    0 <= x2 < self.width && 0 <= y2 < self.height && 0 <= c2 < 4 && !(dx <= x2 < dx
                        + w && dy <= y2 < dy + y) ==> #[trigger] self.chan(x2, y2, c2) == old(
                        self,
                    ).chan(x2, y2, c2),
        {
            for x in 0..w
                invariant
                    self.wf(),
                    self.width == old(self).width,
                    self.height == old(self).height,
                    src.wf(),
                    sx + w <= src.width,
                    sy + h <= src.height,
                    dx + w <= self.width,
                    dy + h <= self.height,
                    y < h,
                    forall|x2: int, y2: int, c2: int|
                        dx <= x2 < dx + w && dy <= y2 < dy + y && 0 <= c2 < 4 ==> #[trigger] self.chan(
                            x2,
                            y2,
                            c2,
                        ) == src.chan(x2 - dx + sx, y2 - dy + sy, c2),
                    forall|x2: int, c2: int|
                        dx <= x2 < dx + x && 0 <= c2 < 4 ==> #[trigger] self.chan(
                            x2,
                            dy + y,
                            c2,
                        ) == src.chan(x2 - dx + sx, sy + y, c2),
                    forall|x2: int, y2: int, c2: int|
                        0 <= x2 < self.width && 0 <= y2 < self.height && 0 <= c2 < 4 && !(dx <= x2
                            < dx + w && dy <= y2 < dy + y) && !(dx <= x2 < dx + x && y2 == dy + y)
                            ==> #[trigger] self.chan(x2, y2, c2) == old(self).chan(x2, y2, c2),
            {
                for c in 0..4u32
                    invariant
                        self.wf(),
                        self.width == old(self).width,
                        self.height == old(self).height,
                        src.wf(),
                        sx + w <= src.width,
                        sy + h <= src.height,
                        dx + w <= self.width,
                        dy + h <= self.height,
                        y < h,
                        x < w,
                        forall|x2: int, y2: int, c2: int|
                            dx <= x2 < dx + w && dy <= y2 < dy + y && 0 <= c2 < 4 ==> #[trigger] self.chan(
                                x2,
                                y2,
                                c2,
                            ) == src.chan(x2 - dx + sx, y2 - dy + sy, c2),
                        forall|x2: int, c2: int|
                            dx <= x2 < dx + x && 0 <= c2 < 4 ==> #[trigger] self.chan(
                                x2,
                                dy + y,
                                c2,
                            ) == src.chan(x2 - dx + sx, sy + y, c2),
                        forall|c2: int|
                            0 <= c2 < c ==> #[trigger] self.chan(dx + x, dy + y, c2) == src.chan(
                                sx + x,
                                sy + y,
                                c2,
                            ),
                        forall|x2: int, y2: int, c2: int|
                            0 <= x2 < self.width && 0 <= y2 < self.height && 0 <= c2 < 4 && !(dx
                                <= x2 < dx + w && dy <= y2 < dy + y) && !(dx <= x2 < dx + x && y2
                                == dy + y) && !(x2 == dx + x && y2 == dy + y && c2 < c) ==> #[trigger] self.chan(
                                x2,
                                y2,
                                c2,
                            ) == old(self).chan(x2, y2, c2),
                {
                    let b = src.chan_at(sx + x, sy + y, c);
                    self.set_chan(dx + x, dy + y, c, b);
                }
            }
        }
    }
}

} // verus!
