//! The decoded framebuffer and the blitting of decoded tiles into it.
use vstd::prelude::*;
use crate::region::{contains, Rectangle, Region};
use crate::rfx_tile::TILE_BYTES;

verus! {

/// Byte order of a 32-bit framebuffer pixel.
#[derive(Clone, Copy, Debug, PartialEq, Eq, Structural)]
pub enum PixelFormat {
    RgbA32,
    BgrX32,
}

impl PixelFormat {
    pub fn bytes_per_pixel(&self) -> (r: u8)
        ensures
            r == 4,
    {
        4
    }
}

/// Index of the first byte of pixel `(x, y)` in a buffer `w` pixels wide.
pub open spec fn pix(w: int, x: int, y: int) -> int {
    (y * w + x) * 4
}

/// Byte `c` of a framebuffer pixel, from the BGRA tile pixel whose first byte is at `s`.
pub open spec fn converted(format: PixelFormat, tile: Seq<u8>, s: int, c: int) -> u8 {
    if c == 3 {
        0xFF
    } else {
        match format {
            PixelFormat::RgbA32 => tile[s + 2 - c],
            PixelFormat::BgrX32 => tile[s + c],
        }
    }
}

/// Index of the first byte of the tile pixel that lands on `(x, y)`.
pub open spec fn tile_source(update: Rectangle, x: int, y: int) -> int {
    ((y - update.top) * 64 + (x - update.left)) * 4
}

proof fn lemma_pix_bounds(w: int, h: int, x: int, y: int, c: int)
    requires
        0 <= x < w,
        0 <= y < h,
        0 <= c < 4,
    ensures
        0 <= pix(w, x, y) + c < w * h * 4,
{
    assert(0 <= (y * w + x) * 4 + c < w * h * 4) by (nonlinear_arith)
        requires
            0 <= x < w,
            0 <= y < h,
            0 <= c < 4,
    ;
}

proof fn lemma_pix_injective(w: int, x: int, y: int, c: int, x2: int, y2: int, c2: int)
    requires
        0 <= x < w,
        0 <= x2 < w,
        0 <= y,
        0 <= y2,
        0 <= c < 4,
        0 <= c2 < 4,
        pix(w, x, y) + c == pix(w, x2, y2) + c2,
    ensures
        x == x2 && y == y2 && c == c2,
{
    assert(c == c2 && y * w + x == y2 * w + x2) by (nonlinear_arith)
        requires
            0 <= c < 4,
            0 <= c2 < 4,
            (y * w + x) * 4 + c == (y2 * w + x2) * 4 + c2,
    ;
    if y < y2 {
        assert(y * w + x < y2 * w) by (nonlinear_arith)
            requires
                y < y2,
                0 <= x < w,
        ;
    } else if y2 < y {
        assert(y2 * w + x2 < y * w) by (nonlinear_arith)
            requires
                y2 < y,
                0 <= x2 < w,
        ;
    }
}

/// The framebuffer that decoded tiles are drawn into.
pub struct DecodedImage {
    data: Vec<u8>,
    width: u32,
    height: u32,
    pixel_format: PixelFormat,
}

impl DecodedImage {
    pub closed spec fn spec_width(&self) -> int {
        self.width as int
    }

    pub closed spec fn spec_height(&self) -> int {
        self.height as int
    }

    pub closed spec fn spec_format(&self) -> PixelFormat {
        self.pixel_format
    }

    /// The bytes of the framebuffer, row by row.
    pub closed spec fn bytes(&self) -> Seq<u8> {
        self.data@
    }

    pub open spec fn wf(&self) -> bool {
        self.bytes().len() == self.spec_width() * self.spec_height() * 4
    }

    /// A zeroed framebuffer of `width` by `height` pixels.
    pub fn new(width: u32, height: u32, pixel_format: PixelFormat) -> (r: Self)
        requires
            width * height * 4 <= usize::MAX,
        ensures
            r.wf(),
            r.spec_width() == width,
            r.spec_height() == height,
            r.spec_format() == pixel_format,
            forall|i: int| 0 <= i < r.bytes().len() ==> #[trigger] r.bytes()[i] == 0,
    {
        let size = width as usize * height as usize * 4;
        let data = vec![0u8; size];
        DecodedImage { data, width, height, pixel_format }
    }

    pub fn width(&self) -> (r: u32)
        ensures
            r == self.spec_width(),
    {
        self.width
    }

    pub fn height(&self) -> (r: u32)
        ensures
            r == self.spec_height(),
    {
        self.height
    }

    pub fn data(&self) -> (r: &[u8])
        ensures
            r@ == self.bytes(),
    {
        self.data.as_slice()
    }

    /// The bytes of the framebuffer, for an external renderer to read and write.
    pub fn get_mut(&mut self) -> (r: &mut [u8])
        ensures
            r@ == old(self).bytes(),
            final(self).bytes() == final(r)@,
            final(self).spec_width() == old(self).spec_width(),
            final(self).spec_height() == old(self).spec_height(),
            final(self).spec_format() == old(self).spec_format(),
    {
        self.data.as_mut_slice()
    }

    /// Copies the pixels of a decoded 64x64 BGRA tile placed at `update` into
    /// the framebuffer, where they fall inside both the clipping region and
    /// the framebuffer.
    pub fn apply_tile(&mut self, tile: &Vec<u8>, clipping: &Region, update: &Rectangle)
        requires
            old(self).wf(),
            tile@.len() == TILE_BYTES,
            update.right <= update.left + 64,
            update.bottom <= update.top + 64,
        ensures
            final(self).wf(),
            final(self).spec_width() == old(self).spec_width(),
            final(self).spec_height() == old(self).spec_height(),
            final(self).spec_format() == old(self).spec_format(),
            forall|x: int, y: int, c: int|
                0 <= x < old(self).spec_width() && 0 <= y < old(self).spec_height() && 0 <= c < 4
                    ==> #[trigger] final(self).bytes()[pix(old(self).spec_width(), x, y) + c] == if contains(*update, x, y)
                    && clipping.covers(x, y) {
                    converted(old(self).spec_format(), tile@, tile_source(*update, x, y), c)
                } else {
                    old(self).bytes()[pix(old(self).spec_width(), x, y) + c]
                },
    {
        let ghost w = self.width as int;
        let ghost h = self.height as int;
        let ghost before = self.data@;
        let n = clipping.rectangles.len();
        let mut i: usize = 0;
        while i < n
            invariant
                i <= n,
                n == clipping.rectangles@.len(),
                self.wf(),
                w == self.width,
                h == self.height,
                self.width == old(self).width,
                self.height == old(self).height,
                self.pixel_format == old(self).pixel_format,
                before == old(self).data@,
                tile@.len() == TILE_BYTES,
                update.right <= update.left + 64,
                update.bottom <= update.top + 64,
                forall|x: int, y: int, c: int|
                    0 <= x < w && 0 <= y < h && 0 <= c < 4 ==> #[trigger] self.data@[pix(w, x, y) + c]
                        == if contains(*update, x, y) && crate::region::covered(
                        clipping.rectangles@.subrange(0, i as int),
                        x,
                        y,
                    ) {
                        converted(self.pixel_format, tile@, tile_source(*update, x, y), c)
                    } else {
                        before[pix(w, x, y) + c]
                    },
            decreases n - i,
        {
            let rect = clipping.rectangles[i];
            self.blit_rectangle(tile, &rect, update, Ghost(clipping.rectangles@.subrange(0, i as int)), Ghost(before));
            proof {
                let pre = clipping.rectangles@.subrange(0, i as int);
                let pre1 = clipping.rectangles@.subrange(0, i + 1);
                assert forall|x: int, y: int|
                    crate::region::covered(pre1, x, y) <==> crate::region::covered(pre, x, y) || contains(rect, x, y) by {
                    if crate::region::covered(pre1, x, y) {
                        let k = choose|k: int| 0 <= k < pre1.len() && #[trigger] contains(pre1[k], x, y);
                        if k < i {
                            assert(pre[k] == pre1[k]);
                        }
                    }
                    if crate::region::covered(pre, x, y) {
                        let k = choose|k: int| 0 <= k < pre.len() && #[trigger] contains(pre[k], x, y);
                        assert(pre1[k] == pre[k]);
                    }
                    if contains(rect, x, y) {
                        assert(pre1[i as int] == rect);
                    }
                }
            }
            i += 1;
        }
        assert(clipping.rectangles@.subrange(0, n as int) =~= clipping.rectangles@);
    }

    /// Draws the part of the tile that falls in `rect`, on top of the parts of
    /// `done` already drawn over `before`.
    fn blit_rectangle(
        &mut self,
        tile: &Vec<u8>,
        rect: &Rectangle,
        update: &Rectangle,
        done: Ghost<Seq<Rectangle>>,
        before: Ghost<Seq<u8>>,
    )
        requires
            old(self).wf(),
            tile@.len() == TILE_BYTES,
            update.right <= update.left + 64,
            update.bottom <= update.top + 64,
            forall|x: int, y: int, c: int|
                0 <= x < old(self).width && 0 <= y < old(self).height && 0 <= c < 4
                    ==> #[trigger] old(self).data@[pix(old(self).width as int, x, y) + c] == if contains(*update, x, y)
                    && crate::region::covered(done@, x, y) {
                    converted(old(self).pixel_format, tile@, tile_source(*update, x, y), c)
                } else {
                    before@[pix(old(self).width as int, x, y) + c]
                },
        ensures
            final(self).wf(),
            final(self).width == old(self).width,
            final(self).height == old(self).height,
            final(self).pixel_format == old(self).pixel_format,
            forall|x: int, y: int, c: int|
                0 <= x < old(self).width && 0 <= y < old(self).height && 0 <= c < 4
                    ==> #[trigger] final(self).data@[pix(old(self).width as int, x, y) + c] == if contains(*update, x, y)
                    && (crate::region::covered(done@, x, y) || contains(*rect, x, y)) {
                    converted(old(self).pixel_format, tile@, tile_source(*update, x, y), c)
                } else {
                    before@[pix(old(self).width as int, x, y) + c]
                },
    {
        let ghost w = self.width as int;
        let ghost h = self.height as int;
        let width = self.width as usize;
        let height = self.height as usize;
        let x0 = if rect.left > update.left { rect.left } else { update.left } as usize;
        let x1a = if rect.right < update.right { rect.right } else { update.right } as usize;
        let x1 = if x1a < width { x1a } else { width };
        let y0 = if rect.top > update.top { rect.top } else { update.top } as usize;
        let y1a = if rect.bottom < update.bottom { rect.bottom } else { update.bottom } as usize;
        let y1 = if y1a < height { y1a } else { height };
        let mut y = y0;
        while y < y1
            invariant
                y0 <= y || y >= y1,
                y0 <= y,
                y1 <= height,
                x1 <= width,
                width == self.width,
                height == self.height,
                w == width,
                h == height,
                self.width == old(self).width,
                self.height == old(self).height,
                self.pixel_format == old(self).pixel_format,
                self.wf(),
                tile@.len() == TILE_BYTES,
                x0 == (if rect.left > update.left { rect.left } else { update.left }),
                x1 == (if x1a < width { x1a } else { width }),
                x1a == (if rect.right < update.right { rect.right } else { update.right }),
                y0 == (if rect.top > update.top { rect.top } else { update.top }),
                y1 == (if y1a < height { y1a } else { height }),
                y1a == (if rect.bottom < update.bottom { rect.bottom } else { update.bottom }),
                update.right <= update.left + 64,
                update.bottom <= update.top + 64,
                forall|px: int, py: int, c: int|
                    0 <= px < w && 0 <= py < h && 0 <= c < 4 ==> #[trigger] self.data@[pix(w, px, py) + c]
                        == if contains(*update, px, py) && (crate::region::covered(done@, px, py) || (
                    contains(*rect, px, py) && py < y)) {
                        converted(self.pixel_format, tile@, tile_source(*update, px, py), c)
                    } else {
                        before@[pix(w, px, py) + c]
                    },
            decreases y1 - y,
        {
            let mut x = x0;
            while x < x1
                invariant
                    x0 <= x,
                    y0 <= y < y1,
                    y1 <= height,
                    x1 <= width,
                    width == self.width,
                    height == self.height,
                    w == width,
                    h == height,
                    self.width == old(self).width,
                    self.height == old(self).height,
                    self.pixel_format == old(self).pixel_format,
                    self.wf(),
                    tile@.len() == TILE_BYTES,
                    x0 == (if rect.left > update.left { rect.left } else { update.left }),
                    x1 == (if x1a < width { x1a } else { width }),
                    x1a == (if rect.right < update.right { rect.right } else { update.right }),
                    y0 == (if rect.top > update.top { rect.top } else { update.top }),
                    y1 == (if y1a < height { y1a } else { height }),
                    y1a == (if rect.bottom < update.bottom { rect.bottom } else { update.bottom }),
                    update.right <= update.left + 64,
                    update.bottom <= update.top + 64,
                    forall|px: int, py: int, c: int|
                        0 <= px < w && 0 <= py < h && 0 <= c < 4 ==> #[trigger] self.data@[pix(w, px, py) + c]
                            == if contains(*update, px, py) && (crate::region::covered(done@, px, py) || (
                        contains(*rect, px, py) && (py < y || (py == y && px < x)))) {
                            converted(self.pixel_format, tile@, tile_source(*update, px, py), c)
                        } else {
                            before@[pix(w, px, py) + c]
                        },
                decreases x1 - x,
            {
                let total = self.data.len();
                proof {
                    lemma_pix_bounds(w, h, x as int, y as int, 3);
                    assert((y * width + x) * 4 + 3 < total);
                    assert(0 <= y * width <= y * width + x) by (nonlinear_arith)
                        requires
                            0 <= y,
                            0 <= width,
                            0 <= x,
                    ;
                }
                let d = (y * width + x) * 4;
                let s = ((y - update.top as usize) * 64 + (x - update.left as usize)) * 4;
                let ghost prev = self.data@;
                match self.pixel_format {
                    PixelFormat::RgbA32 => {
                        self.data.set(d, tile[s + 2]);
                        self.data.set(d + 1, tile[s + 1]);
                        self.data.set(d + 2, tile[s]);
                    },
                    PixelFormat::BgrX32 => {
                        self.data.set(d, tile[s]);
                        self.data.set(d + 1, tile[s + 1]);
                        self.data.set(d + 2, tile[s + 2]);
                    },
                }
                self.data.set(d + 3, 0xFF);
                proof {
                    assert forall|px: int, py: int, c: int|
                        0 <= px < w && 0 <= py < h && 0 <= c < 4 implies #[trigger] self.data@[pix(w, px, py) + c]
                            == if contains(*update, px, py) && (crate::region::covered(done@, px, py) || (
                        contains(*rect, px, py) && (py < y || (py == y && px < x + 1)))) {
                            converted(self.pixel_format, tile@, tile_source(*update, px, py), c)
                        } else {
                            before@[pix(w, px, py) + c]
                        } by {
                        lemma_pix_bounds(w, h, px, py, c);
                        if px == x && py == y {
                            assert(pix(w, px, py) == d);
                            assert(tile_source(*update, px, py) == s);
                        } else {
                            if pix(w, px, py) + c == d + 0 { lemma_pix_injective(w, px, py, c, x as int, y as int, 0); }
                            if pix(w, px, py) + c == d + 1 { lemma_pix_injective(w, px, py, c, x as int, y as int, 1); }
                            if pix(w, px, py) + c == d + 2 { lemma_pix_injective(w, px, py, c, x as int, y as int, 2); }
                            if pix(w, px, py) + c == d + 3 { lemma_pix_injective(w, px, py, c, x as int, y as int, 3); }
                            assert(self.data@[pix(w, px, py) + c] == prev[pix(w, px, py) + c]);
                        }
                    }
                }
                x += 1;
            }
            y += 1;
        }
    }
}

} // verus!
