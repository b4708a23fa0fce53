use vstd::prelude::*;
use crate::rect::Rect;

verus! {


/// Source-over compositing of pixel `s` onto `d`, the alpha in the top byte:
/// an opaque source replaces, a transparent one keeps, others mix the red and
/// blue channels and the green and alpha channels by the source's alpha.
pub open spec fn blend_spec(d: u32, s: u32) -> u32 {
    let a = (s >> 24u32) as u64;
    if a >= 255 {
        s
    } else if a == 0 {
        d
    } else {
        let n = 255 - a;
        let rb = ((n * ((d & 0x00FF_00FFu32) as u64) + a * ((s & 0x00FF_00FFu32) as u64)) as u64) >> 8u64;
        let ag = (n * (((d & 0xFF00_FF00u32) >> 8u32) as u64) + a * ((0x0100_0000u32 | ((s & 0x0000_FF00u32) >> 8u32)) as u64)) as u64;
        (((rb & 0x00FF_00FFu64) | (ag & 0xFF00_FF00u64)) as u32)
    }
}

/// One pixel of `blend_spec`.
pub fn blend_pixel(d: u32, s: u32) -> (r: u32)
    ensures
        r == blend_spec(d, s),
{
    let a = (s >> 24u32) as u64;
    if a >= 255 {
        s
    } else if a == 0 {
        d
    } else {
        let n = 255 - a;
        let d1 = (d & 0x00FF_00FFu32) as u64;
        let s1 = (s & 0x00FF_00FFu32) as u64;
        let d2 = ((d & 0xFF00_FF00u32) >> 8u32) as u64;
        let s2 = (0x0100_0000u32 | ((s & 0x0000_FF00u32) >> 8u32)) as u64;
        assert(d1 <= 0xFFFF_FFFF && s1 <= 0xFFFF_FFFF && d2 <= 0xFFFF_FFFF && s2 <= 0xFFFF_FFFF);
        assert(n * d1 <= 255 * 0xFFFF_FFFF) by (nonlinear_arith) requires n <= 255, d1 <= 0xFFFF_FFFF;
        assert(a * s1 <= 255 * 0xFFFF_FFFF) by (nonlinear_arith) requires a <= 255, s1 <= 0xFFFF_FFFF;
        assert(n * d2 <= 255 * 0xFFFF_FFFF) by (nonlinear_arith) requires n <= 255, d2 <= 0xFFFF_FFFF;
        assert(a * s2 <= 255 * 0xFFFF_FFFF) by (nonlinear_arith) requires a <= 255, s2 <= 0xFFFF_FFFF;
        let rb = (n * d1 + a * s1) >> 8u64;
        let ag = n * d2 + a * s2;
        ((rb & 0x00FF_00FFu64) | (ag & 0xFF00_FF00u64)) as u32
    }
}

/// A `width` by `height` buffer of 32-bit pixels, row by row.
pub struct Image {
    pub width: usize,
    pub height: usize,
    pub data: Vec<u32>,
}

proof fn lemma_index(w: int, h: int, x: int, y: int)
    requires
        0 <= x < w,
        0 <= y < h,
    ensures
        0 <= y * w + x < w * h,
{
    assert(0 <= y * w + x < w * h) by (nonlinear_arith)
        requires
            0 <= x < w,
            0 <= y < h,
    ;
}

proof fn lemma_index_distinct(w: int, x1: int, y1: int, x2: int, y2: int)
    requires
        0 <= x1 < w,
        0 <= x2 < w,
        0 <= y1,
        0 <= y2,
        x1 != x2 || y1 != y2,
    ensures
        y1 * w + x1 != y2 * w + x2,
{
    if y1 == y2 {
    } else if y1 < y2 {
        assert(y1 * w + x1 < y2 * w + x2) by (nonlinear_arith)
            requires
                0 <= x1 < w,
                0 <= x2,
                y1 < y2,
        ;
    } else {
        assert(y2 * w + x2 < y1 * w + x1) by (nonlinear_arith)
            requires
                0 <= x2 < w,
                0 <= x1,
                y2 < y1,
        ;
    }
}

impl Image {
    pub open spec fn wf(&self) -> bool {
        self.data@.len() == self.width * self.height
    }

    /// The pixel at column `x` of row `y`.
    pub open spec fn pixel(&self, x: int, y: int) -> u32 {
        self.data@[y * self.width + x]
    }

    /// An image of one color.
    pub fn from_color(width: usize, height: usize, color: u32) -> (r: Image)
        requires
            width * height <= usize::MAX,
        ensures
            r.wf(),
            r.width == width,
            r.height == height,
            forall|x: int, y: int| 0 <= x < width && 0 <= y < height ==> #[trigger] r.pixel(x, y) == color,
    {
        let n = width * height;
        let mut data: Vec<u32> = Vec::new();
        let mut i: usize = 0;
        while i < n
            invariant
                i <= n,
                n == width * height,
                data@.len() == i,
                forall|j: int| 0 <= j < i ==> data@[j] == color,
            decreases n - i,
        {
            data.push(color);
            i = i + 1;
        }
        let r = Image { width, height, data };
        proof {
            assert forall|x: int, y: int| 0 <= x < width && 0 <= y < height implies #[trigger] r.pixel(x, y) == color by {
                lemma_index(width as int, height as int, x, y);
            }
        }
        r
    }

    /// Fills the part of `rect` that lies in the image with `color`; every
    /// other pixel is kept.
    pub fn rect_fill(&mut self, rect: Rect, color: u32)
        requires
            old(self).wf(),
            rect.wf(),
        ensures
            final(self).wf(),
            final(self).width == old(self).width,
            final(self).height == old(self).height,
            forall|x: int, y: int| 0 <= x < old(self).width && 0 <= y < old(self).height ==>
                #[trigger] final(self).pixel(x, y) == (if rect.contains_spec(x, y) { color } else { old(self).pixel(x, y) }),
    {
        let w = self.width;
        let h = self.height;
        let x0: usize = if rect.x < 0 { 0 } else if rect.x as i128 > w as i128 { w } else { rect.x as usize };
        let y0: usize = if rect.y < 0 { 0 } else if rect.y as i128 > h as i128 { h } else { rect.y as usize };
        let xe = rect.x + rect.w;
        let ye = rect.y + rect.h;
        let x1: usize = if xe < x0 as i64 { x0 } else if xe as i128 > w as i128 { w } else { xe as usize };
        let y1: usize = if ye < y0 as i64 { y0 } else if ye as i128 > h as i128 { h } else { ye as usize };
        let mut row = y0;
        while row < y1
            invariant
                self.wf(),
                self.width == w && self.height == h,
                w == old(self).width && h == old(self).height,
                x0 <= x1 <= w,
                y0 <= row <= y1 <= h,
                forall|x: int, y: int| 0 <= x < w && 0 <= y < h ==> (rect.contains_spec(x, y) <==> (x0 <= x < x1 && y0 <= y < y1)),
                forall|x: int, y: int| 0 <= x < w && 0 <= y < h ==>
                    #[trigger] self.pixel(x, y) == (if x0 <= x < x1 && y0 <= y < row { color } else { old(self).pixel(x, y) }),
            decreases y1 - row,
        {
            let mut col = x0;
            while col < x1
                invariant
                    self.wf(),
                    self.width == w && self.height == h,
                    w == old(self).width && h == old(self).height,
                    x0 <= col <= x1 <= w,
                    y0 <= row < y1 <= h,
                    forall|x: int, y: int| 0 <= x < w && 0 <= y < h ==>
                        #[trigger] self.pixel(x, y) == (if x0 <= x < x1 && (y0 <= y < row || (y == row && x < col)) { color } else { old(self).pixel(x, y) }),
                decreases x1 - col,
            {
                let n = self.data.len();
                proof {
                    lemma_index(w as int, h as int, col as int, row as int);
                    assert(self.data@.len() == w * h);
                    assert(row * w + col < n);
                    assert(row * w + col < self.data@.len());
                    assert(row * w <= row * w + col);
                }
                let ghost before = *self;
                let idx = row * w + col;
                self.data.set(idx, color);
                proof {
                    assert forall|x: int, y: int| 0 <= x < w && 0 <= y < h implies
                        #[trigger] self.pixel(x, y) == (if x0 <= x < x1 && (y0 <= y < row || (y == row && x < col + 1)) { color } else { old(self).pixel(x, y) }) by {
                        lemma_index(w as int, h as int, x, y);
                        if x != col || y != row {
                            lemma_index_distinct(w as int, x, y, col as int, row as int);
                            assert(self.pixel(x, y) == before.pixel(x, y));
                        }
                    }
                }
                col = col + 1;
            }
            row = row + 1;
        }
    }

    /// Copies `src`, placed with its top-left corner at `(x, y)`, onto the
    /// pixels that lie in `clip`, in this image and under `src`; alpha is ignored.
    pub fn blit(&mut self, x: i64, y: i64, src: &Image, clip: Rect)
        requires
            old(self).wf(),
            src.wf(),
            clip.wf(),
            -0x100_0000_0000 <= x <= 0x100_0000_0000,
            -0x100_0000_0000 <= y <= 0x100_0000_0000,
            old(self).width <= 0x100_0000_0000,
            old(self).height <= 0x100_0000_0000,
        ensures
            final(self).wf(),
            final(self).width == old(self).width,
            final(self).height == old(self).height,
            forall|px: int, py: int| 0 <= px < old(self).width && 0 <= py < old(self).height ==>
                #[trigger] final(self).pixel(px, py) == (if clip.contains_spec(px, py) && x <= px < x + src.width && y <= py < y + src.height {
                    src.pixel(px - x, py - y)
                } else {
                    old(self).pixel(px, py)
                }),
    {
        let w = self.width;
        let h = self.height;
        let mut row: usize = 0;
        while row < h
            invariant
                self.wf(),
                src.wf(),
                clip.wf(),
                self.width == w && self.height == h,
                w == old(self).width && h == old(self).height,
                w <= 0x100_0000_0000 && h <= 0x100_0000_0000,
                -0x100_0000_0000 <= x <= 0x100_0000_0000,
                -0x100_0000_0000 <= y <= 0x100_0000_0000,
                row <= h,
                forall|px: int, py: int| 0 <= px < w && 0 <= py < h ==>
                    #[trigger] self.pixel(px, py) == (if py < row && clip.contains_spec(px, py) && x <= px < x + src.width && y <= py < y + src.height {
                        src.pixel(px - x, py - y)
                    } else {
                        old(self).pixel(px, py)
                    }),
            decreases h - row,
        {
            let mut col: usize = 0;
            while col < w
                invariant
                    self.wf(),
                    src.wf(),
                    clip.wf(),
                    self.width == w && self.height == h,
                    w == old(self).width && h == old(self).height,
                    w <= 0x100_0000_0000 && h <= 0x100_0000_0000,
                    -0x100_0000_0000 <= x <= 0x100_0000_0000,
                    -0x100_0000_0000 <= y <= 0x100_0000_0000,
                    col <= w,
                    row < h,
                    forall|px: int, py: int| 0 <= px < w && 0 <= py < h ==>
                        #[trigger] self.pixel(px, py) == (if (py < row || (py == row && px < col)) && clip.contains_spec(px, py) && x <= px < x + src.width && y <= py < y + src.height {
                            src.pixel(px - x, py - y)
                        } else {
                            old(self).pixel(px, py)
                        }),
                decreases w - col,
            {
                let ghost before = *self;
                let n = self.data.len();
                let sn = src.data.len();
                let (cx, cy) = (col as i64, row as i64);
                proof {
                    lemma_index(w as int, h as int, col as int, row as int);
                    assert(row * w + col < n);
                    assert(row * w <= row * w + col);
                }
                if clip.contains(cx, cy) && x <= cx && (cx as i128 - x as i128) < src.width as i128 && y <= cy && (cy as i128 - y as i128) < src.height as i128 {
                    let sx = (cx - x) as usize;
                    let sy = (cy - y) as usize;
                    proof {
                        lemma_index(src.width as int, src.height as int, sx as int, sy as int);
                        assert(sy * src.width + sx < sn);
                        assert(sy * src.width <= sy * src.width + sx);
                    }
                    let v = src.data[sy * src.width + sx];
                    self.data.set(row * w + col, v);
                }
                proof {
                    assert forall|px: int, py: int| 0 <= px < w && 0 <= py < h implies
                        #[trigger] self.pixel(px, py) == (if (py < row || (py == row && px < col + 1)) && clip.contains_spec(px, py) && x <= px < x + src.width && y <= py < y + src.height {
                            src.pixel(px - x, py - y)
                        } else {
                            old(self).pixel(px, py)
                        }) by {
                        lemma_index(w as int, h as int, px, py);
                        if px != col || py != row {
                            lemma_index_distinct(w as int, px, py, col as int, row as int);
                            assert(self.pixel(px, py) == before.pixel(px, py));
                        }
                    }
                }
                col = col + 1;
            }
            row = row + 1;
        }
    }

    /// Composites `src`, placed with its top-left corner at `(x, y)`, over the
    /// pixels that lie in `clip`, in this image and under `src` (see `blend_spec`).
    pub fn blend(&mut self, x: i64, y: i64, src: &Image, clip: Rect)
        requires
            old(self).wf(),
            src.wf(),
            clip.wf(),
            -0x100_0000_0000 <= x <= 0x100_0000_0000,
            -0x100_0000_0000 <= y <= 0x100_0000_0000,
            old(self).width <= 0x100_0000_0000,
            old(self).height <= 0x100_0000_0000,
        ensures
            final(self).wf(),
            final(self).width == old(self).width,
            final(self).height == old(self).height,
            forall|px: int, py: int| 0 <= px < old(self).width && 0 <= py < old(self).height ==>
                #[trigger] final(self).pixel(px, py) == (if clip.contains_spec(px, py) && x <= px < x + src.width && y <= py < y + src.height {
                    blend_spec(old(self).pixel(px, py), src.pixel(px - x, py - y))
                } else {
                    old(self).pixel(px, py)
                }),
    {
        let w = self.width;
        let h = self.height;
        let mut row: usize = 0;
        while row < h
            invariant
                self.wf(),
                src.wf(),
                clip.wf(),
                self.width == w && self.height == h,
                w == old(self).width && h == old(self).height,
                w <= 0x100_0000_0000 && h <= 0x100_0000_0000,
                -0x100_0000_0000 <= x <= 0x100_0000_0000,
                -0x100_0000_0000 <= y <= 0x100_0000_0000,
                row <= h,
                forall|px: int, py: int| 0 <= px < w && 0 <= py < h ==>
                    #[trigger] self.pixel(px, py) == (if py < row && clip.contains_spec(px, py) && x <= px < x + src.width && y <= py < y + src.height {
                        blend_spec(old(self).pixel(px, py), src.pixel(px - x, py - y))
                    } else {
                        old(self).pixel(px, py)
                    }),
            decreases h - row,
        {
            let mut col: usize = 0;
            while col < w
                invariant
                    self.wf(),
                    src.wf(),
                    clip.wf(),
                    self.width == w && self.height == h,
                    w == old(self).width && h == old(self).height,
                    w <= 0x100_0000_0000 && h <= 0x100_0000_0000,
                    -0x100_0000_0000 <= x <= 0x100_0000_0000,
                    -0x100_0000_0000 <= y <= 0x100_0000_0000,
                    col <= w,
                    row < h,
                    forall|px: int, py: int| 0 <= px < w && 0 <= py < h ==>
                        #[trigger] self.pixel(px, py) == (if (py < row || (py == row && px < col)) && clip.contains_spec(px, py) && x <= px < x + src.width && y <= py < y + src.height {
                            blend_spec(old(self).pixel(px, py), src.pixel(px - x, py - y))
                        } else {
                            old(self).pixel(px, py)
                        }),
                decreases w - col,
            {
                let ghost before = *self;
                let n = self.data.len();
                let sn = src.data.len();
                let (cx, cy) = (col as i64, row as i64);
                proof {
                    lemma_index(w as int, h as int, col as int, row as int);
                    assert(row * w + col < n);
                    assert(row * w <= row * w + col);
                }
                if clip.contains(cx, cy) && x <= cx && (cx as i128 - x as i128) < src.width as i128 && y <= cy && (cy as i128 - y as i128) < src.height as i128 {
                    let sx = (cx - x) as usize;
                    let sy = (cy - y) as usize;
                    proof {
                        lemma_index(src.width as int, src.height as int, sx as int, sy as int);
                        assert(sy * src.width + sx < sn);
                        assert(sy * src.width <= sy * src.width + sx);
                    }
                    let v = blend_pixel(self.data[row * w + col], src.data[sy * src.width + sx]);
                    self.data.set(row * w + col, v);
                }
                proof {
                    assert forall|px: int, py: int| 0 <= px < w && 0 <= py < h implies
                        #[trigger] self.pixel(px, py) == (if (py < row || (py == row && px < col + 1)) && clip.contains_spec(px, py) && x <= px < x + src.width && y <= py < y + src.height {
                            blend_spec(old(self).pixel(px, py), src.pixel(px - x, py - y))
                        } else {
                            old(self).pixel(px, py)
                        }) by {
                        lemma_index(w as int, h as int, px, py);
                        if px != col || py != row {
                            lemma_index_distinct(w as int, px, py, col as int, row as int);
                            assert(self.pixel(px, py) == before.pixel(px, py));
                        } else {
                            assert(before.pixel(px, py) == old(self).pixel(px, py));
                        }
                    }
                }
                col = col + 1;
            }
            row = row + 1;
        }
    }
}

} // verus!
