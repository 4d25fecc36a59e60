use vstd::prelude::*;
use vstd::arithmetic::div_mod::{lemma_fundamental_div_mod, lemma_fundamental_div_mod_converse};
use crate::color::{Color, packed};

verus! {

/// A rectangle, given relative to the region it is carved from.
#[derive(Clone, Copy, Debug, PartialEq, Eq, Structural)]
pub struct Rect {
    pub x: u32,
    pub y: u32,
    pub w: u32,
    pub h: u32,
}

/// A region operation reached outside its rectangle.
#[derive(Clone, Copy, Debug, PartialEq, Eq, Structural)]
pub enum BufferError {
    OutOfBounds,
}

/// A bounds-checked window into a pixel buffer of `root_w` by `root_h`
/// pixels; it covers the columns `x .. x + w` and rows `y .. y + h` of
/// that buffer.
#[derive(Clone, Copy, Debug, PartialEq, Eq, Structural)]
pub struct Region {
    pub x: u32,
    pub y: u32,
    pub w: u32,
    pub h: u32,
    pub root_w: u32,
    pub root_h: u32,
}

/// A block of pre-composited pixels: rows of `stride` bytes, each pixel
/// four bytes in the order blue, green, red, opacity.
pub struct PixelBlock {
    pub data: Vec<u8>,
    pub stride: usize,
    pub width: u32,
    pub height: u32,
}

/// The pixel memory: `width * height` packed words, row after row.
pub struct PixelBuffer {
    pub pixels: Vec<u32>,
    pub width: u32,
    pub height: u32,
}

/// The packed word of four bytes read blue, green, red, opacity.
pub open spec fn word_of_bgra(b: u8, g: u8, r: u8, a: u8) -> nat {
    a as nat * 0x1000000 + r as nat * 0x10000 + g as nat * 0x100 + b as nat
}

impl PixelBlock {
    /// The packed pixel at `(tx, ty)` of the block, if the block holds it.
    pub open spec fn pixel(&self, tx: int, ty: int) -> Option<u32> {
        let off = ty * self.stride + tx * 4;
        if 0 <= tx < self.width && 0 <= ty < self.height && off + 3 < self.data@.len() {
            Some(
                word_of_bgra(
                    self.data@[off],
                    self.data@[off + 1],
                    self.data@[off + 2],
                    self.data@[off + 3],
                ) as u32,
            )
        } else {
            None
        }
    }
}

impl Region {
    pub open spec fn wf(&self) -> bool {
        self.x + self.w <= self.root_w && self.y + self.h <= self.root_h
    }

    pub open spec fn root(&self) -> (u32, u32) {
        (self.root_w, self.root_h)
    }

    /// The pixel at column `px`, row `py` of the buffer lies in the region.
    pub open spec fn contains(&self, px: int, py: int) -> bool {
        self.x <= px < self.x + self.w && self.y <= py < self.y + self.h
    }

    /// What `subview(r)` gives: the rectangle `r`, taken relative to this
    /// region, when it lies inside it.
    pub open spec fn subview_spec(&self, r: Rect) -> Option<Region> {
        if r.x + r.w <= self.w && r.y + r.h <= self.h {
            Some(
                Region {
                    x: (self.x + r.x) as u32,
                    y: (self.y + r.y) as u32,
                    w: r.w,
                    h: r.h,
                    root_w: self.root_w,
                    root_h: self.root_h,
                },
            )
        } else {
            None
        }
    }

    /// `(x, y, width, height)` of the region, in buffer coordinates.
    pub fn bounds(&self) -> (r: (u32, u32, u32, u32))
        ensures
            r == (self.x, self.y, self.w, self.h),
    {
        (self.x, self.y, self.w, self.h)
    }

    /// The region of the rectangle `r`, given relative to this one; fails
    /// when `r` is not wholly inside this region.
    pub fn subview(&self, r: Rect) -> (res: Result<Region, BufferError>)
        requires
            self.wf(),
        ensures
            match res {
                Ok(v) => self.subview_spec(r) == Some(v) && v.wf(),
                Err(e) => self.subview_spec(r).is_none() && e == BufferError::OutOfBounds,
            },
    {
        if r.x <= self.w && r.w <= self.w - r.x && r.y <= self.h && r.h <= self.h - r.y {
            Ok(
                Region {
                    x: self.x + r.x,
                    y: self.y + r.y,
                    w: r.w,
                    h: r.h,
                    root_w: self.root_w,
                    root_h: self.root_h,
                },
            )
        } else {
            Err(BufferError::OutOfBounds)
        }
    }

    /// The part of the region from `(dx, dy)` to its far corner.
    pub fn offset(&self, dx: u32, dy: u32) -> (res: Result<Region, BufferError>)
        requires
            self.wf(),
        ensures
            dx <= self.w && dy <= self.h ==> res == Ok::<Region, BufferError>(
                self.subview_spec(Rect { x: dx, y: dy, w: (self.w - dx) as u32, h: (self.h - dy) as u32 }).unwrap(),
            ),
            !(dx <= self.w && dy <= self.h) ==> res == Err::<Region, BufferError>(BufferError::OutOfBounds),
    {
        if dx <= self.w && dy <= self.h {
            self.subview(Rect { x: dx, y: dy, w: self.w - dx, h: self.h - dy })
        } else {
            Err(BufferError::OutOfBounds)
        }
    }
}

/// Column and row of the `i`-th pixel of a buffer `w` pixels wide.
pub open spec fn coords(i: int, w: int) -> (int, int) {
    (i % w, i / w)
}

proof fn lemma_coords_of_index(px: int, py: int, w: int)
    requires
        0 <= px < w,
        0 <= py,
    ensures
        coords(py * w + px, w) == (px, py),
{
    lemma_fundamental_div_mod_converse(py * w + px, w, py, px);
}

proof fn lemma_index_of_coords(i: int, w: int)
    requires
        0 <= i,
        w > 0,
    ensures
        i == coords(i, w).1 * w + coords(i, w).0,
        0 <= coords(i, w).0 < w,
        0 <= coords(i, w).1,
{
    lemma_fundamental_div_mod(i, w);
    assert(w * (i / w) == (i / w) * w) by (nonlinear_arith);
    assert(0 <= i / w) by (nonlinear_arith)
        requires
            0 <= i,
            w > 0,
    ;
}

proof fn lemma_index_in_buffer(px: int, py: int, w: int, h: int)
    requires
        0 <= px < w,
        0 <= py < h,
    ensures
        0 <= py * w + px < w * h,
{
    assert(0 <= py * w + px < w * h) by (nonlinear_arith)
        requires
            0 <= px < w,
            0 <= py < h,
    ;
}

/// Only the pixels of `inside` may have changed.
pub open spec fn unchanged_outside(before: PixelBuffer, after: PixelBuffer, inside: Region) -> bool {
    &&& after.wf()
    &&& after.width == before.width
    &&& after.height == before.height
    &&& forall|i: int|
        0 <= i < before.pixels@.len() && !before.covers(inside, i) ==> #[trigger] after.pixels@[i]
            == before.pixels@[i]
}

impl PixelBuffer {
    pub open spec fn wf(&self) -> bool {
        self.pixels@.len() == self.width * self.height
    }

    /// The packed word at column `px`, row `py`.
    pub open spec fn pixel_at(&self, px: int, py: int) -> u32 {
        self.pixels@[py * self.width + px]
    }

    /// The region was carved from a buffer of this size.
    pub open spec fn fits(&self, r: Region) -> bool {
        r.wf() && r.root() == (self.width, self.height)
    }

    /// The `i`-th word lies in the region.
    pub open spec fn covers(&self, r: Region, i: int) -> bool {
        r.contains(coords(i, self.width as int).0, coords(i, self.width as int).1)
    }

    /// A buffer of `width` by `height` pixels, all holding the word `fill`.
    pub fn new(width: u32, height: u32, fill: u32) -> (b: PixelBuffer)
        requires
            width * height <= usize::MAX,
        ensures
            b.wf(),
            b.width == width,
            b.height == height,
            forall|i: int| 0 <= i < b.pixels@.len() ==> b.pixels@[i] == fill,
    {
        let n = (width as usize) * (height as usize);
        let pixels = vec![fill; n];
        PixelBuffer { pixels, width, height }
    }

    pub fn width(&self) -> (r: u32)
        ensures
            r == self.width,
    {
        self.width
    }

    pub fn height(&self) -> (r: u32)
        ensures
            r == self.height,
    {
        self.height
    }

    /// The packed words, row after row.
    pub fn pixels(&self) -> (r: &Vec<u32>)
        ensures
            r@ == self.pixels@,
    {
        &self.pixels
    }

    pub open spec fn whole_spec(&self) -> Region {
        Region { x: 0, y: 0, w: self.width, h: self.height, root_w: self.width, root_h: self.height }
    }

    /// The region that covers the whole buffer.
    pub fn whole(&self) -> (r: Region)
        ensures
            r == self.whole_spec(),
            self.fits(r),
    {
        Region { x: 0, y: 0, w: self.width, h: self.height, root_w: self.width, root_h: self.height }
    }

    /// Writes the packed `color` to every pixel of the region, and to no other.
    pub fn fill(&mut self, r: &Region, color: &Color)
        requires
            old(self).wf(),
            old(self).fits(*r),
        ensures
            final(self).wf(),
            final(self).width == old(self).width,
            final(self).height == old(self).height,
            unchanged_outside(*old(self), *final(self), *r),
            forall|i: int|
                0 <= i < old(self).pixels@.len() ==> #[trigger] final(self).pixels@[i] == if old(
                    self,
                ).covers(*r, i) {
                    packed(*color) as u32
                } else {
                    old(self).pixels@[i]
                },
    {
        let p = color.as_argb8888();
        let ghost before = self.pixels@;
        let w = self.width as usize;
        let n = self.pixels.len();
        let mut yy: u32 = r.y;
        while yy < r.y + r.h
            invariant
                self.wf(),
                self.width == old(self).width,
                self.height == old(self).height,
                w == self.width,
                n == before.len(),
                self.pixels@.len() == n,
                before == old(self).pixels@,
                self.fits(*r),
                r.y <= yy <= r.y + r.h,
                forall|i: int|
                    0 <= i < before.len() ==> #[trigger] self.pixels@[i] == if self.covers(*r, i)
                        && coords(i, w as int).1 < yy {
                        p
                    } else {
                        before[i]
                    },
            decreases r.y + r.h - yy,
        {
            let mut xx: u32 = r.x;
            while xx < r.x + r.w
                invariant
                    self.wf(),
                    self.width == old(self).width,
                    self.height == old(self).height,
                    w == self.width,
                    n == before.len(),
                self.pixels@.len() == n,
                    before == old(self).pixels@,
                    self.fits(*r),
                    r.y <= yy < r.y + r.h,
                    r.x <= xx <= r.x + r.w,
                    forall|i: int|
                        0 <= i < before.len() ==> #[trigger] self.pixels@[i] == if self.covers(*r, i)
                            && (coords(i, w as int).1 < yy || (coords(i, w as int).1 == yy
                            && coords(i, w as int).0 < xx)) {
                            p
                        } else {
                            before[i]
                        },
                decreases r.x + r.w - xx,
            {
                proof {
                    lemma_index_in_buffer(xx as int, yy as int, w as int, self.height as int);
                    lemma_coords_of_index(xx as int, yy as int, w as int);
                }
                let k = (yy as usize) * w + (xx as usize);
                self.pixels.set(k, p);
                proof {
                    assert forall|i: int| 0 <= i < before.len() && i != k implies coords(i, w as int)
                        != (xx as int, yy as int) by {
                        lemma_index_of_coords(i, w as int);
                    }
                }
                xx = xx + 1;
            }
            yy = yy + 1;
        }
    }

    /// Index of the pixel at `(px, py)` of region `r`.
    pub open spec fn index_in(&self, r: Region, px: int, py: int) -> int {
        (r.y + py) * self.width + (r.x + px)
    }

    /// Writes the packed word `word` at `at`, given relative to region `r`;
    /// fails when `at` lies outside the region.
    pub fn blit_pixel(&mut self, r: &Region, at: (u32, u32), word: u32) -> (res: Result<(), BufferError>)
        requires
            old(self).wf(),
            old(self).fits(*r),
        ensures
            final(self).wf(),
            final(self).width == old(self).width,
            final(self).height == old(self).height,
            unchanged_outside(*old(self), *final(self), *r),
            at.0 < r.w && at.1 < r.h ==> res is Ok && final(self).pixels@ == old(self).pixels@.update(
                old(self).index_in(*r, at.0 as int, at.1 as int),
                word,
            ),
            !(at.0 < r.w && at.1 < r.h) ==> res == Err::<(), BufferError>(BufferError::OutOfBounds)
                && final(self).pixels@ == old(self).pixels@,
    {
        if at.0 >= r.w || at.1 >= r.h {
            return Err(BufferError::OutOfBounds);
        }
        let px = r.x + at.0;
        let py = r.y + at.1;
        proof {
            lemma_index_in_buffer(px as int, py as int, self.width as int, self.height as int);
        }
        let n = self.pixels.len();
        let k = (py as usize) * (self.width as usize) + (px as usize);
        self.pixels.set(k, word);
        proof {
            lemma_coords_of_index(px as int, py as int, self.width as int);
        }
        Ok(())
    }

    /// Writes `color`, fully opaque as packed, at `at` relative to region `r`;
    /// fails when `at` lies outside the region.
    pub fn set_pixel(&mut self, r: &Region, at: (u32, u32), color: &Color) -> (res: Result<(), BufferError>)
        requires
            old(self).wf(),
            old(self).fits(*r),
        ensures
            final(self).wf(),
            final(self).width == old(self).width,
            final(self).height == old(self).height,
            unchanged_outside(*old(self), *final(self), *r),
            at.0 < r.w && at.1 < r.h ==> res is Ok && final(self).pixels@ == old(self).pixels@.update(
                old(self).index_in(*r, at.0 as int, at.1 as int),
                packed(*color) as u32,
            ),
            !(at.0 < r.w && at.1 < r.h) ==> res == Err::<(), BufferError>(BufferError::OutOfBounds)
                && final(self).pixels@ == old(self).pixels@,
    {
        self.blit_pixel(r, at, color.as_argb8888())
    }

    /// Copies the block into the region, from its top-left corner; what falls
    /// outside the region, or past the end of the block's bytes, is left out.
    pub fn blit_block(&mut self, r: &Region, block: &PixelBlock)
        requires
            old(self).wf(),
            old(self).fits(*r),
        ensures
            final(self).wf(),
            final(self).width == old(self).width,
            final(self).height == old(self).height,
            unchanged_outside(*old(self), *final(self), *r),
            forall|i: int|
                0 <= i < old(self).pixels@.len() ==> #[trigger] final(self).pixels@[i] == if old(
                    self,
                ).covers(*r, i) && block.pixel(
                    coords(i, old(self).width as int).0 - r.x,
                    coords(i, old(self).width as int).1 - r.y,
                ) is Some {
                    block.pixel(
                        coords(i, old(self).width as int).0 - r.x,
                        coords(i, old(self).width as int).1 - r.y,
                    ).unwrap()
                } else {
                    old(self).pixels@[i]
                },
    {
        let ghost before = self.pixels@;
        let w = self.width as usize;
        let n = self.pixels.len();
        let max_w = if block.width < r.w { block.width } else { r.w };
        let max_h = if block.height < r.h { block.height } else { r.h };
        let len = block.data.len();
        let mut ty: u32 = 0;
        while ty < max_h
            invariant
                self.wf(),
                self.width == old(self).width,
                self.height == old(self).height,
                w == self.width,
                n == before.len(),
                self.pixels@.len() == n,
                before == old(self).pixels@,
                self.fits(*r),
                len == block.data@.len(),
                max_w <= r.w && max_w <= block.width,
                max_h <= r.h && max_h <= block.height,
                max_w == block.width || max_w == r.w,
                max_h == block.height || max_h == r.h,
                ty <= max_h,
                forall|i: int|
                    0 <= i < before.len() ==> #[trigger] self.pixels@[i] == if self.covers(*r, i)
                        && block.pixel(coords(i, w as int).0 - r.x, coords(i, w as int).1 - r.y) is Some
                        && coords(i, w as int).1 < r.y + ty {
                        block.pixel(coords(i, w as int).0 - r.x, coords(i, w as int).1 - r.y).unwrap()
                    } else {
                        before[i]
                    },
            decreases max_h - ty,
        {
            let mut tx: u32 = 0;
            while tx < max_w
                invariant
                    self.wf(),
                    self.width == old(self).width,
                    self.height == old(self).height,
                    w == self.width,
                    n == before.len(),
                    self.pixels@.len() == n,
                    before == old(self).pixels@,
                    self.fits(*r),
                    len == block.data@.len(),
                    max_w <= r.w && max_w <= block.width,
                    max_h <= r.h && max_h <= block.height,
                    max_w == block.width || max_w == r.w,
                    max_h == block.height || max_h == r.h,
                    ty < max_h,
                    tx <= max_w,
                    forall|i: int|
                        0 <= i < before.len() ==> #[trigger] self.pixels@[i] == if self.covers(*r, i)
                            && block.pixel(coords(i, w as int).0 - r.x, coords(i, w as int).1 - r.y) is Some
                            && (coords(i, w as int).1 < r.y + ty || (coords(i, w as int).1 == r.y + ty
                            && coords(i, w as int).0 < r.x + tx)) {
                            block.pixel(coords(i, w as int).0 - r.x, coords(i, w as int).1 - r.y).unwrap()
                        } else {
                            before[i]
                        },
                decreases max_w - tx,
            {
                let px = r.x + tx;
                let py = r.y + ty;
                proof {
                    lemma_index_in_buffer(px as int, py as int, w as int, self.height as int);
                    lemma_coords_of_index(px as int, py as int, w as int);
                }
                let k = (py as usize) * w + (px as usize);
                let off = byte_offset(tx, ty, block.stride);
                if let Some(o) = off {
                    if o < len && len - o > 3 {
                        let word = (block.data[o + 3] as u32) * 0x1000000 + (block.data[o + 2] as u32)
                            * 0x10000 + (block.data[o + 1] as u32) * 0x100 + (block.data[o] as u32);
                        self.pixels.set(k, word);
                    }
                }
                proof {
                    assert forall|i: int| 0 <= i < before.len() && i != k implies coords(i, w as int)
                        != (px as int, py as int) by {
                        lemma_index_of_coords(i, w as int);
                    }
                }
                tx = tx + 1;
            }
            ty = ty + 1;
        }
    }
}

/// Offset of the first byte of pixel `(tx, ty)` in rows of `stride` bytes,
/// unless it does not fit in a `usize`.
fn byte_offset(tx: u32, ty: u32, stride: usize) -> (r: Option<usize>)
    ensures
        r is Some <==> ty * stride + tx * 4 <= usize::MAX,
        r is Some ==> r.unwrap() == ty * stride + tx * 4,
{
    let row = match (ty as usize).checked_mul(stride) {
        Some(row) => row,
        None => {
            assert(ty * stride + tx * 4 > usize::MAX) by (nonlinear_arith)
                requires
                    ty * stride > usize::MAX,
                    tx >= 0,
            ;
            return None;
        },
    };
    let col = match (tx as usize).checked_mul(4) {
        Some(col) => col,
        None => {
            assert(ty * stride + tx * 4 > usize::MAX) by (nonlinear_arith)
                requires
                    tx * 4 > usize::MAX,
                    ty * stride >= 0,
            ;
            return None;
        },
    };
    row.checked_add(col)
}

/// Writes through a subview stay inside the rectangle it was asked for: a
/// subview of a region of the buffer fits the buffer too, and each pixel
/// that it covers lies in the parent, inside the rectangle `rect` taken
/// relative to the parent.
pub proof fn lemma_subview_confines(buf: &PixelBuffer, parent: Region, rect: Rect, i: int)
    requires
        buf.fits(parent),
        parent.subview_spec(rect) is Some,
    ensures
        buf.fits(parent.subview_spec(rect).unwrap()),
        buf.covers(parent.subview_spec(rect).unwrap(), i) ==> buf.covers(parent, i) && parent.x + rect.x
            <= coords(i, buf.width as int).0 < parent.x + rect.x + rect.w && parent.y + rect.y <= coords(
            i,
            buf.width as int,
        ).1 < parent.y + rect.y + rect.h,
{
}

/// Writes through a subview never reach past the rectangle it was asked
/// for: when only the pixels of the subview changed, as after any write
/// through it, each pixel outside the rectangle (taken relative to the
/// parent) is as it was.
pub proof fn lemma_subview_writes_stay_in_rect(
    before: PixelBuffer,
    after: PixelBuffer,
    parent: Region,
    rect: Rect,
)
    requires
        before.fits(parent),
        parent.subview_spec(rect) is Some,
        unchanged_outside(before, after, parent.subview_spec(rect).unwrap()),
    ensures
        forall|i: int|
            0 <= i < before.pixels@.len() && !(parent.x + rect.x <= coords(i, before.width as int).0
                < parent.x + rect.x + rect.w && parent.y + rect.y <= coords(i, before.width as int).1
                < parent.y + rect.y + rect.h) ==> #[trigger] after.pixels@[i] == before.pixels@[i],
{
    assert forall|i: int|
        0 <= i < before.pixels@.len() && !(parent.x + rect.x <= coords(i, before.width as int).0 < parent.x
            + rect.x + rect.w && parent.y + rect.y <= coords(i, before.width as int).1 < parent.y + rect.y
            + rect.h) implies #[trigger] after.pixels@[i] == before.pixels@[i] by {
        lemma_subview_confines(&before, parent, rect, i);
    }
}

} // verus!
