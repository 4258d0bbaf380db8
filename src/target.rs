//! The output pixel buffer that the renderer fills.

use vstd::prelude::*;

verus! {

/// `x + y * width` stays below `width * height` for a pixel inside the image.
proof fn lemma_pixel_index(x: int, y: int, width: int, height: int)
    requires
        0 <= x < width,
        0 <= y < height,
    ensures
        0 <= x + y * width < width * height,
        x + y * width < height * width,
        y * width + width <= width * height,
{
    assert(width * height == height * width) by (nonlinear_arith);
    assert(0 <= y * width) by (nonlinear_arith)
        requires
            0 <= y,
            0 <= width,
    ;
    assert(y * width + width <= width * height) by (nonlinear_arith)
        requires
            0 <= y < height,
            0 <= width,
    ;
}

/// A `width` x `height` image stored row by row, top row first.
pub struct RenderTarget<P> {
    pub width: usize,
    pub height: usize,
    /// The pixels, row by row.
    pub data: Vec<P>,
}

impl<P: Copy> RenderTarget<P> {
    /// The pixels, row by row.
    pub open spec fn pixels(&self) -> Seq<P> {
        self.data@
    }

    /// The image is non-empty and holds one pixel per position.
    pub open spec fn wf(&self) -> bool {
        &&& self.width > 0
        &&& self.height > 0
        &&& self.pixels().len() == self.width * self.height
    }

    /// Where pixel `(x, y)` is stored.
    pub open spec fn index_of(&self, x: int, y: int) -> int {
        x + y * self.width
    }

    /// A `width` x `height` image with every pixel set to `clear_color`.
    pub fn with_clear_color(width: usize, height: usize, clear_color: &P) -> (r: RenderTarget<P>)
        requires
            width > 0,
            height > 0,
            width * height <= usize::MAX,
        ensures
            r.wf(),
            r.width == width,
            r.height == height,
            r.pixels() == Seq::new((width * height) as nat, |i: int| *clear_color),
    {
        let n: usize = width * height;
        let mut data: Vec<P> = Vec::new();
        let mut i: usize = 0;
        while i < n
            invariant
                0 <= i <= n,
                data@ =~= Seq::new(i as nat, |k: int| *clear_color),
            decreases n - i,
        {
            data.push(*clear_color);
            i += 1;
        }
        RenderTarget { width, height, data }
    }

    /// Builds an image from its rows, top row first; every row holds `width`
    /// pixels. Rows can be rendered independently and joined here.
    pub fn from_rows(width: usize, rows: Vec<Vec<P>>) -> (r: RenderTarget<P>)
        requires
            width > 0,
            rows@.len() > 0,
            forall|y: int| 0 <= y < rows@.len() ==> (#[trigger] rows@[y])@.len() == width,
            width * rows@.len() <= usize::MAX,
        ensures
            r.wf(),
            r.width == width,
            r.height == rows@.len(),
            forall|x: int, y: int|
                0 <= x < width && 0 <= y < rows@.len() ==> r.pixels()[r.index_of(x, y)]
                    == rows@[y]@[x],
    {
        let height = rows.len();
        let mut data: Vec<P> = Vec::new();
        let mut y: usize = 0;
        while y < height
            invariant
                0 <= y <= height,
                height == rows@.len(),
                forall|yy: int| 0 <= yy < rows@.len() ==> (#[trigger] rows@[yy])@.len() == width,
                data@.len() == y * width,
                forall|x: int, yy: int|
                    0 <= x < width && 0 <= yy < y ==> data@[x + yy * width] == rows@[yy]@[x],
            decreases height - y,
        {
            let row = &rows[y];
            let mut x: usize = 0;
            while x < width
                invariant
                    0 <= x <= width,
                    0 <= y < height,
                    height == rows@.len(),
                    row@ == rows@[y as int]@,
                    row@.len() == width,
                    data@.len() == y * width + x,
                    forall|xx: int, yy: int|
                        0 <= xx < width && 0 <= yy < y ==> data@[xx + yy * width]
                            == rows@[yy]@[xx],
                    forall|xx: int| 0 <= xx < x ==> data@[xx + y * width] == rows@[y as int]@[xx],
                decreases width - x,
            {
                let ghost before = data@;
                data.push(row[x]);
                proof {
                    assert forall|xx: int, yy: int| 0 <= xx < width && 0 <= yy < y implies #[trigger] data@[xx
                        + yy * width] == rows@[yy]@[xx] by {
                        lemma_pixel_index(xx, yy, width as int, y as int);
                        assert(data@[xx + yy * width] == before[xx + yy * width]);
                    }
                }
                x += 1;
            }
            proof {
                assert forall|xx: int, yy: int| 0 <= xx < width && 0 <= yy < y + 1 implies data@[xx
                    + yy * width] == rows@[yy]@[xx] by {
                    if yy == y {
                    }
                }
                assert((y + 1) * width == y * width + width) by (nonlinear_arith);
            }
            y += 1;
        }
        assert(data@.len() == width * height) by (nonlinear_arith)
            requires
                data@.len() == height * width,
        ;
        RenderTarget { width, height, data }
    }

    /// The color of pixel `(x, y)`.
    pub fn get_pixel(&self, x: usize, y: usize) -> (r: P)
        requires
            self.wf(),
            x < self.width,
            y < self.height,
        ensures
            r == self.pixels()[self.index_of(x as int, y as int)],
    {
        let _len = self.data.len();
        proof {
            lemma_pixel_index(x as int, y as int, self.width as int, self.height as int);
            assert(y * self.width <= x + y * self.width);
        }
        self.data[x + y * self.width]
    }

    /// Sets pixel `(x, y)` to `color`, leaving every other pixel as it was.
    pub fn set_pixel(&mut self, x: usize, y: usize, color: P)
        requires
            old(self).wf(),
            x < old(self).width,
            y < old(self).height,
        ensures
            final(self).wf(),
            final(self).width == old(self).width,
            final(self).height == old(self).height,
            final(self).pixels() == old(self).pixels().update(
                old(self).index_of(x as int, y as int),
                color,
            ),
    {
        let _len = self.data.len();
        proof {
            lemma_pixel_index(x as int, y as int, self.width as int, self.height as int);
            assert(y * self.width <= x + y * self.width);
        }
        let i = x + y * self.width;
        self.data.set(i, color);
    }
}

} // verus!
