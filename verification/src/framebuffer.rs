//! A linear framebuffer of 32-bit colours, addressed by pixel coordinates.
use vstd::prelude::*;

verus! {

/// What a framebuffer shows: its size, its background colour and the colour
/// of every on-screen pixel, keyed by `(x, y)`.
pub struct FramebufferView {
    pub width: int,
    pub height: int,
    pub bg_color: u32,
    pub image: Map<(int, int), u32>,
}

/// `(x, y)` lies on a `width` x `height` screen.
pub open spec fn on_screen(width: int, height: int, x: int, y: int) -> bool {
    0 <= x < width && 0 <= y < height
}

/// `(x, y)` lies in the rectangle with corner `(x0, y0)`, `w` columns and `h` rows.
pub open spec fn in_rect(x0: int, y0: int, w: int, h: int, x: int, y: int) -> bool {
    x0 <= x < x0 + w && y0 <= y < y0 + h
}

/// The image in which every pixel where `lit` holds takes `color` and every
/// other pixel keeps its colour.
pub open spec fn paint(image: Map<(int, int), u32>, lit: spec_fn(int, int) -> bool, color: u32) -> Map<(int, int), u32> {
    Map::new(|p: (int, int)| image.dom().contains(p), |p: (int, int)| if lit(p.0, p.1) { color } else { image[p] })
}

/// The image in which every pixel where `lit` holds takes the colour that
/// `contents` (a picture `w` pixels wide, row by row, placed with its corner
/// at `(x0, y0)`) holds for it, and every other pixel keeps its colour.
pub open spec fn blit_where(image: Map<(int, int), u32>, lit: spec_fn(int, int) -> bool, x0: int, y0: int, w: int, contents: Seq<u32>) -> Map<(int, int), u32> {
    Map::new(
        |p: (int, int)| image.dom().contains(p),
        |p: (int, int)| if lit(p.0, p.1) { contents[(p.1 - y0) * w + (p.0 - x0)] } else { image[p] },
    )
}

/// The image with a `w` x `h` picture drawn with its corner at `(x0, y0)`.
pub open spec fn blit(image: Map<(int, int), u32>, x0: int, y0: int, w: int, h: int, contents: Seq<u32>) -> Map<(int, int), u32> {
    blit_where(image, |a: int, b: int| in_rect(x0, y0, w, h, a, b), x0, y0, w, contents)
}

impl FramebufferView {
    /// Colour of the pixel at `(x, y)`.
    pub open spec fn pixel(self, x: int, y: int) -> u32 {
        self.image[(x, y)]
    }

    /// The same framebuffer with `lit` pixels set to `color`.
    pub open spec fn painted(self, lit: spec_fn(int, int) -> bool, color: u32) -> FramebufferView {
        FramebufferView { image: paint(self.image, lit, color), ..self }
    }

    /// The same framebuffer with the pixel at `(x, y)` set to `color`, if it is on screen.
    pub open spec fn with_pixel(self, x: int, y: int, color: u32) -> FramebufferView {
        self.painted(|a: int, b: int| a == x && b == y, color)
    }

    /// The same framebuffer with the on-screen part of a rectangle filled with `color`.
    pub open spec fn with_rectangle(self, x: int, y: int, w: int, h: int, color: u32) -> FramebufferView {
        self.painted(|a: int, b: int| in_rect(x, y, w, h, a, b), color)
    }

    /// The same framebuffer with the on-screen part of a `w` x `h` picture drawn at `(x, y)`.
    pub open spec fn with_image(self, x: int, y: int, w: int, h: int, contents: Seq<u32>) -> FramebufferView {
        FramebufferView { image: blit(self.image, x, y, w, h, contents), ..self }
    }
}

/// Painting twice with one colour paints the union.
pub proof fn lemma_paint_twice(image: Map<(int, int), u32>, p: spec_fn(int, int) -> bool, q: spec_fn(int, int) -> bool, color: u32)
    ensures
        paint(paint(image, p, color), q, color) == paint(image, |a: int, b: int| p(a, b) || q(a, b), color),
{
    assert(paint(paint(image, p, color), q, color) =~= paint(image, |a: int, b: int| p(a, b) || q(a, b), color));
}

/// Painting depends only on which on-image pixels are lit.
pub proof fn lemma_paint_same_lit(image: Map<(int, int), u32>, p: spec_fn(int, int) -> bool, q: spec_fn(int, int) -> bool, color: u32)
    requires
        forall|a: int, b: int| #[trigger] image.dom().contains((a, b)) ==> p(a, b) == q(a, b),
    ensures
        paint(image, p, color) == paint(image, q, color),
{
    assert forall|pt: (int, int)| #[trigger] paint(image, p, color).dom().contains(pt) implies
        paint(image, p, color)[pt] == paint(image, q, color)[pt] by {
        assert(image.dom().contains((pt.0, pt.1)));
    }
    assert(paint(image, p, color) =~= paint(image, q, color));
}

/// Drawing one more pixel of a picture extends the drawn region by that pixel.
pub proof fn lemma_blit_extend(image: Map<(int, int), u32>, r: spec_fn(int, int) -> bool, x0: int, y0: int, w: int, contents: Seq<u32>, x: int, y: int)
    ensures
        paint(blit_where(image, r, x0, y0, w, contents), |a: int, b: int| a == x && b == y, contents[(y - y0) * w + (x - x0)])
            == blit_where(image, |a: int, b: int| r(a, b) || (a == x && b == y), x0, y0, w, contents),
{
    assert(paint(blit_where(image, r, x0, y0, w, contents), |a: int, b: int| a == x && b == y, contents[(y - y0) * w + (x - x0)])
        =~= blit_where(image, |a: int, b: int| r(a, b) || (a == x && b == y), x0, y0, w, contents));
}

/// Drawing a picture depends only on which on-image pixels are drawn.
pub proof fn lemma_blit_same_lit(image: Map<(int, int), u32>, p: spec_fn(int, int) -> bool, q: spec_fn(int, int) -> bool, x0: int, y0: int, w: int, contents: Seq<u32>)
    requires
        forall|a: int, b: int| #[trigger] image.dom().contains((a, b)) ==> p(a, b) == q(a, b),
    ensures
        blit_where(image, p, x0, y0, w, contents) == blit_where(image, q, x0, y0, w, contents),
{
    assert forall|pt: (int, int)| #[trigger] blit_where(image, p, x0, y0, w, contents).dom().contains(pt) implies
        blit_where(image, p, x0, y0, w, contents)[pt] == blit_where(image, q, x0, y0, w, contents)[pt] by {
        assert(image.dom().contains((pt.0, pt.1)));
    }
    assert(blit_where(image, p, x0, y0, w, contents) =~= blit_where(image, q, x0, y0, w, contents));
}

/// The row-major index of an on-screen pixel lies within the buffer.
pub proof fn lemma_index_in_range(w: int, h: int, x: int, y: int)
    requires
        0 <= x < w,
        0 <= y < h,
    ensures
        0 <= y * w + x < w * h,
{
    assert(0 <= y * w) by (nonlinear_arith)
        requires
            0 <= y,
            0 <= w,
    ;
    assert(y * w + x < w * h) by (nonlinear_arith)
        requires
            0 <= x < w,
            0 <= y < h,
    ;
}

/// Distinct on-screen pixels have distinct row-major indices.
pub proof fn lemma_index_injective(w: int, x1: int, y1: int, x2: int, y2: int)
    requires
        0 <= x1 < w,
        0 <= x2 < w,
        0 <= y1,
        0 <= y2,
        y1 * w + x1 == y2 * w + x2,
    ensures
        x1 == x2 && y1 == y2,
{
    if y1 < y2 {
        assert(y1 * w + w <= y2 * w) by (nonlinear_arith)
            requires
                y1 + 1 <= y2,
                w >= 0,
        ;
    } else if y2 < y1 {
        assert(y2 * w + w <= y1 * w) by (nonlinear_arith)
            requires
                y2 + 1 <= y1,
                w >= 0,
        ;
    }
}

/// What drawing does to each pixel: setting a pixel changes that pixel
/// alone; filling a rectangle gives `color` to exactly the pixels with
/// `x <= px < x + w` and `y <= py < y + h`; drawing a `w`-pixel-wide picture
/// gives each pixel `(x + i, y + j)` of its `w` x `h` area the picture's
/// entry `j * w + i`. Every other pixel keeps its colour, and the set of
/// pixels, the size and the background colour stay as they were.
pub proof fn lemma_drawing_pixels(
    v: FramebufferView,
    x: int,
    y: int,
    w: int,
    h: int,
    color: u32,
    contents: Seq<u32>,
    px: int,
    py: int,
)
    requires
        v.image.dom().contains((px, py)),
    ensures
        v.with_pixel(x, y, color).image[(px, py)] == (if px == x && py == y { color } else { v.image[(px, py)] }),
        v.with_rectangle(x, y, w, h, color).image[(px, py)] == (
            if x <= px < x + w && y <= py < y + h { color } else { v.image[(px, py)] }),
        v.with_image(x, y, w, h, contents).image[(px, py)] == (
            if x <= px < x + w && y <= py < y + h { contents[(py - y) * w + (px - x)] } else { v.image[(px, py)] }),
        v.with_pixel(x, y, color).image.dom() == v.image.dom(),
        v.with_rectangle(x, y, w, h, color).image.dom() == v.image.dom(),
        v.with_image(x, y, w, h, contents).image.dom() == v.image.dom(),
        v.with_rectangle(x, y, w, h, color).width == v.width && v.with_rectangle(x, y, w, h, color).height == v.height,
        v.with_image(x, y, w, h, contents).width == v.width && v.with_image(x, y, w, h, contents).height == v.height,
        v.with_rectangle(x, y, w, h, color).bg_color == v.bg_color && v.with_image(x, y, w, h, contents).bg_color == v.bg_color,
{
    assert(v.with_pixel(x, y, color).image.dom() =~= v.image.dom());
    assert(v.with_rectangle(x, y, w, h, color).image.dom() =~= v.image.dom());
    assert(v.with_image(x, y, w, h, contents).image.dom() =~= v.image.dom());
}

/// A framebuffer shows exactly its on-screen pixels, each the colour held
/// for it in row-major order.
pub proof fn lemma_view_pixels(fb: &Framebuffer, x: int, y: int)
    ensures
        fb@.image.dom().contains((x, y)) <==> (0 <= x < fb.width && 0 <= y < fb.height),
        fb@.width == fb.width && fb@.height == fb.height && fb@.bg_color == fb.bg_color,
        (0 <= x < fb.width && 0 <= y < fb.height) ==> fb@.image[(x, y)] == fb.pixels@[y * fb.width + x],
{
}

/// A screen of `width` x `height` pixels backed by a row-major pixel buffer.
pub struct Framebuffer {
    pub pixels: Vec<u32>,
    pub width: usize,
    pub height: usize,
    pub bg_color: u32,
}

impl View for Framebuffer {
    type V = FramebufferView;

    open spec fn view(&self) -> FramebufferView {
        FramebufferView {
            width: self.width as int,
            height: self.height as int,
            bg_color: self.bg_color,
            image: Map::new(
                |p: (int, int)| on_screen(self.width as int, self.height as int, p.0, p.1),
                |p: (int, int)| self.pixels@[p.1 * self.width + p.0],
            ),
        }
    }
}

impl Framebuffer {
    /// The buffer holds one entry per pixel.
    pub open spec fn wf(&self) -> bool {
        self.pixels.len() == self.width * self.height
    }

    /// A `width` x `height` framebuffer whose pixels are all `fill`.
    pub fn new(width: usize, height: usize, bg_color: u32, fill: u32) -> (fb: Framebuffer)
        requires
            width * height <= usize::MAX,
        ensures
            fb.wf(),
            fb@.width == width,
            fb@.height == height,
            fb@.bg_color == bg_color,
            forall|x: int, y: int| on_screen(width as int, height as int, x, y) ==> #[trigger] fb@.pixel(x, y) == fill,
    {
        let n = width * height;
        let mut pixels: Vec<u32> = Vec::new();
        while pixels.len() < n
            invariant
                pixels.len() <= n,
                forall|i: int| 0 <= i < pixels.len() ==> #[trigger] pixels@[i] == fill,
            decreases n - pixels.len(),
        {
            pixels.push(fill);
        }
        let fb = Framebuffer { pixels, width, height, bg_color };
        proof {
            assert forall|x: int, y: int| on_screen(width as int, height as int, x, y) implies #[trigger] fb@.pixel(x, y) == fill by {
                lemma_index_in_range(width as int, height as int, x, y);
            }
        }
        fb
    }

    /// Colour of the pixel at `(x, y)`.
    pub fn pixel(&self, x: usize, y: usize) -> (color: u32)
        requires
            self.wf(),
            x < self.width,
            y < self.height,
        ensures
            color == self@.pixel(x as int, y as int),
    {
        proof {
            lemma_index_in_range(self.width as int, self.height as int, x as int, y as int);
        }
        self.pixels[y * self.width + x]
    }

    /// Sets the pixel at `(x, y)` to `color`; a pixel off the screen is ignored.
    pub fn draw_pixel(&mut self, x: usize, y: usize, color: u32)
        requires
            old(self).wf(),
        ensures
            final(self).wf(),
            final(self).width == old(self).width,
            final(self).height == old(self).height,
            final(self).bg_color == old(self).bg_color,
            final(self)@ == old(self)@.with_pixel(x as int, y as int, color),
    {
        let ghost before = self@;
        if x < self.width && y < self.height {
            proof {
                lemma_index_in_range(self.width as int, self.height as int, x as int, y as int);
            }
            let i = y * self.width + x;
            self.pixels.set(i, color);
            proof {
                let w = self.width as int;
                assert forall|p: (int, int)| #[trigger] self@.image.dom().contains(p) implies self@.image[p]
                    == before.with_pixel(x as int, y as int, color).image[p] by {
                    lemma_index_in_range(w, self.height as int, p.0, p.1);
                    if p.1 * w + p.0 == y * w + x {
                        lemma_index_injective(w, p.0, p.1, x as int, y as int);
                    }
                }
                assert(self@.image =~= before.with_pixel(x as int, y as int, color).image);
            }
        } else {
            assert(self@.image =~= before.with_pixel(x as int, y as int, color).image);
        }
    }
    /// Fills the on-screen part of the `w` x `h` rectangle at `(x, y)` with `color`.
    pub fn draw_rectangle(&mut self, x: usize, y: usize, w: usize, h: usize, color: u32)
        requires
            old(self).wf(),
        ensures
            final(self).wf(),
            final(self).width == old(self).width,
            final(self).height == old(self).height,
            final(self).bg_color == old(self).bg_color,
            final(self)@ == old(self)@.with_rectangle(x as int, y as int, w as int, h as int, color),
    {
        let ghost before = self@;
        let x_end = clip_end(x, w, self.width);
        let y_end = clip_end(y, h, self.height);
        let mut yy = y;
        while yy < y_end
            invariant
                self.wf(),
                self.width == before.width,
                self.height == before.height,
                self.bg_color == before.bg_color,
                y <= yy <= y_end,
                x <= x_end,
                self@.image == paint(before.image, |a: int, b: int| in_rect(x as int, y as int, x_end - x, yy - y, a, b), color),
            decreases y_end - yy,
        {
            let mut xx = x;
            while xx < x_end
                invariant
                    self.wf(),
                    self.width == before.width,
                    self.height == before.height,
                    self.bg_color == before.bg_color,
                    y <= yy < y_end,
                    x <= xx <= x_end,
                    self@.image == paint(before.image, |a: int, b: int|
                        in_rect(x as int, y as int, x_end - x, yy - y, a, b) || (b == yy && x <= a < xx), color),
                decreases x_end - xx,
            {
                let ghost img = self@.image;
                self.draw_pixel(xx, yy, color);
                proof {
                    let r = |a: int, b: int| in_rect(x as int, y as int, x_end - x, yy - y, a, b) || (b == yy && x <= a < xx);
                    let q = |a: int, b: int| a == xx && b == yy;
                    lemma_paint_twice(before.image, r, q, color);
                    lemma_paint_same_lit(before.image, |a: int, b: int| r(a, b) || q(a, b), |a: int, b: int|
                        in_rect(x as int, y as int, x_end - x, yy - y, a, b) || (b == yy && x <= a < xx + 1), color);
                }
                xx = xx + 1;
            }
            proof {
                lemma_paint_same_lit(before.image, |a: int, b: int|
                    in_rect(x as int, y as int, x_end - x, yy - y, a, b) || (b == yy && x <= a < xx), |a: int, b: int|
                    in_rect(x as int, y as int, x_end - x, yy + 1 - y, a, b), color);
            }
            yy = yy + 1;
        }
        proof {
            lemma_paint_same_lit(before.image, |a: int, b: int| in_rect(x as int, y as int, x_end - x, yy - y, a, b),
                |a: int, b: int| in_rect(x as int, y as int, w as int, h as int, a, b), color);
            assert(self@.image =~= before.with_rectangle(x as int, y as int, w as int, h as int, color).image);
        }
    }
    /// Draws the on-screen part of a `w` x `h` picture (row by row in
    /// `contents`) with its top-left corner at `(x, y)`.
    pub fn draw_image(&mut self, x: usize, y: usize, w: usize, h: usize, contents: &[u32])
        requires
            old(self).wf(),
            contents@.len() == w * h,
        ensures
            final(self).wf(),
            final(self).width == old(self).width,
            final(self).height == old(self).height,
            final(self).bg_color == old(self).bg_color,
            final(self)@ == old(self)@.with_image(x as int, y as int, w as int, h as int, contents@),
    {
        let ghost before = self@;
        let total = contents.len();
        let x_end = clip_end(x, w, self.width);
        let y_end = clip_end(y, h, self.height);
        let mut yy = y;
        while yy < y_end
            invariant
                self.wf(),
                self.width == before.width,
                self.height == before.height,
                self.bg_color == before.bg_color,
                total == w * h,
                y <= yy <= y_end,
                x <= x_end,
                y_end <= y + h,
                x_end <= x + w,
                contents@.len() == w * h,
                self@.image == blit_where(before.image, |a: int, b: int| in_rect(x as int, y as int, x_end - x, yy - y, a, b),
                    x as int, y as int, w as int, contents@),
            decreases y_end - yy,
        {
            let mut xx = x;
            while xx < x_end
                invariant
                    self.wf(),
                    self.width == before.width,
                    self.height == before.height,
                    self.bg_color == before.bg_color,
                    total == w * h,
                    y <= yy < y_end,
                    x <= xx <= x_end,
                    y_end <= y + h,
                    x_end <= x + w,
                    contents@.len() == w * h,
                    self@.image == blit_where(before.image, |a: int, b: int|
                        in_rect(x as int, y as int, x_end - x, yy - y, a, b) || (b == yy && x <= a < xx),
                        x as int, y as int, w as int, contents@),
                decreases x_end - xx,
            {
                proof {
                    lemma_index_in_range(w as int, h as int, (xx - x) as int, (yy - y) as int);
                }
                let color = contents[(yy - y) * w + (xx - x)];
                self.draw_pixel(xx, yy, color);
                proof {
                    let r = |a: int, b: int| in_rect(x as int, y as int, x_end - x, yy - y, a, b) || (b == yy && x <= a < xx);
                    lemma_blit_extend(before.image, r, x as int, y as int, w as int, contents@, xx as int, yy as int);
                    lemma_blit_same_lit(before.image, |a: int, b: int| r(a, b) || (a == xx && b == yy), |a: int, b: int|
                        in_rect(x as int, y as int, x_end - x, yy - y, a, b) || (b == yy && x <= a < xx + 1),
                        x as int, y as int, w as int, contents@);
                }
                xx = xx + 1;
            }
            proof {
                lemma_blit_same_lit(before.image, |a: int, b: int|
                    in_rect(x as int, y as int, x_end - x, yy - y, a, b) || (b == yy && x <= a < xx), |a: int, b: int|
                    in_rect(x as int, y as int, x_end - x, yy + 1 - y, a, b), x as int, y as int, w as int, contents@);
            }
            yy = yy + 1;
        }
        proof {
            lemma_blit_same_lit(before.image, |a: int, b: int| in_rect(x as int, y as int, x_end - x, yy - y, a, b),
                |a: int, b: int| in_rect(x as int, y as int, w as int, h as int, a, b), x as int, y as int, w as int, contents@);
            assert(self@.image =~= before.with_image(x as int, y as int, w as int, h as int, contents@).image);
        }
    }

    /// The corner at which a `w` x `h` picture stands centred on the screen
    /// (a coordinate is 0 where the picture is larger than the screen).
    pub fn get_center_xy(&self, w: usize, h: usize) -> (corner: (usize, usize))
        ensures
            corner.0 == (if w <= self.width { (self.width - w) / 2 } else { 0 }),
            corner.1 == (if h <= self.height { (self.height - h) / 2 } else { 0 }),
    {
        let cx = if w <= self.width { (self.width - w) / 2 } else { 0 };
        let cy = if h <= self.height { (self.height - h) / 2 } else { 0 };
        (cx, cy)
    }
}

/// The end of the part of `[start, start + len)` that lies below `limit`,
/// or `start` when nothing of it does.
fn clip_end(start: usize, len: usize, limit: usize) -> (end: usize)
    ensures
        end == (if start >= limit { start as int } else if start + len <= limit { start + len } else { limit as int }),
{
    if start >= limit {
        start
    } else if len <= limit - start {
        start + len
    } else {
        limit
    }
}

} // verus!
