//! The boot splash: colour stripes, the logo, and the boot banner, drawn in
//! steps so that the caller can pause between them.
use vstd::prelude::*;
use crate::framebuffer::FramebufferView;
use crate::text::{Writer, WriterView, TEXT_COLOR, CLEAR_COLOR};

verus! {

broadcast use vstd::string::group_string_axioms;

/// A picture: its size and its pixels, row by row.
pub struct Image {
    pub width: usize,
    pub height: usize,
    pub pixels: Vec<u32>,
}

impl Image {
    /// The picture holds one pixel per position.
    pub open spec fn wf(&self) -> bool {
        self.pixels.len() == self.width * self.height
    }
}

/// The little-endian 32-bit number stored in `bytes[at..at + 4]`.
pub open spec fn le_u32(bytes: Seq<u8>, at: int) -> int {
    bytes[at] + 256 * bytes[at + 1] + 65536 * bytes[at + 2] + 16777216 * bytes[at + 3]
}

/// Whether `bytes` hold a whole picture: a width and a height, then at
/// least width x height pixels.
pub open spec fn holds_picture(bytes: Seq<u8>) -> bool {
    bytes.len() >= 8 && 8 + 4 * (le_u32(bytes, 0) * le_u32(bytes, 4)) <= bytes.len()
}

/// Reads the little-endian 32-bit number stored in `bytes[at..at + 4]`.
fn read_u32(bytes: &[u8], at: usize) -> (value: u32)
    requires
        at + 4 <= bytes@.len(),
    ensures
        value == le_u32(bytes@, at as int),
{
    bytes[at] as u32 + (bytes[at + 1] as u32) * 256 + (bytes[at + 2] as u32) * 65536 + (bytes[at + 3] as u32) * 16777216
}

impl Image {
    /// Reads a picture stored as its width and its height, then its pixels
    /// row by row, each a little-endian 32-bit number; bytes after the last
    /// pixel are ignored. Returns `None` when the bytes are too few.
    pub fn from_bytes(bytes: &[u8]) -> (image: Option<Image>)
        ensures
            image is Some <==> holds_picture(bytes@),
            image matches Some(img) ==> {
                &&& img.wf()
                &&& img.width == le_u32(bytes@, 0)
                &&& img.height == le_u32(bytes@, 4)
                &&& forall|i: int| 0 <= i < img.pixels@.len() ==> #[trigger] img.pixels@[i] == le_u32(bytes@, 8 + 4 * i)
            },
    {
        let len = bytes.len();
        if len < 8 {
            return None;
        }
        let width = read_u32(bytes, 0) as usize;
        let height = read_u32(bytes, 4) as usize;
        let count = match width.checked_mul(height) {
            Some(n) => n,
            None => {
                assert(width * height > usize::MAX);
                return None;
            },
        };
        if count > (len - 8) / 4 {
            return None;
        }
        let mut pixels: Vec<u32> = Vec::new();
        let mut at: usize = 8;
        while pixels.len() < count
            invariant
                count == width * height,
                count <= (len - 8) / 4,
                len == bytes@.len(),
                len >= 8,
                at == 8 + 4 * pixels.len(),
                pixels.len() <= count,
                forall|i: int| 0 <= i < pixels.len() ==> #[trigger] pixels@[i] == le_u32(bytes@, 8 + 4 * i),
            decreases count - pixels.len(),
        {
            pixels.push(read_u32(bytes, at));
            at = at + 4;
        }
        Some(Image { width, height, pixels })
    }
}

/// Stripe `i` of `n` colours covers the rows from `i * (height / n)` up to
/// (not including) `(i + 1) * (height / n)` across the whole width, in colour
/// `i`; every other pixel keeps its colour, and the cursor does not move.
pub proof fn lemma_stripe_pixels(w: WriterView, colors: Seq<u32>, i: int, x: int, y: int)
    requires
        w.screen.image.dom().contains((x, y)),
        0 <= x < w.screen.width,
        colors.len() > 0,
    ensures
        ({
            let sh = w.screen.height / colors.len() as int;
            let t = with_stripe(w, colors, i);
            &&& t.screen.image[(x, y)] == (if i * sh <= y < (i + 1) * sh { colors[i] } else { w.screen.image[(x, y)] })
            &&& t.cursor_x == w.cursor_x && t.cursor_y == w.cursor_y && t.scroll_y == w.scroll_y
        }),
{
    let sh = w.screen.height / colors.len() as int;
    assert((i + 1) * sh == i * sh + sh) by (nonlinear_arith);
}

/// The boot splash pauses 500 ticks after each of its first seven steps and
/// 1000 after the next two, and ends with the banner at step 9: from then
/// on there is no pause.
pub proof fn lemma_boot_pauses(step: int)
    requires
        step >= 0,
    ensures
        0 <= step < 7 ==> boot_pause(step) == Some(500u32),
        7 <= step < 9 ==> boot_pause(step) == Some(1000u32),
        step >= 9 ==> boot_pause(step) is None,
{
}

/// The corner at which a `w` x `h` picture stands centred on `screen`.
pub open spec fn center_of(screen: FramebufferView, w: int, h: int) -> (int, int) {
    (
        if w <= screen.width { (screen.width - w) / 2 } else { 0 },
        if h <= screen.height { (screen.height - h) / 2 } else { 0 },
    )
}

/// The writer with stripe `i` of `colors` drawn: the screen is cut into as
/// many horizontal stripes as there are colours, each `height / n` rows
/// high, and stripe `i` takes colour `i`.
pub open spec fn with_stripe(w: WriterView, colors: Seq<u32>, i: int) -> WriterView {
    let stripe_height = w.screen.height / colors.len() as int;
    WriterView {
        screen: w.screen.with_rectangle(0, i * stripe_height, w.screen.width, stripe_height, colors[i]),
        ..w
    }
}

/// The writer with a picture drawn centred on the screen.
pub open spec fn with_centered_image(w: WriterView, image_w: int, image_h: int, pixels: Seq<u32>) -> WriterView {
    let corner = center_of(w.screen, image_w, image_h);
    WriterView { screen: w.screen.with_image(corner.0, corner.1, image_w, image_h, pixels), ..w }
}

/// The colours of the opening stripes of the boot splash.
pub open spec fn boot_colors() -> Seq<u32> {
    seq![0x050505u32, 0x111111u32, 0x121212u32, 0x222222u32, 0x232323u32, 0x333333u32]
}

/// The colour that fills the screen before the logo appears.
pub open spec fn logo_backdrop() -> Seq<u32> {
    seq![0xdf7126u32]
}

/// The line written when the boot splash ends.
pub open spec fn booting_text() -> Seq<char> {
    "GUIneu Booting Up!"@
}

/// The writer after step `step` of the boot splash: six stripes, the
/// backdrop, the centred logo, a cleared screen, and the banner line.
pub open spec fn boot_step(w: WriterView, logo_w: int, logo_h: int, logo: Seq<u32>, step: int) -> WriterView {
    if step < 6 {
        with_stripe(w, boot_colors(), step)
    } else if step == 6 {
        with_stripe(w, logo_backdrop(), 0)
    } else if step == 7 {
        with_centered_image(w, logo_w, logo_h, logo)
    } else if step == 8 {
        WriterView { screen: w.screen.with_rectangle(0, 0, w.screen.width, w.screen.height, CLEAR_COLOR), ..w }
    } else if step == 9 {
        w.print_string(booting_text(), TEXT_COLOR)
    } else {
        w
    }
}

/// How many timer ticks to pause after step `step` of the boot splash, or
/// `None` once it is over.
pub open spec fn boot_pause(step: int) -> Option<u32> {
    if step <= 6 {
        Some(500)
    } else if step <= 8 {
        Some(1000)
    } else {
        None
    }
}

impl Writer {
    /// Draws stripe `stripe` of the screen in its colour: the screen is cut
    /// into as many horizontal stripes as there are colours.
    pub fn fill_screen(&mut self, colors: &[u32], stripe: usize)
        requires
            old(self).framebuffer.wf(),
            0 < colors@.len(),
            stripe < colors@.len(),
        ensures
            final(self).framebuffer.wf(),
            final(self)@ == with_stripe(old(self)@, colors@, stripe as int),
    {
        let num_colors = colors.len();
        let height = self.framebuffer.height;
        let width = self.framebuffer.width;
        let stripe_height = height / num_colors;
        proof {
            vstd::arithmetic::div_mod::lemma_fundamental_div_mod(height as int, num_colors as int);
            vstd::arithmetic::mul::lemma_mul_inequality(stripe as int, num_colors as int, stripe_height as int);
            vstd::arithmetic::mul::lemma_mul_is_commutative(num_colors as int, stripe_height as int);
        }
        let top = stripe * stripe_height;
        let color = colors[stripe];
        self.framebuffer.draw_rectangle(0, top, width, stripe_height, color);
    }

    /// Performs step `step` of the boot splash and returns how many timer
    /// ticks to pause before the next step, or `None` once the splash is over.
    pub fn boot_message(&mut self, logo: &Image, step: usize) -> (pause: Option<u32>)
        requires
            old(self).wf(),
            old(self)@.room(booting_text().len() + 1int),
            logo.wf(),
        ensures
            final(self).wf(),
            final(self)@ == boot_step(old(self)@, logo.width as int, logo.height as int, logo.pixels@, step as int),
            pause == boot_pause(step as int),
    {
        if step < 6 {
            let colors: Vec<u32> = vec![0x050505u32, 0x111111u32, 0x121212u32, 0x222222u32, 0x232323u32, 0x333333u32];
            assert(colors@ =~= boot_colors());
            self.fill_screen(colors.as_slice(), step);
            Some(500)
        } else if step == 6 {
            let colors: Vec<u32> = vec![0xdf7126u32];
            assert(colors@ =~= logo_backdrop());
            self.fill_screen(colors.as_slice(), 0);
            Some(500)
        } else if step == 7 {
            let (x, y) = self.framebuffer.get_center_xy(logo.width, logo.height);
            self.framebuffer.draw_image(x, y, logo.width, logo.height, logo.pixels.as_slice());
            Some(1000)
        } else if step == 8 {
            let w = self.framebuffer.width;
            let h = self.framebuffer.height;
            self.framebuffer.draw_rectangle(0, 0, w, h, CLEAR_COLOR);
            Some(1000)
        } else if step == 9 {
            proof {
                reveal_strlit("GUIneu Booting Up!");
            }
            self.print_string("GUIneu Booting Up!", TEXT_COLOR);
            None
        } else {
            None
        }
    }
}

} // verus!
