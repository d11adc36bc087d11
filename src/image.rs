//! Pixel formats and source kinds: RGBA8 to the display's RGB565 and back,
//! GIF frame compositing, and which file extensions name a still or an
//! animated image.

use vstd::prelude::*;
use crate::config::str_equals;
use vstd::arithmetic::div_mod::{
    lemma_fundamental_div_mod_converse_div, lemma_fundamental_div_mod_converse_mod,
};

verus! {

/// The RGB565 value of one RGBA8 pixel: 5 bits of red, 6 of green and 5 of
/// blue, from the high bits of each.
pub open spec fn rgb565(r: u8, g: u8, b: u8) -> u16 {
    (((r as u16) & 0xF8) << 8u16) | (((g as u16) & 0xFC) << 3u16) | (((b as u16) & 0xF8) >> 3u16)
}

/// Whether pixel `i` of `out` holds the RGB565 value of pixel `i` of
/// `rgba`, high byte first.
pub open spec fn rgb565_at(out: Seq<u8>, rgba: Seq<u8>, i: int) -> bool {
    let p = rgb565(rgba[4 * i], rgba[4 * i + 1], rgba[4 * i + 2]);
    &&& out[2 * i] == (p >> 8u16) as u8
    &&& out[2 * i + 1] == (p & 0xFF) as u8
}

/// Converts `width * height` RGBA8 pixels to RGB565, two bytes per pixel,
/// high byte first.
pub fn rgba_to_rgb565(rgba: &[u8], width: u32, height: u32) -> (r: Vec<u8>)
    requires
        4 * (width as int * height as int) <= rgba@.len(),
    ensures
        r@.len() == 2 * (width as int * height as int),
        forall|i: int|
            0 <= i < width as int * height as int ==> #[trigger] rgb565_at(r@, rgba@, i),
{
    let ghost n = width as int * height as int;
    let total = rgba.len();
    assert(n <= total / 4);
    let pixel_count = total / 4;
    assert(n <= pixel_count);
    let w = width as usize;
    let h = height as usize;
    if w != 0 {
        assert(h <= pixel_count / w) by (nonlinear_arith)
            requires
                w * h <= pixel_count,
                w > 0,
        ;
    }
    let pixel_count = w * h;
    let mut buf: Vec<u8> = Vec::new();
    let mut i: usize = 0;
    while i < pixel_count
        invariant
            pixel_count == n,
            total == rgba@.len(),
            4 * n <= rgba@.len(),
            i <= n,
            buf@.len() == 2 * i,
            forall|k: int|
                0 <= k < i ==> #[trigger] rgb565_at(buf@, rgba@, k),
        decreases n - i,
    {
        let r = rgba[4 * i] as u16;
        let g = rgba[4 * i + 1] as u16;
        let b = rgba[4 * i + 2] as u16;
        let pixel = ((r & 0xF8) << 8u16) | ((g & 0xFC) << 3u16) | ((b & 0xF8) >> 3u16);
        let ghost before = buf@;
        buf.push((pixel >> 8u16) as u8);
        buf.push((pixel & 0xFF) as u8);
        assert forall|k: int| 0 <= k < i + 1 implies #[trigger] rgb565_at(buf@, rgba@, k) by {
            if k < i {
                assert(rgb565_at(before, rgba@, k));
                assert(buf@[2 * k] == before[2 * k]);
                assert(buf@[2 * k + 1] == before[2 * k + 1]);
            }
        }
        i = i + 1;
    }
    assert forall|k: int| 0 <= k < width as int * height as int implies #[trigger] rgb565_at(buf@, rgba@, k) by {
        assert(k < i);
    }
    buf
}

/// A 5-bit channel widened to 8 bits by repeating its high bits.
pub open spec fn expand5(c: u8) -> u8 {
    ((c << 3u8) | (c >> 2u8)) as u8
}

/// A 6-bit channel widened to 8 bits by repeating its high bits.
pub open spec fn expand6(c: u8) -> u8 {
    ((c << 2u8) | (c >> 4u8)) as u8
}

/// The RGBA8 pixel of an RGB565 value.
pub open spec fn rgba_of(p: u16) -> Seq<u8> {
    seq![
        expand5(((p >> 11u16) & 0x1F) as u8),
        expand6(((p >> 5u16) & 0x3F) as u8),
        expand5((p & 0x1F) as u8),
        255u8,
    ]
}

/// Converts RGB565 data, two bytes per pixel with the high byte first, to
/// `width * height` RGBA8 pixels. Pixels the data does not reach stay
/// transparent black.
pub fn rgb565_to_rgba(data: &[u8], width: u16, height: u16) -> (r: Vec<u8>)
    ensures
        r@.len() == 4 * (width as int * height as int),
        forall|i: int|
            0 <= i < width as int * height as int ==> #[trigger] r@.subrange(4 * i, 4 * i + 4) == (
            if 2 * i + 1 < data@.len() {
                rgba_of((((data@[2 * i] as u16) << 8u16) | (data@[2 * i + 1] as u16)) as u16)
            } else {
                seq![0u8, 0u8, 0u8, 0u8]
            }),
{
    let ghost n = width as int * height as int;
    assert(width as int * height as int <= 4294836225) by (nonlinear_arith)
        requires
            width <= 65535,
            height <= 65535,
    ;
    let count = (width as u32 * height as u32) as usize;
    let mut out: Vec<u8> = Vec::new();
    let mut i: usize = 0;
    while i < count
        invariant
            count == n,
            i <= n,
            out@.len() == 4 * i,
            forall|k: int|
                0 <= k < i ==> #[trigger] out@.subrange(4 * k, 4 * k + 4) == (if 2 * k + 1
                    < data@.len() {
                    rgba_of((((data@[2 * k] as u16) << 8u16) | (data@[2 * k + 1] as u16)) as u16)
                } else {
                    seq![0u8, 0u8, 0u8, 0u8]
                }),
        decreases n - i,
    {
        let ghost before = out@;
        if i < data.len() / 2 {
            let hi = data[2 * i] as u16;
            let lo = data[2 * i + 1] as u16;
            let pixel = (hi << 8u16) | lo;
            let r = ((pixel >> 11u16) & 0x1F) as u8;
            let g = ((pixel >> 5u16) & 0x3F) as u8;
            let b = (pixel & 0x1F) as u8;
            out.push((r << 3u8) | (r >> 2u8));
            out.push((g << 2u8) | (g >> 4u8));
            out.push((b << 3u8) | (b >> 2u8));
            out.push(255);
            assert(out@.subrange(4 * i, 4 * i + 4) =~= rgba_of(pixel));
        } else {
            out.push(0);
            out.push(0);
            out.push(0);
            out.push(0);
            assert(out@.subrange(4 * i, 4 * i + 4) =~= seq![0u8, 0u8, 0u8, 0u8]);
        }
        assert forall|k: int| 0 <= k < i + 1 implies #[trigger] out@.subrange(4 * k, 4 * k + 4)
            == (if 2 * k + 1 < data@.len() {
            rgba_of((((data@[2 * k] as u16) << 8u16) | (data@[2 * k + 1] as u16)) as u16)
        } else {
            seq![0u8, 0u8, 0u8, 0u8]
        }) by {
            if k < i {
                assert(out@.subrange(4 * k, 4 * k + 4) =~= before.subrange(4 * k, 4 * k + 4));
            }
        }
        i = i + 1;
    }
    out
}

/// The kinds of source image.
#[derive(Debug, Clone, Copy, PartialEq, Eq, Structural)]
pub enum ImageKind {
    /// A GIF, which may hold several frames.
    Animated,
    /// A single picture: PNG, JPEG, BMP or WebP.
    Still,
}

/// The kind of source image a lower-case file extension names.
pub open spec fn image_kind(ext: Seq<char>) -> Option<ImageKind> {
    if ext == "gif"@ {
        Some(ImageKind::Animated)
    } else if ext == "png"@ || ext == "jpg"@ || ext == "jpeg"@ || ext == "bmp"@ || ext
        == "webp"@ {
        Some(ImageKind::Still)
    } else {
        None
    }
}

/// The lower-case form of a text.
pub uninterp spec fn lowercase_of(s: Seq<char>) -> Seq<char>;

/// Relies on str::to_lowercase: the lower-case form of a text, which depends
/// on its characters alone.
#[verifier::external_body]
fn to_lowercase(s: &str) -> (r: String)
    ensures
        r@ == lowercase_of(s@),
{
    s.to_lowercase()
}

/// The kind of source image a lower-case file extension names.
pub fn image_kind_of_lowercase(ext: &str) -> (r: Option<ImageKind>)
    ensures
        r == image_kind(ext@),
{
    if str_equals(ext, "gif") {
        Some(ImageKind::Animated)
    } else if str_equals(ext, "png") || str_equals(ext, "jpg") || str_equals(ext, "jpeg")
        || str_equals(ext, "bmp") || str_equals(ext, "webp") {
        Some(ImageKind::Still)
    } else {
        None
    }
}

/// The kind of source image a file extension names, in any case.
pub fn image_kind_of_extension(ext: &str) -> (r: Option<ImageKind>)
    ensures
        r == image_kind(lowercase_of(ext@)),
{
    let lower = to_lowercase(ext);
    image_kind_of_lowercase(lower.as_str())
}

/// The delay of an animation, in milliseconds, once a frame with a delay of
/// `centis` hundredths of a second has been seen: the first non-zero delay
/// wins; too long a delay is held at the largest value.
pub fn animation_delay_ms(current_ms: u16, centis: u16) -> (r: u16)
    ensures
        current_ms == 0 && centis > 0 ==> r == (if centis * 10 <= u16::MAX {
            centis * 10
        } else {
            u16::MAX as int
        }),
        !(current_ms == 0 && centis > 0) ==> r == current_ms,
{
    if current_ms == 0 && centis > 0 {
        if centis <= 6553 {
            centis * 10
        } else {
            u16::MAX
        }
    } else {
        current_ms
    }
}

/// A rectangle of a GIF canvas: its left and top edge, width and height.
#[derive(Debug, Clone, Copy, PartialEq, Eq, Structural)]
pub struct Region {
    pub left: u16,
    pub top: u16,
    pub width: u16,
    pub height: u16,
}

/// Whether canvas pixel (`x`, `y`) lies in `r`.
pub open spec fn in_region(r: Region, x: int, y: int) -> bool {
    r.left <= x < r.left + r.width && r.top <= y < r.top + r.height
}

/// Where the frame pixel over canvas pixel (`x`, `y`) starts in a frame
/// covering `r`.
pub open spec fn frame_offset(r: Region, x: int, y: int) -> int {
    4 * ((y - r.top) * r.width + (x - r.left))
}

/// Canvas pixel `i` of a `w`-wide canvas after a step: inside `r`, cleared
/// to transparent black when `clear`, else replaced by the frame's pixel
/// unless that one is fully transparent; outside `r`, unchanged.
pub open spec fn region_pixel(old: Seq<u8>, frame: Seq<u8>, w: int, r: Region, clear: bool, i: int) -> Seq<u8> {
    let x = i % w;
    let y = i / w;
    let s = frame_offset(r, x, y);
    if in_region(r, x, y) && clear {
        seq![0u8, 0u8, 0u8, 0u8]
    } else if in_region(r, x, y) && frame[s + 3] > 0 {
        frame.subrange(s, s + 4)
    } else {
        old.subrange(4 * i, 4 * i + 4)
    }
}

/// The RGBA canvas on which the frames of a GIF are composed.
pub struct GifCanvas {
    width: u16,
    height: u16,
    pixels: Vec<u8>,
}

impl View for GifCanvas {
    type V = Seq<u8>;

    closed spec fn view(&self) -> Seq<u8> {
        self.pixels@
    }
}

impl GifCanvas {
    pub closed spec fn spec_width(&self) -> int {
        self.width as int
    }

    pub closed spec fn spec_height(&self) -> int {
        self.height as int
    }

    pub open spec fn wf(&self) -> bool {
        self@.len() == 4 * (self.spec_width() * self.spec_height())
    }

    /// A transparent canvas of `width * height` pixels.
    pub fn new(width: u16, height: u16) -> (r: GifCanvas)
        requires
            4 * (width as int * height as int) <= usize::MAX,
        ensures
            r.wf(),
            r.spec_width() == width,
            r.spec_height() == height,
            r@ == Seq::new((4 * (width as int * height as int)) as nat, |i: int| 0u8),
    {
        let n = 4 * ((width as usize) * (height as usize));
        let mut pixels: Vec<u8> = Vec::new();
        let mut k: usize = 0;
        while k < n
            invariant
                k <= n,
                pixels@.len() == k,
                forall|m: int| 0 <= m < k ==> pixels@[m] == 0u8,
            decreases n - k,
        {
            pixels.push(0);
            k = k + 1;
        }
        let r = GifCanvas { width, height, pixels };
        assert(r@ =~= Seq::new((4 * (width as int * height as int)) as nat, |i: int| 0u8));
        r
    }

    /// The canvas width in pixels.
    pub fn width(&self) -> (r: u16)
        ensures
            r == self.spec_width(),
    {
        self.width
    }

    /// The canvas height in pixels.
    pub fn height(&self) -> (r: u16)
        ensures
            r == self.spec_height(),
    {
        self.height
    }

    /// The canvas as RGBA bytes, row by row.
    pub fn pixels(&self) -> (r: &[u8])
        ensures
            r@ == self@,
    {
        self.pixels.as_slice()
    }

    fn apply_region(&mut self, frame: &[u8], r: Region, clear: bool)
        requires
            old(self).wf(),
            clear || 4 * (r.width as int * r.height as int) <= frame@.len(),
        ensures
            final(self).wf(),
            final(self).spec_width() == old(self).spec_width(),
            final(self).spec_height() == old(self).spec_height(),
            forall|i: int|
                0 <= i < old(self).spec_width() * old(self).spec_height() ==> #[trigger] final(self)@.subrange(4 * i, 4 * i + 4) == region_pixel(
                    old(self)@,
                    frame@,
                    old(self).spec_width(),
                    r,
                    clear,
                    i,
                ),
    {
        let ghost start = self.pixels@;
        let ghost w0 = self.width;
        let ghost h0 = self.height;
        let w = self.width as usize;
        let plen = self.pixels.len();
        let flen = frame.len();
        let n = plen / 4;
        let ghost total = w as int * self.height as int;
        assert(n == total);
        if n > 0 {
            assert(w > 0) by (nonlinear_arith)
                requires
                    n > 0,
                    n == w as int * h0 as int,
                    h0 >= 0,
            ;
        }
        let mut i: usize = 0;
        let mut x: usize = 0;
        let mut y: usize = 0;
        while i < n
            invariant
                self.width == w0,
                self.height == h0,
                w == self.width,
                plen == 4 * n,
                flen == frame@.len(),
                n > 0 ==> w > 0,
                n == total,
                total == self.width as int * self.height as int,
                self.pixels@.len() == 4 * n,
                start.len() == 4 * n,
                i <= n,
                i < n ==> x < w,
                i == y * w + x,
                clear || 4 * (r.width as int * r.height as int) <= frame@.len(),
                forall|k: int| 4 * i <= k < 4 * n ==> self.pixels@[k] == start[k],
                forall|k: int|
                    0 <= k < i ==> #[trigger] self.pixels@.subrange(4 * k, 4 * k + 4)
                        == region_pixel(start, frame@, w as int, r, clear, k),
            decreases n - i,
        {
            proof {
                assert(w > 0) by (nonlinear_arith)
                    requires
                        i < n,
                        n == w as int * self.height as int,
                        i >= 0,
                ;
                lemma_fundamental_div_mod_converse_div(i as int, w as int, y as int, x as int);
                lemma_fundamental_div_mod_converse_mod(i as int, w as int, y as int, x as int);
            }
            let ghost before = self.pixels@;
            let inside = r.left as usize <= x && x < r.left as usize + r.width as usize
                && r.top as usize <= y && y < r.top as usize + r.height as usize;
            if inside && clear {
                self.pixels.set(4 * i, 0);
                self.pixels.set(4 * i + 1, 0);
                self.pixels.set(4 * i + 2, 0);
                self.pixels.set(4 * i + 3, 0);
            } else if inside {
                let fx = x - r.left as usize;
                let fy = y - r.top as usize;
                let fw = r.width as usize;
                proof {
                    assert(fy * fw + fx < r.width as int * r.height as int) by (nonlinear_arith)
                        requires
                            fy < r.height,
                            fx < fw,
                            fw == r.width,
                    ;
                    assert(fy * fw <= fy * fw + fx) by (nonlinear_arith)
                        requires
                            fx >= 0,
                    ;
                }
                let src = 4 * (fy * fw + fx);
                assert(src == frame_offset(r, x as int, y as int));
                if frame[src + 3] > 0 {
                    self.pixels.set(4 * i, frame[src]);
                    self.pixels.set(4 * i + 1, frame[src + 1]);
                    self.pixels.set(4 * i + 2, frame[src + 2]);
                    self.pixels.set(4 * i + 3, frame[src + 3]);
                }
            }
            assert(self.pixels@.subrange(4 * i, 4 * i + 4) =~= region_pixel(
                start,
                frame@,
                w as int,
                r,
                clear,
                i as int,
            ));
            assert forall|k: int| 0 <= k < i + 1 implies #[trigger] self.pixels@.subrange(
                4 * k,
                4 * k + 4,
            ) == region_pixel(start, frame@, w as int, r, clear, k) by {
                if k < i {
                    assert(self.pixels@.subrange(4 * k, 4 * k + 4) =~= before.subrange(
                        4 * k,
                        4 * k + 4,
                    ));
                }
            }
            i = i + 1;
            if x + 1 < w {
                x = x + 1;
            } else {
                assert((y + 1) * w == y * w + w) by (nonlinear_arith);
                x = 0;
                y = y + 1;
            }
        }
    }

    /// Draws a decoded frame covering `r`: each of its pixels that is not
    /// fully transparent replaces the canvas pixel under it; parts outside
    /// the canvas are cut off.
    pub fn draw_frame(&mut self, frame: &[u8], r: Region)
        requires
            old(self).wf(),
            4 * (r.width as int * r.height as int) <= frame@.len(),
        ensures
            final(self).wf(),
            final(self).spec_width() == old(self).spec_width(),
            final(self).spec_height() == old(self).spec_height(),
            forall|i: int|
                0 <= i < old(self).spec_width() * old(self).spec_height() ==> #[trigger] final(self)@.subrange(4 * i, 4 * i + 4) == region_pixel(
                    old(self)@,
                    frame@,
                    old(self).spec_width(),
                    r,
                    false,
                    i,
                ),
    {
        self.apply_region(frame, r, false);
    }

    /// Clears the pixels of `r` to transparent black, as a frame disposed to
    /// the background leaves them.
    pub fn clear_region(&mut self, r: Region)
        requires
            old(self).wf(),
        ensures
            final(self).wf(),
            final(self).spec_width() == old(self).spec_width(),
            final(self).spec_height() == old(self).spec_height(),
            forall|i: int|
                0 <= i < old(self).spec_width() * old(self).spec_height() ==> #[trigger] final(self)@.subrange(4 * i, 4 * i + 4) == region_pixel(
                    old(self)@,
                    Seq::empty(),
                    old(self).spec_width(),
                    r,
                    true,
                    i,
                ),
    {
        let empty: [u8; 0] = [];
        self.apply_region(&empty, r, true);
    }
}

} // verus!
