//! Grey images.

use image::{ImageBuffer, ImageFormat, Luma};
use imageproc::drawing::draw_filled_rect_mut;
use imageproc::rect::Rect;
use vstd::prelude::*;

verus! {

/// An eight-bit grey image, stored row by row from the top left corner.
pub struct GrayImage {
    pub width: u32,
    pub height: u32,
    pub pixels: Vec<u8>,
}

impl GrayImage {
    /// Every pixel of the rectangle is stored, and nothing else.
    pub open spec fn wf(&self) -> bool {
        self.pixels@.len() == self.width * self.height
    }
}

/// The position of column `x` of row `y` in an image that is `w` wide.
pub open spec fn offset(w: int, x: int, y: int) -> int {
    y * w + x
}

/// Columns and rows inside a `w` by `h` image have their place in its pixels.
pub(crate) proof fn lemma_offset_bounds(w: int, h: int, x: int, y: int)
    requires
        0 <= x < w,
        0 <= y < h,
    ensures
        0 <= offset(w, x, y) < w * h,
        y * w + w <= w * h,
{
    assert(y * w + w <= w * h && 0 <= y * w) by (nonlinear_arith)
        requires
            0 <= y < h,
            0 <= w,
    ;
}

/// Two pixels of an image never share a place.
pub(crate) proof fn lemma_offset_injective(w: int, x1: int, y1: int, x2: int, y2: int)
    requires
        0 <= x1 < w,
        0 <= x2 < w,
        offset(w, x1, y1) == offset(w, x2, y2),
    ensures
        x1 == x2,
        y1 == y2,
{
    assert(y1 == y2) by (nonlinear_arith)
        requires
            y1 * w + x1 == y2 * w + x2,
            0 <= x1 < w,
            0 <= x2 < w,
    ;
}

/// A point lies in the rectangle whose top left corner is at `(x, y)`.
pub open spec fn inside(px: int, py: int, x: int, y: int, w: int, h: int) -> bool {
    x <= px < x + w && y <= py < y + h
}

/// The pixels of an image that is `width` wide, after a rectangle was filled. What lies
/// outside the image is left out.
pub open spec fn filled(
    pixels: Seq<u8>,
    width: int,
    x: int,
    y: int,
    w: int,
    h: int,
    shade: u8,
) -> Seq<u8> {
    Seq::new(
        pixels.len(),
        |i: int|
            if inside(i % width, i / width, x, y, w, h) {
                shade
            } else {
                pixels[i]
            },
    )
}

/// `imageproc::drawing::draw_filled_rect_mut` on a `width` by `height` image: the pixels of the
/// rectangle that lie in the image take the shade, and the others stay. Both image and
/// rectangle have an extent, and the rectangle's edges are within `i32`; it panics otherwise.
#[verifier::external_body]
fn fill_pixels(
    width: u32,
    height: u32,
    pixels: Vec<u8>,
    x: i32,
    y: i32,
    w: u32,
    h: u32,
    shade: u8,
) -> (r: Vec<u8>)
    requires
        0 < width <= i32::MAX,
        0 < height <= i32::MAX,
        pixels@.len() == width * height,
        0 < w <= i32::MAX,
        0 < h <= i32::MAX,
        x + w <= i32::MAX,
        y + h <= i32::MAX,
    ensures
        r@ == filled(pixels@, width as int, x as int, y as int, w as int, h as int, shade),
{
    let mut canvas = ImageBuffer::<Luma<u8>, Vec<u8>>::from_raw(width, height, pixels).unwrap();
    draw_filled_rect_mut(&mut canvas, Rect::at(x, y).of_size(w, h), Luma([shade]));
    canvas.into_raw()
}

/// The PNG file that `image` makes of a `width` by `height` grey image, if it makes one.
pub uninterp spec fn png_file(width: u32, height: u32, pixels: Seq<u8>) -> Option<Seq<u8>>;

/// The bytes of a file that may be missing.
pub open spec fn bytes_of(file: Option<Vec<u8>>) -> Option<Seq<u8>> {
    match file {
        Some(bytes) => Some(bytes@),
        None => None,
    }
}

/// `image::ImageBuffer::write_to` in the PNG format, into memory. The bytes depend on the size
/// and the pixels alone; `png_file` is their name.
#[verifier::external_body]
fn write_png(width: u32, height: u32, pixels: &Vec<u8>) -> (r: Option<Vec<u8>>)
    requires
        pixels@.len() == width * height,
    ensures
        bytes_of(r) == png_file(width, height, pixels@),
{
    let canvas = ImageBuffer::<Luma<u8>, &[u8]>::from_raw(width, height, pixels.as_slice())?;
    let mut out = std::io::Cursor::new(Vec::new());
    canvas.write_to(&mut out, ImageFormat::Png).ok()?;
    Some(out.into_inner())
}

impl GrayImage {
    /// An image all of one shade.
    pub fn from_pixel(width: u32, height: u32, shade: u8) -> (r: GrayImage)
        requires
            width * height <= usize::MAX,
        ensures
            r.wf(),
            r.width == width,
            r.height == height,
            r.pixels@ == Seq::new((width * height) as nat, |i: int| shade),
    {
        let n: usize = width as usize * height as usize;
        let mut pixels: Vec<u8> = Vec::new();
        let mut i: usize = 0;
        while i < n
            invariant
                i <= n,
                pixels@ == Seq::new(i as nat, |j: int| shade),
            decreases n - i,
        {
            pixels.push(shade);
            assert(pixels@ =~= Seq::new((i + 1) as nat, |j: int| shade));
            i += 1;
        }
        GrayImage { width, height, pixels }
    }

    /// The shade of a point.
    pub open spec fn at(&self, x: int, y: int) -> u8 {
        self.pixels@[offset(self.width as int, x, y)]
    }

    /// Fills a rectangle whose top left corner is at `(x, y)`, as far as it lies in the image.
    pub fn fill(&mut self, x: i32, y: i32, w: u32, h: u32, shade: u8)
        requires
            old(self).wf(),
            0 < old(self).width <= i32::MAX,
            0 < old(self).height <= i32::MAX,
            0 < w <= i32::MAX,
            0 < h <= i32::MAX,
            x + w <= i32::MAX,
            y + h <= i32::MAX,
        ensures
            final(self).wf(),
            final(self).width == old(self).width,
            final(self).height == old(self).height,
            forall|px: int, py: int|
                0 <= px < old(self).width && 0 <= py < old(self).height ==>
                    (#[trigger] final(self).at(px, py)) == if inside(
                    px,
                    py,
                    x as int,
                    y as int,
                    w as int,
                    h as int,
                ) {
                    shade
                } else {
                    old(self).at(px, py)
                },
    {
        let mut pixels: Vec<u8> = Vec::new();
        std::mem::swap(&mut pixels, &mut self.pixels);
        self.pixels = fill_pixels(self.width, self.height, pixels, x, y, w, h, shade);
        proof {
            assert forall|px: int, py: int|
                0 <= px < old(self).width && 0 <= py < old(self).height implies #[trigger] self.at(
                px,
                py,
            ) == if inside(px, py, x as int, y as int, w as int, h as int) {
                shade
            } else {
                old(self).at(px, py)
            } by {
                let width = old(self).width as int;
                lemma_offset_bounds(width, old(self).height as int, px, py);
                let i = offset(width, px, py);
                vstd::arithmetic::div_mod::lemma_fundamental_div_mod_converse(i, width, py, px);
            }
        }
    }

    /// The image as a PNG file, or nothing where it cannot be one.
    pub fn encode_png(&self) -> (r: Option<Vec<u8>>)
        requires
            self.wf(),
        ensures
            bytes_of(r) == png_file(self.width, self.height, self.pixels@),
    {
        write_png(self.width, self.height, &self.pixels)
    }
}

/// Pixels are stored row by row.
pub proof fn law_rows_follow_each_other(img: GrayImage, x: int, y: int)
    ensures
        offset(img.width as int, x, y) == y * img.width + x,
        img.at(x, y) == img.pixels@[y * img.width + x],
        img.wf() <==> img.pixels@.len() == img.width * img.height,
{
}

/// A rectangle takes in its corner and as many columns and rows from there on as it has.
pub proof fn law_rectangles(px: int, py: int, x: int, y: int, w: int, h: int)
    ensures
        inside(px, py, x, y, w, h) <==> 0 <= px - x && px - x < w && 0 <= py - y && py - y < h,
{
}

/// A file that may be missing is its bytes, where it is there.
pub proof fn law_file_is_its_bytes(file: Vec<u8>)
    ensures
        bytes_of(Some(file)) == Some(file@),
        bytes_of(None) == None::<Seq<u8>>,
{
}

} // verus!
