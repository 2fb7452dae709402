//! Floyd-Steinberg dithering of grey images to black and white.

use crate::image::{lemma_offset_bounds, lemma_offset_injective, offset, GrayImage};
use vstd::prelude::*;

verus! {

pub open spec fn clamp_level(v: int) -> int {
    if v < 0 {
        0
    } else if v > 255 {
        255
    } else {
        v
    }
}

/// What is left of a level once it has been replaced by black (0) or white (255).
pub open spec fn residue(v: int) -> int {
    let c = clamp_level(v);
    if c >= 128 {
        c - 255
    } else {
        c
    }
}

/// `sixteenths` sixteenths of an error, rounded towards zero.
pub open spec fn share(e: int, sixteenths: int) -> int {
    if e >= 0 {
        (e * sixteenths) / 16
    } else {
        -((-e * sixteenths) / 16)
    }
}

/// The grey level that Floyd-Steinberg dithering finds at column `x` of row `y`: the
/// pixel's own level, and the shares of the residues of the neighbours on its left and
/// in the row above.
pub open spec fn level(px: Seq<u8>, w: int, x: int, y: int) -> int
    decreases y, x,
{
    px[offset(w, x, y)] as int + (if x > 0 {
        share(residue(level(px, w, x - 1, y)), 7)
    } else {
        0
    }) + (if y > 0 && x + 1 < w {
        share(residue(level(px, w, x + 1, y - 1)), 3)
    } else {
        0
    }) + (if y > 0 {
        share(residue(level(px, w, x, y - 1)), 5)
    } else {
        0
    }) + (if y > 0 && x > 0 {
        share(residue(level(px, w, x - 1, y - 1)), 1)
    } else {
        0
    })
}

/// Whether the dithered image is white at column `x` of row `y`.
pub open spec fn dithered(px: Seq<u8>, w: int, x: int, y: int) -> bool {
    level(px, w, x, y) >= 128
}

/// Pixel `(a, b)` comes before pixel `(x, y)` in reading order.
spec fn precedes(a: int, b: int, x: int, y: int) -> bool {
    b < y || (b == y && a < x)
}

/// The share of pixel `(a, b)`'s residue that has been handed on when `(x, y)` is next.
spec fn handed(px: Seq<u8>, w: int, a: int, b: int, sixteenths: int, x: int, y: int) -> int {
    if 0 <= a < w && 0 <= b && precedes(a, b, x, y) {
        share(residue(level(px, w, a, b)), sixteenths)
    } else {
        0
    }
}

/// What the working buffer holds for `(a, b)` when `(x, y)` is next.
spec fn gathered(px: Seq<u8>, w: int, a: int, b: int, x: int, y: int) -> int {
    if precedes(a, b, x, y) {
        if dithered(px, w, a, b) {
            255
        } else {
            0
        }
    } else {
        px[offset(w, a, b)] as int + handed(px, w, a - 1, b, 7, x, y) + handed(
            px,
            w,
            a + 1,
            b - 1,
            3,
            x,
            y,
        ) + handed(px, w, a, b - 1, 5, x, y) + handed(px, w, a - 1, b - 1, 1, x, y)
    }
}

spec fn cell(s: Seq<i32>, w: int, x: int, y: int) -> i32 {
    s[offset(w, x, y)]
}

proof fn lemma_cell_update(s: Seq<i32>, w: int, h: int, x: int, y: int, v: i32)
    requires
        0 <= x < w,
        0 <= y < h,
        s.len() == w * h,
    ensures
        0 <= offset(w, x, y) < s.len(),
        s.update(offset(w, x, y), v).len() == w * h,
        forall|a: int, b: int|
            0 <= a < w && 0 <= b < h ==> #[trigger] cell(
                s.update(offset(w, x, y), v),
                w,
                a,
                b,
            ) == if a == x && b == y {
                v
            } else {
                cell(s, w, a, b)
            },
{
    lemma_offset_bounds(w, h, x, y);
    assert forall|a: int, b: int| 0 <= a < w && 0 <= b < h implies #[trigger] cell(
        s.update(offset(w, x, y), v),
        w,
        a,
        b,
    ) == if a == x && b == y {
        v
    } else {
        cell(s, w, a, b)
    } by {
        lemma_offset_bounds(w, h, a, b);
        if offset(w, a, b) == offset(w, x, y) {
            lemma_offset_injective(w, a, b, x, y);
        }
    }
}

proof fn lemma_share_bounds(v: int)
    ensures
        -127 <= residue(v) <= 127,
        -55 <= share(residue(v), 7) <= 55,
        -23 <= share(residue(v), 3) <= 23,
        -39 <= share(residue(v), 5) <= 39,
        -7 <= share(residue(v), 1) <= 7,
{
}

proof fn lemma_gathered_bounds(px: Seq<u8>, w: int, a: int, b: int, x: int, y: int)
    ensures
        -124 <= gathered(px, w, a, b, x, y) <= 379,
{
    lemma_share_bounds(level(px, w, a - 1, b));
    lemma_share_bounds(level(px, w, a + 1, b - 1));
    lemma_share_bounds(level(px, w, a, b - 1));
    lemma_share_bounds(level(px, w, a - 1, b - 1));
}

/// When a pixel is next, its neighbours have handed on all that its level takes.
proof fn lemma_gathered_is_level(px: Seq<u8>, w: int, x: int, y: int)
    requires
        0 <= x < w,
        0 <= y,
    ensures
        gathered(px, w, x, y, x, y) == level(px, w, x, y),
{
}

/// The product rounded towards zero, as `/` on signed integers computes it.
fn sixteenths_of(e: i32, sixteenths: i32) -> (r: i32)
    requires
        -127 <= e <= 127,
        0 <= sixteenths <= 16,
    ensures
        r == share(e as int, sixteenths as int),
        -127 <= r <= 127,
{
    assert(-2032 <= e * sixteenths <= 2032) by (nonlinear_arith)
        requires
            -127 <= e <= 127,
            0 <= sixteenths <= 16,
    ;
    assert(e >= 0 ==> e * sixteenths >= 0) by (nonlinear_arith)
        requires
            0 <= sixteenths <= 16,
    ;
    assert(e < 0 ==> e * sixteenths <= 0 && (-e) * sixteenths == -(e * sixteenths)) by (
    nonlinear_arith)
        requires
            0 <= sixteenths <= 16,
    ;
    e * sixteenths / 16
}

/// The working buffer is what dithering has made of the image when `(x, y)` is next.
spec fn dithered_up_to(s: Seq<i32>, px: Seq<u8>, w: int, h: int, x: int, y: int) -> bool {
    &&& s.len() == w * h
    &&& px.len() == w * h
    &&& forall|a: int, b: int|
        0 <= a < w && 0 <= b < h ==> #[trigger] cell(s, w, a, b) == gathered(px, w, a, b, x, y)
}

/// The next pixel after the last one of a row is the first one of the row below.
proof fn lemma_next_row(s: Seq<i32>, px: Seq<u8>, w: int, h: int, y: int)
    requires
        dithered_up_to(s, px, w, h, w, y),
    ensures
        dithered_up_to(s, px, w, h, 0, y + 1),
{
    assert forall|a: int, b: int| 0 <= a < w && 0 <= b < h implies #[trigger] cell(s, w, a, b)
        == gathered(px, w, a, b, 0, y + 1) by {
        assert(gathered(px, w, a, b, w, y) == gathered(px, w, a, b, 0, y + 1));
    }
}

/// What visiting `(x, y)` changes in the working buffer.
proof fn lemma_visit(px: Seq<u8>, w: int, a: int, b: int, x: int, y: int)
    requires
        0 <= a < w,
        0 <= b,
        0 <= x < w,
        0 <= y,
    ensures
        gathered(px, w, a, b, x + 1, y) == if a == x && b == y {
            if level(px, w, x, y) >= 128 {
                255int
            } else {
                0int
            }
        } else if a == x + 1 && b == y {
            gathered(px, w, a, b, x, y) + share(residue(level(px, w, x, y)), 7)
        } else if a == x - 1 && b == y + 1 {
            gathered(px, w, a, b, x, y) + share(residue(level(px, w, x, y)), 3)
        } else if a == x && b == y + 1 {
            gathered(px, w, a, b, x, y) + share(residue(level(px, w, x, y)), 5)
        } else if a == x + 1 && b == y + 1 {
            gathered(px, w, a, b, x, y) + share(residue(level(px, w, x, y)), 1)
        } else {
            gathered(px, w, a, b, x, y)
        },
{
}

/// Adds `d` to the cell at column `x` of row `y`.
fn hand_on(buf: &mut Vec<i32>, w: usize, h: usize, x: usize, y: usize, d: i32)
    requires
        x < w,
        y < h,
        w * h <= usize::MAX,
        old(buf)@.len() == w * h,
        -1000 <= cell(old(buf)@, w as int, x as int, y as int) <= 1000,
        -1000 <= d <= 1000,
    ensures
        final(buf)@.len() == w * h,
        forall|a: int, b: int|
            0 <= a < w && 0 <= b < h ==> #[trigger] cell(final(buf)@, w as int, a, b) == cell(
                old(buf)@,
                w as int,
                a,
                b,
            ) + (if a == x && b == y {
                d as int
            } else {
                0int
            }),
{
    let ghost s = buf@;
    proof {
        lemma_offset_bounds(w as int, h as int, x as int, y as int);
        lemma_cell_update(
            s,
            w as int,
            h as int,
            x as int,
            y as int,
            (s[offset(w as int, x as int, y as int)] + d) as i32,
        );
    }
    let i: usize = y * w + x;
    let v: i32 = buf[i];
    buf.set(i, v + d);
}

/// Dithers the pixel at column `x` of row `y` and hands its residue on.
fn dither_pixel(buf: &mut Vec<i32>, px: Ghost<Seq<u8>>, w: usize, h: usize, x: usize, y: usize)
    requires
        x < w,
        y < h,
        w * h <= usize::MAX,
        dithered_up_to(old(buf)@, px@, w as int, h as int, x as int, y as int),
    ensures
        dithered_up_to(final(buf)@, px@, w as int, h as int, x + 1, y as int),
{
    let ghost s0 = buf@;
    let ghost v = level(px@, w as int, x as int, y as int);
    proof {
        lemma_offset_bounds(w as int, h as int, x as int, y as int);
        lemma_gathered_is_level(px@, w as int, x as int, y as int);
        lemma_share_bounds(v);
        assert(cell(s0, w as int, x as int, y as int) == v);
        assert forall|a: int, b: int| 0 <= a < w && 0 <= b < h implies -124 <= #[trigger] cell(
            s0,
            w as int,
            a,
            b,
        ) <= 379 by {
            lemma_gathered_bounds(px@, w as int, a, b, x as int, y as int);
        }
        assert forall|a: int, b: int| 0 <= a < w && 0 <= b < h implies #[trigger] gathered(
            px@,
            w as int,
            a,
            b,
            x + 1,
            y as int,
        ) == (if a == x && b == y {
            (if v >= 128 {
                255int
            } else {
                0int
            })
        } else if a == x + 1 && b == y {
            cell(s0, w as int, a, b) + share(residue(v), 7)
        } else if a == x - 1 && b == y + 1 {
            cell(s0, w as int, a, b) + share(residue(v), 3)
        } else if a == x && b == y + 1 {
            cell(s0, w as int, a, b) + share(residue(v), 5)
        } else if a == x + 1 && b == y + 1 {
            cell(s0, w as int, a, b) + share(residue(v), 1)
        } else {
            cell(s0, w as int, a, b) as int
        }) by {
            lemma_visit(px@, w as int, a, b, x as int, y as int);
            assert(cell(s0, w as int, a, b) == gathered(px@, w as int, a, b, x as int, y as int));
        }
    }
    let here: usize = y * w + x;
    let found: i32 = buf[here];
    let old_val: i32 = if found < 0 {
        0
    } else if found > 255 {
        255
    } else {
        found
    };
    let new_val: i32 = if old_val >= 128 {
        255
    } else {
        0
    };
    let err: i32 = old_val - new_val;
    assert(err == residue(v));
    proof {
        lemma_cell_update(s0, w as int, h as int, x as int, y as int, new_val);
    }
    buf.set(here, new_val);
    if x + 1 < w {
        hand_on(buf, w, h, x + 1, y, sixteenths_of(err, 7));
    }
    if y + 1 < h {
        if x > 0 {
            hand_on(buf, w, h, x - 1, y + 1, sixteenths_of(err, 3));
        }
        hand_on(buf, w, h, x, y + 1, sixteenths_of(err, 5));
        if x + 1 < w {
            hand_on(buf, w, h, x + 1, y + 1, sixteenths_of(err, 1));
        }
    }
}

/// Floyd-Steinberg dithering: which pixels become white, row by row from the top left.
pub fn dither(img: &GrayImage) -> (r: Vec<bool>)
    requires
        img.wf(),
    ensures
        r@.len() == img.width * img.height,
        forall|x: int, y: int|
            0 <= x < img.width && 0 <= y < img.height ==> r@[#[trigger] offset(
                img.width as int,
                x,
                y,
            )] == dithered(img.pixels@, img.width as int, x, y),
{
    let w: usize = img.width as usize;
    let h: usize = img.height as usize;
    let ghost px = img.pixels@;
    let n: usize = img.pixels.len();
    let mut buf: Vec<i32> = Vec::with_capacity(n);
    let mut i: usize = 0;
    while i < n
        invariant
            n == img.pixels@.len(),
            i <= n,
            buf@.len() == i,
            forall|j: int| 0 <= j < i ==> buf@[j] == img.pixels@[j],
        decreases n - i,
    {
        buf.push(img.pixels[i] as i32);
        i += 1;
    }
    proof {
        assert forall|a: int, b: int| 0 <= a < w && 0 <= b < h implies #[trigger] cell(
            buf@,
            w as int,
            a,
            b,
        ) == gathered(px, w as int, a, b, 0, 0) by {
            lemma_offset_bounds(w as int, h as int, a, b);
        }
    }
    let mut y: usize = 0;
    while y < h
        invariant
            y <= h,
            w * h <= usize::MAX,
            dithered_up_to(buf@, px, w as int, h as int, 0, y as int),
        decreases h - y,
    {
        let mut x: usize = 0;
        while x < w
            invariant
                x <= w,
                y < h,
                w * h <= usize::MAX,
                dithered_up_to(buf@, px, w as int, h as int, x as int, y as int),
            decreases w - x,
        {
            dither_pixel(&mut buf, Ghost(px), w, h, x, y);
            x += 1;
        }
        proof {
            lemma_next_row(buf@, px, w as int, h as int, y as int);
        }
        y += 1;
    }
    let mut white: Vec<bool> = Vec::with_capacity(n);
    let mut i: usize = 0;
    while i < n
        invariant
            n == buf@.len(),
            i <= n,
            white@.len() == i,
            forall|j: int| 0 <= j < i ==> white@[j] == (buf@[j] >= 128),
        decreases n - i,
    {
        white.push(buf[i] >= 128);
        i += 1;
    }
    proof {
        assert forall|x: int, y: int| 0 <= x < w && 0 <= y < h implies white@[#[trigger] offset(
            w as int,
            x,
            y,
        )] == dithered(px, w as int, x, y) by {
            lemma_offset_bounds(w as int, h as int, x, y);
            assert(cell(buf@, w as int, x, y) == gathered(px, w as int, x, y, 0, h as int));
        }
    }
    white
}

/// An image that is black and white already is not changed by dithering.
pub proof fn law_black_and_white_stays(px: Seq<u8>, w: int, h: int, x: int, y: int)
    requires
        0 <= x < w,
        0 <= y < h,
        px.len() == w * h,
        forall|i: int| 0 <= i < px.len() ==> px[i] == 0 || px[i] == 255,
    ensures
        level(px, w, x, y) == px[offset(w, x, y)],
        dithered(px, w, x, y) == (px[offset(w, x, y)] == 255),
    decreases y, x,
{
    lemma_offset_bounds(w, h, x, y);
    if x > 0 {
        law_black_and_white_stays(px, w, h, x - 1, y);
        lemma_offset_bounds(w, h, x - 1, y);
    }
    if y > 0 {
        law_black_and_white_stays(px, w, h, x, y - 1);
        lemma_offset_bounds(w, h, x, y - 1);
        if x + 1 < w {
            law_black_and_white_stays(px, w, h, x + 1, y - 1);
            lemma_offset_bounds(w, h, x + 1, y - 1);
        }
        if x > 0 {
            law_black_and_white_stays(px, w, h, x - 1, y - 1);
            lemma_offset_bounds(w, h, x - 1, y - 1);
        }
    }
}

/// Whatever the image, the level that dithering finds at a pixel differs from the
/// pixel's own by less than half of the range of grey.
pub proof fn law_level_stays_close(px: Seq<u8>, w: int, x: int, y: int)
    ensures
        -124 <= level(px, w, x, y) - px[offset(w, x, y)] <= 124,
{
    lemma_share_bounds(level(px, w, x - 1, y));
    lemma_share_bounds(level(px, w, x + 1, y - 1));
    lemma_share_bounds(level(px, w, x, y - 1));
    lemma_share_bounds(level(px, w, x - 1, y - 1));
}

/// What a pixel hands on. A level below 128 becomes black and leaves itself, one from 128 on
/// becomes white and leaves what it lacks of 255; levels below 0 or above 255 leave nothing.
/// Of what is left, seven sixteenths go to the right, three, five and one to the left, the
/// middle and the right below, each part rounded towards zero.
pub proof fn law_errors_are_handed_on(px: Seq<u8>, w: int, x: int, y: int, v: int, n: int)
    requires
        0 <= n,
    ensures
        dithered(px, w, x, y) <==> level(px, w, x, y) >= 128,
        v < 0 || v > 255 ==> residue(v) == 0,
        0 <= v < 128 ==> residue(v) == v,
        128 <= v <= 255 ==> residue(v) == v - 255,
        v >= 0 ==> share(v, n) * 16 <= v * n < (share(v, n) + 1) * 16,
        v < 0 ==> share(v, n) == -share(-v, n),
        level(px, w, x, y) == px[y * w + x] + (if x > 0 {
            share(residue(level(px, w, x - 1, y)), 7)
        } else {
            0
        }) + (if y > 0 && x + 1 < w {
            share(residue(level(px, w, x + 1, y - 1)), 3)
        } else {
            0
        }) + (if y > 0 {
            share(residue(level(px, w, x, y - 1)), 5)
        } else {
            0
        }) + (if y > 0 && x > 0 {
            share(residue(level(px, w, x - 1, y - 1)), 1)
        } else {
            0
        }),
{
    if v < 0 {
        assert(-v * n >= 0) by (nonlinear_arith)
            requires
                v < 0,
                0 <= n,
        ;
    } else {
        assert(v * n >= 0) by (nonlinear_arith)
            requires
                v >= 0,
                0 <= n,
        ;
    }
}

/// A level hands on at most what is left of it, so where nothing is left nothing changes, and
/// of all that is left no more than all goes to the four neighbours together.
pub proof fn law_no_more_is_handed_on_than_is_left(e: int)
    requires
        0 <= e,
    ensures
        e - 4 < share(e, 7) + share(e, 3) + share(e, 5) + share(e, 1) <= e,
{
}

} // verus!
