//! One-bit BMP files.

use crate::dither::{dither, dithered, law_black_and_white_stays};
use crate::image::{offset, GrayImage};
use vstd::prelude::*;

verus! {

/// The two low bytes of a number, least significant first.
pub open spec fn le16(n: int) -> Seq<u8> {
    seq![(n % 256) as u8, (n / 256 % 256) as u8]
}

/// The four low bytes of a number, least significant first.
pub open spec fn le32(n: int) -> Seq<u8> {
    seq![
        (n % 256) as u8,
        (n / 256 % 256) as u8,
        (n / 65536 % 256) as u8,
        (n / 16777216 % 256) as u8,
    ]
}

/// The bytes that one row of `w` pixels takes: a bit for each, up to a multiple of four.
pub open spec fn row_bytes(w: int) -> int {
    (w + 31) / 32 * 4
}

/// The size of the file for a `w` by `h` image: 62 bytes before the rows.
pub open spec fn file_size(w: int, h: int) -> int {
    62 + row_bytes(w) * h
}

/// The bytes before the rows. `height_field` is the height as the file states it:
/// negative where the rows run from the top down.
#[verifier::opaque]
pub open spec fn bmp_header(w: int, h: int, height_field: int) -> Seq<u8> {
    seq![0x42u8, 0x4du8] + le32(file_size(w, h)) + le32(0) + le32(62) + le32(40) + le32(w) + le32(
        height_field,
    ) + le16(1) + le16(1) + le32(0) + le32(row_bytes(w) * h) + le32(2835) + le32(2835) + le32(2)
        + le32(0) + seq![0u8, 0u8, 0u8, 0u8] + seq![255u8, 255u8, 255u8, 0u8]
}

/// The value of the bit for the `k`-th pixel of a byte.
pub open spec fn bit_value(k: int) -> int {
    if k == 0 {
        128
    } else if k == 1 {
        64
    } else if k == 2 {
        32
    } else if k == 3 {
        16
    } else if k == 4 {
        8
    } else if k == 5 {
        4
    } else if k == 6 {
        2
    } else {
        1
    }
}

/// The first `k` bits of the byte whose first pixel is column `x` of a row; a column
/// at or past `w` has no pixel and leaves its bit clear.
pub open spec fn first_bits(white: spec_fn(int) -> bool, w: int, x: int, k: nat) -> int
    decreases k,
{
    if k == 0 {
        0
    } else {
        first_bits(white, w, x, (k - 1) as nat) + (if x + k - 1 < w && white(x + k - 1) {
            bit_value(k - 1)
        } else {
            0
        })
    }
}

/// One row: eight pixels to a byte, the leftmost in the highest bit, white as 1.
pub open spec fn packed_row(white: spec_fn(int) -> bool, w: int) -> Seq<u8> {
    Seq::new(row_bytes(w) as nat, |j: int| first_bits(white, w, 8 * j, 8) as u8)
}

/// The first `n` rows as they are stored; `white` tells of a stored row and a column
/// whether the pixel is white.
pub open spec fn packed_rows(white: spec_fn(int, int) -> bool, w: int, n: nat) -> Seq<u8>
    decreases n,
{
    if n == 0 {
        Seq::empty()
    } else {
        packed_rows(white, w, (n - 1) as nat) + packed_row(|x: int| white(n - 1, x), w)
    }
}

/// The file for a `w` by `h` image whose stored rows run from the bottom up.
pub open spec fn bmp_bottom_up(w: int, h: int, white: spec_fn(int, int) -> bool) -> Seq<u8> {
    bmp_header(w, h, h) + packed_rows(|r: int, x: int| white(x, h - 1 - r), w, h as nat)
}

/// The file for a `w` by `h` image whose stored rows run from the top down.
pub open spec fn bmp_top_down(w: int, h: int, white: spec_fn(int, int) -> bool) -> Seq<u8> {
    bmp_header(w, h, -h) + packed_rows(|r: int, x: int| white(x, r), w, h as nat)
}

fn push_u16(out: &mut Vec<u8>, n: u16)
    ensures
        final(out)@ == old(out)@ + le16(n as int),
{
    out.push((n % 256) as u8);
    out.push((n / 256) as u8);
    assert(out@ =~= old(out)@ + le16(n as int));
}

fn push_u32(out: &mut Vec<u8>, n: u32)
    ensures
        final(out)@ == old(out)@ + le32(n as int),
{
    out.push((n % 256) as u8);
    out.push((n / 256 % 256) as u8);
    out.push((n / 65536 % 256) as u8);
    out.push((n / 16777216) as u8);
    assert(out@ =~= old(out)@ + le32(n as int));
}

fn push_bytes(out: &mut Vec<u8>, a: u8, b: u8, c: u8, d: u8)
    ensures
        final(out)@ == old(out)@ + seq![a, b, c, d],
{
    out.push(a);
    out.push(b);
    out.push(c);
    out.push(d);
    assert(out@ =~= old(out)@ + seq![a, b, c, d]);
}

/// A byte of a number does not change when multiples of the fifth byte's value leave it.
proof fn lemma_byte_wraps(n: int, d: int, rest: int)
    requires
        d > 0,
        rest > 0,
        d * rest * 256 == 0x1_0000_0000,
    ensures
        n % 0x1_0000_0000 / d % 256 == n / d % 256,
{
    let m = n % 0x1_0000_0000;
    let q = n / 0x1_0000_0000;
    let j = q * rest;
    assert(j * 256 * d == q * 0x1_0000_0000) by (nonlinear_arith)
        requires
            j == q * rest,
            d * rest * 256 == 0x1_0000_0000,
    ;
    vstd::arithmetic::div_mod::lemma_hoist_over_denominator(m, j * 256, d as nat);
    assert(n == m + j * 256 * d);
    assert(n / d == m / d + j * 256);
    vstd::arithmetic::div_mod::lemma_mod_multiples_vanish(j, m / d, 256);
}

/// Only the four low bytes of a number are written.
proof fn lemma_le32_wraps(n: int)
    ensures
        le32(n % 0x1_0000_0000) == le32(n),
{
    lemma_byte_wraps(n, 1, 0x100_0000);
    lemma_byte_wraps(n, 256, 0x1_0000);
    lemma_byte_wraps(n, 65536, 0x100);
    lemma_byte_wraps(n, 16777216, 1);
    assert(le32(n % 0x1_0000_0000) =~= le32(n));
}

/// The 62 bytes before the rows. `stated_height` is the height field as it is stored.
pub(crate) fn header(w: u32, h: u32, stated_height: u32, data: usize) -> (r: Vec<u8>)
    requires
        data == row_bytes(w as int) * h,
        62 + data <= usize::MAX,
    ensures
        r@ == bmp_header(w as int, h as int, stated_height as int),
{
    let file: usize = 62 + data;
    let mut out: Vec<u8> = Vec::new();
    out.push(0x42);
    out.push(0x4d);
    assert(out@ =~= seq![0x42u8, 0x4du8]);
    push_u32(&mut out, (file as u64 % 0x1_0000_0000u64) as u32);
    push_u32(&mut out, 0);
    push_u32(&mut out, 62);
    push_u32(&mut out, 40);
    push_u32(&mut out, w);
    push_u32(&mut out, stated_height);
    push_u16(&mut out, 1);
    push_u16(&mut out, 1);
    push_u32(&mut out, 0);
    push_u32(&mut out, (data as u64 % 0x1_0000_0000u64) as u32);
    push_u32(&mut out, 2835);
    push_u32(&mut out, 2835);
    push_u32(&mut out, 2);
    push_u32(&mut out, 0);
    push_bytes(&mut out, 0, 0, 0, 0);
    push_bytes(&mut out, 255, 255, 255, 0);
    proof {
        reveal(bmp_header);
        lemma_le32_wraps(62 + data);
        lemma_le32_wraps(data as int);
    }
    out
}

proof fn lemma_first_bits_bound(white: spec_fn(int) -> bool, w: int, x: int, k: nat)
    requires
        k <= 8,
    ensures
        0 <= first_bits(white, w, x, k),
        k == 0 ==> first_bits(white, w, x, k) == 0,
        k > 0 ==> first_bits(white, w, x, k) <= 256 - bit_value(k - 1),
    decreases k,
{
    if k > 0 {
        lemma_first_bits_bound(white, w, x, (k - 1) as nat);
    }
}

/// Columns past the end of the row add nothing to a byte.
proof fn lemma_first_bits_past_end(
    white: spec_fn(int) -> bool,
    w: int,
    x: int,
    k: nat,
    all: nat,
)
    requires
        k <= all,
        w <= x + k,
    ensures
        first_bits(white, w, x, all) == first_bits(white, w, x, k),
    decreases all,
{
    if k < all {
        lemma_first_bits_past_end(white, w, x, k, (all - 1) as nat);
    }
}

/// The first `n` bytes of a row.
spec fn row_start(white: spec_fn(int) -> bool, w: int, n: int) -> Seq<u8> {
    Seq::new(n as nat, |j: int| first_bits(white, w, 8 * j, 8) as u8)
}

/// Appends one row of pixels, which `white` holds from `start` on.
pub(crate) fn push_row(out: &mut Vec<u8>, white: &Vec<bool>, start: usize, w: usize, total: usize)
    requires
        start + w <= white.len(),
        total == row_bytes(w as int),
    ensures
        final(out)@ == old(out)@ + packed_row(|x: int| white@[start + x], w as int),
{
    let ghost before = out@;
    let ghost f = |x: int| white@[start + x];
    let mut col: usize = 0;
    let mut k: usize = 0;
    let mut byte: u8 = 0;
    let mut value: u8 = 128;
    let mut x: usize = 0;
    assert(out@ =~= before + row_start(f, w as int, 0));
    while x < w
        invariant
            start + w <= white.len(),
            f == (|x: int| white@[start + x]),
            x <= w,
            x == 8 * col + k,
            k < 8,
            value == bit_value(k as int),
            byte == first_bits(f, w as int, 8 * col, k as nat),
            out@ == before + row_start(f, w as int, col as int),
        decreases w - x,
    {
        let ghost next = (k + 1) as nat;
        proof {
            lemma_first_bits_bound(f, w as int, 8 * col, next);
        }
        if white[start + x] {
            byte = byte + value;
        }
        assert(byte == first_bits(f, w as int, 8 * col, next));
        if k == 7 {
            out.push(byte);
            assert(out@ =~= before + row_start(f, w as int, col + 1));
            byte = 0;
            value = 128;
            k = 0;
            col += 1;
        } else {
            value = value / 2;
            k += 1;
        }
        x += 1;
    }
    if k > 0 {
        proof {
            lemma_first_bits_past_end(f, w as int, 8 * col, k as nat, 8);
        }
        out.push(byte);
        assert(out@ =~= before + row_start(f, w as int, col + 1));
        col += 1;
    }
    while col < total
        invariant
            total == row_bytes(w as int),
            w <= 8 * col,
            col <= total,
            out@ == before + row_start(f, w as int, col as int),
        decreases total - col,
    {
        proof {
            lemma_first_bits_past_end(f, w as int, 8 * col, 0, 8);
        }
        out.push(0);
        assert(out@ =~= before + row_start(f, w as int, col + 1));
        col += 1;
    }
    assert(row_start(f, w as int, col as int) =~= packed_row(f, w as int));
}

/// Two ways to tell the white pixels of a row, the same row.
proof fn lemma_same_row(f: spec_fn(int) -> bool, g: spec_fn(int) -> bool, w: int)
    requires
        0 <= w,
        forall|x: int| 0 <= x < w ==> #[trigger] f(x) == g(x),
    ensures
        packed_row(f, w) == packed_row(g, w),
{
    assert forall|j: int| 0 <= j < row_bytes(w) implies #[trigger] packed_row(f, w)[j]
        == packed_row(g, w)[j] by {
        lemma_same_bits(f, g, w, 8 * j, 8);
    }
    assert(packed_row(f, w) =~= packed_row(g, w));
}

proof fn lemma_same_bits(
    f: spec_fn(int) -> bool,
    g: spec_fn(int) -> bool,
    w: int,
    x: int,
    k: nat,
)
    requires
        0 <= x,
        forall|x: int| 0 <= x < w ==> #[trigger] f(x) == g(x),
    ensures
        first_bits(f, w, x, k) == first_bits(g, w, x, k),
    decreases k,
{
    if k > 0 {
        lemma_same_bits(f, g, w, x, (k - 1) as nat);
    }
}

proof fn lemma_packed_rows_len(white: spec_fn(int, int) -> bool, w: int, n: nat)
    requires
        0 <= w,
    ensures
        packed_rows(white, w, n).len() == row_bytes(w) * n,
    decreases n,
{
    if n > 0 {
        lemma_packed_rows_len(white, w, (n - 1) as nat);
        assert(row_bytes(w) * n == row_bytes(w) * (n - 1) + row_bytes(w)) by (nonlinear_arith);
    } else {
        assert(row_bytes(w) * n == 0) by (nonlinear_arith)
            requires
                n == 0,
        ;
    }
}

pub(crate) proof fn lemma_same_rows(
    f: spec_fn(int, int) -> bool,
    g: spec_fn(int, int) -> bool,
    w: int,
    n: nat,
)
    requires
        0 <= w,
        forall|r: int, x: int| 0 <= r < n && 0 <= x < w ==> #[trigger] f(r, x) == g(r, x),
    ensures
        packed_rows(f, w, n) == packed_rows(g, w, n),
    decreases n,
{
    if n > 0 {
        lemma_same_rows(f, g, w, (n - 1) as nat);
        let fr = |x: int| f(n - 1, x);
        let gr = |x: int| g(n - 1, x);
        assert forall|x: int| 0 <= x < w implies #[trigger] fr(x) == gr(x) by {
            assert(f(n - 1, x) == g(n - 1, x));
        }
        lemma_same_row(fr, gr, w);
    }
}

/// The bytes that one row takes.
pub(crate) fn row_len(w: u32) -> (r: usize)
    ensures
        r == row_bytes(w as int),
{
    ((w as u64 + 31) / 32 * 4) as usize
}

/// The row of the image that is stored as row `r` of the file.
pub open spec fn stored_row(bottom_up: bool, h: int, r: int) -> int {
    if bottom_up {
        h - 1 - r
    } else {
        r
    }
}

/// Appends all rows of a `w` by `h` image, bottom up or top down.
pub(crate) fn push_rows(out: &mut Vec<u8>, white: &Vec<bool>, w: u32, h: u32, bottom_up: bool)
    requires
        white.len() == w * h,
    ensures
        final(out)@ == old(out)@ + packed_rows(
            |r: int, x: int| white@[offset(w as int, x, stored_row(bottom_up, h as int, r))],
            w as int,
            h as nat,
        ),
{
    let width: usize = w as usize;
    let height: usize = h as usize;
    let total: usize = row_len(w);
    let ghost head = out@;
    let ghost stored = |r: int, x: int|
        white@[offset(w as int, x, stored_row(bottom_up, h as int, r))];
    let mut done: usize = 0;
    assert(out@ =~= head + packed_rows(stored, w as int, 0));
    while done < height
        invariant
            done <= height,
            width == w,
            height == h,
            total == row_bytes(w as int),
            white.len() == w * h,
            stored == (|r: int, x: int|
                white@[offset(w as int, x, stored_row(bottom_up, h as int, r))]),
            out@ == head + packed_rows(stored, w as int, done as nat),
        decreases height - done,
    {
        let y: usize = if bottom_up {
            height - 1 - done
        } else {
            done
        };
        assert(y * width + width <= w * h) by (nonlinear_arith)
            requires
                y < h,
                width == w,
        ;
        let start: usize = y * width;
        push_row(out, white, start, width, total);
        proof {
            lemma_same_row(
                |x: int| white@[start + x],
                |x: int| stored(done as int, x),
                w as int,
            );
            assert(out@ =~= head + packed_rows(stored, w as int, (done + 1) as nat));
        }
        done += 1;
    }
}

/// Encodes an image as a one-bit BMP file, dithered, with the rows from the bottom up.
pub fn encode_bmp_1bit(img: &GrayImage) -> (r: Vec<u8>)
    requires
        img.wf(),
        file_size(img.width as int, img.height as int) <= usize::MAX,
    ensures
        r@ == bmp_bottom_up(
            img.width as int,
            img.height as int,
            |x: int, y: int| dithered(img.pixels@, img.width as int, x, y),
        ),
{
    let white: Vec<bool> = dither(img);
    let total: usize = row_len(img.width);
    let data: usize = total * (img.height as usize);
    let mut out: Vec<u8> = header(img.width, img.height, img.height, data);
    push_rows(&mut out, &white, img.width, img.height, true);
    proof {
        let w = img.width as int;
        let h = img.height as int;
        let bit = |x: int, y: int| dithered(img.pixels@, w, x, y);
        lemma_same_rows(
            |r: int, x: int| white@[offset(w, x, stored_row(true, h, r))],
            |r: int, x: int| bit(x, h - 1 - r),
            w,
            h as nat,
        );
    }
    out
}

/// The number that four bytes of a file hold from position `i` on, least significant first.
pub open spec fn number_at(file: Seq<u8>, i: int) -> int {
    file[i] + 256 * file[i + 1] + 65536 * file[i + 2] + 16777216 * file[i + 3]
}

/// Reads a pixel of a one-bit BMP file: the first byte of the rows, the width and the
/// height are what the file's own fields say, and a negative height (its sign bit is set)
/// tells that the rows run from the top down.
pub open spec fn read_white(file: Seq<u8>, x: int, y: int) -> bool {
    let start = number_at(file, 10);
    let w = number_at(file, 18);
    let stated = number_at(file, 22);
    let row = if stated < 0x8000_0000 {
        stated - 1 - y
    } else {
        y
    };
    file[start + row * row_bytes(w) + x / 8] as int / bit_value(x % 8) % 2 == 1
}

/// A negative height is stated by what it leaves of the field's range.
pub(crate) proof fn lemma_stated_height(w: int, h: int, stated: int)
    requires
        stated == (0x1_0000_0000 - h) % 0x1_0000_0000,
    ensures
        bmp_header(w, h, stated) == bmp_header(w, h, -h),
{
    reveal(bmp_header);
    assert(stated == (-h) % 0x1_0000_0000);
    lemma_le32_wraps(-h);
}

proof fn lemma_number_of_le32(n: int)
    ensures
        le32(n).len() == 4,
        number_at(le32(n), 0) == n % 0x1_0000_0000,
{
    lemma_le32_wraps(n);
    let m = n % 0x1_0000_0000;
    assert(m % 256 + 256 * (m / 256 % 256) + 65536 * (m / 65536 % 256) + 16777216 * (m / 16777216
        % 256) == m);
}

proof fn lemma_header_fields(w: int, h: int, height_field: int)
    ensures
        bmp_header(w, h, height_field).len() == 62,
        number_at(bmp_header(w, h, height_field), 2) == file_size(w, h) % 0x1_0000_0000,
        number_at(bmp_header(w, h, height_field), 10) == 62,
        number_at(bmp_header(w, h, height_field), 18) == w % 0x1_0000_0000,
        number_at(bmp_header(w, h, height_field), 22) == height_field % 0x1_0000_0000,
{
    reveal(bmp_header);
    let s = bmp_header(w, h, height_field);
    lemma_number_of_le32(file_size(w, h));
    lemma_number_of_le32(62);
    lemma_number_of_le32(w);
    lemma_number_of_le32(height_field);
    assert(s.subrange(2, 6) =~= le32(file_size(w, h)));
    assert(s.subrange(10, 14) =~= le32(62));
    assert(s.subrange(18, 22) =~= le32(w));
    assert(s.subrange(22, 26) =~= le32(height_field));
    assert(number_at(s, 2) == number_at(s.subrange(2, 6), 0));
    assert(number_at(s, 10) == number_at(s.subrange(10, 14), 0));
    assert(number_at(s, 18) == number_at(s.subrange(18, 22), 0));
    assert(number_at(s, 22) == number_at(s.subrange(22, 26), 0));
}

proof fn lemma_packed_rows_at(
    white: spec_fn(int, int) -> bool,
    w: int,
    n: nat,
    r: int,
    j: int,
)
    requires
        0 <= w,
        0 <= r < n,
        0 <= j < row_bytes(w),
    ensures
        0 <= r * row_bytes(w) + j < packed_rows(white, w, n).len(),
        packed_rows(white, w, n)[r * row_bytes(w) + j] == packed_row(|x: int| white(r, x), w)[j],
    decreases n,
{
    let rb = row_bytes(w);
    lemma_packed_rows_len(white, w, n);
    lemma_packed_rows_len(white, w, (n - 1) as nat);
    assert(0 <= r * rb && r * rb + rb <= rb * n) by (nonlinear_arith)
        requires
            0 <= r < n,
            0 <= rb,
    ;
    if r < n - 1 {
        lemma_packed_rows_at(white, w, (n - 1) as nat, r, j);
    } else {
        assert(r * rb == rb * (n - 1)) by (nonlinear_arith)
            requires
                r == n - 1,
        ;
    }
}

/// Each pixel of a byte is found again in the bit that it was given.
proof fn lemma_bit_of_byte(white: spec_fn(int) -> bool, w: int, x: int, k: int)
    requires
        0 <= k < 8,
    ensures
        0 <= first_bits(white, w, x, 8) < 256,
        (first_bits(white, w, x, 8) / bit_value(k) % 2 == 1) == (x + k < w && white(x + k)),
{
    reveal_with_fuel(first_bits, 9);
    let b = |i: int|
        if x + i < w && white(x + i) {
            1int
        } else {
            0int
        };
    assert(first_bits(white, w, x, 8) == 128 * b(0) + 64 * b(1) + 32 * b(2) + 16 * b(3) + 8 * b(4)
        + 4 * b(5) + 2 * b(6) + b(7));
    let n = first_bits(white, w, x, 8);
    assert(n / 2 == 64 * b(0) + 32 * b(1) + 16 * b(2) + 8 * b(3) + 4 * b(4) + 2 * b(5) + b(6));
    assert(n / 4 == 32 * b(0) + 16 * b(1) + 8 * b(2) + 4 * b(3) + 2 * b(4) + b(5));
    assert(n / 8 == 16 * b(0) + 8 * b(1) + 4 * b(2) + 2 * b(3) + b(4));
    assert(n / 16 == 8 * b(0) + 4 * b(1) + 2 * b(2) + b(3));
    assert(n / 32 == 4 * b(0) + 2 * b(1) + b(2));
    assert(n / 64 == 2 * b(0) + b(1));
    assert(n / 128 == b(0));
    assert(n / bit_value(k) % 2 == b(k)) by {
        if k == 0 {
        } else if k == 1 {
        } else if k == 2 {
        } else if k == 3 {
        } else if k == 4 {
        } else if k == 5 {
        } else if k == 6 {
        } else {
            assert(k == 7);
        }
    }
}

proof fn lemma_read_row(
    head: Seq<u8>,
    white: spec_fn(int, int) -> bool,
    w: int,
    n: nat,
    r: int,
    x: int,
)
    requires
        head.len() == 62,
        0 <= x < w,
        0 <= r < n,
    ensures
        ((head + packed_rows(white, w, n))[62 + r * row_bytes(w) + x / 8] as int / bit_value(x % 8)
            % 2 == 1) == white(r, x),
{
    let f = |x: int| white(r, x);
    lemma_packed_rows_at(white, w, n, r, x / 8);
    lemma_bit_of_byte(f, w, 8 * (x / 8), x % 8);
    assert(f(x) == white(r, x));
    assert(8 * (x / 8) + x % 8 == x);
}

/// A file reads as its header says: with `stated` as height field, row `y` of the image
/// is found where it was stored.
proof fn lemma_read_back(
    head: Seq<u8>,
    white: spec_fn(int, int) -> bool,
    w: int,
    stated: int,
    n: nat,
    x: int,
    y: int,
)
    requires
        head.len() == 62,
        number_at(head, 10) == 62,
        number_at(head, 18) == w,
        number_at(head, 22) == stated,
        0 <= x < w,
        0 <= y < n,
        stated < 0x8000_0000 ==> stated == n,
    ensures
        read_white(head + packed_rows(white, w, n), x, y) == white(
            if stated < 0x8000_0000 {
                stated - 1 - y
            } else {
                y
            },
            x,
        ),
{
    let file = head + packed_rows(white, w, n);
    assert(number_at(file, 10) == 62);
    assert(number_at(file, 18) == w);
    assert(number_at(file, 22) == stated);
    let row = if stated < 0x8000_0000 {
        stated - 1 - y
    } else {
        y
    };
    lemma_read_row(head, white, w, n, row, x);
}

/// What a bottom-up file was made of can be read from it: every pixel reads back as
/// white exactly where the image was white.
pub proof fn law_bottom_up_reads_back(
    w: int,
    h: int,
    white: spec_fn(int, int) -> bool,
    x: int,
    y: int,
)
    requires
        0 <= x < w < 0x1_0000_0000,
        0 <= y < h < 0x8000_0000,
    ensures
        read_white(bmp_bottom_up(w, h, white), x, y) == white(x, y),
{
    let stored = |r: int, x: int| white(x, h - 1 - r);
    lemma_header_fields(w, h, h);
    lemma_read_back(bmp_header(w, h, h), stored, w, h, h as nat, x, y);
}

/// What a top-down file was made of can be read from it: every pixel reads back as
/// white exactly where the image was white.
pub proof fn law_top_down_reads_back(
    w: int,
    h: int,
    white: spec_fn(int, int) -> bool,
    x: int,
    y: int,
)
    requires
        0 <= x < w < 0x1_0000_0000,
        0 <= y < h <= 0x8000_0000,
    ensures
        read_white(bmp_top_down(w, h, white), x, y) == white(x, y),
{
    let stored = |r: int, x: int| white(x, r);
    lemma_header_fields(w, h, -h);
    lemma_read_back(bmp_header(w, h, -h), stored, w, 0x1_0000_0000 - h, h as nat, x, y);
}

proof fn lemma_length(head: Seq<u8>, white: spec_fn(int, int) -> bool, w: int, n: nat)
    requires
        head.len() == 62,
        0 <= w,
    ensures
        (head + packed_rows(white, w, n)).len() == file_size(w, n as int),
        number_at(head + packed_rows(white, w, n), 2) == number_at(head, 2),
{
    lemma_packed_rows_len(white, w, n);
}

/// The file is as long as its size field says, modulo the field's 32 bits, and a row
/// takes a multiple of four bytes, enough for its pixels.
pub proof fn law_file_length(w: int, h: int, white: spec_fn(int, int) -> bool)
    requires
        0 <= w,
        0 <= h,
    ensures
        bmp_bottom_up(w, h, white).len() == file_size(w, h),
        bmp_top_down(w, h, white).len() == file_size(w, h),
        number_at(bmp_bottom_up(w, h, white), 2) == file_size(w, h) % 0x1_0000_0000,
        number_at(bmp_top_down(w, h, white), 2) == file_size(w, h) % 0x1_0000_0000,
        row_bytes(w) % 4 == 0,
        w <= 8 * row_bytes(w),
{
    lemma_header_fields(w, h, h);
    lemma_header_fields(w, h, -h);
    lemma_length(bmp_header(w, h, h), |r: int, x: int| white(x, h - 1 - r), w, h as nat);
    lemma_length(bmp_header(w, h, -h), |r: int, x: int| white(x, r), w, h as nat);
}

/// The bit that stands for column `x` of row `y` in the bottom-up file of a `w` by `h` image.
pub open spec fn stored_bit(file: Seq<u8>, w: int, h: int, x: int, y: int) -> bool {
    (file[62 + (h - 1 - y) * row_bytes(w) + x / 8] >> ((7 - x % 8) as u8)) & 1u8 == 1u8
}

/// A bit of a byte, by shifting and by dividing.
proof fn lemma_shifted_bit(b: u8, k: int)
    requires
        0 <= k < 8,
    ensures
        ((b >> ((7 - k) as u8)) & 1u8 == 1u8) == (b as int / bit_value(k) % 2 == 1),
{
    assert((b >> 7u8) & 1u8 == (b / 128u8) % 2u8) by (bit_vector);
    assert((b >> 6u8) & 1u8 == (b / 64u8) % 2u8) by (bit_vector);
    assert((b >> 5u8) & 1u8 == (b / 32u8) % 2u8) by (bit_vector);
    assert((b >> 4u8) & 1u8 == (b / 16u8) % 2u8) by (bit_vector);
    assert((b >> 3u8) & 1u8 == (b / 8u8) % 2u8) by (bit_vector);
    assert((b >> 2u8) & 1u8 == (b / 4u8) % 2u8) by (bit_vector);
    assert((b >> 1u8) & 1u8 == (b / 2u8) % 2u8) by (bit_vector);
    assert((b >> 0u8) & 1u8 == (b / 1u8) % 2u8) by (bit_vector);
}

/// Whatever its size, a black and white image stands unchanged in the bits of its dithered
/// file.
pub proof fn law_black_and_white_bits(px: Seq<u8>, w: int, h: int, x: int, y: int)
    requires
        0 <= x < w,
        0 <= y < h,
        px.len() == w * h,
        forall|i: int| 0 <= i < px.len() ==> px[i] == 0 || px[i] == 255,
    ensures
        stored_bit(bmp_bottom_up(w, h, |x: int, y: int| dithered(px, w, x, y)), w, h, x, y) == (
        px[offset(w, x, y)] == 255),
{
    let white = |x: int, y: int| dithered(px, w, x, y);
    let stored = |r: int, x: int| white(x, h - 1 - r);
    lemma_header_fields(w, h, h);
    lemma_read_row(bmp_header(w, h, h), stored, w, h as nat, h - 1 - y, x);
    let file = bmp_bottom_up(w, h, white);
    assert(file == bmp_header(w, h, h) + packed_rows(stored, w, h as nat));
    lemma_shifted_bit(file[62 + (h - 1 - y) * row_bytes(w) + x / 8], x % 8);
    law_black_and_white_stays(px, w, h, x, y);
}

/// Two different black and white images of one size never have the same dithered file.
pub proof fn law_black_and_white_files_differ(p: Seq<u8>, q: Seq<u8>, w: int, h: int)
    requires
        0 <= w,
        0 <= h,
        p.len() == w * h,
        q.len() == w * h,
        forall|i: int| 0 <= i < p.len() ==> p[i] == 0 || p[i] == 255,
        forall|i: int| 0 <= i < q.len() ==> q[i] == 0 || q[i] == 255,
        p != q,
    ensures
        bmp_bottom_up(w, h, |x: int, y: int| dithered(p, w, x, y)) != bmp_bottom_up(
            w,
            h,
            |x: int, y: int| dithered(q, w, x, y),
        ),
{
    if forall|i: int| 0 <= i < p.len() ==> p[i] == q[i] {
        assert(p =~= q);
    }
    let i = choose|i: int| 0 <= i < p.len() && p[i] != q[i];
    assert(w > 0) by (nonlinear_arith)
        requires
            0 <= i < w * h,
            0 <= w,
    ;
    let x = i % w;
    let y = i / w;
    vstd::arithmetic::div_mod::lemma_fundamental_div_mod(i, w);
    assert(0 <= y < h) by (nonlinear_arith)
        requires
            0 <= i < w * h,
            w > 0,
            i == w * y + x,
            0 <= x < w,
    ;
    assert(offset(w, x, y) == i) by (nonlinear_arith)
        requires
            i == w * y + x,
            offset(w, x, y) == y * w + x,
    ;
    law_black_and_white_bits(p, w, h, x, y);
    law_black_and_white_bits(q, w, h, x, y);
}

/// A black and white image comes through unchanged: what its dithered file shows as white is
/// what was white.
pub proof fn law_black_and_white_reads_back(px: Seq<u8>, w: int, h: int, x: int, y: int)
    requires
        0 <= x < w < 0x1_0000_0000,
        0 <= y < h < 0x8000_0000,
        px.len() == w * h,
        forall|i: int| 0 <= i < px.len() ==> px[i] == 0 || px[i] == 255,
    ensures
        read_white(bmp_bottom_up(w, h, |x: int, y: int| dithered(px, w, x, y)), x, y) == (px[offset(
            w,
            x,
            y,
        )] == 255),
{
    law_bottom_up_reads_back(w, h, |x: int, y: int| dithered(px, w, x, y), x, y);
    law_black_and_white_stays(px, w, h, x, y);
}

/// A row takes the least multiple of four bytes that has a bit for each of its pixels, and the
/// file the rows and 62 bytes more.
pub proof fn law_row_takes_least_room(w: int, h: int)
    requires
        0 <= w,
    ensures
        row_bytes(w) % 4 == 0,
        8 * (row_bytes(w) - 4) < w <= 8 * row_bytes(w),
        file_size(w, h) == 62 + row_bytes(w) * h,
{
}

/// Four bytes of a file hold a number, the least significant first.
pub proof fn law_numbers_in_a_file(file: Seq<u8>, i: int)
    ensures
        number_at(file, i) == file[i] + 0x100 * file[i + 1] + 0x1_0000 * file[i + 2] + 0x100_0000
            * file[i + 3],
{
}

/// The 62 bytes before the rows: the letters `BM`, the size of the file, two empty fields, where
/// the rows start; the size of the rest of the header, width, height, one plane, one bit for a
/// pixel, no compression, the size of the rows, the resolution twice, two colours, none of them
/// important; and the colours, black and then white.
pub proof fn law_header_fields(w: int, h: int, height_field: int)
    ensures
        ({
            let s = bmp_header(w, h, height_field);
            &&& s.len() == 62
            &&& s[0] == 'B' as u8 && s[1] == 'M' as u8
            &&& number_at(s, 2) == file_size(w, h) % 0x1_0000_0000
            &&& number_at(s, 6) == 0
            &&& number_at(s, 10) == 62
            &&& number_at(s, 14) == 40
            &&& number_at(s, 18) == w % 0x1_0000_0000
            &&& number_at(s, 22) == height_field % 0x1_0000_0000
            &&& s[26] == 1 && s[27] == 0 && s[28] == 1 && s[29] == 0
            &&& number_at(s, 30) == 0
            &&& number_at(s, 34) == (row_bytes(w) * h) % 0x1_0000_0000
            &&& number_at(s, 38) == 2835
            &&& number_at(s, 42) == 2835
            &&& number_at(s, 46) == 2
            &&& number_at(s, 50) == 0
            &&& number_at(s, 54) == 0
            &&& s[58] == 255 && s[59] == 255 && s[60] == 255 && s[61] == 0
        }),
{
    lemma_header_fields(w, h, height_field);
    lemma_header_rest(w, h, height_field);
}

proof fn lemma_header_rest(w: int, h: int, height_field: int)
    ensures
        ({
            let s = bmp_header(w, h, height_field);
            &&& s[0] == 0x42 && s[1] == 0x4d
            &&& number_at(s, 6) == 0
            &&& number_at(s, 14) == 40
            &&& s[26] == 1 && s[27] == 0 && s[28] == 1 && s[29] == 0
            &&& number_at(s, 30) == 0
            &&& number_at(s, 34) == (row_bytes(w) * h) % 0x1_0000_0000
            &&& number_at(s, 38) == 2835
            &&& number_at(s, 42) == 2835
            &&& number_at(s, 46) == 2
            &&& number_at(s, 50) == 0
            &&& number_at(s, 54) == 0
            &&& s[58] == 255 && s[59] == 255 && s[60] == 255 && s[61] == 0
        }),
{
    reveal(bmp_header);
    let s = bmp_header(w, h, height_field);
    let data = row_bytes(w) * h;
    lemma_number_of_le32(0);
    lemma_number_of_le32(40);
    lemma_number_of_le32(data);
    lemma_number_of_le32(2835);
    lemma_number_of_le32(2);
    assert(s.subrange(6, 10) =~= le32(0));
    assert(s.subrange(14, 18) =~= le32(40));
    assert(s.subrange(26, 28) =~= le16(1));
    assert(s.subrange(28, 30) =~= le16(1));
    assert(s.subrange(30, 34) =~= le32(0));
    assert(s.subrange(34, 38) =~= le32(data));
    assert(s.subrange(38, 42) =~= le32(2835));
    assert(s.subrange(42, 46) =~= le32(2835));
    assert(s.subrange(46, 50) =~= le32(2));
    assert(s.subrange(50, 54) =~= le32(0));
    assert(s.subrange(54, 58) =~= seq![0u8, 0u8, 0u8, 0u8]);
    assert(s.subrange(58, 62) =~= seq![255u8, 255u8, 255u8, 0u8]);
    assert(number_at(s, 6) == number_at(s.subrange(6, 10), 0));
    assert(number_at(s, 14) == number_at(s.subrange(14, 18), 0));
    assert(s[26] == s.subrange(26, 28)[0] && s[27] == s.subrange(26, 28)[1]);
    assert(s[28] == s.subrange(28, 30)[0] && s[29] == s.subrange(28, 30)[1]);
    assert(number_at(s, 30) == number_at(s.subrange(30, 34), 0));
    assert(number_at(s, 34) == number_at(s.subrange(34, 38), 0));
    assert(number_at(s, 38) == number_at(s.subrange(38, 42), 0));
    assert(number_at(s, 42) == number_at(s.subrange(42, 46), 0));
    assert(number_at(s, 46) == number_at(s.subrange(46, 50), 0));
    assert(number_at(s, 50) == number_at(s.subrange(50, 54), 0));
    assert(number_at(s, 54) == number_at(s.subrange(54, 58), 0));
    assert(s[58] == s.subrange(58, 62)[0] && s[59] == s.subrange(58, 62)[1]);
    assert(s[60] == s.subrange(58, 62)[2] && s[61] == s.subrange(58, 62)[3]);
}

proof fn lemma_row_bit(
    head: Seq<u8>,
    white: spec_fn(int, int) -> bool,
    w: int,
    n: nat,
    r: int,
    x: int,
)
    requires
        head.len() == 62,
        0 <= x < 8 * row_bytes(w),
        0 <= w,
        0 <= r < n,
    ensures
        (((head + packed_rows(white, w, n))[62 + r * row_bytes(w) + x / 8] >> ((7 - x % 8) as u8))
            & 1u8 == 1u8) == (x < w && white(r, x)),
{
    let f = |x: int| white(r, x);
    lemma_packed_rows_at(white, w, n, r, x / 8);
    lemma_bit_of_byte(f, w, 8 * (x / 8), x % 8);
    assert(f(x) == white(r, x));
    assert(8 * (x / 8) + x % 8 == x);
    let file = head + packed_rows(white, w, n);
    lemma_shifted_bit(file[62 + r * row_bytes(w) + x / 8], x % 8);
}

/// Behind the header stand the rows, and in them a bit for each pixel, the leftmost in the
/// highest bit of a byte, set where the pixel is white. The bits after the last pixel of a row
/// are clear. The last row comes first in one kind of file, the first one in the other, and the
/// height is stated as negative there.
pub proof fn law_every_bit(w: int, h: int, white: spec_fn(int, int) -> bool, x: int, y: int)
    requires
        0 <= w,
        0 <= y < h,
        0 <= x < 8 * row_bytes(w),
    ensures
        ({
            let up = bmp_bottom_up(w, h, white);
            let down = bmp_top_down(w, h, white);
            let shift = (7 - x % 8) as u8;
            &&& ((up[62 + (h - 1 - y) * row_bytes(w) + x / 8] >> shift) & 1u8 == 1u8) == (x < w
                && white(x, y))
            &&& ((down[62 + y * row_bytes(w) + x / 8] >> shift) & 1u8 == 1u8) == (x < w && white(
                x,
                y,
            ))
            &&& up.take(62) == bmp_header(w, h, h)
            &&& down.take(62) == bmp_header(w, h, -h)
            &&& up.len() == 62 + row_bytes(w) * h
            &&& down.len() == 62 + row_bytes(w) * h
        }),
{
    law_file_length(w, h, white);
    lemma_header_fields(w, h, h);
    lemma_header_fields(w, h, -h);
    let below = |r: int, x: int| white(x, h - 1 - r);
    let above = |r: int, x: int| white(x, r);
    lemma_row_bit(bmp_header(w, h, h), below, w, h as nat, h - 1 - y, x);
    lemma_row_bit(bmp_header(w, h, -h), above, w, h as nat, y, x);
    assert(bmp_bottom_up(w, h, white).take(62) =~= bmp_header(w, h, h));
    assert(bmp_top_down(w, h, white).take(62) =~= bmp_header(w, h, -h));
}

} // verus!
