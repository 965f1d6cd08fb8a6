//! The text of an image file: a three-line header, then one line per pixel.

use crate::decimal::{
    decimal, is_digit, lemma_decimal_digits, lemma_decimal_injective, lemma_decimal_len,
};
use vstd::prelude::*;

verus! {

/// One pixel: its red, green and blue intensities.
pub type Pixel = (u8, u8, u8);

/// The ASCII space that separates the numbers of a line.
pub const SPACE: u8 = 0x20;

/// The ASCII line feed that ends every line.
pub const NEWLINE: u8 = 0x0a;

/// The header: the line `P3`, the line of width and height separated by one
/// space, and the line `255`, the largest intensity.
pub open spec fn header_text(width: u32, height: u32) -> Seq<u8> {
    seq![0x50u8, 0x33u8, NEWLINE] + decimal(width as nat) + seq![SPACE] + decimal(height as nat)
        + seq![NEWLINE, 0x32u8, 0x35u8, 0x35u8, NEWLINE]
}

/// The line of one pixel: its three intensities in decimal, each followed by
/// one space, and the line feed.
pub open spec fn pixel_text(p: Pixel) -> Seq<u8> {
    decimal(p.0 as nat) + seq![SPACE] + decimal(p.1 as nat) + seq![SPACE] + decimal(p.2 as nat)
        + seq![SPACE, NEWLINE]
}

/// The lines of a run of pixels, in their order.
pub open spec fn pixels_text(pixels: Seq<Pixel>) -> Seq<u8>
    decreases pixels.len(),
{
    if pixels.len() == 0 {
        Seq::empty()
    } else {
        pixels_text(pixels.drop_last()) + pixel_text(pixels.last())
    }
}

/// Every pixel's line has at least seven bytes.
pub proof fn lemma_pixels_text_len(pixels: Seq<Pixel>)
    ensures
        pixels_text(pixels).len() >= 7 * pixels.len(),
    decreases pixels.len(),
{
    if pixels.len() > 0 {
        lemma_pixels_text_len(pixels.drop_last());
        let p = pixels.last();
        lemma_decimal_len(p.0 as nat);
        lemma_decimal_len(p.1 as nat);
        lemma_decimal_len(p.2 as nat);
    }
}

/// The text of an image of the given size with the given pixels: the header,
/// then the pixels' lines.
pub open spec fn image_text(width: u32, height: u32, pixels: Seq<Pixel>) -> Seq<u8> {
    header_text(width, height) + pixels_text(pixels)
}

/// The number of lines in a text: that of its line feeds.
pub open spec fn line_count(text: Seq<u8>) -> nat
    decreases text.len(),
{
    if text.len() == 0 {
        0
    } else {
        line_count(text.drop_last()) + if text.last() == NEWLINE {
            1nat
        } else {
            0nat
        }
    }
}

/// The lines of two texts written one after the other add up.
pub proof fn lemma_line_count_concat(a: Seq<u8>, b: Seq<u8>)
    ensures
        line_count(a + b) == line_count(a) + line_count(b),
    decreases b.len(),
{
    if b.len() == 0 {
        assert(a + b =~= a);
    } else {
        lemma_line_count_concat(a, b.drop_last());
        assert((a + b).drop_last() =~= a + b.drop_last());
    }
}

/// A text without a line feed has no line.
pub proof fn lemma_line_count_none(text: Seq<u8>)
    requires
        forall|i: int| 0 <= i < text.len() ==> #[trigger] text[i] != NEWLINE,
    ensures
        line_count(text) == 0,
    decreases text.len(),
{
    if text.len() > 0 {
        lemma_line_count_none(text.drop_last());
    }
}

/// The decimal text of a number holds no line feed.
proof fn lemma_decimal_one_line(n: nat)
    ensures
        line_count(decimal(n)) == 0,
{
    lemma_decimal_digits(n);
    lemma_line_count_none(decimal(n));
}

/// The header is three lines long.
pub proof fn lemma_header_lines(width: u32, height: u32)
    ensures
        line_count(header_text(width, height)) == 3,
{
    let a = seq![0x50u8, 0x33u8, NEWLINE];
    let b = decimal(width as nat);
    let c = seq![SPACE];
    let d = decimal(height as nat);
    let e = seq![NEWLINE, 0x32u8, 0x35u8, 0x35u8, NEWLINE];
    lemma_decimal_one_line(width as nat);
    lemma_decimal_one_line(height as nat);
    lemma_line_count_concat(a, b);
    lemma_line_count_concat(a + b, c);
    lemma_line_count_concat(a + b + c, d);
    lemma_line_count_concat(a + b + c + d, e);
    assert(line_count(a) == 1) by {
        reveal_with_fuel(line_count, 4);
        assert(a.drop_last() =~= seq![0x50u8, 0x33u8]);
        assert(a.drop_last().drop_last() =~= seq![0x50u8]);
    }
    assert(line_count(c) == 0) by {
        reveal_with_fuel(line_count, 2);
    }
    assert(line_count(e) == 2) by {
        reveal_with_fuel(line_count, 6);
        assert(e.drop_last() =~= seq![NEWLINE, 0x32u8, 0x35u8, 0x35u8]);
        assert(e.drop_last().drop_last() =~= seq![NEWLINE, 0x32u8, 0x35u8]);
        assert(e.drop_last().drop_last().drop_last() =~= seq![NEWLINE, 0x32u8]);
        assert(e.drop_last().drop_last().drop_last().drop_last() =~= seq![NEWLINE]);
    }
}

/// A pixel takes one line.
pub proof fn lemma_pixel_line(p: Pixel)
    ensures
        line_count(pixel_text(p)) == 1,
{
    let b = decimal(p.0 as nat);
    let c = seq![SPACE];
    let d = decimal(p.1 as nat);
    let f = decimal(p.2 as nat);
    let e = seq![SPACE, NEWLINE];
    lemma_decimal_one_line(p.0 as nat);
    lemma_decimal_one_line(p.1 as nat);
    lemma_decimal_one_line(p.2 as nat);
    lemma_line_count_concat(b, c);
    lemma_line_count_concat(b + c, d);
    lemma_line_count_concat(b + c + d, c);
    lemma_line_count_concat(b + c + d + c, f);
    lemma_line_count_concat(b + c + d + c + f, e);
    assert(line_count(c) == 0) by {
        reveal_with_fuel(line_count, 2);
    }
    assert(line_count(e) == 1) by {
        reveal_with_fuel(line_count, 3);
        assert(e.drop_last() =~= seq![SPACE]);
    }
}

/// The text of an image has three lines of header and one line for each
/// pixel: an image of `width` by `height` pixels that holds them all has
/// `3 + width * height` lines.
pub proof fn lemma_image_lines(width: u32, height: u32, pixels: Seq<Pixel>)
    ensures
        line_count(pixels_text(pixels)) == pixels.len(),
        line_count(image_text(width, height, pixels)) == 3 + pixels.len(),
    decreases pixels.len(),
{
    lemma_header_lines(width, height);
    if pixels.len() > 0 {
        lemma_image_lines(width, height, pixels.drop_last());
        lemma_pixel_line(pixels.last());
        lemma_line_count_concat(pixels_text(pixels.drop_last()), pixel_text(pixels.last()));
    }
    lemma_line_count_concat(header_text(width, height), pixels_text(pixels));
}

/// Where two texts agree, each a number in decimal followed by something
/// that does not begin with a digit, the numbers agree and so does what
/// follows them.
pub proof fn lemma_number_ends(m: nat, after_m: Seq<u8>, n: nat, after_n: Seq<u8>)
    requires
        after_m.len() > 0,
        after_n.len() > 0,
        !is_digit(after_m[0]),
        !is_digit(after_n[0]),
        decimal(m) + after_m == decimal(n) + after_n,
    ensures
        m == n,
        after_m == after_n,
{
    let a = decimal(m);
    let b = decimal(n);
    let text = a + after_m;
    lemma_decimal_digits(m);
    lemma_decimal_digits(n);
    if a.len() < b.len() {
        assert(text[a.len() as int] == after_m[0]);
        assert(text[a.len() as int] == b[a.len() as int]);
    }
    if b.len() < a.len() {
        assert(text[b.len() as int] == after_n[0]);
        assert(text[b.len() as int] == a[b.len() as int]);
    }
    assert(a =~= text.subrange(0, a.len() as int));
    assert(b =~= text.subrange(0, a.len() as int));
    assert(after_m =~= text.subrange(a.len() as int, text.len() as int));
    assert(after_n =~= text.subrange(a.len() as int, text.len() as int));
    lemma_decimal_injective(m, n);
}

/// Where two texts agree, each the line of a pixel followed by more text,
/// the pixels agree and so does what follows their lines.
pub proof fn lemma_pixel_line_ends(p: Pixel, after_p: Seq<u8>, q: Pixel, after_q: Seq<u8>)
    requires
        pixel_text(p) + after_p == pixel_text(q) + after_q,
    ensures
        p == q,
        after_p == after_q,
{
    let p3 = seq![SPACE, NEWLINE] + after_p;
    let q3 = seq![SPACE, NEWLINE] + after_q;
    let p2 = seq![SPACE] + (decimal(p.2 as nat) + p3);
    let q2 = seq![SPACE] + (decimal(q.2 as nat) + q3);
    let p1 = seq![SPACE] + (decimal(p.1 as nat) + p2);
    let q1 = seq![SPACE] + (decimal(q.1 as nat) + q2);
    assert(pixel_text(p) + after_p =~= decimal(p.0 as nat) + p1);
    assert(pixel_text(q) + after_q =~= decimal(q.0 as nat) + q1);
    lemma_number_ends(p.0 as nat, p1, q.0 as nat, q1);
    assert(p1.skip(1) =~= decimal(p.1 as nat) + p2);
    assert(q1.skip(1) =~= decimal(q.1 as nat) + q2);
    lemma_number_ends(p.1 as nat, p2, q.1 as nat, q2);
    assert(p2.skip(1) =~= decimal(p.2 as nat) + p3);
    assert(q2.skip(1) =~= decimal(q.2 as nat) + q3);
    lemma_number_ends(p.2 as nat, p3, q.2 as nat, q3);
    assert(after_p =~= p3.skip(2));
    assert(after_q =~= q3.skip(2));
}

/// The lines of a run of pixels begin with the line of the first.
pub proof fn lemma_pixels_text_first(pixels: Seq<Pixel>)
    requires
        pixels.len() > 0,
    ensures
        pixels_text(pixels) == pixel_text(pixels.first()) + pixels_text(pixels.skip(1)),
    decreases pixels.len(),
{
    if pixels.len() == 1 {
        assert(pixels.drop_last() =~= pixels.skip(1));
        assert(pixels_text(pixels.skip(1)) =~= Seq::<u8>::empty());
        assert(pixels_text(pixels) =~= pixel_text(pixels.first()) + pixels_text(pixels.skip(1)));
    } else {
        let front = pixels.drop_last();
        lemma_pixels_text_first(front);
        assert(front.skip(1) =~= pixels.skip(1).drop_last());
        assert(pixels.skip(1).last() == pixels.last());
        assert(front.first() == pixels.first());
        assert(pixels_text(pixels) =~= pixel_text(pixels.first()) + pixels_text(pixels.skip(1)));
    }
}

/// The lines of a run of pixels say which pixels they are: two runs with the
/// same text are the same run.
pub proof fn lemma_pixels_text_injective(a: Seq<Pixel>, b: Seq<Pixel>)
    requires
        pixels_text(a) == pixels_text(b),
    ensures
        a == b,
    decreases a.len(),
{
    lemma_pixels_text_len(a);
    lemma_pixels_text_len(b);
    if a.len() == 0 || b.len() == 0 {
        assert(a =~= b);
    } else {
        lemma_pixels_text_first(a);
        lemma_pixels_text_first(b);
        lemma_pixel_line_ends(
            a.first(),
            pixels_text(a.skip(1)),
            b.first(),
            pixels_text(b.skip(1)),
        );
        lemma_pixels_text_injective(a.skip(1), b.skip(1));
        assert(a =~= seq![a.first()] + a.skip(1));
        assert(b =~= seq![b.first()] + b.skip(1));
    }
}

/// The text of an image says what the image is: two images with the same
/// text have the same width, the same height and the same pixels.
pub proof fn lemma_image_text_injective(
    width_a: u32,
    height_a: u32,
    pixels_a: Seq<Pixel>,
    width_b: u32,
    height_b: u32,
    pixels_b: Seq<Pixel>,
)
    requires
        image_text(width_a, height_a, pixels_a) == image_text(width_b, height_b, pixels_b),
    ensures
        width_a == width_b,
        height_a == height_b,
        pixels_a == pixels_b,
{
    let magic = seq![0x50u8, 0x33u8, NEWLINE];
    let tail = seq![NEWLINE, 0x32u8, 0x35u8, 0x35u8, NEWLINE];
    let a2 = tail + pixels_text(pixels_a);
    let b2 = tail + pixels_text(pixels_b);
    let a1 = seq![SPACE] + (decimal(height_a as nat) + a2);
    let b1 = seq![SPACE] + (decimal(height_b as nat) + b2);
    let text_a = image_text(width_a, height_a, pixels_a);
    let text_b = image_text(width_b, height_b, pixels_b);
    assert(text_a =~= magic + (decimal(width_a as nat) + a1));
    assert(text_b =~= magic + (decimal(width_b as nat) + b1));
    assert(text_a.skip(3) =~= decimal(width_a as nat) + a1);
    assert(text_b.skip(3) =~= decimal(width_b as nat) + b1);
    lemma_number_ends(width_a as nat, a1, width_b as nat, b1);
    assert(a1.skip(1) =~= decimal(height_a as nat) + a2);
    assert(b1.skip(1) =~= decimal(height_b as nat) + b2);
    lemma_number_ends(height_a as nat, a2, height_b as nat, b2);
    assert(a2.skip(5) =~= pixels_text(pixels_a));
    assert(b2.skip(5) =~= pixels_text(pixels_b));
    lemma_pixels_text_injective(pixels_a, pixels_b);
}

} // verus!
