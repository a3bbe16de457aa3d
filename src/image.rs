use vstd::prelude::*;
use crate::color::Color;
use crate::text::{
    count, decimal, lemma_count_concat, lemma_count_single, lemma_decimal_digits_only,
    push_decimal,
};

verus! {

/// The text of one pixel: its three channels in decimal, separated by spaces.
pub open spec fn color_text(c: Color) -> Seq<u8> {
    decimal(c.0 as nat) + seq![32u8] + decimal(c.1 as nat) + seq![32u8] + decimal(c.2 as nat)
}

/// The text of a row of pixels: each pixel's text followed by a space.
pub open spec fn row_text(row: Seq<Color>) -> Seq<u8>
    decreases row.len(),
{
    if row.len() == 0 {
        seq![]
    } else {
        row_text(row.drop_last()) + color_text(row.last()) + seq![32u8]
    }
}

/// Row `i` of a row-major grid `width` pixels wide.
pub open spec fn row_of(pixels: Seq<Color>, width: nat, i: nat) -> Seq<Color> {
    pixels.subrange((i * width) as int, (i * width + width) as int)
}

/// The first `k` rows of the grid, each on a line of its own.
pub open spec fn body_text(pixels: Seq<Color>, width: nat, k: nat) -> Seq<u8>
    decreases k,
{
    if k == 0 {
        seq![]
    } else {
        body_text(pixels, width, (k - 1) as nat) + row_text(row_of(pixels, width, (k - 1) as nat))
            + seq![10u8]
    }
}

/// The three header lines: the format marker `P3`, the size, and the
/// largest channel value 255.
pub open spec fn header_text(width: nat, height: nat) -> Seq<u8> {
    seq![80u8, 51u8, 10u8] + decimal(width) + seq![32u8] + decimal(height) + seq![
        10u8,
        50u8,
        53u8,
        53u8,
        10u8,
    ]
}

/// The whole image: the header, then `height` lines of `width` pixels.
pub open spec fn image_text(width: nat, height: nat, pixels: Seq<Color>) -> Seq<u8> {
    header_text(width, height) + body_text(pixels, width, height)
}

proof fn lemma_color_text_counts(c: Color)
    ensures
        count(color_text(c), 10) == 0,
        count(color_text(c), 32) == 2,
{
    let d0 = decimal(c.0 as nat);
    let d1 = decimal(c.1 as nat);
    let d2 = decimal(c.2 as nat);
    lemma_decimal_digits_only(c.0 as nat);
    lemma_decimal_digits_only(c.1 as nat);
    lemma_decimal_digits_only(c.2 as nat);
    lemma_count_single(32, 10);
    lemma_count_single(32, 32);
    let sp = seq![32u8];
    assert forall|x: u8| x == 10 || x == 32 implies count(color_text(c), x) == count(d0, x)
        + count(sp, x) + count(d1, x) + count(sp, x) + count(d2, x) by {
        lemma_count_concat(d0, sp, x);
        lemma_count_concat(d0 + sp, d1, x);
        lemma_count_concat(d0 + sp + d1, sp, x);
        lemma_count_concat(d0 + sp + d1 + sp, d2, x);
    }
}

proof fn lemma_row_text_counts(row: Seq<Color>)
    ensures
        count(row_text(row), 10) == 0,
        count(row_text(row), 32) == 3 * row.len(),
    decreases row.len(),
{
    if row.len() > 0 {
        let prev = row_text(row.drop_last());
        let ct = color_text(row.last());
        lemma_row_text_counts(row.drop_last());
        lemma_color_text_counts(row.last());
        lemma_count_single(32, 10);
        lemma_count_single(32, 32);
        lemma_count_concat(prev, ct, 10);
        lemma_count_concat(prev + ct, seq![32u8], 10);
        lemma_count_concat(prev, ct, 32);
        lemma_count_concat(prev + ct, seq![32u8], 32);
    } else {
        assert(count(Seq::<u8>::empty(), 10) == 0);
        assert(count(Seq::<u8>::empty(), 32) == 0);
    }
}

proof fn lemma_body_lines(pixels: Seq<Color>, width: nat, k: nat)
    ensures
        count(body_text(pixels, width, k), 10) == k,
    decreases k,
{
    if k > 0 {
        let prev = body_text(pixels, width, (k - 1) as nat);
        let rt = row_text(row_of(pixels, width, (k - 1) as nat));
        lemma_body_lines(pixels, width, (k - 1) as nat);
        lemma_row_text_counts(row_of(pixels, width, (k - 1) as nat));
        lemma_count_single(10, 10);
        lemma_count_concat(prev, rt, 10);
        lemma_count_concat(prev + rt, seq![10u8], 10);
    } else {
        assert(count(Seq::<u8>::empty(), 10) == 0);
    }
}

proof fn lemma_header_lines(width: nat, height: nat)
    ensures
        count(header_text(width, height), 10) == 3,
{
    let a = seq![80u8, 51u8, 10u8];
    let dw = decimal(width);
    let sp = seq![32u8];
    let dh = decimal(height);
    let z = seq![10u8, 50u8, 53u8, 53u8, 10u8];
    lemma_decimal_digits_only(width);
    lemma_decimal_digits_only(height);
    lemma_count_single(32, 10);
    assert(count(a, 10) == 1) by {
        assert(a =~= seq![80u8] + seq![51u8] + seq![10u8]);
        lemma_count_single(80, 10);
        lemma_count_single(51, 10);
        lemma_count_single(10, 10);
        lemma_count_concat(seq![80u8], seq![51u8], 10);
        lemma_count_concat(seq![80u8] + seq![51u8], seq![10u8], 10);
    }
    assert(count(z, 10) == 2) by {
        assert(z =~= seq![10u8] + seq![50u8] + seq![53u8] + seq![53u8] + seq![10u8]);
        lemma_count_single(10, 10);
        lemma_count_single(50, 10);
        lemma_count_single(53, 10);
        lemma_count_concat(seq![10u8], seq![50u8], 10);
        lemma_count_concat(seq![10u8] + seq![50u8], seq![53u8], 10);
        lemma_count_concat(seq![10u8] + seq![50u8] + seq![53u8], seq![53u8], 10);
        lemma_count_concat(
            seq![10u8] + seq![50u8] + seq![53u8] + seq![53u8],
            seq![10u8],
            10,
        );
    }
    lemma_count_concat(a, dw, 10);
    lemma_count_concat(a + dw, sp, 10);
    lemma_count_concat(a + dw + sp, dh, 10);
    lemma_count_concat(a + dw + sp + dh, z, 10);
}

/// Layout of an encoded image: the header takes three lines; after it come
/// exactly `height` lines, the line of row `i` being that row's text, which
/// holds no line break and one space after each of the three channels of
/// each of its `width` pixels.
pub proof fn lemma_image_layout(width: nat, height: nat, pixels: Seq<Color>)
    requires
        pixels.len() == width * height,
    ensures
        count(header_text(width, height), 10) == 3,
        count(body_text(pixels, width, height), 10) == height,
        count(image_text(width, height, pixels), 10) == 3 + height,
        forall|i: nat|
            i < height ==> {
                &&& #[trigger] row_of(pixels, width, i).len() == width
                &&& count(row_text(row_of(pixels, width, i)), 10) == 0
                &&& count(row_text(row_of(pixels, width, i)), 32) == 3 * width
            },
{
    lemma_header_lines(width, height);
    lemma_body_lines(pixels, width, height);
    lemma_count_concat(header_text(width, height), body_text(pixels, width, height), 10);
    assert forall|i: nat| i < height implies {
        &&& #[trigger] row_of(pixels, width, i).len() == width
        &&& count(row_text(row_of(pixels, width, i)), 10) == 0
        &&& count(row_text(row_of(pixels, width, i)), 32) == 3 * width
    } by {
        assert(i * width + width <= width * height) by (nonlinear_arith)
            requires
                i < height,
        ;
        lemma_row_text_counts(row_of(pixels, width, i));
    }
}

impl Color {
    /// Appends the text of this pixel, `R G B`, to `out`.
    pub fn write_text(&self, out: &mut Vec<u8>)
        ensures
            final(out)@ == old(out)@ + color_text(*self),
    {
        push_decimal(out, self.0 as u64);
        out.push(32);
        push_decimal(out, self.1 as u64);
        out.push(32);
        push_decimal(out, self.2 as u64);
        assert(final(out)@ =~= old(out)@ + color_text(*self));
    }
}

/// Appends the pixels `pixels[start .. start + width]`, each followed by a
/// space, and then a line break.
fn push_row(out: &mut Vec<u8>, pixels: &Vec<Color>, start: usize, width: usize)
    requires
        start + width <= pixels@.len(),
    ensures
        final(out)@ == old(out)@ + row_text(pixels@.subrange(start as int, start + width))
            + seq![10u8],
{
    let ghost init = out@;
    let n = pixels.len();
    let mut j: usize = 0;
    while j < width
        invariant
            n == pixels@.len(),
            start + width <= pixels@.len(),
            j <= width,
            out@ == init + row_text(pixels@.subrange(start as int, start + j)),
        decreases width - j,
    {
        let ghost before = out@;
        pixels[start + j].write_text(out);
        out.push(32);
        proof {
            let row = pixels@.subrange(start as int, start + j + 1);
            assert(row.drop_last() =~= pixels@.subrange(start as int, start + j));
            assert(row.last() == pixels@[start + j]);
            assert(out@ =~= init + row_text(row));
        }
        j = j + 1;
    }
    out.push(10);
}

/// Encodes a `width` by `height` grid of pixels, stored row by row, as a
/// plain-text image: the header, then one line per row.
pub fn encode_image(width: u32, height: u32, pixels: &Vec<Color>) -> (out: Vec<u8>)
    requires
        pixels@.len() == width * height,
    ensures
        out@ == image_text(width as nat, height as nat, pixels@),
{
    let mut out: Vec<u8> = Vec::new();
    out.push(80);
    out.push(51);
    out.push(10);
    push_decimal(&mut out, width as u64);
    out.push(32);
    push_decimal(&mut out, height as u64);
    out.push(10);
    out.push(50);
    out.push(53);
    out.push(53);
    out.push(10);
    let ghost header = out@;
    let width = width as usize;
    let height = height as usize;
    assert(header =~= header_text(width as nat, height as nat));
    let n = pixels.len();
    let mut i: usize = 0;
    while i < height
        invariant
            n == pixels@.len(),
            pixels@.len() == width * height,
            i <= height,
            header == header_text(width as nat, height as nat),
            out@ == header + body_text(pixels@, width as nat, i as nat),
        decreases height - i,
    {
        proof {
            assert(i * width + width <= width * height) by (nonlinear_arith)
                requires
                    i < height,
            ;
        }
        let start = i * width;
        push_row(&mut out, pixels, start, width);
        assert(out@ =~= header + body_text(pixels@, width as nat, (i + 1) as nat));
        i = i + 1;
    }
    out
}

} // verus!
