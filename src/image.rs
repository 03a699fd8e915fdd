//! Output of finished pixels: packing into a display word, and the plain-text
//! pixel-triplet image format (plain PPM).
use vstd::prelude::*;

verus! {

/// One displayable pixel: red, green and blue channels.
pub type Rgb = (u8, u8, u8);

/// Decimal digits of `n`, most significant first, without leading zeros.
pub open spec fn decimal(n: nat) -> Seq<u8>
    decreases n,
{
    if n < 10 {
        seq![(48 + n) as u8]
    } else {
        decimal(n / 10) + seq![(48 + n % 10) as u8]
    }
}

/// Text of the image header: the plain PPM magic number, then the width and
/// the height, separated by spaces, a line break, the largest channel value
/// `255` and another line break.
pub open spec fn header_text(width: nat, height: nat) -> Seq<u8> {
    seq![80u8, 51u8, 32u8] + decimal(width) + seq![32u8] + decimal(height) + seq![
        10u8,
        50u8,
        53u8,
        53u8,
        10u8,
    ]
}

/// Text of one pixel: its three channels in decimal, each followed by a space.
pub open spec fn pixel_text(p: Rgb) -> Seq<u8> {
    decimal(p.0 as nat) + seq![32u8] + decimal(p.1 as nat) + seq![32u8] + decimal(p.2 as nat)
        + seq![32u8]
}

/// Text of a run of pixels, one after another.
pub open spec fn pixels_text(ps: Seq<Rgb>) -> Seq<u8>
    decreases ps.len(),
{
    if ps.len() == 0 {
        Seq::empty()
    } else {
        pixels_text(ps.drop_last()) + pixel_text(ps.last())
    }
}

/// Text of the first `rows` rows of a row-major image `width` pixels wide,
/// each row ending in a line break.
pub open spec fn rows_text(ps: Seq<Rgb>, width: nat, rows: nat) -> Seq<u8>
    decreases rows,
{
    if rows == 0 {
        Seq::empty()
    } else {
        rows_text(ps, width, (rows - 1) as nat) + pixels_text(
            ps.subrange((rows - 1) * width, (rows * width) as int),
        ) + seq![10u8]
    }
}

/// The whole image file: the header, then the rows from the top one down.
pub open spec fn image_text(width: nat, height: nat, ps: Seq<Rgb>) -> Seq<u8> {
    header_text(width, height) + rows_text(ps, width, height)
}

/// The display word of a pixel: red in bits 16 to 23, green in bits 8 to 15,
/// blue in bits 0 to 7.
pub fn pack_rgb(p: Rgb) -> (r: u32)
    ensures
        r == p.0 * 65536 + p.1 * 256 + p.2,
{
    (p.0 as u32) * 65536 + (p.1 as u32) * 256 + (p.2 as u32)
}

/// Appends the decimal digits of `n`.
fn push_decimal(out: &mut Vec<u8>, n: usize)
    ensures
        final(out)@ == old(out)@ + decimal(n as nat),
    decreases n,
{
    if n >= 10 {
        push_decimal(out, n / 10);
    }
    out.push(48 + (n % 10) as u8);
    proof {
        if n < 10 {
            assert(decimal(n as nat) =~= seq![(48 + n) as u8]);
        }
    }
}

/// Appends the text of one pixel.
fn push_pixel(out: &mut Vec<u8>, p: Rgb)
    ensures
        final(out)@ == old(out)@ + pixel_text(p),
{
    push_decimal(out, p.0 as usize);
    out.push(32);
    push_decimal(out, p.1 as usize);
    out.push(32);
    push_decimal(out, p.2 as usize);
    out.push(32);
    assert(final(out)@ =~= old(out)@ + pixel_text(p));
}

proof fn lemma_row_fits(y: int, width: int, height: int)
    requires
        0 <= y < height,
        0 <= width,
    ensures
        y * width + width <= width * height,
{
    assert(y * width + width <= width * height) by (nonlinear_arith)
        requires
            0 <= y < height,
            0 <= width,
    ;
}

/// Encodes a row-major image `width` pixels wide and `height` pixels high, top
/// row first, in the plain-text pixel-triplet format.
pub fn encode_ppm(width: usize, height: usize, pixels: &Vec<Rgb>) -> (r: Vec<u8>)
    requires
        pixels@.len() == width * height,
    ensures
        r@ == image_text(width as nat, height as nat, pixels@),
{
    let mut out: Vec<u8> = Vec::new();
    out.push(80);
    out.push(51);
    out.push(32);
    push_decimal(&mut out, width);
    out.push(32);
    push_decimal(&mut out, height);
    out.push(10);
    out.push(50);
    out.push(53);
    out.push(53);
    out.push(10);
    assert(out@ =~= header_text(width as nat, height as nat) + rows_text(
        pixels@,
        width as nat,
        0,
    ));
    let total = pixels.len();
    let mut y: usize = 0;
    while y < height
        invariant
            y <= height,
            total == pixels@.len(),
            pixels@.len() == width * height,
            out@ == header_text(width as nat, height as nat) + rows_text(
                pixels@,
                width as nat,
                y as nat,
            ),
        decreases height - y,
    {
        proof {
            lemma_row_fits(y as int, width as int, height as int);
        }
        let ghost before = out@;
        let start = y * width;
        let mut x: usize = 0;
        while x < width
            invariant
                x <= width,
                start == y * width,
                start + width <= pixels@.len(),
                pixels@.len() == total,
                out@ == before + pixels_text(pixels@.subrange(start as int, start + x)),
            decreases width - x,
        {
            let p = pixels[start + x];
            push_pixel(&mut out, p);
            x += 1;
            assert(pixels@.subrange(start as int, start + x).drop_last() =~= pixels@.subrange(
                start as int,
                start + x - 1,
            ));
        }
        out.push(10);
        assert((y + 1) * width == start + width) by (nonlinear_arith)
            requires
                start == y * width,
        ;
        y += 1;
        assert(out@ =~= header_text(width as nat, height as nat) + rows_text(
            pixels@,
            width as nat,
            y as nat,
        ));
    }
    out
}

} // verus!
