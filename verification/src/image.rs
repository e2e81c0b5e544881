//! Plain-text (PPM) image serialization.
//!
//! A rendered image is a row-major sequence of quantized pixels, each
//! channel already reduced to `0..=255` by the renderer's gamma and clamp
//! stage. Serialization writes the magic line `P3`, the image dimensions,
//! the maximum channel value `255`, and then one `R G B` line per pixel,
//! rows top to bottom.

use vstd::prelude::*;

verus! {

/// One output pixel: gamma-encoded channels, each in `0..=255`.
#[derive(Clone, Copy, PartialEq, Eq, Structural, Debug)]
pub struct Rgb {
    pub r: u8,
    pub g: u8,
    pub b: u8,
}

/// The decimal digits of `n`, as ASCII bytes, most significant first,
/// without leading zeros (`0` itself is the single byte `0x30`).
pub open spec fn dec_digits(n: nat) -> Seq<u8>
    decreases n,
{
    if n < 10 {
        seq![(0x30 + n) as u8]
    } else {
        dec_digits(n / 10).push((0x30 + n % 10) as u8)
    }
}

/// Appends the decimal digits of `n` to `out`.
pub fn push_dec(out: &mut Vec<u8>, n: u32)
    ensures
        final(out)@ == old(out)@ + dec_digits(n as nat),
    decreases n,
{
    if n >= 10 {
        push_dec(out, n / 10);
    }
    out.push((0x30 + n % 10) as u8);
    proof {
        assert(out@ =~= old(out)@ + dec_digits(n as nat));
    }
}

/// One serialized pixel: the three channels in decimal, separated by
/// spaces, ended by a newline.
pub open spec fn pixel_bytes(p: Rgb) -> Seq<u8> {
    dec_digits(p.r as nat) + seq![0x20u8] + dec_digits(p.g as nat) + seq![0x20u8] + dec_digits(
        p.b as nat,
    ) + seq![0x0au8]
}

/// The serialized pixel block: one line per pixel, in sequence order.
pub open spec fn pixels_bytes(ps: Seq<Rgb>) -> Seq<u8>
    decreases ps.len(),
{
    if ps.len() == 0 {
        Seq::empty()
    } else {
        pixels_bytes(ps.drop_last()) + pixel_bytes(ps.last())
    }
}

/// The header: the magic line `P3`, then `width height`, then the maximum
/// channel value `255`, each line ended by a newline.
pub open spec fn ppm_header(width: nat, height: nat) -> Seq<u8> {
    seq![0x50u8, 0x33u8, 0x0au8] + dec_digits(width) + seq![0x20u8] + dec_digits(height) + seq![
        0x0au8,
    ] + dec_digits(255) + seq![0x0au8]
}

/// The whole serialized image: header, then the pixel block.
pub open spec fn ppm_bytes(width: nat, height: nat, ps: Seq<Rgb>) -> Seq<u8> {
    ppm_header(width, height) + pixels_bytes(ps)
}

/// Appends one pixel's `R G B` line to `out`.
pub fn push_pixel(out: &mut Vec<u8>, p: Rgb)
    ensures
        final(out)@ == old(out)@ + pixel_bytes(p),
{
    push_dec(out, p.r as u32);
    out.push(0x20);
    push_dec(out, p.g as u32);
    out.push(0x20);
    push_dec(out, p.b as u32);
    out.push(0x0a);
    proof {
        assert(out@ =~= old(out)@ + pixel_bytes(p));
    }
}

/// Serializes a row-major image of `width * height` quantized pixels.
pub fn ppm_encode(width: u32, height: u32, pixels: &Vec<Rgb>) -> (out: Vec<u8>)
    requires
        pixels@.len() == (width as nat) * (height as nat),
    ensures
        out@ == ppm_bytes(width as nat, height as nat, pixels@),
{
    let mut out: Vec<u8> = Vec::new();
    out.push(0x50);
    out.push(0x33);
    out.push(0x0a);
    push_dec(&mut out, width);
    out.push(0x20);
    push_dec(&mut out, height);
    out.push(0x0a);
    push_dec(&mut out, 255);
    out.push(0x0a);
    proof {
        assert(out@ =~= ppm_header(width as nat, height as nat));
        assert(pixels@.subrange(0, 0) =~= Seq::<Rgb>::empty());
        assert(out@ =~= ppm_header(width as nat, height as nat) + pixels_bytes(
            pixels@.subrange(0, 0),
        ));
    }
    let mut i: usize = 0;
    while i < pixels.len()
        invariant
            i <= pixels@.len(),
            out@ == ppm_header(width as nat, height as nat) + pixels_bytes(
                pixels@.subrange(0, i as int),
            ),
        decreases pixels@.len() - i,
    {
        push_pixel(&mut out, pixels[i]);
        proof {
            let pre = pixels@.subrange(0, i as int);
            let post = pixels@.subrange(0, i + 1);
            assert(post.drop_last() =~= pre);
            assert(post.last() == pixels@[i as int]);
            assert(out@ =~= ppm_header(width as nat, height as nat) + pixels_bytes(post));
        }
        i = i + 1;
    }
    proof {
        assert(pixels@.subrange(0, pixels@.len() as int) =~= pixels@);
    }
    out
}

} // verus!
