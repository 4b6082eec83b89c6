//! The pixel buffer the renderer writes into: a packed RGB byte raster.

use vstd::prelude::*;
use crate::color::Color;

verus! {

/// A raster of RGB pixels, three bytes per pixel, rows stored from the
/// top. The dimensions never change after creation.
pub struct Image {
    pub width: usize,
    pub height: usize,
    pub bytes: Vec<u8>,
}

/// The buffer holds exactly three bytes for every pixel.
pub open spec fn image_wf(img: Image) -> bool {
    img.bytes@.len() == img.width * img.height * 3
}

impl Image {
    /// A black image with the given dimensions.
    pub fn blank(width: usize, height: usize) -> (r: Image)
        requires
            width * height * 3 <= usize::MAX,
        ensures
            r.width == width,
            r.height == height,
            image_wf(r),
            forall|i: int| 0 <= i < r.bytes@.len() ==> r.bytes@[i] == 0,
    {
        proof {
            assert(width * height * 3 >= 0) by (nonlinear_arith);
        }
        let total: usize = width * height * 3;
        let mut bytes: Vec<u8> = Vec::new();
        while bytes.len() < total
            invariant
                bytes@.len() <= total,
                forall|i: int| 0 <= i < bytes@.len() ==> bytes@[i] == 0,
            decreases total - bytes@.len(),
        {
            bytes.push(0);
        }
        Image { width, height, bytes }
    }

    /// The width and height of the image.
    pub fn _dimensions(&self) -> (r: (usize, usize))
        ensures
            r.0 == self.width,
            r.1 == self.height,
    {
        (self.width, self.height)
    }

    /// Write one pixel: the three bytes of pixel `(x, y)` become the
    /// channels of `color`; nothing else changes.
    pub fn set_pixel(&mut self, x: usize, y: usize, color: Color)
        requires
            image_wf(*old(self)),
            x < old(self).width,
            y < old(self).height,
        ensures
            final(self).width == old(self).width,
            final(self).height == old(self).height,
            image_wf(*final(self)),
            final(self).bytes@ == old(self).bytes@.update(
                (y * old(self).width + x) * 3,
                color.r,
            ).update((y * old(self).width + x) * 3 + 1, color.g).update(
                (y * old(self).width + x) * 3 + 2,
                color.b,
            ),
    {
        let buf_len: usize = self.bytes.len();
        proof {
            lemma_pixel_index_in_range(self.width as int, self.height as int, x as int, y as int);
        }
        let index: usize = (y * self.width + x) * 3;
        self.bytes.set(index, color.r);
        self.bytes.set(index + 1, color.g);
        self.bytes.set(index + 2, color.b);
    }
}

/// The decimal digits of `n`, most significant first, as ASCII bytes.
pub open spec fn dec_rep(n: nat) -> Seq<u8>
    decreases n,
{
    if n < 10 {
        seq![(48 + n) as u8]
    } else {
        dec_rep(n / 10).push((48 + n % 10) as u8)
    }
}

/// Append the decimal digits of `n` to `out`.
pub fn push_decimal(out: &mut Vec<u8>, n: u64)
    ensures
        final(out)@ == old(out)@ + dec_rep(n as nat),
    decreases n,
{
    if n < 10 {
        out.push(48 + n as u8);
        proof {
            assert(out@ =~= old(out)@ + dec_rep(n as nat));
        }
    } else {
        push_decimal(out, n / 10);
        out.push(48 + (n % 10) as u8);
        proof {
            assert(out@ =~= old(out)@ + dec_rep(n as nat));
        }
    }
}

/// The bytes of a binary "P6" netpbm file for a raster of the given
/// dimensions: the header line, the dimensions, the maximum channel value,
/// and then the raw pixel data.
pub open spec fn ppm_bytes(width: nat, height: nat, data: Seq<u8>) -> Seq<u8> {
    seq![80u8, 54u8, 10u8] + dec_rep(width) + seq![32u8] + dec_rep(height) + seq![
        10u8,
        50u8,
        53u8,
        53u8,
        10u8,
    ] + data
}

impl Image {
    /// Encode the image as a binary "P6" netpbm file.
    pub fn to_ppm_bytes(&self) -> (r: Vec<u8>)
        ensures
            r@ == ppm_bytes(self.width as nat, self.height as nat, self.bytes@),
    {
        let mut out: Vec<u8> = Vec::new();
        out.push(80);
        out.push(54);
        out.push(10);
        push_decimal(&mut out, self.width as u64);
        out.push(32);
        push_decimal(&mut out, self.height as u64);
        out.push(10);
        out.push(50);
        out.push(53);
        out.push(53);
        out.push(10);
        let mut i: usize = 0;
        let total: usize = self.bytes.len();
        while i < total
            invariant
                i <= total,
                total == self.bytes@.len(),
                out@ == seq![80u8, 54u8, 10u8] + dec_rep(self.width as nat) + seq![32u8]
                    + dec_rep(self.height as nat) + seq![10u8, 50u8, 53u8, 53u8, 10u8]
                    + self.bytes@.take(i as int),
            decreases total - i,
        {
            out.push(self.bytes[i]);
            proof {
                assert(self.bytes@.take(i as int + 1) =~= self.bytes@.take(i as int).push(
                    self.bytes@[i as int]));
                assert(out@ =~= seq![80u8, 54u8, 10u8] + dec_rep(self.width as nat) + seq![32u8]
                    + dec_rep(self.height as nat) + seq![10u8, 50u8, 53u8, 53u8, 10u8]
                    + self.bytes@.take(i as int + 1));
            }
            i = i + 1;
        }
        proof {
            assert(self.bytes@.take(total as int) =~= self.bytes@);
        }
        out
    }
}

/// A pixel's byte index lies inside the buffer.
pub proof fn lemma_pixel_index_in_range(width: int, height: int, x: int, y: int)
    requires
        0 <= x < width,
        0 <= y < height,
    ensures
        0 <= (y * width + x) * 3,
        (y * width + x) * 3 + 2 < width * height * 3,
{
    assert(0 <= y * width + x && y * width + x < width * height) by (nonlinear_arith)
        requires
            0 <= x < width,
            0 <= y < height,
    ;
    assert((y * width + x) * 3 + 2 < width * height * 3) by (nonlinear_arith)
        requires
            y * width + x < width * height,
            0 <= y * width + x,
    ;
}

} // verus!
