//! Plain-text netpbm ("P3") rasters: one ASCII line of three decimal
//! channel values per pixel.

use vstd::prelude::*;
use crate::color::Color;
use crate::image::{dec_rep, image_wf, lemma_pixel_index_in_range, push_decimal, Image};

verus! {

/// A raster stored as packed RGB bytes, encoded to text on demand.
pub struct PixmapImage {
    pub width: u16,
    pub height: u16,
    pub pixel_data: Vec<u8>,
}

/// The buffer holds exactly three bytes for every pixel.
pub open spec fn pixmap_wf(img: PixmapImage) -> bool {
    img.pixel_data@.len() == img.width * img.height * 3
}

/// The text line of pixel `p`: its three channels in decimal, separated by
/// spaces and ended by a newline.
pub open spec fn p3_pixel_line(data: Seq<u8>, p: int) -> Seq<u8> {
    dec_rep(data[3 * p] as nat) + seq![32u8] + dec_rep(data[3 * p + 1] as nat) + seq![32u8]
        + dec_rep(data[3 * p + 2] as nat) + seq![10u8]
}

/// The text lines of the first `count` pixels, in order.
pub open spec fn p3_lines(data: Seq<u8>, count: int) -> Seq<u8>
    decreases count,
{
    if count <= 0 {
        Seq::empty()
    } else {
        p3_lines(data, count - 1) + p3_pixel_line(data, count - 1)
    }
}

/// The bytes of a plain-text "P3" netpbm file: the header, the dimensions
/// in decimal, the maximum channel value, and one line per pixel.
pub open spec fn pixmap_bytes(width: nat, height: nat, data: Seq<u8>) -> Seq<u8> {
    seq![80u8, 51u8, 10u8] + dec_rep(width) + seq![32u8] + dec_rep(height) + seq![
        10u8,
        50u8,
        53u8,
        53u8,
        10u8,
    ] + p3_lines(data, (width * height) as int)
}

impl PixmapImage {
    /// A black raster of the given dimensions.
    pub fn blank(width: u16, height: u16) -> (r: PixmapImage)
        requires
            width * height * 3 <= usize::MAX,
        ensures
            r.width == width,
            r.height == height,
            pixmap_wf(r),
            forall|i: int| 0 <= i < r.pixel_data@.len() ==> r.pixel_data@[i] == 0,
    {
        proof {
            assert(0 <= width * height && width * height <= width * height * 3)
                by (nonlinear_arith)
                requires
                    width >= 0,
                    height >= 0,
            ;
        }
        let data_size: usize = width as usize * height as usize * 3;
        let mut pixel_data: Vec<u8> = Vec::new();
        while pixel_data.len() < data_size
            invariant
                pixel_data@.len() <= data_size,
                forall|i: int| 0 <= i < pixel_data@.len() ==> pixel_data@[i] == 0,
            decreases data_size - pixel_data@.len(),
        {
            pixel_data.push(0);
        }
        PixmapImage { width, height, pixel_data }
    }

    /// Write one pixel: the three bytes of pixel `(x, y)` become the
    /// channels of `color`; nothing else changes.
    pub fn set_pixel(&mut self, x: u16, y: u16, color: Color)
        requires
            pixmap_wf(*old(self)),
            x < old(self).width,
            y < old(self).height,
        ensures
            final(self).width == old(self).width,
            final(self).height == old(self).height,
            pixmap_wf(*final(self)),
            final(self).pixel_data@ == old(self).pixel_data@.update(
                (y * old(self).width + x) * 3,
                color.r,
            ).update((y * old(self).width + x) * 3 + 1, color.g).update(
                (y * old(self).width + x) * 3 + 2,
                color.b,
            ),
    {
        let buf_len: usize = self.pixel_data.len();
        proof {
            lemma_pixel_index_in_range(self.width as int, self.height as int, x as int, y as int);
        }
        let index: usize = (y as usize * self.width as usize + x as usize) * 3;
        self.pixel_data.set(index, color.r);
        self.pixel_data.set(index + 1, color.g);
        self.pixel_data.set(index + 2, color.b);
    }

    /// Adopt a rendered raster: the pixel layout is the same packed RGB,
    /// so the buffer carries over unchanged.
    pub fn from_raster(img: &Image) -> (r: PixmapImage)
        requires
            image_wf(*img),
            img.width <= 65535,
            img.height <= 65535,
        ensures
            r.width == img.width,
            r.height == img.height,
            pixmap_wf(r),
            r.pixel_data@ == img.bytes@,
    {
        let total: usize = img.bytes.len();
        let mut pixel_data: Vec<u8> = Vec::new();
        let mut i: usize = 0;
        while i < total
            invariant
                i <= total,
                total == img.bytes@.len(),
                pixel_data@ == img.bytes@.take(i as int),
            decreases total - i,
        {
            pixel_data.push(img.bytes[i]);
            proof {
                assert(img.bytes@.take(i as int + 1) =~= img.bytes@.take(i as int).push(
                    img.bytes@[i as int]));
            }
            i = i + 1;
        }
        proof {
            assert(img.bytes@.take(total as int) =~= img.bytes@);
        }
        PixmapImage { width: img.width as u16, height: img.height as u16, pixel_data }
    }

    /// Encode the image as a plain-text "P3" netpbm file.
    pub fn to_bytes(&self) -> (r: Vec<u8>)
        requires
            pixmap_wf(*self),
        ensures
            r@ == pixmap_bytes(self.width as nat, self.height as nat, self.pixel_data@),
    {
        let mut out: Vec<u8> = Vec::new();
        out.push(80);
        out.push(51);
        out.push(10);
        push_decimal(&mut out, self.width as u64);
        out.push(32);
        push_decimal(&mut out, self.height as u64);
        out.push(10);
        out.push(50);
        out.push(53);
        out.push(53);
        out.push(10);
        let ghost header = out@;
        let buf_len: usize = self.pixel_data.len();
        proof {
            assert(0 <= self.width * self.height && self.width * self.height <= self.width
                * self.height * 3) by (nonlinear_arith)
                requires
                    self.width >= 0,
                    self.height >= 0,
            ;
        }
        let pixel_count: usize = self.width as usize * self.height as usize;
        proof {
            assert(out@ =~= header + p3_lines(self.pixel_data@, 0));
        }
        let mut p: usize = 0;
        while p < pixel_count
            invariant
                p <= pixel_count,
                pixel_count == self.width * self.height,
                pixmap_wf(*self),
                buf_len == self.pixel_data@.len(),
                out@ == header + p3_lines(self.pixel_data@, p as int),
            decreases pixel_count - p,
        {
            proof {
                assert(0 <= 3 * (p as int) && 3 * (p as int) + 2 < self.width * self.height * 3)
                    by (nonlinear_arith)
                    requires
                        0 <= p < pixel_count,
                        pixel_count == self.width * self.height,
                ;
                assert(p as int * 3 == 3 * (p as int)) by (nonlinear_arith);
            }
            let byte_index: usize = p * 3;
            push_decimal(&mut out, self.pixel_data[byte_index] as u64);
            out.push(32);
            push_decimal(&mut out, self.pixel_data[byte_index + 1] as u64);
            out.push(32);
            push_decimal(&mut out, self.pixel_data[byte_index + 2] as u64);
            out.push(10);
            proof {
                assert(out@ =~= header + p3_lines(self.pixel_data@, p as int + 1));
            }
            p = p + 1;
        }
        out
    }
}

} // verus!
