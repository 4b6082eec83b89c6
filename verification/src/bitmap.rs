//! BMP rasters: pixel rows padded to four bytes, blue-first channels, and
//! the two verified file headers.

use vstd::prelude::*;
use crate::color::Color;
use crate::image::{image_wf, lemma_pixel_index_in_range, Image};

verus! {

/// The bytes one pixel row occupies in the file: three bytes per pixel,
/// padded up to the next four-byte boundary.
pub open spec fn bmp_row_bytes(width: int) -> int {
    let unpadded = 3 * width;
    unpadded + (4 - unpadded % 4) % 4
}

/// A BMP raster: dimensions and the padded pixel rows, bottom row first as
/// far as callers choose to treat it.
pub struct BitmapImage {
    pub width: u16,
    pub height: u16,
    pub pixel_data: Vec<u8>,
}

/// The buffer holds exactly the padded rows.
pub open spec fn bmp_wf(img: BitmapImage) -> bool {
    img.pixel_data@.len() == bmp_row_bytes(img.width as int) * img.height
}

/// The row stride covers the pixels and stays within the padding.
pub proof fn lemma_bmp_row_bytes_bounds(width: int)
    requires
        width >= 0,
    ensures
        3 * width <= bmp_row_bytes(width) <= 3 * width + 3,
{
    vstd::arithmetic::div_mod::lemma_mod_division_less_than_divisor(3 * width, 4);
    vstd::arithmetic::div_mod::lemma_mod_division_less_than_divisor(4 - (3 * width) % 4, 4);
}

impl BitmapImage {
    /// Align the image's width to a four-byte boundary.
    pub fn bytes_per_row(width: u16) -> (r: usize)
        ensures
            r == bmp_row_bytes(width as int),
            r % 4 == 0,
    {
        let unpadded: usize = width as usize * 3;
        let padded: usize = unpadded + (4 - unpadded % 4) % 4;
        proof {
            lemma_bmp_row_bytes_bounds(width as int);
            lemma_bmp_row_bytes_aligned(width as int);
            assert(3 * (width as int) == (width as int) * 3) by (nonlinear_arith);
        }
        padded
    }

    /// The size of the file required to contain this image: the two
    /// headers plus the pixel rows.
    pub fn size_bytes(&self) -> (r: u32)
        requires
            self.pixel_data@.len() + 26 <= u32::MAX,
        ensures
            r == 26 + self.pixel_data@.len(),
    {
        14 + 12 + self.pixel_data.len() as u32
    }

    /// A black raster of the given dimensions.
    pub fn blank(width: u16, height: u16) -> (r: BitmapImage)
        requires
            bmp_row_bytes(width as int) * height <= usize::MAX,
        ensures
            r.width == width,
            r.height == height,
            bmp_wf(r),
            forall|i: int| 0 <= i < r.pixel_data@.len() ==> r.pixel_data@[i] == 0,
    {
        let row: usize = Self::bytes_per_row(width);
        proof {
            lemma_bmp_row_bytes_bounds(width as int);
            assert(bmp_row_bytes(width as int) * (height as int) >= 0) by (nonlinear_arith)
                requires
                    bmp_row_bytes(width as int) >= 0,
                    height >= 0,
            ;
        }
        let data_size: usize = row * height as usize;
        let mut pixel_data: Vec<u8> = Vec::new();
        while pixel_data.len() < data_size
            invariant
                pixel_data@.len() <= data_size,
                forall|i: int| 0 <= i < pixel_data@.len() ==> pixel_data@[i] == 0,
            decreases data_size - pixel_data@.len(),
        {
            pixel_data.push(0);
        }
        BitmapImage { width, height, pixel_data }
    }

    /// Write one pixel: the three bytes of pixel `(x, y)` become the
    /// channels of `color`, stored blue first; nothing else changes.
    pub fn set_pixel(&mut self, x: u16, y: u16, color: Color)
        requires
            bmp_wf(*old(self)),
            x < old(self).width,
            y < old(self).height,
        ensures
            final(self).width == old(self).width,
            final(self).height == old(self).height,
            bmp_wf(*final(self)),
            final(self).pixel_data@ == old(self).pixel_data@.update(
                y * bmp_row_bytes(old(self).width as int) + 3 * x,
                color.b,
            ).update(y * bmp_row_bytes(old(self).width as int) + 3 * x + 1, color.g).update(
                y * bmp_row_bytes(old(self).width as int) + 3 * x + 2,
                color.r,
            ),
    {
        let row: usize = Self::bytes_per_row(self.width);
        let buf_len: usize = self.pixel_data.len();
        proof {
            lemma_bmp_row_bytes_bounds(self.width as int);
            lemma_bmp_pixel_in_range(self.width as int, self.height as int, x as int, y as int);
        }
        let index: usize = y as usize * row + x as usize * 3;
        proof {
            assert(x as int * 3 == 3 * (x as int)) by (nonlinear_arith);
        }
        self.pixel_data.set(index, color.b);
        self.pixel_data.set(index + 1, color.g);
        self.pixel_data.set(index + 2, color.r);
    }

    /// Adopt a rendered raster: every pixel's RGB triple is copied into
    /// the padded rows, blue first.
    pub fn from_raster(img: &Image) -> (r: BitmapImage)
        requires
            image_wf(*img),
            img.width <= 65535,
            img.height <= 65535,
            bmp_row_bytes(img.width as int) * img.height <= usize::MAX,
        ensures
            r.width == img.width,
            r.height == img.height,
            bmp_wf(r),
            forall|x: int, y: int|
                0 <= x < img.width && 0 <= y < img.height ==> #[trigger] bmp_pixel_matches(
                    r.pixel_data@,
                    img.bytes@,
                    img.width as int,
                    x,
                    y,
                ),
    {
        let raster_len: usize = img.bytes.len();
        let mut out: BitmapImage = BitmapImage::blank(img.width as u16, img.height as u16);
        let mut y: usize = 0;
        while y < img.height
            invariant
                y <= img.height,
                image_wf(*img),
                img.width <= 65535,
                img.height <= 65535,
                raster_len == img.bytes@.len(),
                out.width == img.width,
                out.height == img.height,
                bmp_wf(out),
                forall|px: int, py: int|
                    0 <= px < img.width && 0 <= py < y ==> #[trigger] bmp_pixel_matches(
                        out.pixel_data@,
                        img.bytes@,
                        img.width as int,
                        px,
                        py,
                    ),
            decreases img.height - y,
        {
            let mut x: usize = 0;
            while x < img.width
                invariant
                    x <= img.width,
                    y < img.height,
                    image_wf(*img),
                    img.width <= 65535,
                    img.height <= 65535,
                    raster_len == img.bytes@.len(),
                    out.width == img.width,
                    out.height == img.height,
                    bmp_wf(out),
                    forall|px: int, py: int|
                        0 <= px < img.width && 0 <= py < y ==> #[trigger] bmp_pixel_matches(
                            out.pixel_data@,
                            img.bytes@,
                            img.width as int,
                            px,
                            py,
                        ),
                    forall|px: int|
                        0 <= px < x ==> #[trigger] bmp_pixel_matches(
                            out.pixel_data@,
                            img.bytes@,
                            img.width as int,
                            px,
                            y as int,
                        ),
                decreases img.width - x,
            {
                proof {
                    lemma_pixel_index_in_range(img.width as int, img.height as int, x as int,
                        y as int);
                }
                let base: usize = (y * img.width + x) * 3;
                let pixel: Color = Color::rgb(
                    img.bytes[base],
                    img.bytes[base + 1],
                    img.bytes[base + 2],
                );
                let ghost prior = out.pixel_data@;
                out.set_pixel(x as u16, y as u16, pixel);
                proof {
                    lemma_bmp_row_bytes_bounds(img.width as int);
                    lemma_bmp_pixel_in_range(img.width as int, img.height as int, x as int,
                        y as int);
                    assert(bmp_pixel_matches(out.pixel_data@, img.bytes@, img.width as int,
                        x as int, y as int));
                    assert forall|px: int, py: int|
                        (0 <= px < img.width && 0 <= py < y) || (0 <= px < x && py
                            == y as int) implies #[trigger] bmp_pixel_matches(
                        out.pixel_data@,
                        img.bytes@,
                        img.width as int,
                        px,
                        py,
                    ) by {
                        assert(bmp_pixel_matches(prior, img.bytes@, img.width as int, px, py));
                        lemma_bmp_pixel_in_range(img.width as int, img.height as int, px, py);
                        lemma_bmp_cells_distinct(img.width as int, px, py, x as int, y as int);
                    }
                }
                x = x + 1;
            }
            proof {
                assert forall|px: int, py: int|
                    0 <= px < img.width && 0 <= py < y + 1 implies #[trigger] bmp_pixel_matches(
                    out.pixel_data@,
                    img.bytes@,
                    img.width as int,
                    px,
                    py,
                ) by {
                    if py < y {
                        assert(bmp_pixel_matches(out.pixel_data@, img.bytes@,
                            img.width as int, px, py));
                    } else {
                        assert(bmp_pixel_matches(out.pixel_data@, img.bytes@,
                            img.width as int, px, y as int));
                    }
                }
            }
            y = y + 1;
        }
        out
    }

    /// The 14 header bytes of the file: the magic number, the little-endian
    /// file size, four reserved bytes, and the offset of the pixel data.
    pub fn header_bytes(&self) -> (r: Vec<u8>)
        requires
            self.pixel_data@.len() + 26 <= u32::MAX,
        ensures
            r@ == seq![66u8, 77u8] + u32_le(26 + self.pixel_data@.len() as int) + seq![
                0u8,
                0u8,
                0u8,
                0u8,
                26u8,
                0u8,
                0u8,
                0u8,
            ],
    {
        let file_size: u32 = self.size_bytes();
        let mut out: Vec<u8> = Vec::new();
        out.push(66);
        out.push(77);
        push_u32_le(&mut out, file_size);
        out.push(0);
        out.push(0);
        out.push(0);
        out.push(0);
        out.push(26);
        out.push(0);
        out.push(0);
        out.push(0);
        proof {
            assert(out@ =~= seq![66u8, 77u8] + u32_le(26 + self.pixel_data@.len() as int) + seq![
                0u8,
                0u8,
                0u8,
                0u8,
                26u8,
                0u8,
                0u8,
                0u8,
            ]);
        }
        out
    }

    /// The 12 bytes of the BITMAPCOREHEADER: its size, the little-endian
    /// dimensions, one color plane, and 24 bits per pixel.
    pub fn dib_header_bytes(&self) -> (r: Vec<u8>)
        ensures
            r@ == seq![12u8, 0u8, 0u8, 0u8, (self.width % 256) as u8, (self.width / 256) as u8, (
            self.height % 256) as u8, (self.height / 256) as u8, 1u8, 0u8, 24u8, 0u8],
    {
        let mut out: Vec<u8> = Vec::new();
        out.push(12);
        out.push(0);
        out.push(0);
        out.push(0);
        out.push((self.width % 256) as u8);
        out.push((self.width / 256) as u8);
        out.push((self.height % 256) as u8);
        out.push((self.height / 256) as u8);
        out.push(1);
        out.push(0);
        out.push(24);
        out.push(0);
        proof {
            assert(out@ =~= seq![12u8, 0u8, 0u8, 0u8, (self.width % 256) as u8, (self.width
                / 256) as u8, (self.height % 256) as u8, (self.height / 256) as u8, 1u8, 0u8,
                24u8, 0u8]);
        }
        out
    }

    /// The full file: both headers followed by the pixel rows.
    pub fn to_bytes(&self) -> (r: Vec<u8>)
        requires
            self.pixel_data@.len() + 26 <= u32::MAX,
        ensures
            r@ == bmp_file_bytes(*self),
            r@.len() == 26 + self.pixel_data@.len(),
    {
        let mut out: Vec<u8> = self.header_bytes();
        let dib: Vec<u8> = self.dib_header_bytes();
        let ghost head = out@;
        let mut i: usize = 0;
        while i < dib.len()
            invariant
                i <= dib@.len(),
                dib@.len() == 12,
                out@ == head + dib@.take(i as int),
                head.len() == 14,
            decreases dib@.len() - i,
        {
            out.push(dib[i]);
            proof {
                assert(dib@.take(i as int + 1) =~= dib@.take(i as int).push(dib@[i as int]));
                assert(out@ =~= head + dib@.take(i as int + 1));
            }
            i = i + 1;
        }
        proof {
            assert(dib@.take(12) =~= dib@);
        }
        let total: usize = self.pixel_data.len();
        let mut k: usize = 0;
        while k < total
            invariant
                k <= total,
                total == self.pixel_data@.len(),
                out@ == head + dib@ + self.pixel_data@.take(k as int),
                dib@.len() == 12,
                head.len() == 14,
            decreases total - k,
        {
            out.push(self.pixel_data[k]);
            proof {
                assert(self.pixel_data@.take(k as int + 1) =~= self.pixel_data@.take(
                    k as int).push(self.pixel_data@[k as int]));
                assert(out@ =~= head + dib@ + self.pixel_data@.take(k as int + 1));
            }
            k = k + 1;
        }
        proof {
            assert(self.pixel_data@.take(total as int) =~= self.pixel_data@);
            assert(out@ =~= bmp_file_bytes(*self));
        }
        out
    }
}

/// The bytes of the whole BMP file: the file header, the core DIB header,
/// and the padded pixel rows.
pub open spec fn bmp_file_bytes(img: BitmapImage) -> Seq<u8> {
    seq![66u8, 77u8] + u32_le(26 + img.pixel_data@.len() as int) + seq![
        0u8,
        0u8,
        0u8,
        0u8,
        26u8,
        0u8,
        0u8,
        0u8,
    ] + seq![12u8, 0u8, 0u8, 0u8, (img.width % 256) as u8, (img.width / 256) as u8, (img.height
        % 256) as u8, (img.height / 256) as u8, 1u8, 0u8, 24u8, 0u8] + img.pixel_data@
}

/// Pixel `(x, y)` of the padded BMP buffer holds, blue first, the RGB
/// triple pixel `(x, y)` of a packed raster buffer holds.
pub open spec fn bmp_pixel_matches(bmp: Seq<u8>, raster: Seq<u8>, width: int, x: int, y: int)
    -> bool {
    &&& bmp[y * bmp_row_bytes(width) + 3 * x] == raster[(y * width + x) * 3 + 2]
    &&& bmp[y * bmp_row_bytes(width) + 3 * x + 1] == raster[(y * width + x) * 3 + 1]
    &&& bmp[y * bmp_row_bytes(width) + 3 * x + 2] == raster[(y * width + x) * 3]
}

/// Two distinct pixels of a BMP raster occupy disjoint byte triples.
proof fn lemma_bmp_cells_distinct(width: int, x1: int, y1: int, x2: int, y2: int)
    requires
        0 <= x1 < width,
        0 <= x2 < width,
        0 <= y1,
        0 <= y2,
        x1 != x2 || y1 != y2,
    ensures
        y1 * bmp_row_bytes(width) + 3 * x1 + 2 < y2 * bmp_row_bytes(width) + 3 * x2 || y2
            * bmp_row_bytes(width) + 3 * x2 + 2 < y1 * bmp_row_bytes(width) + 3 * x1,
{
    lemma_bmp_row_bytes_bounds(width);
    let rb = bmp_row_bytes(width);
    if y1 == y2 {
    } else if y1 < y2 {
        assert(y1 * rb + rb <= y2 * rb) by (nonlinear_arith)
            requires
                y1 + 1 <= y2,
                rb >= 0,
        ;
    } else {
        assert(y2 * rb + rb <= y1 * rb) by (nonlinear_arith)
            requires
                y2 + 1 <= y1,
                rb >= 0,
        ;
    }
}

/// The padding formula lands on a four-byte boundary.
proof fn lemma_bmp_row_bytes_aligned(width: int)
    requires
        width >= 0,
    ensures
        bmp_row_bytes(width) % 4 == 0,
{
    let u = 3 * width;
    let m = u % 4;
    vstd::arithmetic::div_mod::lemma_mod_division_less_than_divisor(u, 4);
    if m == 0 {
        assert(bmp_row_bytes(width) == u);
    } else {
        assert((4 - m) % 4 == 4 - m) by {
            vstd::arithmetic::div_mod::lemma_small_mod((4 - m) as nat, 4);
        };
        vstd::arithmetic::div_mod::lemma_fundamental_div_mod(u, 4);
        let q = u / 4;
        assert(u + (4 - m) == 4 * q + 4);
        assert((4 * q + 4) % 4 == 0) by {
            vstd::arithmetic::div_mod::lemma_mod_multiples_basic(q + 1, 4);
            assert(4 * (q + 1) == 4 * q + 4) by (nonlinear_arith);
        };
    }
}

/// A pixel's first byte index leaves room for all three channels inside
/// its row, and the row lies inside the buffer.
proof fn lemma_bmp_pixel_in_range(width: int, height: int, x: int, y: int)
    requires
        0 <= x < width,
        0 <= y < height,
        width < 65536,
        height < 65536,
    ensures
        0 <= y * bmp_row_bytes(width) + 3 * x,
        y * bmp_row_bytes(width) + 3 * x + 2 < bmp_row_bytes(width) * height,
{
    lemma_bmp_row_bytes_bounds(width);
    let rb = bmp_row_bytes(width);
    assert(3 * x + 2 < rb) by (nonlinear_arith)
        requires
            x < width,
            rb >= 3 * width,
    ;
    assert(y * rb >= 0 && (y + 1) * rb <= height * rb && (y + 1) * rb == y * rb + rb)
        by (nonlinear_arith)
        requires
            0 <= y < height,
            rb >= 0,
    ;
    assert(height * rb == rb * height) by (nonlinear_arith);
}

/// The four little-endian bytes of the value `n`.
pub open spec fn u32_le(n: int) -> Seq<u8> {
    seq![
        (n % 256) as u8,
        ((n / 256) % 256) as u8,
        ((n / 65536) % 256) as u8,
        ((n / 16777216) % 256) as u8,
    ]
}

/// Append the four little-endian bytes of `n` to `out`.
pub fn push_u32_le(out: &mut Vec<u8>, n: u32)
    ensures
        final(out)@ == old(out)@ + u32_le(n as int),
{
    out.push((n % 256) as u8);
    out.push(((n / 256) % 256) as u8);
    out.push(((n / 65536) % 256) as u8);
    out.push(((n / 16777216) % 256) as u8);
    proof {
        assert(out@ =~= old(out)@ + u32_le(n as int));
    }
}

} // verus!
