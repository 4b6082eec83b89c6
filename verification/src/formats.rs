//! The interface shared by the renderable raster formats.
//!
//! Both file formats hold a pixel buffer with a well-formedness invariant,
//! accept pixel writes inside their bounds, and encode themselves to the
//! bytes of a complete file; each implementation pins those bytes down
//! exactly through its `file_bytes` interpretation.

use vstd::prelude::*;
use crate::bitmap::{bmp_file_bytes, bmp_row_bytes, BitmapImage};
use crate::color::Color;
use crate::pixmap::{pixmap_bytes, PixmapImage};

verus! {

/// An interface representing some renderable image.
pub trait Image: Sized {
    /// The raster's width in pixels.
    spec fn width_spec(&self) -> int;

    /// The raster's height in pixels.
    spec fn height_spec(&self) -> int;

    /// The raster's internal invariant.
    spec fn inv(&self) -> bool;

    /// When a blank raster of the given size is representable (a machine
    /// limit, not a format rule).
    spec fn blank_req(width: u16, height: u16) -> bool;

    /// The bytes of the complete file this raster encodes to.
    spec fn file_bytes(&self) -> Seq<u8>;

    /// Create a blank image of the specified size.
    fn blank(width: u16, height: u16) -> (r: Self)
        requires
            Self::blank_req(width, height),
        ensures
            r.inv(),
            r.width_spec() == width,
            r.height_spec() == height,
    ;

    /// Set the pixel at the specified location to the desired color.
    fn set_pixel(&mut self, x: u16, y: u16, color: Color)
        requires
            old(self).inv(),
            x < old(self).width_spec(),
            y < old(self).height_spec(),
        ensures
            final(self).inv(),
            final(self).width_spec() == old(self).width_spec(),
            final(self).height_spec() == old(self).height_spec(),
    ;

    /// Encode the image as the bytes of a complete file.
    fn to_file_bytes(&self) -> (r: Vec<u8>)
        requires
            self.inv(),
        ensures
            r@ == self.file_bytes(),
    ;
}

impl Image for BitmapImage {
    open spec fn width_spec(&self) -> int {
        self.width as int
    }

    open spec fn height_spec(&self) -> int {
        self.height as int
    }

    open spec fn inv(&self) -> bool {
        crate::bitmap::bmp_wf(*self) && self.pixel_data@.len() + 26 <= u32::MAX
    }

    open spec fn blank_req(width: u16, height: u16) -> bool {
        bmp_row_bytes(width as int) * height + 26 <= u32::MAX
    }

    open spec fn file_bytes(&self) -> Seq<u8> {
        bmp_file_bytes(*self)
    }

    fn blank(width: u16, height: u16) -> (r: Self) {
        proof {
            crate::bitmap::lemma_bmp_row_bytes_bounds(width as int);
            assert(bmp_row_bytes(width as int) * height >= 0) by (nonlinear_arith)
                requires
                    bmp_row_bytes(width as int) >= 0,
                    height >= 0,
            ;
        }
        BitmapImage::blank(width, height)
    }

    fn set_pixel(&mut self, x: u16, y: u16, color: Color) {
        BitmapImage::set_pixel(self, x, y, color);
    }

    fn to_file_bytes(&self) -> (r: Vec<u8>) {
        self.to_bytes()
    }
}

impl Image for PixmapImage {
    open spec fn width_spec(&self) -> int {
        self.width as int
    }

    open spec fn height_spec(&self) -> int {
        self.height as int
    }

    open spec fn inv(&self) -> bool {
        crate::pixmap::pixmap_wf(*self)
    }

    open spec fn blank_req(width: u16, height: u16) -> bool {
        width * height * 3 <= usize::MAX
    }

    open spec fn file_bytes(&self) -> Seq<u8> {
        pixmap_bytes(self.width as nat, self.height as nat, self.pixel_data@)
    }

    fn blank(width: u16, height: u16) -> (r: Self) {
        PixmapImage::blank(width, height)
    }

    fn set_pixel(&mut self, x: u16, y: u16, color: Color) {
        PixmapImage::set_pixel(self, x, y, color);
    }

    fn to_file_bytes(&self) -> (r: Vec<u8>) {
        self.to_bytes()
    }
}

} // verus!
