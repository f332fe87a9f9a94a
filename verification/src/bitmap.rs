//! A single-channel 8-bit luminance bitmap, row-major and immutable after
//! creation.

use vstd::prelude::*;

verus! {

/// A width x height grid of 8-bit luminance samples, stored row-major.
pub struct Bitmap {
    pub width: u32,
    pub height: u32,
    pub pixels: Vec<u8>,
}

impl Bitmap {
    /// Well-formedness: the sample buffer holds exactly one byte per pixel.
    pub open spec fn wf(self) -> bool {
        self.pixels@.len() == self.width * self.height
    }

    /// The samples of row `y`, left to right.
    pub open spec fn row(self, y: int) -> Seq<u8> {
        self.pixels@.subrange(y * self.width, (y + 1) * self.width)
    }

    /// Builds a bitmap from raw samples; succeeds exactly when the buffer
    /// length matches the dimensions.
    pub fn new(width: u32, height: u32, pixels: Vec<u8>) -> (r: Option<Bitmap>)
        ensures
            r is Some <==> pixels@.len() == width * height,
            r matches Some(b) ==> b.wf() && b.width == width && b.height == height
                && b.pixels@ == pixels@,
    {
        proof {
            assert((width as int) * (height as int) < 0x1_0000_0000_0000_0000int)
                by (nonlinear_arith)
                requires
                    width < 0x1_0000_0000,
                    height < 0x1_0000_0000,
            ;
        }
        let expected: u64 = (width as u64) * (height as u64);
        if pixels.len() as u64 == expected {
            Some(Bitmap { width, height, pixels })
        } else {
            None
        }
    }

    /// The sample at column `x` of row `y`.
    pub fn get(&self, x: u32, y: u32) -> (r: u8)
        requires
            self.wf(),
            x < self.width,
            y < self.height,
        ensures
            r == self.row(y as int)[x as int],
    {
        proof {
            assert((y as int) * (self.width as int) + (x as int)
                < (self.height as int) * (self.width as int)) by (nonlinear_arith)
                requires
                    x < self.width,
                    y < self.height,
            ;
            assert((y as int) * (self.width as int) >= 0) by (nonlinear_arith)
                requires
                    y >= 0,
                    self.width >= 0,
            ;
            assert((y as int + 1) * (self.width as int)
                == (y as int) * (self.width as int) + self.width as int) by (nonlinear_arith);
            assert((y as int + 1) * (self.width as int)
                <= (self.height as int) * (self.width as int)) by (nonlinear_arith)
                requires
                    y < self.height,
                    self.width >= 0,
            ;
            vstd::arithmetic::mul::lemma_mul_is_commutative(
                self.height as int,
                self.width as int,
            );
            assert((y as int) * (self.width as int) + (x as int) < self.pixels@.len());
        }
        let n: usize = self.pixels.len();
        let idx: usize = (y as usize) * (self.width as usize) + (x as usize);
        self.pixels[idx]
    }
}

} // verus!
