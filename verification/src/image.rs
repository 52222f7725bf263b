//! A plain owned pixel buffer: the decoded form of textures and
//! lightmaps that the library hands to its rendering collaborator.

use vstd::prelude::*;

verus! {

/// An image of `width * height` pixels with `channels` bytes each, rows
/// stored top to bottom.
#[derive(Clone, PartialEq, Eq, Debug)]
pub struct Image {
    pub channels: usize,
    pub width: usize,
    pub height: usize,
    pub data: Vec<u8>,
}

impl Image {
    /// The pixel buffer holds exactly one `channels`-byte entry per pixel.
    pub open spec fn wf(self) -> bool {
        self.data@.len() == self.width * self.height * self.channels
    }

    /// An empty four-channel image, the placeholder the loaders use.
    pub fn new() -> (r: Self)
        ensures
            r.channels == 4,
            r.width == 0,
            r.height == 0,
            r.data@ == Seq::<u8>::empty(),
            r.wf(),
    {
        Image { channels: 4, width: 0, height: 0, data: Vec::new() }
    }

    /// The first byte of the pixel at `(x, y)`: any coordinates whose
    /// flattened index lands inside the buffer are answered.
    pub fn at(&self, x: usize, y: usize) -> (r: &u8)
        requires
            y * self.width + x <= usize::MAX,
            (y * self.width + x) * self.channels < self.data@.len(),
        ensures
            *r == self.data@[(y * self.width + x) * self.channels],
    {
        let n: usize = self.data.len();
        proof {
            let flat = y * self.width + x;
            assert(flat * self.channels < n);
            if self.channels >= 1 {
                assert(flat <= flat * self.channels) by (nonlinear_arith)
                    requires
                        0 <= flat,
                        1 <= self.channels,
                ;
            }
        }
        &self.data[(y * self.width + x) * self.channels]
    }
}

impl Default for Image {
    /// The same empty four-channel image `new` returns.
    fn default() -> (r: Self)
        ensures
            r.channels == 4,
            r.width == 0,
            r.height == 0,
            r.data@ == Seq::<u8>::empty(),
    {
        Image { channels: 4, width: 0, height: 0, data: Vec::new() }
    }
}

/// The flat index of a pixel's first byte stays inside the buffer.
pub proof fn lemma_pixel_index_in_bounds(w: int, h: int, c: int, x: int, y: int)
    requires
        0 <= x < w,
        0 <= y < h,
        0 < c,
    ensures
        0 <= (y * w + x) * c,
        (y * w + x) * c + c <= w * h * c,
        y * w + x <= (y * w + x) * c,
{
    assert(y * w + x <= (y * w + x) * c) by (nonlinear_arith)
        requires
            0 <= x < w,
            0 <= y < h,
            0 < c,
    ;
    assert((y * w + x) * c + c <= w * h * c) by (nonlinear_arith)
        requires
            0 <= x < w,
            0 <= y < h,
            0 < c,
    ;
    assert(0 <= (y * w + x) * c) by (nonlinear_arith)
        requires
            0 <= x < w,
            0 <= y < h,
            0 < c,
    ;
}

} // verus!
