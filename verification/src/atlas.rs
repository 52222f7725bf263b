//! The lightmap atlas: a skyline packer that places many small images
//! into one shared texture for the rendering collaborator.

use vstd::prelude::*;

verus! {

use crate::image::Image;
use vstd::pervasive::VecAdditionalExecFns;

/// Why an image could not be stored.
#[derive(Clone, Copy, PartialEq, Eq, Structural, Debug)]
pub enum AtlasError {
    /// The image's channel count differs from the atlas's.
    ChannelMismatch,
    /// No free region of the required size is left.
    Full,
}

/// A texture atlas: the packed image and, per column, the height up to
/// which it is already occupied.
pub struct TextureAtlas {
    pub allocated: Vec<usize>,
    pub m_image: Image,
}

/// Whether the region of width `lw` starting at column `px` can take
/// `lh` more rows everywhere.
pub open spec fn spec_spot_fits(
    allocated: Seq<usize>,
    height: int,
    lw: int,
    lh: int,
    px: int,
) -> bool {
    forall|k: int| px <= k < px + lw ==> #[trigger] allocated[k] + lh <= height
}

/// Whether any region of the given size still fits under the skyline.
pub open spec fn spec_has_spot(allocated: Seq<usize>, height: int, lw: int, lh: int) -> bool {
    exists|px: int|
        0 <= px && px + lw <= allocated.len() && #[trigger] spec_spot_fits(
            allocated,
            height,
            lw,
            lh,
            px,
        )
}

/// Whether some column of the window at `p` has reached `bound`.
pub open spec fn spec_window_reaches(allocated: Seq<usize>, lw: int, p: int, bound: int) -> bool {
    exists|k: int| p <= k < p + lw && #[trigger] allocated[k] >= bound
}

impl TextureAtlas {
    /// One occupancy entry per column, never above the image height.
    pub open spec fn wf(self) -> bool {
        &&& self.allocated@.len() == self.m_image.width
        &&& self.m_image.wf()
        &&& forall|i: int|
            0 <= i < self.allocated@.len() ==> #[trigger] self.allocated@[i]
                <= self.m_image.height
    }

    /// A fresh atlas of the given size, empty and fully unoccupied.
    pub fn new(width: usize, height: usize, channels: usize) -> (r: Self)
        requires
            0 < channels,
            width * height * channels <= usize::MAX,
        ensures
            r.wf(),
            r.m_image.width == width,
            r.m_image.height == height,
            r.m_image.channels == channels,
            forall|i: int| 0 <= i < width ==> #[trigger] r.allocated@[i] == 0,
    {
        let mut allocated: Vec<usize> = Vec::new();
        let mut i: usize = 0;
        while i < width
            invariant
                i <= width,
                allocated@.len() == i,
                forall|k: int| 0 <= k < i ==> #[trigger] allocated@[k] == 0,
            decreases width - i,
        {
            allocated.push(0);
            i = i + 1;
        }
        proof {
            assert(width * height <= width * height * channels) by (nonlinear_arith)
                requires
                    0 < channels,
                    0 <= width,
                    0 <= height,
            ;
        }
        let total: usize = width * height;
        proof {
            assert(width * height * channels == total * channels) by (nonlinear_arith)
                requires
                    total == width * height,
            ;
        }
        let size: usize = total * channels;
        let mut data: Vec<u8> = Vec::new();
        let mut j: usize = 0;
        while j < size
            invariant
                j <= size,
                data@.len() == j,
            decreases size - j,
        {
            data.push(0);
            j = j + 1;
        }
        TextureAtlas { allocated, m_image: Image { channels, width, height, data } }
    }

    /// Finds the lowest skyline spot that fits a region of the given
    /// size, and claims it: the columns under the region move up to
    /// its top edge.  Nothing changes — and nothing would have fit —
    /// when it answers nothing.
    pub fn alloc_lightmap(&mut self, lm_width: usize, lm_height: usize) -> (r: Option<
        (usize, usize),
    >)
        requires
            old(self).wf(),
            0 < lm_width,
            0 < lm_height,
        ensures
            final(self).wf(),
            final(self).m_image == old(self).m_image,
            final(self).allocated@.len() == old(self).allocated@.len(),
            r is None ==> final(self).allocated@ == old(self).allocated@,
            r is None ==> !spec_has_spot(
                old(self).allocated@,
                old(self).m_image.height as int,
                lm_width as int,
                lm_height as int,
            ),
            r is Some ==> {
                let (px, py) = r->Some_0;
                &&& px + lm_width <= old(self).m_image.width
                &&& py + lm_height <= old(self).m_image.height
                &&& spec_spot_fits(old(self).allocated@, old(self).m_image.height as int,
                    lm_width as int, lm_height as int, px as int)
                &&& forall|k: int|
                    px <= k < px + lm_width ==> #[trigger] final(self).allocated@[k] == py
                        + lm_height
                &&& forall|k: int|
                    0 <= k < final(self).allocated@.len() && !(px <= k < px + lm_width)
                        ==> #[trigger] final(self).allocated@[k] == old(self).allocated@[k]
                &&& forall|k: int|
                    px <= k < px + lm_width ==> #[trigger] old(self).allocated@[k] <= py
            },
    {
        let width: usize = self.m_image.width;
        let height: usize = self.m_image.height;
        if lm_width > width {
            proof {
                assert(!spec_has_spot(self.allocated@, height as int, lm_width as int,
                    lm_height as int));
            }
            return None;
        }
        let mut best: usize = height;
        let mut pos_x: usize = 0;
        let mut found: bool = false;
        let mut i: usize = 0;
        let limit: usize = width - lm_width;
        while i <= limit
            invariant
                self == old(self),
                self.wf(),
                width == self.m_image.width,
                height == self.m_image.height,
                0 < lm_width <= width,
                0 < lm_height,
                limit == width - lm_width,
                i <= limit + 1,
                best <= height,
                !found ==> best == height,
                found ==> pos_x + lm_width <= width,
                found ==> forall|k: int|
                    pos_x <= k < pos_x + lm_width ==> #[trigger] self.allocated@[k] <= best,
                forall|p: int|
                    0 <= p < i ==> #[trigger] spec_window_reaches(
                        self.allocated@,
                        lm_width as int,
                        p,
                        best as int,
                    ),
            decreases limit + 1 - i,
        {
            let ghost best_before = best as int;
            // The highest occupied column under a candidate spot is the
            // spot's floor; keep the lowest floor seen.
            let mut best2: usize = 0;
            let mut j: usize = 0;
            let mut blocked: bool = false;
            let ghost mut hit: int = i as int;
            while j < lm_width && !blocked
                invariant
                    self.wf(),
                    width == self.m_image.width,
                    i + lm_width <= width,
                    j <= lm_width,
                    best <= height,
                    j == 0 ==> best2 == 0,
                    j > 0 ==> best2 < best,
                    blocked ==> j < lm_width,
                    blocked ==> spec_window_reaches(self.allocated@, lm_width as int, i as int,
                        best as int),
                    best2 > 0 ==> i <= hit < i + j && self.allocated@[hit] == best2,
                    forall|k: int|
                        i <= k < i + j ==> #[trigger] self.allocated@[k] <= best2,
                decreases lm_width - j, (if blocked { 0int } else { 1int }),
            {
                let a = self.allocated[i + j];
                if a >= best {
                    blocked = true;
                    proof {
                        assert(spec_window_reaches(self.allocated@, lm_width as int, i as int,
                            best as int));
                    }
                } else {
                    if a > best2 {
                        best2 = a;
                        proof {
                            hit = i + j;
                        }
                    }
                    proof {
                        assert forall|k: int|
                            i <= k < i + j + 1 implies #[trigger] self.allocated@[k] <= best2 by {}
                    }
                    j = j + 1;
                }
            }
            proof {
                if j == lm_width {
                    // The whole window was scanned below the old floor;
                    // some column witnesses its own maximum.
                    if best2 > 0 {
                        assert(self.allocated@[hit] >= best2);
                        assert(spec_window_reaches(self.allocated@, lm_width as int, i as int,
                            best2 as int));
                    } else {
                        assert(self.allocated@[i as int] >= 0);
                        assert(spec_window_reaches(self.allocated@, lm_width as int, i as int,
                            best2 as int));
                    }
                } else {
                    // The scan broke on a column at or above the floor,
                    // witnessed at the break.
                    assert(spec_window_reaches(self.allocated@, lm_width as int, i as int,
                        best as int));
                }
            }
            if j == lm_width {
                pos_x = i;
                best = best2;
                found = true;
            }
            proof {
                assert forall|p: int|
                    0 <= p < i + 1 implies #[trigger] spec_window_reaches(
                    self.allocated@,
                    lm_width as int,
                    p,
                    best as int,
                ) by {
                    if p < i {
                        assert(spec_window_reaches(self.allocated@, lm_width as int, p,
                            best_before));
                        let k = choose|k: int|
                            p <= k < p + lm_width && #[trigger] self.allocated@[k]
                                >= best_before;
                        assert(self.allocated@[k] >= best);
                    }
                }
            }
            i = i + 1;
        }
        if !found || lm_height > height || best > height - lm_height {
            proof {
                assert forall|px: int|
                    0 <= px && px + lm_width <= self.allocated@.len() implies !spec_spot_fits(
                    self.allocated@,
                    height as int,
                    lm_width as int,
                    lm_height as int,
                    px,
                ) by {
                    assert(px <= limit);
                    assert(spec_window_reaches(self.allocated@, lm_width as int, px,
                        best as int));
                    let k = choose|k: int|
                        px <= k < px + lm_width && #[trigger] self.allocated@[k] >= best;
                    assert(self.allocated@[k] + lm_height > height);
                }
            }
            return None;
        }
        let top: usize = best + lm_height;
        let mut k: usize = 0;
        while k < lm_width
            invariant
                k <= lm_width,
                pos_x + lm_width <= width,
                width == self.m_image.width,
                height == self.m_image.height,
                top <= height,
                self.m_image == old(self).m_image,
                self.allocated@.len() == old(self).allocated@.len(),
                self.allocated@.len() == width,
                forall|q: int|
                    0 <= q < self.allocated@.len() ==> #[trigger] self.allocated@[q] <= height,
                forall|q: int|
                    pos_x <= q < pos_x + k ==> #[trigger] self.allocated@[q] == top,
                forall|q: int|
                    0 <= q < self.allocated@.len() && !(pos_x <= q < pos_x + k)
                        ==> #[trigger] self.allocated@[q] == old(self).allocated@[q],
                forall|q: int|
                    pos_x <= q < pos_x + lm_width ==> #[trigger] old(self).allocated@[q] <= best,
            decreases lm_width - k,
        {
            self.allocated.set(pos_x + k, top);
            k = k + 1;
        }
        Some((pos_x, best))
    }

    /// Stores an image into the atlas and hands back the corner it was
    /// placed at: every row of the image lands inside the claimed
    /// region.  Fails exactly on a channel mismatch, or when no free
    /// region of the image's size is left.
    pub fn store(&mut self, image: &Image) -> (r: Result<(usize, usize), AtlasError>)
        requires
            old(self).wf(),
            image.wf(),
            0 < image.width,
            0 < image.height,
            0 < image.channels,
        ensures
            final(self).wf(),
            final(self).m_image.width == old(self).m_image.width,
            final(self).m_image.height == old(self).m_image.height,
            final(self).m_image.channels == old(self).m_image.channels,
            r == Err::<(usize, usize), AtlasError>(AtlasError::ChannelMismatch) <==> image.channels
                != old(self).m_image.channels,
            image.channels == old(self).m_image.channels ==> (r == Err::<
                (usize, usize),
                AtlasError,
            >(AtlasError::Full) <==> !spec_has_spot(
                old(self).allocated@,
                old(self).m_image.height as int,
                image.width as int,
                image.height as int,
            )),
            r is Err ==> final(self).m_image == old(self).m_image && final(self).allocated@
                == old(self).allocated@,
            r is Ok ==> {
                let (px, py) = r->Ok_0;
                &&& px + image.width <= old(self).m_image.width
                &&& py + image.height <= old(self).m_image.height
                &&& forall|k: int|
                    px <= k < px + image.width ==> #[trigger] final(self).allocated@[k] == py
                        + image.height
                &&& forall|k: int|
                    0 <= k < final(self).allocated@.len() && !(px <= k < px + image.width)
                        ==> #[trigger] final(self).allocated@[k] == old(self).allocated@[k]
                &&& forall|y2: int, i2: int|
                    #![trigger final(self).m_image.data@[((py + y2) * old(self).m_image.width + px) * image.channels + i2]]
                    0 <= y2 < image.height && 0 <= i2 < image.width * image.channels
                        ==> final(self).m_image.data@[((py + y2) * old(self).m_image.width + px)
                        * image.channels + i2] == image.data@[(y2 * image.width) * image.channels
                        + i2]
            },
    {
        if image.channels != self.m_image.channels {
            return Err(AtlasError::ChannelMismatch);
        }
        let coord = match self.alloc_lightmap(image.width, image.height) {
            Some(c) => c,
            None => {
                return Err(AtlasError::Full);
            },
        };
        let (px, py) = coord;
        let c: usize = self.m_image.channels;
        let aw: usize = self.m_image.width;
        let src_len: usize = image.data.len();
        let dst_len: usize = self.m_image.data.len();
        let ghost allocated_after = self.allocated@;
        let mut y: usize = 0;
        while y < image.height
            invariant
                y <= image.height,
                image.wf(),
                self.wf(),
                0 < image.width,
                0 < c,
                c == self.m_image.channels,
                c == image.channels,
                aw == self.m_image.width,
                self.m_image.width == old(self).m_image.width,
                self.m_image.height == old(self).m_image.height,
                self.m_image.channels == old(self).m_image.channels,
                self.allocated@ == allocated_after,
                px + image.width <= self.m_image.width,
                py + image.height <= self.m_image.height,
                src_len == image.data@.len(),
                dst_len == self.m_image.data@.len(),
                forall|y2: int, i2: int|
                    #![trigger self.m_image.data@[((py + y2) * aw + px) * c + i2]]
                    0 <= y2 < y && 0 <= i2 < image.width * c ==> self.m_image.data@[((py + y2)
                        * aw + px) * c + i2] == image.data@[(y2 * image.width) * c + i2],
            decreases image.height - y,
        {
            proof {
                lemma_row_fits(image.width as int, image.height as int, c as int, y as int);
                lemma_dst_row_fits(
                    aw as int,
                    self.m_image.height as int,
                    c as int,
                    px as int,
                    (py + y) as int,
                    image.width as int,
                );
            }
            let row_len: usize = image.width * c;
            let src: usize = (y * image.width) * c;
            let dst: usize = ((py + y) * aw + px) * c;
            let mut i: usize = 0;
            while i < row_len
                invariant
                    i <= row_len,
                    image.wf(),
                    self.wf(),
                    0 < image.width,
                    0 < c,
                    c == self.m_image.channels,
                    c == image.channels,
                    aw == self.m_image.width,
                    self.m_image.width == old(self).m_image.width,
                    self.m_image.height == old(self).m_image.height,
                    self.m_image.channels == old(self).m_image.channels,
                    self.allocated@ == allocated_after,
                    0 <= py,
                    0 <= px,
                    px + image.width <= self.m_image.width,
                    py + image.height <= self.m_image.height,
                    y < image.height,
                    row_len == image.width * c,
                    src == (y * image.width) * c,
                    dst == ((py + y) * aw + px) * c,
                    src_len == image.data@.len(),
                    dst_len == self.m_image.data@.len(),
                    src + row_len <= image.data@.len(),
                    dst + row_len <= self.m_image.data@.len(),
                    forall|y2: int, i2: int|
                        #![trigger self.m_image.data@[((py + y2) * aw + px) * c + i2]]
                        0 <= y2 < y && 0 <= i2 < image.width * c ==> self.m_image.data@[((py + y2)
                            * aw + px) * c + i2] == image.data@[(y2 * image.width) * c + i2],
                    forall|i2: int|
                        0 <= i2 < i ==> #[trigger] self.m_image.data@[dst + i2]
                            == image.data@[src + i2],
                decreases row_len - i,
            {
                let ghost dest_before = self.m_image.data@;
                let b = image.data[src + i];
                self.m_image.data.set(dst + i, b);
                proof {
                    assert forall|y2: int, i2: int|
                        #![trigger self.m_image.data@[((py + y2) * aw + px) * c + i2]]
                        0 <= y2 < y && 0 <= i2 < image.width * c implies self.m_image.data@[((py
                        + y2) * aw + px) * c + i2] == image.data@[(y2 * image.width) * c + i2] by {
                        lemma_rows_disjoint(
                            aw as int,
                            c as int,
                            px as int,
                            py as int,
                            image.width as int,
                            y2,
                            y as int,
                        );
                        assert(((py + y2) * aw + px) * c + i2 < dst);
                        assert(self.m_image.data@[((py + y2) * aw + px) * c + i2]
                            == dest_before[((py + y2) * aw + px) * c + i2]);
                    }
                }
                i = i + 1;
            }
            proof {
                assert forall|y2: int, i2: int|
                    #![trigger self.m_image.data@[((py + y2) * aw + px) * c + i2]]
                    0 <= y2 < y + 1 && 0 <= i2 < image.width * c implies self.m_image.data@[((py
                    + y2) * aw + px) * c + i2] == image.data@[(y2 * image.width) * c + i2] by {
                    if y2 == y {
                        assert(self.m_image.data@[dst + i2] == image.data@[src + i2]);
                    }
                }
            }
            y = y + 1;
        }
        Ok((px, py))
    }
}

/// Two stored rows never overlap in the atlas buffer.
proof fn lemma_rows_disjoint(aw: int, c: int, px: int, py: int, iw: int, y2: int, y: int)
    requires
        0 < c,
        0 <= px,
        0 <= py,
        0 < iw,
        px + iw <= aw,
        0 <= y2 < y,
    ensures
        ((py + y2) * aw + px) * c + iw * c <= ((py + y) * aw + px) * c,
{
    assert(((py + y2) * aw + px) * c + iw * c <= ((py + y) * aw + px) * c) by (nonlinear_arith)
        requires
            0 < c,
            0 <= px,
            0 <= py,
            0 < iw,
            px + iw <= aw,
            0 <= y2 < y,
    ;
}

/// A whole source row lies inside the source image buffer./// A whole source row lies inside the source image buffer.
proof fn lemma_row_fits(w: int, h: int, c: int, y: int)
    requires
        0 < w,
        0 <= y < h,
        0 < c,
    ensures
        (y * w) * c + w * c <= w * h * c,
        y * w <= (y * w) * c,
        0 <= (y * w) * c,
{
    assert((y * w) * c + w * c <= w * h * c && y * w <= (y * w) * c && 0 <= (y * w) * c)
        by (nonlinear_arith)
        requires
            0 < w,
            0 <= y < h,
            0 < c,
    ;
}

/// A whole destination row lies inside the atlas buffer.
proof fn lemma_dst_row_fits(aw: int, ah: int, c: int, px: int, row: int, w: int)
    requires
        0 < c,
        0 <= px,
        0 <= row < ah,
        px + w <= aw,
        0 < w,
    ensures
        (row * aw + px) * c + w * c <= aw * ah * c,
        row * aw + px <= (row * aw + px) * c,
        0 <= (row * aw + px) * c,
{
    assert((row * aw + px) * c + w * c <= aw * ah * c && row * aw + px <= (row * aw + px) * c
        && 0 <= (row * aw + px) * c) by (nonlinear_arith)
        requires
            0 < c,
            0 <= px,
            0 <= row < ah,
            px + w <= aw,
            0 < w,
    ;
}

} // verus!
