//! The WAD texture archive: a directory-indexed container from which
//! named mip-textures are fetched on demand, and the palette decode that
//! turns their raw bytes into RGBA images.
//!
//! The archive is held as an in-memory byte buffer; opening the file and
//! reading it belong to the caller.

use vstd::prelude::*;

verus! {

use crate::codec::{le_u16, le_u32, le_i16, le_i32, read_u8, read_u16, read_u32, read_i16,
    read_i32};
use crate::bsp30::{MipTex, spec_char_array_at, read_char_array, is_normalized_name};
use crate::entity::{spec_find_byte, find_byte, copy_range};
use crate::image::Image;
use vstd::pervasive::VecAdditionalExecFns;

/// The archive header: a four-byte magic, the number of directory
/// entries, and where the directory starts.
#[derive(Clone, Copy, PartialEq, Eq, Debug)]
pub struct WadHeader {
    pub magic: (u8, u8, u8, u8),
    pub n_dir: i32,
    pub dir_offset: i32,
}

impl WadHeader {
    pub fn decode_at(data: &Vec<u8>, off: usize) -> (r: Self)
        requires
            off + 12 <= data@.len(),
        ensures
            r.magic == (data@[off as int], data@[off as int + 1], data@[off as int + 2],
                data@[off as int + 3]),
            r.n_dir == le_i32(data@, off as int + 4),
            r.dir_offset == le_i32(data@, off as int + 8),
    {
        let n: usize = data.len();
        assert(off + 12 <= n);
        let magic = (
            read_u8(data, off),
            read_u8(data, off + 1),
            read_u8(data, off + 2),
            read_u8(data, off + 3),
        );
        let n_dir = read_i32(data, off + 4);
        let dir_offset = read_i32(data, off + 8);
        WadHeader { magic, n_dir, dir_offset }
    }
}

/// One directory entry: where a texture's bytes sit in the archive, how
/// large they are, a type tag, a compression flag and the fixed-width
/// texture name.
#[derive(Clone, PartialEq, Eq, Debug)]
pub struct WadDirEntry {
    pub n_file_pos: i32,
    pub n_disk_size: i32,
    pub n_size: u32,
    pub entry_type: u8,
    pub compressed: bool,
    pub n_dummy: i16,
    pub name: Vec<u8>,
}

/// Wire size of one directory entry.
pub const WAD_DIR_ENTRY_SIZE: usize = 32;

impl WadDirEntry {
    pub open spec fn wf(self) -> bool {
        self.name@.len() == 16 && is_normalized_name(self.name@)
    }

    pub fn decode_at(data: &Vec<u8>, off: usize) -> (r: Self)
        requires
            off + 32 <= data@.len(),
        ensures
            r.n_file_pos == le_i32(data@, off as int),
            r.n_disk_size == le_i32(data@, off as int + 4),
            r.n_size == le_u32(data@, off as int + 8),
            r.entry_type == data@[off as int + 12],
            r.compressed == (data@[off as int + 13] == 1),
            r.n_dummy == le_i16(data@, off as int + 14),
            r.name@ == spec_char_array_at(data@, off as int + 16, 16),
            r.wf(),
    {
        let n: usize = data.len();
        assert(off + 32 <= n);
        let n_file_pos = read_i32(data, off);
        let n_disk_size = read_i32(data, off + 4);
        let n_size = read_u32(data, off + 8);
        let entry_type = read_u8(data, off + 12);
        let compressed = read_u8(data, off + 13) == 1;
        let n_dummy = read_i16(data, off + 14);
        let name = read_char_array(data, off + 16, 16);
        WadDirEntry { n_file_pos, n_disk_size, n_size, entry_type, compressed, n_dummy, name }
    }
}

/// A decoded texture at its four mip levels (full size, then halved in
/// each dimension three times).
pub struct MipmapTexture {
    pub img: Vec<Image>,
}

/// The empty placeholder texture a failed slot keeps: four default
/// images with no pixels.
pub open spec fn spec_placeholder_tex(t: MipmapTexture) -> bool {
    &&& t.wf_shape()
    &&& forall|l: int|
        0 <= l < 4 ==> (#[trigger] t.img@[l]).width == 0 && t.img@[l].height == 0
            && t.img@[l].channels == 4 && t.img@[l].data@ == Seq::<u8>::empty()
}

impl MipmapTexture {
    /// A texture always carries one image per mip level.
    pub open spec fn wf_shape(self) -> bool {
        self.img@.len() == 4
    }

    /// Four empty placeholder images.
    pub fn new() -> (r: MipmapTexture)
        ensures
            r.wf_shape(),
            spec_placeholder_tex(r),
            forall|i: int|
                0 <= i < 4 ==> (#[trigger] r.img@[i]).width == 0 && r.img@[i].height == 0
                    && r.img@[i].channels == 4 && r.img@[i].data@ == Seq::<u8>::empty(),
    {
        let mut img: Vec<Image> = Vec::new();
        img.push(Image::new());
        img.push(Image::new());
        img.push(Image::new());
        img.push(Image::new());
        MipmapTexture { img }
    }
}

/// The uppercase image of an ASCII letter; any other byte is unchanged.
pub open spec fn spec_upper_byte(b: u8) -> u8 {
    if 97 <= b <= 122 {
        (b - 32) as u8
    } else {
        b
    }
}

/// The bytes of `s` with ASCII letters uppercased.
pub open spec fn spec_upper(s: Seq<u8>) -> Seq<u8> {
    Seq::new(s.len(), |i: int| spec_upper_byte(s[i]))
}

/// The bytes of a fixed-width name up to its first zero byte.
pub open spec fn spec_trim_name(name: Seq<u8>) -> Seq<u8> {
    let z = spec_find_byte(name, 0, 0);
    if z == -1 {
        name
    } else {
        name.subrange(0, z)
    }
}

/// The last directory entry whose trimmed, uppercased name equals
/// `key`: the directory is indexed by uppercase name, and a later entry
/// with the same name shadows an earlier one, as insertion into a
/// name-keyed map would.
pub open spec fn spec_find_entry(entries: Seq<WadDirEntry>, key: Seq<u8>) -> Option<WadDirEntry>
    decreases entries.len(),
{
    if entries.len() == 0 {
        None
    } else if spec_upper(spec_trim_name(entries.last().name@)) == key {
        Some(entries.last())
    } else {
        spec_find_entry(entries.drop_last(), key)
    }
}

/// ASCII-uppercases the bytes of `name`.
pub fn to_upper(name: &Vec<u8>) -> (r: Vec<u8>)
    ensures
        r@ == spec_upper(name@),
{
    let n: usize = name.len();
    let mut r: Vec<u8> = Vec::new();
    let mut i: usize = 0;
    while i < n
        invariant
            i <= n,
            n == name@.len(),
            r@.len() == i,
            forall|k: int| 0 <= k < i ==> r@[k] == spec_upper_byte(name@[k]),
        decreases n - i,
    {
        let b = name[i];
        if 97 <= b && b <= 122 {
            r.push(b - 32);
        } else {
            r.push(b);
        }
        i = i + 1;
    }
    proof {
        assert(r@ =~= spec_upper(name@));
    }
    r
}

/// The prefix of `name` before its first zero byte.
pub fn trim_name(name: &Vec<u8>) -> (r: Vec<u8>)
    ensures
        r@ == spec_trim_name(name@),
{
    match find_byte(name, 0, 0) {
        Some(z) => copy_range(name, 0, z),
        None => {
            proof {
                assert(name@.subrange(0, name@.len() as int) =~= name@);
            }
            copy_range(name, 0, name.len())
        },
    }
}

/// Why an archive could not be opened.
#[derive(Clone, Copy, PartialEq, Eq, Structural, Debug)]
pub enum WadError {
    /// The buffer cannot hold the fixed header.
    TooShort,
    /// The magic bytes name neither supported archive format.
    BadMagic,
    /// The directory the header declares lies outside the buffer.
    DirOutOfBounds,
}

/// Whether the archive header and directory declared by `data` are
/// well-formed: a supported magic and a directory inside the buffer.
pub open spec fn spec_wad_valid(data: Seq<u8>) -> bool {
    &&& data.len() >= 12
    &&& data[0] == 87 && data[1] == 65 && data[2] == 68 && (data[3] == 50 || data[3] == 51)
    &&& 0 <= le_i32(data, 4)
    &&& 0 <= le_i32(data, 8)
    &&& le_i32(data, 8) + 32 * le_i32(data, 4) <= data.len()
}

/// An opened texture archive: its raw bytes and the decoded directory.
pub struct Wad {
    pub data: Vec<u8>,
    pub dir_entries: Vec<WadDirEntry>,
}

impl Wad {
    /// The directory holds exactly the declared entries, each decoded at
    /// its slot.
    pub open spec fn wf(self) -> bool {
        &&& spec_wad_valid(self.data@)
        &&& self.dir_entries@.len() == le_i32(self.data@, 4)
        &&& forall|i: int|
            0 <= i < self.dir_entries@.len() ==> (#[trigger] self.dir_entries@[i]).wf()
    }

    /// Opens an archive held in memory: checks the magic (`WAD2` or
    /// `WAD3`) and reads the directory.  Fails exactly when the header
    /// or the directory is broken; such an archive is unusable as a
    /// whole.
    pub fn from_bytes(data: Vec<u8>) -> (r: Result<Wad, WadError>)
        ensures
            r is Ok <==> spec_wad_valid(data@),
            r is Ok ==> {
                let w = r->Ok_0;
                &&& w.data@ == data@
                &&& w.wf()
                &&& forall|i: int|
                    0 <= i < w.dir_entries@.len() ==> {
                        let off = le_i32(data@, 8) + 32 * i;
                        let e = #[trigger] w.dir_entries@[i];
                        &&& e.n_file_pos == le_i32(data@, off)
                        &&& e.n_size == le_u32(data@, off + 8)
                        &&& e.compressed == (data@[off + 13] == 1)
                        &&& e.name@ == spec_char_array_at(data@, off + 16, 16)
                    }
            },
            r is Err ==> {
                let e = r->Err_0;
                &&& (e == WadError::TooShort <==> data@.len() < 12)
                &&& e == WadError::BadMagic ==> data@.len() >= 12
            },
    {
        let len: usize = data.len();
        if len < 12 {
            return Err(WadError::TooShort);
        }
        let header = WadHeader::decode_at(&data, 0);
        let ok_magic = header.magic.0 == 87 && header.magic.1 == 65 && header.magic.2 == 68 && (
        header.magic.3 == 50 || header.magic.3 == 51);
        if !ok_magic {
            return Err(WadError::BadMagic);
        }
        if header.n_dir < 0 || header.dir_offset < 0 {
            return Err(WadError::DirOutOfBounds);
        }
        let n_dir: usize = header.n_dir as usize;
        let dir_offset: usize = header.dir_offset as usize;
        if n_dir > (usize::MAX - dir_offset) / 32 || dir_offset + n_dir * 32 > len {
            assert(!spec_wad_valid(data@)) by {
                if le_i32(data@, 8) + 32 * le_i32(data@, 4) <= data@.len() {
                    assert(dir_offset + 32 * n_dir <= data@.len());
                    assert(n_dir * 32 <= usize::MAX - dir_offset) by (nonlinear_arith)
                        requires
                            dir_offset + 32 * n_dir <= data@.len(),
                            data@.len() <= usize::MAX,
                    ;
                    assert(n_dir <= (usize::MAX - dir_offset) / 32);
                }
            }
            return Err(WadError::DirOutOfBounds);
        }
        let mut dir_entries: Vec<WadDirEntry> = Vec::new();
        let mut i: usize = 0;
        while i < n_dir
            invariant
                i <= n_dir,
                len == data@.len(),
                dir_offset + n_dir * 32 <= len,
                dir_entries@.len() == i,
                forall|k: int|
                    0 <= k < i ==> {
                        let off = dir_offset + 32 * k;
                        let e = #[trigger] dir_entries@[k];
                        &&& e.wf()
                        &&& e.n_file_pos == le_i32(data@, off)
                        &&& e.n_size == le_u32(data@, off + 8)
                        &&& e.compressed == (data@[off + 13] == 1)
                        &&& e.name@ == spec_char_array_at(data@, off + 16, 16)
                    },
            decreases n_dir - i,
        {
            assert(32 * i + 32 <= 32 * n_dir) by (nonlinear_arith)
                requires
                    i < n_dir,
            ;
            let e = WadDirEntry::decode_at(&data, dir_offset + i * 32);
            dir_entries.push(e);
            i = i + 1;
        }
        Ok(Wad { data, dir_entries })
    }

    /// Whether a directory entry's declared byte range lies inside the
    /// archive.
    pub open spec fn spec_entry_in_bounds(e: WadDirEntry, data: Seq<u8>) -> bool {
        0 <= e.n_file_pos && e.n_file_pos + e.n_size <= data.len()
    }

    /// The raw texture bytes the lookup of `name` yields: empty on a
    /// miss, and also on a compressed or out-of-range entry, both of
    /// which this reader declines to touch.
    pub open spec fn spec_get_texture(self, name: Seq<u8>) -> Seq<u8> {
        match spec_find_entry(self.dir_entries@, spec_upper(name)) {
            None => Seq::empty(),
            Some(e) => if e.compressed || !Self::spec_entry_in_bounds(e, self.data@) {
                Seq::empty()
            } else {
                self.data@.subrange(e.n_file_pos as int, e.n_file_pos + e.n_size)
            },
        }
    }

    /// Looks a texture's bytes up by name, case-insensitively: both the
    /// query and the stored trimmed names are uppercased before they are
    /// compared, so the case of neither side matters.
    pub fn get_texture(&self, name: &Vec<u8>) -> (r: Vec<u8>)
        ensures
            r@ == self.spec_get_texture(name@),
    {
        let key = to_upper(name);
        let mut i: usize = self.dir_entries.len();
        proof {
            assert(self.dir_entries@.take(i as int) =~= self.dir_entries@);
        }
        while i > 0
            invariant
                i <= self.dir_entries@.len(),
                key@ == spec_upper(name@),
                spec_find_entry(self.dir_entries@, key@) == spec_find_entry(
                    self.dir_entries@.take(i as int),
                    key@,
                ),
            decreases i,
        {
            i = i - 1;
            proof {
                assert(self.dir_entries@.take(i + 1).last() == self.dir_entries@[i as int]);
                assert(self.dir_entries@.take(i + 1).drop_last() =~= self.dir_entries@.take(
                    i as int,
                ));
            }
            let trimmed = trim_name(&self.dir_entries[i].name);
            let stored_key = to_upper(&trimmed);
            if crate::entity::bytes_eq(&stored_key, &key) {
                let e = &self.dir_entries[i];
                if e.compressed {
                    return Vec::new();
                }
                if e.n_file_pos < 0 {
                    return Vec::new();
                }
                let pos: usize = e.n_file_pos as usize;
                let len: usize = self.data.len();
                if pos > len || e.n_size as u64 > (len - pos) as u64 {
                    proof {
                        assert(!Self::spec_entry_in_bounds(self.dir_entries@[i as int],
                            self.data@));
                    }
                    return Vec::new();
                }
                let size: usize = e.n_size as usize;
                return copy_range(&self.data, pos, pos + size);
            }
        }
        proof {
            assert(self.dir_entries@.take(0) =~= Seq::<WadDirEntry>::empty());
        }
        Vec::new()
    }
}


/// Whether the pixel at `idx` of an RGBA buffer is the transparency
/// key: exactly pure blue.
pub open spec fn spec_is_key(data: Seq<u8>, idx: int) -> bool {
    data[4 * idx] == 0 && data[4 * idx + 1] == 0 && data[4 * idx + 2] == 255
}

/// The diagonal weight of one neighbour byte: multiplied by the
/// single-precision square root of two and truncated.
pub open spec fn spec_diag_scale(v: u8) -> int {
    (v * 11863283) / 8388608
}

/// One neighbour's contribution to a key texel's average, judged on
/// the image as it stood before the pass: how many texels it adds
/// (one or none) and its red, green and blue values, a diagonal
/// neighbour's bytes weighted by the square root of two first.  A
/// neighbour outside the image, or itself a key texel, adds nothing.
pub open spec fn spec_nb(data: Seq<u8>, w: int, h: int, nx: int, ny: int, diag: bool) -> (
    int,
    int,
    int,
    int,
) {
    if 0 <= nx < w && 0 <= ny < h && !spec_is_key(data, ny * w + nx) {
        if diag {
            (
                1int,
                spec_diag_scale(data[4 * (ny * w + nx)]),
                spec_diag_scale(data[4 * (ny * w + nx) + 1]),
                spec_diag_scale(data[4 * (ny * w + nx) + 2]),
            )
        } else {
            (
                1int,
                data[4 * (ny * w + nx)] as int,
                data[4 * (ny * w + nx) + 1] as int,
                data[4 * (ny * w + nx) + 2] as int,
            )
        }
    } else {
        (0int, 0int, 0int, 0int)
    }
}

/// The joint contribution of the eight neighbours around `(x, y)`.
#[verifier::opaque]
pub open spec fn spec_neighbour_sums(data: Seq<u8>, w: int, h: int, x: int, y: int) -> (
    int,
    int,
    int,
    int,
) {
    let t1 = spec_nb(data, w, h, x - 1, y - 1, true);
    let t2 = spec_nb(data, w, h, x, y - 1, false);
    let t3 = spec_nb(data, w, h, x + 1, y - 1, true);
    let t4 = spec_nb(data, w, h, x - 1, y, false);
    let t5 = spec_nb(data, w, h, x + 1, y, false);
    let t6 = spec_nb(data, w, h, x - 1, y + 1, true);
    let t7 = spec_nb(data, w, h, x, y + 1, false);
    let t8 = spec_nb(data, w, h, x + 1, y + 1, true);
    (
        t1.0 + t2.0 + t3.0 + t4.0 + t5.0 + t6.0 + t7.0 + t8.0,
        t1.1 + t2.1 + t3.1 + t4.1 + t5.1 + t6.1 + t7.1 + t8.1,
        t1.2 + t2.2 + t3.2 + t4.2 + t5.2 + t6.2 + t7.2 + t8.2,
        t1.3 + t2.3 + t3.3 + t4.3 + t5.3 + t6.3 + t7.3 + t8.3,
    )
}

/// The four bytes a key texel at `(x, y)` ends the pass with: the
/// count-normalised truncating average of its non-key neighbours with
/// alpha zero — unless no neighbour contributes, or the average is
/// itself the pure-blue key, in which case only the texel's blue and
/// alpha are cleared, leaving all four bytes zero.
pub open spec fn spec_key_final(data: Seq<u8>, w: int, h: int, x: int, y: int) -> (
    u8,
    u8,
    u8,
    u8,
) {
    let s = spec_neighbour_sums(data, w, h, x, y);
    if s.0 > 0 {
        let ar = ((s.1 / s.0) % 256) as u8;
        let ag = ((s.2 / s.0) % 256) as u8;
        let ab = ((s.3 / s.0) % 256) as u8;
        if ar == 0 && ag == 0 && ab == 255 {
            (0u8, 0u8, 0u8, 0u8)
        } else {
            (ar, ag, ab, 0u8)
        }
    } else {
        (0u8, 0u8, 0u8, 0u8)
    }
}

/// The byte the replacement buffer holds for a key texel `j` at channel
/// `c` after the scan: the averaged channel when any neighbour
/// contributed, else the sentinel byte.
pub open spec fn spec_rgb_slot(snap: Seq<u8>, w: int, h: int, j: int, c: int) -> u8 {
    let s = spec_neighbour_sums(snap, w, h, j % w, j / w);
    if s.0 > 0 {
        (((if c == 0 {
            s.1
        } else if c == 1 {
            s.2
        } else {
            s.3
        }) / s.0) % 256) as u8
    } else {
        spec_sentinel_byte(c)
    }
}

/// Multiplies by the single-precision square root of two and truncates,
/// in exact integer arithmetic: the weight diagonal neighbours carry in
/// the alpha-key average.
pub fn sqrt2_scale(v: u8) -> (r: usize)
    ensures
        r == spec_diag_scale(v),
        r <= 361,
{
    let p: u64 = (v as u64) * 11863283;
    proof {
        vstd::bits::lemma_u64_shr_is_div(p, 23);
        vstd::arithmetic::power2::lemma2_to64();
        assert(spec_diag_scale(v) <= 361) by (nonlinear_arith)
            requires
                v <= 255,
        ;
        assert(spec_diag_scale(v) >= 0) by (nonlinear_arith)
            requires
                0 <= v,
        ;
    }
    (p >> 23) as usize
}

/// Each channel of one neighbour contribution is at most the largest
/// weighted byte, and a contribution adds at most one texel.
pub proof fn lemma_nb_bounds(data: Seq<u8>, w: int, h: int, nx: int, ny: int, diag: bool)
    ensures
        0 <= spec_nb(data, w, h, nx, ny, diag).0 <= 1,
        0 <= spec_nb(data, w, h, nx, ny, diag).1 <= 361,
        0 <= spec_nb(data, w, h, nx, ny, diag).2 <= 361,
        0 <= spec_nb(data, w, h, nx, ny, diag).3 <= 361,
{
    if 0 <= nx < w && 0 <= ny < h && !spec_is_key(data, ny * w + nx) && diag {
        assert forall|v: u8| 0 <= #[trigger] spec_diag_scale(v) <= 361 by {
            assert(0 <= spec_diag_scale(v) <= 361) by (nonlinear_arith)
                requires
                    0 <= v <= 255,
            ;
        }
    }
}

/// The first bytes of the pixel at `(x, y)` of a four-channel buffer.
fn pixel_rgb(data: &Vec<u8>, w: usize, h: usize, x: usize, y: usize) -> (r: (u8, u8, u8))
    requires
        data@.len() == 4 * (w * h),
        x < w,
        y < h,
    ensures
        r.0 == data@[4 * (y * w + x)],
        r.1 == data@[4 * (y * w + x) + 1],
        r.2 == data@[4 * (y * w + x) + 2],
{
    proof {
        crate::image::lemma_pixel_index_in_bounds(w as int, h as int, 4, x as int, y as int);
    }
    let n: usize = data.len();
    let i: usize = (y * w + x) * 4;
    proof {
        assert((y * w + x) * 4 == 4 * (y * w + x));
    }
    (data[i], data[i + 1], data[i + 2])
}

/// Adds one neighbour's sample to the running average: a diagonal
/// neighbour contributes its bytes scaled by the square root of two,
/// an orthogonal one contributes them as they are.
fn add_sample(
    r: u8,
    g: u8,
    b: u8,
    diagonal: bool,
    count: &mut usize,
    sum_r: &mut usize,
    sum_g: &mut usize,
    sum_b: &mut usize,
)
    requires
        *old(count) <= 7,
        *old(sum_r) <= 2527,
        *old(sum_g) <= 2527,
        *old(sum_b) <= 2527,
    ensures
        *final(count) == *old(count) + 1,
        *final(sum_r) == *old(sum_r) + (if diagonal {
            spec_diag_scale(r)
        } else {
            r as int
        }),
        *final(sum_g) == *old(sum_g) + (if diagonal {
            spec_diag_scale(g)
        } else {
            g as int
        }),
        *final(sum_b) == *old(sum_b) + (if diagonal {
            spec_diag_scale(b)
        } else {
            b as int
        }),
{
    if diagonal {
        *sum_r = *sum_r + sqrt2_scale(r);
        *sum_g = *sum_g + sqrt2_scale(g);
        *sum_b = *sum_b + sqrt2_scale(b);
    } else {
        *sum_r = *sum_r + r as usize;
        *sum_g = *sum_g + g as usize;
        *sum_b = *sum_b + b as usize;
    }
    *count = *count + 1;
}

/// The upper four neighbours' joint sample: top left, top, top right
/// and left.
fn gather_upper(data: &Vec<u8>, w: usize, h: usize, x: usize, y: usize) -> (r: (
    usize,
    usize,
    usize,
    usize,
))
    requires
        data@.len() == 4 * (w * h),
        x < w,
        y < h,
    ensures
        ({
            let t1 = spec_nb(data@, w as int, h as int, x - 1, y - 1, true);
            let t2 = spec_nb(data@, w as int, h as int, x as int, y - 1, false);
            let t3 = spec_nb(data@, w as int, h as int, x + 1, y - 1, true);
            let t4 = spec_nb(data@, w as int, h as int, x - 1, y as int, false);
            &&& r.0 == t1.0 + t2.0 + t3.0 + t4.0
            &&& r.1 == t1.1 + t2.1 + t3.1 + t4.1
            &&& r.2 == t1.2 + t2.2 + t3.2 + t4.2
            &&& r.3 == t1.3 + t2.3 + t3.3 + t4.3
        }),
{
    let ghost dd = data@;
    let ghost wi = w as int;
    let ghost hi = h as int;
    let ghost xi = x as int;
    let ghost yi = y as int;
    let ghost t1 = spec_nb(dd, wi, hi, xi - 1, yi - 1, true);
    let ghost t2 = spec_nb(dd, wi, hi, xi, yi - 1, false);
    let ghost t3 = spec_nb(dd, wi, hi, xi + 1, yi - 1, true);
    let ghost t4 = spec_nb(dd, wi, hi, xi - 1, yi, false);
    proof {
        lemma_nb_bounds(dd, wi, hi, xi - 1, yi - 1, true);
        lemma_nb_bounds(dd, wi, hi, xi, yi - 1, false);
        lemma_nb_bounds(dd, wi, hi, xi + 1, yi - 1, true);
        lemma_nb_bounds(dd, wi, hi, xi - 1, yi, false);
    }
    let mut count: usize = 0;
    let mut sum_r: usize = 0;
    let mut sum_g: usize = 0;
    let mut sum_b: usize = 0;
    // Top left
    if x > 0 && y > 0 {
        let (r, g, b) = pixel_rgb(data, w, h, x - 1, y - 1);
        if !(r == 0 && g == 0 && b == 255) {
            add_sample(r, g, b, true, &mut count, &mut sum_r, &mut sum_g, &mut sum_b);
        }
    }
    assert(count == t1.0 && sum_r == t1.1 && sum_g == t1.2 && sum_b == t1.3);
    // Top
    if y > 0 {
        let (r, g, b) = pixel_rgb(data, w, h, x, y - 1);
        if !(r == 0 && g == 0 && b == 255) {
            add_sample(r, g, b, false, &mut count, &mut sum_r, &mut sum_g, &mut sum_b);
        }
    }
    assert(count == t1.0 + t2.0 && sum_r == t1.1 + t2.1 && sum_g == t1.2 + t2.2 && sum_b == t1.3
        + t2.3);
    // Top right
    if x + 1 < w && y > 0 {
        let (r, g, b) = pixel_rgb(data, w, h, x + 1, y - 1);
        if !(r == 0 && g == 0 && b == 255) {
            add_sample(r, g, b, true, &mut count, &mut sum_r, &mut sum_g, &mut sum_b);
        }
    }
    assert(count == t1.0 + t2.0 + t3.0 && sum_r == t1.1 + t2.1 + t3.1 && sum_g == t1.2 + t2.2
        + t3.2 && sum_b == t1.3 + t2.3 + t3.3);
    // Left
    if x > 0 {
        let (r, g, b) = pixel_rgb(data, w, h, x - 1, y);
        if !(r == 0 && g == 0 && b == 255) {
            add_sample(r, g, b, false, &mut count, &mut sum_r, &mut sum_g, &mut sum_b);
        }
    }
    assert(count == t1.0 + t2.0 + t3.0 + t4.0 && sum_r == t1.1 + t2.1 + t3.1 + t4.1 && sum_g
        == t1.2 + t2.2 + t3.2 + t4.2 && sum_b == t1.3 + t2.3 + t3.3 + t4.3);
    (count, sum_r, sum_g, sum_b)
}

/// The lower four neighbours' joint sample: right, bottom left, bottom
/// and bottom right.
fn gather_lower(data: &Vec<u8>, w: usize, h: usize, x: usize, y: usize) -> (r: (
    usize,
    usize,
    usize,
    usize,
))
    requires
        data@.len() == 4 * (w * h),
        x < w,
        y < h,
    ensures
        ({
            let t5 = spec_nb(data@, w as int, h as int, x + 1, y as int, false);
            let t6 = spec_nb(data@, w as int, h as int, x - 1, y + 1, true);
            let t7 = spec_nb(data@, w as int, h as int, x as int, y + 1, false);
            let t8 = spec_nb(data@, w as int, h as int, x + 1, y + 1, true);
            &&& r.0 == t5.0 + t6.0 + t7.0 + t8.0
            &&& r.1 == t5.1 + t6.1 + t7.1 + t8.1
            &&& r.2 == t5.2 + t6.2 + t7.2 + t8.2
            &&& r.3 == t5.3 + t6.3 + t7.3 + t8.3
        }),
{
    let ghost dd = data@;
    let ghost wi = w as int;
    let ghost hi = h as int;
    let ghost xi = x as int;
    let ghost yi = y as int;
    let ghost t5 = spec_nb(dd, wi, hi, xi + 1, yi, false);
    let ghost t6 = spec_nb(dd, wi, hi, xi - 1, yi + 1, true);
    let ghost t7 = spec_nb(dd, wi, hi, xi, yi + 1, false);
    let ghost t8 = spec_nb(dd, wi, hi, xi + 1, yi + 1, true);
    proof {
        lemma_nb_bounds(dd, wi, hi, xi + 1, yi, false);
        lemma_nb_bounds(dd, wi, hi, xi - 1, yi + 1, true);
        lemma_nb_bounds(dd, wi, hi, xi, yi + 1, false);
        lemma_nb_bounds(dd, wi, hi, xi + 1, yi + 1, true);
    }
    let mut count: usize = 0;
    let mut sum_r: usize = 0;
    let mut sum_g: usize = 0;
    let mut sum_b: usize = 0;
    // Right
    if x + 1 < w {
        let (r, g, b) = pixel_rgb(data, w, h, x + 1, y);
        if !(r == 0 && g == 0 && b == 255) {
            add_sample(r, g, b, false, &mut count, &mut sum_r, &mut sum_g, &mut sum_b);
        }
    }
    assert(count == t5.0 && sum_r == t5.1 && sum_g == t5.2 && sum_b == t5.3);
    // Bottom left
    if x > 0 && y + 1 < h {
        let (r, g, b) = pixel_rgb(data, w, h, x - 1, y + 1);
        if !(r == 0 && g == 0 && b == 255) {
            add_sample(r, g, b, true, &mut count, &mut sum_r, &mut sum_g, &mut sum_b);
        }
    }
    assert(count == t5.0 + t6.0 && sum_r == t5.1 + t6.1 && sum_g == t5.2 + t6.2 && sum_b == t5.3
        + t6.3);
    // Bottom
    if y + 1 < h {
        let (r, g, b) = pixel_rgb(data, w, h, x, y + 1);
        if !(r == 0 && g == 0 && b == 255) {
            add_sample(r, g, b, false, &mut count, &mut sum_r, &mut sum_g, &mut sum_b);
        }
    }
    assert(count == t5.0 + t6.0 + t7.0 && sum_r == t5.1 + t6.1 + t7.1 && sum_g == t5.2 + t6.2
        + t7.2 && sum_b == t5.3 + t6.3 + t7.3);
    // Bottom right
    if x + 1 < w && y + 1 < h {
        let (r, g, b) = pixel_rgb(data, w, h, x + 1, y + 1);
        if !(r == 0 && g == 0 && b == 255) {
            add_sample(r, g, b, true, &mut count, &mut sum_r, &mut sum_g, &mut sum_b);
        }
    }
    assert(count == t5.0 + t6.0 + t7.0 + t8.0 && sum_r == t5.1 + t6.1 + t7.1 + t8.1 && sum_g
        == t5.2 + t6.2 + t7.2 + t8.2 && sum_b == t5.3 + t6.3 + t7.3 + t8.3);
    (count, sum_r, sum_g, sum_b)
}

/// The count-normalised neighbour average the alpha-key pass writes
/// over a key texel, computed over the snapshot of the image from
/// before the pass: the averaged channel bytes (truncated as the pass
/// stores them) and whether any neighbour contributed.
fn neighbour_average(data: &Vec<u8>, w: usize, h: usize, x: usize, y: usize) -> (r: (
    u8,
    u8,
    u8,
    bool,
))
    requires
        data@.len() == 4 * (w * h),
        x < w,
        y < h,
    ensures
        ({
            let s = spec_neighbour_sums(data@, w as int, h as int, x as int, y as int);
            &&& r.3 == (s.0 > 0)
            &&& s.0 > 0 ==> r.0 == ((s.1 / s.0) % 256) as u8 && r.1 == ((s.2 / s.0) % 256) as u8
                && r.2 == ((s.3 / s.0) % 256) as u8
        }),
{
    let (c1, r1, g1, b1) = gather_upper(data, w, h, x, y);
    let (c2, r2, g2, b2) = gather_lower(data, w, h, x, y);
    proof {
        reveal(spec_neighbour_sums);
        lemma_nb_bounds(data@, w as int, h as int, x - 1, y - 1, true);
        lemma_nb_bounds(data@, w as int, h as int, x as int, y - 1, false);
        lemma_nb_bounds(data@, w as int, h as int, x + 1, y - 1, true);
        lemma_nb_bounds(data@, w as int, h as int, x - 1, y as int, false);
        lemma_nb_bounds(data@, w as int, h as int, x + 1, y as int, false);
        lemma_nb_bounds(data@, w as int, h as int, x - 1, y + 1, true);
        lemma_nb_bounds(data@, w as int, h as int, x as int, y + 1, false);
        lemma_nb_bounds(data@, w as int, h as int, x + 1, y + 1, true);
    }
    let count: usize = c1 + c2;
    let sum_r: usize = r1 + r2;
    let sum_g: usize = g1 + g2;
    let sum_b: usize = b1 + b2;
    if count > 0 {
        let avg_r = (sum_r / count) % 256;
        let avg_g = (sum_g / count) % 256;
        let avg_b = (sum_b / count) % 256;
        (avg_r as u8, avg_g as u8, avg_b as u8, true)
    } else {
        (0, 0, 0, false)
    }
}

/// The byte a sentinel entry of the replacement buffer holds at offset
/// `c` within its pixel: the pure-blue pattern with alpha zero.
pub open spec fn spec_sentinel_byte(c: int) -> u8 {
    if c == 2 {
        255u8
    } else {
        0u8
    }
}

/// The scanning phase of the alpha-key pass: every key texel of the
/// snapshot gets its blue and alpha cleared in place, and its
/// neighbour average — judged entirely on the snapshot — recorded in
/// the replacement buffer.
#[verifier::rlimit(100)]
fn alpha_scan(data: &mut Vec<u8>, rgb: &mut Vec<u8>, snapshot: &Vec<u8>, w: usize, h: usize)
    requires
        old(data)@ == snapshot@,
        snapshot@.len() == 4 * (w * h),
        old(rgb)@.len() == snapshot@.len(),
        forall|i: int| #![trigger old(rgb)@[i]]
            0 <= i < old(rgb)@.len() ==> old(rgb)@[i] == spec_sentinel_byte(i % 4),
    ensures
        final(data)@.len() == snapshot@.len(),
        final(rgb)@.len() == snapshot@.len(),
        forall|i: int| #![trigger final(data)@[i]]
            0 <= i < snapshot@.len() && !spec_is_key(snapshot@, i / 4) ==> final(data)@[i]
                == snapshot@[i],
        forall|i: int| #![trigger final(data)@[i]]
            0 <= i < snapshot@.len() && spec_is_key(snapshot@, i / 4) ==> final(data)@[i] == (
            if i % 4 >= 2 {
                0u8
            } else {
                snapshot@[i]
            }),
        forall|i: int| #![trigger final(rgb)@[i]]
            0 <= i < snapshot@.len() && i % 4 == 3 ==> final(rgb)@[i] == 0,
        forall|i: int| #![trigger final(rgb)@[i]]
            0 <= i < snapshot@.len() && !spec_is_key(snapshot@, i / 4) ==> final(rgb)@[i]
                == spec_sentinel_byte(i % 4),
        forall|idx: int| #![trigger final(rgb)@[4 * idx]]
            0 <= idx < w * h && spec_is_key(snapshot@, idx) ==> final(rgb)@[4 * idx]
                == spec_rgb_slot(snapshot@, w as int, h as int, idx, 0) && final(rgb)@[4 * idx
                + 1] == spec_rgb_slot(snapshot@, w as int, h as int, idx, 1) && final(rgb)@[4
                * idx + 2] == spec_rgb_slot(snapshot@, w as int, h as int, idx, 2),
{
    let n: usize = snapshot.len();
    let tot: usize = n / 4;
    proof {
        assert(n == 4 * (w * h));
        assert(4 * (w * h) / 4 == w * h) by (nonlinear_arith);
        assert(tot == w * h);
    }
    let mut idx: usize = 0;
    while idx < tot
        invariant
            idx <= tot,
            n == snapshot@.len(),
            n == 4 * (w * h),
            tot == w * h,
            data@.len() == n,
            rgb@.len() == n,
            forall|i: int| #![trigger data@[i]]
                0 <= i < n && !spec_is_key(snapshot@, i / 4) ==> data@[i] == snapshot@[i],
            forall|i: int| #![trigger data@[i]]
                0 <= i < n && spec_is_key(snapshot@, i / 4) && i / 4 < idx ==> data@[i] == (
                if i % 4 >= 2 {
                    0u8
                } else {
                    snapshot@[i]
                }),
            forall|i: int| #![trigger data@[i]] 4 * idx <= i < n ==> data@[i] == snapshot@[i],
            forall|i: int| #![trigger rgb@[i]] 0 <= i < n && i % 4 == 3 ==> rgb@[i] == 0,
            forall|i: int| #![trigger rgb@[i]]
                0 <= i < n && !spec_is_key(snapshot@, i / 4) ==> rgb@[i] == spec_sentinel_byte(
                    i % 4,
                ),
            forall|j: int| #![trigger rgb@[4 * j]]
                0 <= j < tot && spec_is_key(snapshot@, j) && j >= idx ==> rgb@[4 * j] == 0
                    && rgb@[4 * j + 1] == 0 && rgb@[4 * j + 2] == 255,
            forall|j: int| #![trigger rgb@[4 * j]]
                0 <= j < tot && spec_is_key(snapshot@, j) && j < idx ==> rgb@[4 * j]
                    == spec_rgb_slot(snapshot@, w as int, h as int, j, 0) && rgb@[4 * j + 1]
                    == spec_rgb_slot(snapshot@, w as int, h as int, j, 1) && rgb@[4 * j + 2]
                    == spec_rgb_slot(snapshot@, w as int, h as int, j, 2),
        decreases tot - idx,
    {
        let i4: usize = idx * 4;
        proof {
            assert(idx * 4 == 4 * idx);
            assert(4 * idx + 4 <= 4 * tot);
            assert((4 * idx) / 4 == idx && (4 * idx) % 4 == 0);
            assert((4 * idx + 1) / 4 == idx && (4 * idx + 1) % 4 == 1);
            assert((4 * idx + 2) / 4 == idx && (4 * idx + 2) % 4 == 2);
            assert((4 * idx + 3) / 4 == idx && (4 * idx + 3) % 4 == 3);
            assert(0 < w) by (nonlinear_arith)
                requires
                    idx < tot,
                    tot == w * h,
                    0 <= w,
                    0 <= h,
            ;
        }
        let x: usize = idx % w;
        let y: usize = idx / w;
        proof {
            vstd::arithmetic::div_mod::lemma_fundamental_div_mod(idx as int, w as int);
            assert(y < h) by (nonlinear_arith)
                requires
                    idx < w * h,
                    idx == w * y + x,
                    0 <= x < w,
                    0 < w,
                    0 <= y,
            ;
        }
        let ghost rgb_entry = rgb@;
        let d0 = snapshot[i4];
        let d1 = snapshot[i4 + 1];
        let d2 = snapshot[i4 + 2];
        if d0 == 0 && d1 == 0 && d2 == 255 {
            proof {
                assert(spec_is_key(snapshot@, idx as int));
            }
            data.set(i4 + 2, 0);
            data.set(i4 + 3, 0);
            let (ar, ag, ab, any) = neighbour_average(snapshot, w, h, x, y);
            if any {
                rgb.set(i4, ar);
                rgb.set(i4 + 1, ag);
                rgb.set(i4 + 2, ab);
            }
            proof {
                let ji = idx as int;
                let s = spec_neighbour_sums(snapshot@, w as int, h as int, ji % (w as int),
                    ji / (w as int));
                assert(ji % (w as int) == x as int && ji / (w as int) == y as int);
                if s.0 > 0 {
                    assert(rgb@[4 * ji] == spec_rgb_slot(snapshot@, w as int, h as int, ji, 0));
                    assert(rgb@[4 * ji + 1] == spec_rgb_slot(snapshot@, w as int, h as int, ji,
                        1));
                    assert(rgb@[4 * ji + 2] == spec_rgb_slot(snapshot@, w as int, h as int, ji,
                        2));
                } else {
                    assert(rgb@[4 * ji] == rgb_entry[4 * ji]);
                    assert(rgb@[4 * ji + 1] == rgb_entry[4 * ji + 1]);
                    assert(rgb@[4 * ji + 2] == rgb_entry[4 * ji + 2]);
                    assert(rgb@[4 * ji] == spec_rgb_slot(snapshot@, w as int, h as int, ji, 0));
                    assert(rgb@[4 * ji + 1] == spec_rgb_slot(snapshot@, w as int, h as int, ji,
                        1));
                    assert(rgb@[4 * ji + 2] == spec_rgb_slot(snapshot@, w as int, h as int, ji,
                        2));
                }
            }
        } else {
            proof {
                assert(!spec_is_key(snapshot@, idx as int));
            }
        }
        proof {
            assert forall|j: int|
                0 <= j < tot && spec_is_key(snapshot@, j) && j >= idx + 1 implies rgb@[4 * j]
                == 0 && rgb@[4 * j + 1] == 0 && rgb@[4 * j + 2] == 255 by {
                assert(rgb_entry[4 * j] == 0);
                assert(rgb_entry[4 * j + 1] == 0);
                assert(rgb_entry[4 * j + 2] == 255);
                assert(rgb@[4 * j] == rgb_entry[4 * j]);
                assert(rgb@[4 * j + 1] == rgb_entry[4 * j + 1]);
                assert(rgb@[4 * j + 2] == rgb_entry[4 * j + 2]);
            }
            assert forall|j: int|
                0 <= j < tot && spec_is_key(snapshot@, j) && j < idx implies rgb@[4 * j]
                == spec_rgb_slot(snapshot@, w as int, h as int, j, 0) && rgb@[4 * j + 1]
                == spec_rgb_slot(snapshot@, w as int, h as int, j, 1) && rgb@[4 * j + 2]
                == spec_rgb_slot(snapshot@, w as int, h as int, j, 2) by {
                assert(rgb_entry[4 * j] == spec_rgb_slot(snapshot@, w as int, h as int, j, 0));
                assert(rgb@[4 * j] == rgb_entry[4 * j]);
                assert(rgb@[4 * j + 1] == rgb_entry[4 * j + 1]);
                assert(rgb@[4 * j + 2] == rgb_entry[4 * j + 2]);
            }
        }
        idx = idx + 1;
    }
    proof {
        assert forall|j: int|
            0 <= j < w * h && spec_is_key(snapshot@, j) implies rgb@[4 * j] == spec_rgb_slot(
            snapshot@,
            w as int,
            h as int,
            j,
            0,
        ) && rgb@[4 * j + 1] == spec_rgb_slot(snapshot@, w as int, h as int, j, 1) && rgb@[4 * j
            + 2] == spec_rgb_slot(snapshot@, w as int, h as int, j, 2) by {
            assert(0 <= j < tot);
            assert(rgb@[4 * j] == spec_rgb_slot(snapshot@, w as int, h as int, j, 0));
            assert(rgb@[4 * j + 1] == spec_rgb_slot(snapshot@, w as int, h as int, j, 1));
            assert(rgb@[4 * j + 2] == spec_rgb_slot(snapshot@, w as int, h as int, j, 2));
        }
    }
}

/// The write-back phase of the alpha-key pass: every non-sentinel
/// replacement lands over its key texel; the sentinel marks the
/// untouched texels and the key texels whose average contributed
/// nothing new.
#[verifier::rlimit(100)]
fn alpha_write_back(data: &mut Vec<u8>, rgb: &Vec<u8>, snapshot: &Vec<u8>, w: usize, h: usize)
    requires
        snapshot@.len() == 4 * (w * h),
        old(data)@.len() == snapshot@.len(),
        rgb@.len() == snapshot@.len(),
        forall|i: int| #![trigger old(data)@[i]]
            0 <= i < snapshot@.len() && !spec_is_key(snapshot@, i / 4) ==> old(data)@[i]
                == snapshot@[i],
        forall|i: int| #![trigger old(data)@[i]]
            0 <= i < snapshot@.len() && spec_is_key(snapshot@, i / 4) ==> old(data)@[i] == (
            if i % 4 >= 2 {
                0u8
            } else {
                snapshot@[i]
            }),
        forall|i: int| #![trigger rgb@[i]]
            0 <= i < snapshot@.len() && i % 4 == 3 ==> rgb@[i] == 0,
        forall|i: int| #![trigger rgb@[i]]
            0 <= i < snapshot@.len() && !spec_is_key(snapshot@, i / 4) ==> rgb@[i]
                == spec_sentinel_byte(i % 4),
        forall|idx: int| #![trigger rgb@[4 * idx]]
            0 <= idx < w * h && spec_is_key(snapshot@, idx) ==> rgb@[4 * idx] == spec_rgb_slot(
                snapshot@,
                w as int,
                h as int,
                idx,
                0,
            ) && rgb@[4 * idx + 1] == spec_rgb_slot(snapshot@, w as int, h as int, idx, 1)
                && rgb@[4 * idx + 2] == spec_rgb_slot(snapshot@, w as int, h as int, idx, 2),
    ensures
        final(data)@.len() == snapshot@.len(),
        forall|i: int| #![trigger final(data)@[i]]
            0 <= i < snapshot@.len() && !spec_is_key(snapshot@, i / 4) ==> final(data)@[i]
                == snapshot@[i],
        forall|idx: int| #![trigger final(data)@[4 * idx]]
            0 <= idx < w * h && spec_is_key(snapshot@, idx) ==> ({
                let kf = spec_key_final(snapshot@, w as int, h as int, idx % (w as int),
                    idx / (w as int));
                &&& final(data)@[4 * idx] == kf.0
                &&& final(data)@[4 * idx + 1] == kf.1
                &&& final(data)@[4 * idx + 2] == kf.2
                &&& final(data)@[4 * idx + 3] == kf.3
            }),
{
    let n: usize = snapshot.len();
    let tot: usize = n / 4;
    proof {
        assert(n == 4 * (w * h));
        assert(4 * (w * h) / 4 == w * h) by (nonlinear_arith);
        assert(tot == w * h);
    }
    let mut idx: usize = 0;
    while idx < tot
        invariant
            idx <= tot,
            n == snapshot@.len(),
            n == 4 * (w * h),
            tot == w * h,
            data@.len() == n,
            rgb@.len() == n,
            forall|i: int| #![trigger rgb@[i]] 0 <= i < n && i % 4 == 3 ==> rgb@[i] == 0,
            forall|i: int| #![trigger rgb@[i]]
                0 <= i < n && !spec_is_key(snapshot@, i / 4) ==> rgb@[i] == spec_sentinel_byte(
                    i % 4,
                ),
            forall|j: int| #![trigger rgb@[4 * j]]
                0 <= j < tot && spec_is_key(snapshot@, j) ==> rgb@[4 * j] == spec_rgb_slot(
                    snapshot@,
                    w as int,
                    h as int,
                    j,
                    0,
                ) && rgb@[4 * j + 1] == spec_rgb_slot(snapshot@, w as int, h as int, j, 1)
                    && rgb@[4 * j + 2] == spec_rgb_slot(snapshot@, w as int, h as int, j, 2),
            forall|i: int| #![trigger data@[i]]
                0 <= i < n && !spec_is_key(snapshot@, i / 4) ==> data@[i] == snapshot@[i],
            forall|j: int| #![trigger data@[4 * j]]
                0 <= j < tot && spec_is_key(snapshot@, j) && j >= idx ==> data@[4 * j] == 0
                    && data@[4 * j + 1] == 0 && data@[4 * j + 2] == 0 && data@[4 * j + 3] == 0,
            forall|j: int| #![trigger data@[4 * j]]
                0 <= j < tot && spec_is_key(snapshot@, j) && j < idx ==> ({
                    let kf = spec_key_final(snapshot@, w as int, h as int, j % (w as int),
                        j / (w as int));
                    &&& data@[4 * j] == kf.0
                    &&& data@[4 * j + 1] == kf.1
                    &&& data@[4 * j + 2] == kf.2
                    &&& data@[4 * j + 3] == kf.3
                }),
        decreases tot - idx,
    {
        let i4: usize = idx * 4;
        proof {
            assert(idx * 4 == 4 * idx);
            assert(4 * idx + 4 <= 4 * tot);
            assert((4 * idx) / 4 == idx && (4 * idx) % 4 == 0);
            assert((4 * idx + 1) / 4 == idx && (4 * idx + 1) % 4 == 1);
            assert((4 * idx + 2) / 4 == idx && (4 * idx + 2) % 4 == 2);
            assert((4 * idx + 3) / 4 == idx && (4 * idx + 3) % 4 == 3);
        }
        let ghost data_entry = data@;
        let r0 = rgb[i4];
        let r1 = rgb[i4 + 1];
        let r2 = rgb[i4 + 2];
        let r3 = rgb[i4 + 3];
        if r0 != 0 || r1 != 0 || r2 != 255 || r3 != 0 {
            proof {
                if !spec_is_key(snapshot@, idx as int) {
                    assert(rgb@[4 * (idx as int)] == spec_sentinel_byte(0));
                    assert(rgb@[4 * (idx as int) + 1] == spec_sentinel_byte(1));
                    assert(rgb@[4 * (idx as int) + 2] == spec_sentinel_byte(2));
                    assert(rgb@[4 * (idx as int) + 3] == spec_sentinel_byte(3));
                }
                assert(spec_is_key(snapshot@, idx as int));
                assert(rgb@[4 * (idx as int) + 3] == 0);
            }
            data.set(i4, r0);
            data.set(i4 + 1, r1);
            data.set(i4 + 2, r2);
            data.set(i4 + 3, r3);
            proof {
                let ji = idx as int;
                let s = spec_neighbour_sums(snapshot@, w as int, h as int, ji % (w as int),
                    ji / (w as int));
                let kf = spec_key_final(snapshot@, w as int, h as int, ji % (w as int),
                    ji / (w as int));
                assert(r0 == spec_rgb_slot(snapshot@, w as int, h as int, ji, 0));
                assert(r1 == spec_rgb_slot(snapshot@, w as int, h as int, ji, 1));
                assert(r2 == spec_rgb_slot(snapshot@, w as int, h as int, ji, 2));
                assert(r3 == 0);
                assert(s.0 > 0);
                assert(!(r0 == 0 && r1 == 0 && r2 == 255));
                assert(kf == (r0, r1, r2, 0u8));
                assert(data@[4 * ji] == kf.0);
                assert(data@[4 * ji + 1] == kf.1);
                assert(data@[4 * ji + 2] == kf.2);
                assert(data@[4 * ji + 3] == kf.3);
            }
        } else {
            proof {
                if spec_is_key(snapshot@, idx as int) {
                    let ji = idx as int;
                    let s = spec_neighbour_sums(snapshot@, w as int, h as int, ji % (w as int),
                        ji / (w as int));
                    let kf = spec_key_final(snapshot@, w as int, h as int, ji % (w as int),
                        ji / (w as int));
                    assert(r0 == spec_rgb_slot(snapshot@, w as int, h as int, ji, 0));
                    assert(r1 == spec_rgb_slot(snapshot@, w as int, h as int, ji, 1));
                    assert(r2 == spec_rgb_slot(snapshot@, w as int, h as int, ji, 2));
                    if s.0 > 0 {
                        assert(r0 == ((s.1 / s.0) % 256) as u8);
                        assert(r1 == ((s.2 / s.0) % 256) as u8);
                        assert(r2 == ((s.3 / s.0) % 256) as u8);
                        assert(kf == (0u8, 0u8, 0u8, 0u8));
                    } else {
                        assert(kf == (0u8, 0u8, 0u8, 0u8));
                    }
                    assert(data@[4 * ji] == 0);
                    assert(data@[4 * ji + 1] == 0);
                    assert(data@[4 * ji + 2] == 0);
                    assert(data@[4 * ji + 3] == 0);
                    assert(data@[4 * ji] == kf.0);
                    assert(data@[4 * ji + 1] == kf.1);
                    assert(data@[4 * ji + 2] == kf.2);
                    assert(data@[4 * ji + 3] == kf.3);
                }
            }
        }
        proof {
            assert forall|j: int|
                0 <= j < tot && spec_is_key(snapshot@, j) && j >= idx + 1 implies data@[4 * j]
                == 0 && data@[4 * j + 1] == 0 && data@[4 * j + 2] == 0 && data@[4 * j + 3]
                == 0 by {
                assert(data_entry[4 * j] == 0);
                assert(data_entry[4 * j + 1] == 0);
                assert(data_entry[4 * j + 2] == 0);
                assert(data_entry[4 * j + 3] == 0);
                assert(data@[4 * j] == data_entry[4 * j]);
                assert(data@[4 * j + 1] == data_entry[4 * j + 1]);
                assert(data@[4 * j + 2] == data_entry[4 * j + 2]);
                assert(data@[4 * j + 3] == data_entry[4 * j + 3]);
            }
            assert forall|j: int|
                0 <= j < tot && spec_is_key(snapshot@, j) && j < idx implies ({
                    let kf = spec_key_final(snapshot@, w as int, h as int, j % (w as int),
                        j / (w as int));
                    &&& data@[4 * j] == kf.0
                    &&& data@[4 * j + 1] == kf.1
                    &&& data@[4 * j + 2] == kf.2
                    &&& data@[4 * j + 3] == kf.3
                }) by {
                assert(data_entry[4 * j] == spec_key_final(snapshot@, w as int, h as int,
                    j % (w as int), j / (w as int)).0);
                assert(data@[4 * j] == data_entry[4 * j]);
                assert(data@[4 * j + 1] == data_entry[4 * j + 1]);
                assert(data@[4 * j + 2] == data_entry[4 * j + 2]);
                assert(data@[4 * j + 3] == data_entry[4 * j + 3]);
            }
        }
        idx = idx + 1;
    }
}

/// The alpha-key post-processing pass over one four-channel image.
///
/// Every texel that is exactly pure blue is a transparency key: its
/// alpha ends at zero, and its colour is replaced by the truncating
/// average of its non-key neighbours — key-ness judged on the image as
/// it stood before the pass — with diagonal neighbours weighted by the
/// square root of two.  All other texels are left untouched, so a
/// buffer with no key texel passes through unchanged.
#[verifier::rlimit(100)]
pub fn apply_alpha_sections(p_tex: &mut Image)
    requires
        old(p_tex).wf(),
        old(p_tex).channels == 4,
    ensures
        final(p_tex).channels == 4,
        final(p_tex).width == old(p_tex).width,
        final(p_tex).height == old(p_tex).height,
        final(p_tex).data@.len() == old(p_tex).data@.len(),
        final(p_tex).wf(),
        forall|i: int| #![trigger final(p_tex).data@[i]]
            0 <= i < old(p_tex).data@.len() && !spec_is_key(old(p_tex).data@, i / 4)
                ==> final(p_tex).data@[i] == old(p_tex).data@[i],
        forall|idx: int| #![trigger final(p_tex).data@[4 * idx]]
            0 <= idx < old(p_tex).width * old(p_tex).height && spec_is_key(old(p_tex).data@, idx)
                ==> ({
                let kf = spec_key_final(
                    old(p_tex).data@,
                    old(p_tex).width as int,
                    old(p_tex).height as int,
                    idx % (old(p_tex).width as int),
                    idx / (old(p_tex).width as int),
                );
                &&& final(p_tex).data@[4 * idx] == kf.0
                &&& final(p_tex).data@[4 * idx + 1] == kf.1
                &&& final(p_tex).data@[4 * idx + 2] == kf.2
                &&& final(p_tex).data@[4 * idx + 3] == kf.3
            }),
        forall|i: int| #![trigger final(p_tex).data@[i]]
            0 <= i < old(p_tex).data@.len() && spec_is_key(old(p_tex).data@, i / 4) && i % 4 == 3
                ==> final(p_tex).data@[i] == 0,
        (forall|idx: int|
            0 <= idx < old(p_tex).width * old(p_tex).height ==> !spec_is_key(
                old(p_tex).data@,
                idx,
            )) ==> final(p_tex).data@ == old(p_tex).data@,
{
    let w: usize = p_tex.width;
    let h: usize = p_tex.height;
    let n: usize = p_tex.data.len();
    let tot: usize = n / 4;
    proof {
        assert(p_tex.data@.len() == w * h * 4);
        assert(w * h * 4 == 4 * (w * h)) by (nonlinear_arith);
        assert(4 * (w * h) / 4 == w * h) by (nonlinear_arith);
        assert(tot == w * h);
    }
    let ghost orig = p_tex.data@;
    // The pass judges key-ness of neighbours on the image as it stood
    // before any texel was touched.
    let snapshot = copy_range(&p_tex.data, 0, n);
    proof {
        assert(snapshot@ =~= orig);
    }
    // The replacement buffer starts as all sentinel entries; only key
    // texels ever get a different value, always with alpha zero.
    let mut rgb: Vec<u8> = Vec::new();
    let mut k: usize = 0;
    while k < tot
        invariant
            k <= tot,
            rgb@.len() == 4 * k,
            forall|i: int| #![trigger rgb@[i]]
                0 <= i < 4 * k ==> rgb@[i] == spec_sentinel_byte(i % 4),
        decreases tot - k,
    {
        rgb.push(0);
        rgb.push(0);
        rgb.push(255);
        rgb.push(0);
        k = k + 1;
    }
    alpha_scan(&mut p_tex.data, &mut rgb, &snapshot, w, h);
    alpha_write_back(&mut p_tex.data, &rgb, &snapshot, w, h);
    proof {
        if forall|j: int| 0 <= j < tot ==> !spec_is_key(orig, j) {
            assert forall|i: int| 0 <= i < n implies p_tex.data@[i] == orig[i] by {
                vstd::arithmetic::div_mod::lemma_fundamental_div_mod(i, 4);
                assert(0 <= i / 4 < tot);
                assert(!spec_is_key(orig, i / 4));
            }
            assert(p_tex.data@ =~= orig);
        }
        assert forall|i: int|
            0 <= i < n && spec_is_key(orig, i / 4) && i % 4 == 3 implies p_tex.data@[i] == 0 by {
            vstd::arithmetic::div_mod::lemma_fundamental_div_mod(i, 4);
            let j = i / 4;
            assert(i == 4 * j + 3);
            assert(0 <= j < w * h);
            assert(p_tex.data@[4 * j] == spec_key_final(orig, w as int, h as int,
                j % (w as int), j / (w as int)).0);
            assert(p_tex.data@[4 * j + 3] == spec_key_final(orig, w as int, h as int,
                j % (w as int), j / (w as int)).3);
        }
    }
}

/// The byte at position `j` of the RGBA expansion of a palette-indexed
/// texture level: three palette bytes per texel, alpha fixed at 255.
pub open spec fn spec_expanded(raw: Seq<u8>, po: int, qo: int, j: int) -> u8 {
    if j % 4 == 3 {
        255u8
    } else {
        raw[qo + 3 * raw[po + j / 4] + j % 4]
    }
}

/// The whole RGBA expansion of one level of `count` texels.
pub open spec fn spec_expanded_seq(raw: Seq<u8>, po: int, qo: int, count: int) -> Seq<u8> {
    Seq::new((4 * count) as nat, |j: int| spec_expanded(raw, po, qo, j))
}

/// The byte at position `j` of the RGBA expansion of a decal level: the
/// colour of palette entry 255 everywhere, with the raw index byte
/// encoding opacity as `255 - index`.
pub open spec fn spec_decal_expanded(raw: Seq<u8>, po: int, qo: int, j: int) -> u8 {
    if j % 4 == 3 {
        (255 - raw[po + j / 4]) as u8
    } else {
        raw[qo + 765 + j % 4]
    }
}

/// The whole RGBA expansion of one decal level of `count` texels.
pub open spec fn spec_decal_expanded_seq(raw: Seq<u8>, po: int, qo: int, count: int) -> Seq<u8> {
    Seq::new((4 * count) as nat, |j: int| spec_decal_expanded(raw, po, qo, j))
}

/// What one decoded level looks like: the palette expansion of its
/// texels with the alpha-key pass applied on top.
pub open spec fn spec_level_ok(img: Image, expanded: Seq<u8>, wl: int, hl: int) -> bool {
    &&& img.channels == 4
    &&& img.width == wl
    &&& img.height == hl
    &&& img.wf()
    &&& img.data@.len() == expanded.len()
    &&& forall|j: int| #![trigger img.data@[j]]
        0 <= j < expanded.len() && !spec_is_key(expanded, j / 4) ==> img.data@[j] == expanded[j]
    &&& forall|j: int| #![trigger img.data@[j]]
        0 <= j < expanded.len() && spec_is_key(expanded, j / 4) && j % 4 == 3 ==> img.data@[j]
            == 0
    &&& forall|idx: int| #![trigger img.data@[4 * idx]]
        0 <= idx < wl * hl && spec_is_key(expanded, idx) ==> ({
            let kf = spec_key_final(expanded, wl, hl, idx % wl, idx / wl);
            &&& img.data@[4 * idx] == kf.0
            &&& img.data@[4 * idx + 1] == kf.1
            &&& img.data@[4 * idx + 2] == kf.2
            &&& img.data@[4 * idx + 3] == kf.3
        })
}

/// Decodes one palette-indexed level and applies the alpha-key pass.
fn decode_level(raw: &Vec<u8>, po: usize, qo: usize, wl: usize, hl: usize) -> (img: Image)
    requires
        po + wl * hl <= raw@.len(),
        qo + 768 <= raw@.len(),
        wl * hl * 4 <= usize::MAX,
    ensures
        spec_level_ok(img, spec_expanded_seq(raw@, po as int, qo as int, (wl * hl) as int),
            wl as int, hl as int),
{
    let count: usize = wl * hl;
    let rn: usize = raw.len();
    let mut data: Vec<u8> = Vec::new();
    let mut i: usize = 0;
    while i < count
        invariant
            i <= count,
            count == wl * hl,
            count * 4 <= usize::MAX,
            rn == raw@.len(),
            po + count <= rn,
            qo + 768 <= rn,
            data@.len() == 4 * i,
            forall|j: int| #![trigger data@[j]]
                0 <= j < 4 * i ==> data@[j] == spec_expanded(raw@, po as int, qo as int, j),
        decreases count - i,
    {
        let pi: usize = raw[po + i] as usize;
        let pal: usize = qo + 3 * pi;
        data.push(raw[pal]);
        data.push(raw[pal + 1]);
        data.push(raw[pal + 2]);
        data.push(255);
        proof {
            let ii = i as int;
            assert((4 * ii) % 4 == 0 && (4 * ii) / 4 == ii);
            assert((4 * ii + 1) % 4 == 1 && (4 * ii + 1) / 4 == ii);
            assert((4 * ii + 2) % 4 == 2 && (4 * ii + 2) / 4 == ii);
            assert((4 * ii + 3) % 4 == 3 && (4 * ii + 3) / 4 == ii);
        }
        i = i + 1;
    }
    let mut img = Image { channels: 4, width: wl, height: hl, data };
    proof {
        assert(img.data@.len() == wl * hl * 4) by (nonlinear_arith)
            requires
                img.data@.len() == 4 * (wl * hl),
        ;
        assert(img.data@ =~= spec_expanded_seq(raw@, po as int, qo as int, (wl * hl) as int));
    }
    apply_alpha_sections(&mut img);
    proof {
        assert(img.data@.len() == 4 * (wl as int * hl as int)) by (nonlinear_arith)
            requires
                img.data@.len() == wl * hl * 4,
        ;
    }
    img
}

/// Decodes one decal level and applies the alpha-key pass.
fn decode_decal_level(raw: &Vec<u8>, po: usize, qo: usize, wl: usize, hl: usize) -> (img: Image)
    requires
        po + wl * hl <= raw@.len(),
        qo + 768 <= raw@.len(),
        wl * hl * 4 <= usize::MAX,
    ensures
        spec_level_ok(img, spec_decal_expanded_seq(raw@, po as int, qo as int, (wl * hl) as int),
            wl as int, hl as int),
{
    let count: usize = wl * hl;
    let rn: usize = raw.len();
    let cr = raw[qo + 765];
    let cg = raw[qo + 766];
    let cb = raw[qo + 767];
    let mut data: Vec<u8> = Vec::new();
    let mut i: usize = 0;
    while i < count
        invariant
            i <= count,
            count == wl * hl,
            count * 4 <= usize::MAX,
            rn == raw@.len(),
            po + count <= rn,
            qo + 768 <= rn,
            cr == raw@[qo + 765],
            cg == raw@[qo + 766],
            cb == raw@[qo + 767],
            data@.len() == 4 * i,
            forall|j: int| #![trigger data@[j]]
                0 <= j < 4 * i ==> data@[j] == spec_decal_expanded(raw@, po as int, qo as int, j),
        decreases count - i,
    {
        let pi = raw[po + i];
        data.push(cr);
        data.push(cg);
        data.push(cb);
        data.push(255 - pi);
        proof {
            let ii = i as int;
            assert((4 * ii) % 4 == 0 && (4 * ii) / 4 == ii);
            assert((4 * ii + 1) % 4 == 1 && (4 * ii + 1) / 4 == ii);
            assert((4 * ii + 2) % 4 == 2 && (4 * ii + 2) / 4 == ii);
            assert((4 * ii + 3) % 4 == 3 && (4 * ii + 3) / 4 == ii);
        }
        i = i + 1;
    }
    let mut img = Image { channels: 4, width: wl, height: hl, data };
    proof {
        assert(img.data@.len() == wl * hl * 4) by (nonlinear_arith)
            requires
                img.data@.len() == 4 * (wl * hl),
        ;
        assert(img.data@ =~= spec_decal_expanded_seq(raw@, po as int, qo as int, (wl * hl)
            as int));
    }
    apply_alpha_sections(&mut img);
    proof {
        assert(img.data@.len() == 4 * (wl as int * hl as int)) by (nonlinear_arith)
            requires
                img.data@.len() == wl * hl * 4,
        ;
    }
    img
}

/// The start of the palette inside a raw texture: right behind the last
/// mip level's texels and the two-byte palette-size field.
pub open spec fn spec_palette_offset(raw: Seq<u8>) -> int {
    le_u32(raw, 36) + (le_u32(raw, 16) / 8) * (le_u32(raw, 20) / 8) + 2
}

/// Whether a raw texture fetched from an archive or embedded in the
/// level file is well-formed enough to decode: the header fits, all
/// four declared levels lie inside the buffer, the palette fits behind
/// them, and the full-size image fits in memory.
pub open spec fn spec_mip_data_valid(raw: Seq<u8>) -> bool {
    let w = le_u32(raw, 16) as int;
    let h = le_u32(raw, 20) as int;
    let qo = spec_palette_offset(raw);
    &&& raw.len() >= 40
    &&& w * h * 4 <= usize::MAX
    &&& le_u32(raw, 24) + w * h <= raw.len()
    &&& le_u32(raw, 28) + (w / 2) * (h / 2) <= raw.len()
    &&& le_u32(raw, 32) + (w / 4) * (h / 4) <= raw.len()
    &&& le_u32(raw, 36) + (w / 8) * (h / 8) <= raw.len()
    &&& qo + 768 <= raw.len()
}

/// What a decoded texture looks like as a whole: four levels at the
/// declared halving dimensions, each the palette expansion of its
/// texels with the alpha-key pass applied.
pub open spec fn spec_mip_levels_ok(t: MipmapTexture, raw: Seq<u8>) -> bool {
    let w = le_u32(raw, 16) as int;
    let h = le_u32(raw, 20) as int;
    let qo = spec_palette_offset(raw);
    &&& t.wf_shape()
    &&& spec_level_ok(t.img@[0], spec_expanded_seq(raw, le_u32(raw, 24) as int, qo, w * h), w, h)
    &&& spec_level_ok(t.img@[1], spec_expanded_seq(raw, le_u32(raw, 28) as int, qo, (w / 2) * (h
        / 2)), w / 2, h / 2)
    &&& spec_level_ok(t.img@[2], spec_expanded_seq(raw, le_u32(raw, 32) as int, qo, (w / 4) * (h
        / 4)), w / 4, h / 4)
    &&& spec_level_ok(t.img@[3], spec_expanded_seq(raw, le_u32(raw, 36) as int, qo, (w / 8) * (h
        / 8)), w / 8, h / 8)
}

/// The decal counterpart of `spec_mip_levels_ok`: the same four levels
/// over the decal palette convention.
pub open spec fn spec_decal_levels_ok(t: MipmapTexture, raw: Seq<u8>) -> bool {
    let w = le_u32(raw, 16) as int;
    let h = le_u32(raw, 20) as int;
    let qo = spec_palette_offset(raw);
    &&& t.wf_shape()
    &&& spec_level_ok(t.img@[0], spec_decal_expanded_seq(raw, le_u32(raw, 24) as int, qo, w * h),
        w, h)
    &&& spec_level_ok(t.img@[1], spec_decal_expanded_seq(raw, le_u32(raw, 28) as int, qo, (w / 2)
        * (h / 2)), w / 2, h / 2)
    &&& spec_level_ok(t.img@[2], spec_decal_expanded_seq(raw, le_u32(raw, 32) as int, qo, (w / 4)
        * (h / 4)), w / 4, h / 4)
    &&& spec_level_ok(t.img@[3], spec_decal_expanded_seq(raw, le_u32(raw, 36) as int, qo, (w / 8)
        * (h / 8)), w / 8, h / 8)
}

/// Decides `spec_mip_data_valid` and hands back the decoded header
/// fields it is stated over.
fn check_mip_data(raw: &Vec<u8>) -> (r: Option<(MipTex, usize)>)
    ensures
        r is Some <==> spec_mip_data_valid(raw@),
        r is Some ==> {
            let (m, qo) = r->Some_0;
            &&& m.width == le_u32(raw@, 16)
            &&& m.height == le_u32(raw@, 20)
            &&& m.offsets.0 == le_u32(raw@, 24)
            &&& m.offsets.1 == le_u32(raw@, 28)
            &&& m.offsets.2 == le_u32(raw@, 32)
            &&& m.offsets.3 == le_u32(raw@, 36)
            &&& qo == spec_palette_offset(raw@)
        },
{
    let rn: usize = raw.len();
    if rn < 40 {
        return None;
    }
    let m = MipTex::decode_at(raw, 0);
    let w: u64 = m.width as u64;
    let h: u64 = m.height as u64;
    proof {
        assert(w * h <= u64::MAX) by (nonlinear_arith)
            requires
                w < 0x1_0000_0000,
                h < 0x1_0000_0000,
        ;
        assert((w / 2) * (h / 2) <= w * h && (w / 4) * (h / 4) <= w * h && (w / 8) * (h / 8) <= w
            * h) by (nonlinear_arith)
            requires
                0 <= w,
                0 <= h,
        ;
    }
    let wh: u64 = w * h;
    if wh > (usize::MAX / 4) as u64 {
        proof {
            assert(wh * 4 > usize::MAX) by (nonlinear_arith)
                requires
                    wh > usize::MAX as int / 4,
            ;
            assert(w * h * 4 > usize::MAX) by (nonlinear_arith)
                requires
                    wh == w * h,
                    wh * 4 > usize::MAX,
            ;
        }
        return None;
    }
    proof {
        assert(w * h * 4 <= usize::MAX) by (nonlinear_arith)
            requires
                wh == w * h,
                wh <= usize::MAX as int / 4,
        ;
    }
    if m.offsets.0 as u64 > rn as u64 || w * h > rn as u64 - m.offsets.0 as u64 {
        return None;
    }
    if m.offsets.1 as u64 > rn as u64 || (w / 2) * (h / 2) > rn as u64 - m.offsets.1 as u64 {
        return None;
    }
    if m.offsets.2 as u64 > rn as u64 || (w / 4) * (h / 4) > rn as u64 - m.offsets.2 as u64 {
        return None;
    }
    if m.offsets.3 as u64 > rn as u64 || (w / 8) * (h / 8) > rn as u64 - m.offsets.3 as u64 {
        return None;
    }
    let qo64: u64 = m.offsets.3 as u64 + (w / 8) * (h / 8) + 2;
    if qo64 > rn as u64 || 768 > rn as u64 - qo64 {
        return None;
    }
    let qo: usize = qo64 as usize;
    proof {
        assert(w * h == m.width * m.height) by (nonlinear_arith)
            requires
                w == m.width,
                h == m.height,
        ;
        assert((w / 2) * (h / 2) == (m.width as int / 2) * (m.height as int / 2))
            by (nonlinear_arith)
            requires
                w == m.width,
                h == m.height,
        ;
        assert((w / 4) * (h / 4) == (m.width as int / 4) * (m.height as int / 4))
            by (nonlinear_arith)
            requires
                w == m.width,
                h == m.height,
        ;
        assert((w / 8) * (h / 8) == (m.width as int / 8) * (m.height as int / 8))
            by (nonlinear_arith)
            requires
                w == m.width,
                h == m.height,
        ;
    }
    Some((m, qo))
}

impl Wad {
    /// Decodes a raw texture into its four RGBA mip levels: each texel
    /// byte indexes the 256-entry palette stored behind the last level,
    /// and each level then goes through the alpha-key pass.  Fails
    /// exactly on a buffer whose declared layout does not fit.
    pub fn create_mip_texture(raw_texture: &Vec<u8>) -> (r: Option<MipmapTexture>)
        ensures
            r is Some <==> spec_mip_data_valid(raw_texture@),
            r is Some ==> spec_mip_levels_ok(r->Some_0, raw_texture@),
    {
        let checked = check_mip_data(raw_texture);
        let (m, qo) = match checked {
            Some(v) => v,
            None => {
                return None;
            },
        };
        let w: usize = m.width as usize;
        let h: usize = m.height as usize;
        proof {
            lemma_level_dims_fit(w as int, h as int);
        }
        let img0 = decode_level(raw_texture, m.offsets.0 as usize, qo, w, h);
        let img1 = decode_level(raw_texture, m.offsets.1 as usize, qo, w / 2, h / 2);
        let img2 = decode_level(raw_texture, m.offsets.2 as usize, qo, w / 4, h / 4);
        let img3 = decode_level(raw_texture, m.offsets.3 as usize, qo, w / 8, h / 8);
        let mut img: Vec<Image> = Vec::new();
        img.push(img0);
        img.push(img1);
        img.push(img2);
        img.push(img3);
        Some(MipmapTexture { img })
    }

    /// Decodes a raw decal texture: every texel takes the colour of
    /// palette entry 255, and the raw index byte becomes opacity as
    /// `255 - index`.  Fails exactly as `create_mip_texture` does.
    pub fn create_decal_texture(raw_texture: &Vec<u8>) -> (r: Option<MipmapTexture>)
        ensures
            r is Some <==> spec_mip_data_valid(raw_texture@),
            r is Some ==> spec_decal_levels_ok(r->Some_0, raw_texture@),
    {
        let checked = check_mip_data(raw_texture);
        let (m, qo) = match checked {
            Some(v) => v,
            None => {
                return None;
            },
        };
        let w: usize = m.width as usize;
        let h: usize = m.height as usize;
        proof {
            lemma_level_dims_fit(w as int, h as int);
        }
        let img0 = decode_decal_level(raw_texture, m.offsets.0 as usize, qo, w, h);
        let img1 = decode_decal_level(raw_texture, m.offsets.1 as usize, qo, w / 2, h / 2);
        let img2 = decode_decal_level(raw_texture, m.offsets.2 as usize, qo, w / 4, h / 4);
        let img3 = decode_decal_level(raw_texture, m.offsets.3 as usize, qo, w / 8, h / 8);
        let mut img: Vec<Image> = Vec::new();
        img.push(img0);
        img.push(img1);
        img.push(img2);
        img.push(img3);
        Some(MipmapTexture { img })
    }

    /// Looks a texture up by name and decodes it.  `None` on a miss, a
    /// compressed entry, or a raw texture whose layout does not fit.
    pub fn load_texture(&self, name: &Vec<u8>) -> (r: Option<MipmapTexture>)
        ensures
            r is Some <==> self.spec_get_texture(name@).len() > 0 && spec_mip_data_valid(
                self.spec_get_texture(name@)),
            r is Some ==> spec_mip_levels_ok(r->Some_0, self.spec_get_texture(name@)),
    {
        let raw_texture = self.get_texture(name);
        if raw_texture.len() == 0 {
            proof {
                if spec_mip_data_valid(raw_texture@) {
                    assert(raw_texture@.len() >= 40);
                }
            }
            return None;
        }
        Self::create_mip_texture(&raw_texture)
    }

    /// Looks a decal texture up by name and decodes it with the decal
    /// palette convention.
    pub fn load_decal_texture(&self, name: &Vec<u8>) -> (r: Option<MipmapTexture>)
        ensures
            r is Some <==> self.spec_get_texture(name@).len() > 0 && spec_mip_data_valid(
                self.spec_get_texture(name@)),
            r is Some ==> spec_decal_levels_ok(r->Some_0, self.spec_get_texture(name@)),
    {
        let raw_texture = self.get_texture(name);
        if raw_texture.len() == 0 {
            return None;
        }
        Self::create_decal_texture(&raw_texture)
    }
}

/// Each smaller level fits in memory when the full-size level does.
proof fn lemma_level_dims_fit(w: int, h: int)
    requires
        0 <= w,
        0 <= h,
        w * h * 4 <= usize::MAX,
    ensures
        (w / 2) * (h / 2) * 4 <= usize::MAX,
        (w / 4) * (h / 4) * 4 <= usize::MAX,
        (w / 8) * (h / 8) * 4 <= usize::MAX,
{
    assert((w / 2) * (h / 2) <= w * h && (w / 4) * (h / 4) <= w * h && (w / 8) * (h / 8) <= w * h)
        by (nonlinear_arith)
        requires
            0 <= w,
            0 <= h,
    ;
    assert((w / 2) * (h / 2) * 4 <= w * h * 4 && (w / 4) * (h / 4) * 4 <= w * h * 4 && (w / 8) * (h
        / 8) * 4 <= w * h * 4) by (nonlinear_arith)
        requires
            0 <= w,
            0 <= h,
            (w / 2) * (h / 2) <= w * h,
            (w / 4) * (h / 4) <= w * h,
            (w / 8) * (h / 8) <= w * h,
    ;
}

} // verus!
