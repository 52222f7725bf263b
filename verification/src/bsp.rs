//! The map aggregate: the decoded record arrays of one level, the
//! loader that fills them from the file bytes, and the spatial queries
//! (point location, visible-leaf counting, visibility decompression)
//! answered against the decoded tree.

use vstd::prelude::*;

verus! {

use crate::bsp30::{
    Header, Lump, LumpType, Node, Leaf, Plane, Edge, Face, ClipNode, Model as WireModel,
    TextureInfo, TextureHeader, MipTex, MipTexOffset, MarkSurface, SurfaceEdge, WireRecord,
    FormatError, FormatReason, decode_lump, spec_lump_records, spec_lump_valid, Vec3Bits,
    Vec3i16, HEADER_LUMP_COUNT, HEADER_SIZE,
};
use crate::codec::{le_u32, le_i32};
use crate::entity::{Entity, spec_find_byte, find_byte, spec_lookup, spec_parse_props, bytes_eq,
    copy_range};
use crate::mathutil::{Vec3i, spec_point_in_box, point_in_box};
use crate::wad::{Wad, MipmapTexture, spec_mip_data_valid};
use crate::image::Image;
use crate::vis::{bit_set_contents, bit_set_new, bit_set_insert};

/// A decal: the texture it pastes and the four world-space corners of
/// its quad, all carried as raw single-precision bits the rendering
/// collaborator computes and consumes.
pub struct Decal {
    pub tex_index: u32,
    pub normal: Vec3Bits,
    pub vec: (Vec3Bits, Vec3Bits, Vec3Bits, Vec3Bits),
}

/// A collision hull: a clip-node subtree over its own plane array, with
/// the bounding-box inflation this hull is queried at, in integer map
/// units.
pub struct Hull {
    pub clip_nodes: Vec<ClipNode>,
    pub planes: Vec<Plane>,
    pub first_clip_node: isize,
    pub last_clip_node: isize,
    pub clip_mins: Vec3i,
    pub clip_maxs: Vec3i,
}

impl Hull {
    /// An empty hull with zeroed bounds.
    pub fn new() -> (r: Self)
        ensures
            r.clip_nodes@.len() == 0,
            r.planes@.len() == 0,
            r.first_clip_node == 0,
            r.last_clip_node == 0,
            r.clip_mins == (Vec3i { x: 0, y: 0, z: 0 }),
            r.clip_maxs == (Vec3i { x: 0, y: 0, z: 0 }),
    {
        Hull {
            clip_nodes: Vec::new(),
            planes: Vec::new(),
            first_clip_node: 0,
            last_clip_node: 0,
            clip_mins: Vec3i { x: 0, y: 0, z: 0 },
            clip_maxs: Vec3i { x: 0, y: 0, z: 0 },
        }
    }
}

/// A brush model together with its four collision hulls.
pub struct Model {
    pub model: WireModel,
    pub hulls: Vec<Hull>,
}

impl Model {
    /// A zeroed model with four empty hulls.
    pub fn new() -> (r: Self)
        ensures
            r.hulls@.len() == 4,
    {
        let mut hulls: Vec<Hull> = Vec::new();
        hulls.push(Hull::new());
        hulls.push(Hull::new());
        hulls.push(Hull::new());
        hulls.push(Hull::new());
        Model { model: WireModel::new(), hulls }
    }
}

/// The value of `spec_parse_u32` once `acc` has been read: the decimal
/// number the remaining digits spell, or nothing on a non-digit or on
/// overflow past `u32::MAX`.
pub open spec fn spec_parse_u32_from(s: Seq<u8>, i: int, acc: int) -> Option<int>
    decreases s.len() - i,
{
    if i < 0 || i >= s.len() {
        Some(acc)
    } else if 48 <= s[i] <= 57 {
        let acc2 = acc * 10 + (s[i] - 48);
        if acc2 > u32::MAX {
            None
        } else {
            spec_parse_u32_from(s, i + 1, acc2)
        }
    } else {
        None
    }
}

/// The unsigned decimal number `s` spells, if it is one or more digits
/// whose value fits a `u32`.
pub open spec fn spec_parse_u32(s: Seq<u8>) -> Option<int> {
    if s.len() == 0 {
        None
    } else {
        spec_parse_u32_from(s, 0, 0)
    }
}

/// Parses an unsigned decimal number.
pub fn parse_u32_bytes(s: &Vec<u8>, from: usize) -> (r: Option<u32>)
    requires
        from <= s@.len(),
    ensures
        r is Some <==> (from < s@.len() && spec_parse_u32_from(s@, from as int, 0) is Some),
        r is Some ==> Some(r->Some_0 as int) == spec_parse_u32_from(s@, from as int, 0),
{
    let n: usize = s.len();
    if from >= n {
        return None;
    }
    let mut acc: u32 = 0;
    let mut i: usize = from;
    while i < n
        invariant
            from <= i <= n,
            n == s@.len(),
            spec_parse_u32_from(s@, from as int, 0) == spec_parse_u32_from(s@, i as int, acc as int),
        decreases n - i,
    {
        let b = s[i];
        if b < 48 || b > 57 {
            return None;
        }
        let d: u32 = (b - 48) as u32;
        if acc > (u32::MAX - d) / 10 {
            proof {
                assert(acc * 10 + d > u32::MAX) by (nonlinear_arith)
                    requires
                        acc > ((u32::MAX - d) as int) / 10,
                        0 <= d <= 9,
                        acc <= u32::MAX,
                ;
            }
            return None;
        }
        proof {
            assert(acc * 10 + d <= u32::MAX) by (nonlinear_arith)
                requires
                    acc <= ((u32::MAX - d) as int) / 10,
                    0 <= d <= 9,
            ;
        }
        acc = acc * 10 + d;
        i = i + 1;
    }
    Some(acc)
}

/// The signed decimal number `s` spells: an optional minus sign before
/// the digits, with the magnitude capped at `i32` range.
pub open spec fn spec_parse_i32(s: Seq<u8>) -> Option<int> {
    if s.len() > 0 && s[0] == 45 {
        match spec_parse_u32_from(s.subrange(1, s.len() as int), 0, 0) {
            Some(v) => if s.len() == 1 {
                None
            } else if v <= 0x8000_0000 {
                Some(-v)
            } else {
                None
            },
            None => None,
        }
    } else {
        match spec_parse_u32(s) {
            Some(v) => if v <= 0x7fff_ffff {
                Some(v)
            } else {
                None
            },
            None => None,
        }
    }
}

/// Parses a signed decimal number.
pub fn parse_i32_bytes(s: &Vec<u8>) -> (r: Option<i32>)
    ensures
        r is Some <==> spec_parse_i32(s@) is Some,
        r is Some ==> Some(r->Some_0 as int) == spec_parse_i32(s@),
{
    let n: usize = s.len();
    if n > 0 && s[0] == 45 {
        let rest = copy_range(s, 1, n);
        proof {
            assert(rest@ == s@.subrange(1, s@.len() as int));
        }
        match parse_u32_bytes(&rest, 0) {
            Some(v) => {
                if v <= 0x8000_0000 {
                    Some((-(v as i64)) as i32)
                } else {
                    None
                }
            },
            None => None,
        }
    } else {
        match parse_u32_bytes(s, 0) {
            Some(v) => {
                if v <= 0x7fff_ffff {
                    Some(v as i32)
                } else {
                    None
                }
            },
            None => None,
        }
    }
}

/// The three whole-number coordinates an `origin` property spells:
/// exactly three space-separated signed integers, else nothing.
pub open spec fn spec_parse_origin(s: Seq<u8>) -> Option<(int, int, int)> {
    let sp1 = spec_find_byte(s, 0, 32);
    if sp1 == -1 {
        None
    } else {
        let sp2 = spec_find_byte(s, sp1 + 1, 32);
        if sp2 == -1 || spec_find_byte(s, sp2 + 1, 32) != -1 {
            None
        } else {
            let a = spec_parse_i32(s.subrange(0, sp1));
            let b = spec_parse_i32(s.subrange(sp1 + 1, sp2));
            let c = spec_parse_i32(s.subrange(sp2 + 1, s.len() as int));
            if a is Some && b is Some && c is Some {
                Some((a->Some_0, b->Some_0, c->Some_0))
            } else {
                None
            }
        }
    }
}

/// A parsed unsigned number never exceeds `u32::MAX`: the parser
/// rejects anything larger.
pub proof fn lemma_parse_u32_from_bounds(s: Seq<u8>, i: int, acc: int)
    requires
        0 <= acc <= u32::MAX,
    ensures
        spec_parse_u32_from(s, i, acc) is Some ==> 0 <= spec_parse_u32_from(s, i, acc)->Some_0
            <= u32::MAX,
    decreases s.len() - i,
{
    if 0 <= i < s.len() && 48 <= s[i] <= 57 {
        let acc2 = acc * 10 + (s[i] - 48);
        if acc2 <= u32::MAX {
            lemma_parse_u32_from_bounds(s, i + 1, acc2);
        }
    }
}

/// A parsed signed number always fits an `i32`.
pub proof fn lemma_parse_i32_bounds(s: Seq<u8>)
    ensures
        spec_parse_i32(s) is Some ==> -0x8000_0000 <= spec_parse_i32(s)->Some_0 <= 0x7fff_ffff,
{
    if s.len() > 0 && s[0] == 45 {
        lemma_parse_u32_from_bounds(s.subrange(1, s.len() as int), 0, 0);
    } else {
        lemma_parse_u32_from_bounds(s, 0, 0);
    }
}

/// Every coordinate of a parsed origin fits an `i32`.
pub proof fn lemma_parse_origin_bounds(s: Seq<u8>)
    ensures
        spec_parse_origin(s) is Some ==> {
            let o = spec_parse_origin(s)->Some_0;
            &&& -0x8000_0000 <= o.0 <= 0x7fff_ffff
            &&& -0x8000_0000 <= o.1 <= 0x7fff_ffff
            &&& -0x8000_0000 <= o.2 <= 0x7fff_ffff
        },
{
    let sp1 = spec_find_byte(s, 0, 32);
    if sp1 != -1 {
        let sp2 = spec_find_byte(s, sp1 + 1, 32);
        if sp2 != -1 && spec_find_byte(s, sp2 + 1, 32) == -1 {
            lemma_parse_i32_bounds(s.subrange(0, sp1));
            lemma_parse_i32_bounds(s.subrange(sp1 + 1, sp2));
            lemma_parse_i32_bounds(s.subrange(sp2 + 1, s.len() as int));
        }
    }
}

/// Parses an `origin` property into integer map coordinates.
pub fn parse_origin_bytes(s: &Vec<u8>) -> (r: Option<Vec3i>)
    ensures
        r is Some <==> spec_parse_origin(s@) is Some,
        r is Some ==> {
            let (a, b, c) = spec_parse_origin(s@)->Some_0;
            r->Some_0 == (Vec3i { x: a as i32, y: b as i32, z: c as i32 })
        },
{
    let n: usize = s.len();
    let sp1 = match find_byte(s, 0, 32) {
        Some(v) => v,
        None => {
            return None;
        },
    };
    let sp2 = match find_byte(s, sp1 + 1, 32) {
        Some(v) => v,
        None => {
            return None;
        },
    };
    match find_byte(s, sp2 + 1, 32) {
        Some(_) => {
            return None;
        },
        None => {},
    }
    let ta = copy_range(s, 0, sp1);
    let tb = copy_range(s, sp1 + 1, sp2);
    let tc = copy_range(s, sp2 + 1, n);
    let a = match parse_i32_bytes(&ta) {
        Some(v) => v,
        None => {
            return None;
        },
    };
    let b = match parse_i32_bytes(&tb) {
        Some(v) => v,
        None => {
            return None;
        },
    };
    let c = match parse_i32_bytes(&tc) {
        Some(v) => v,
        None => {
            return None;
        },
    };
    Some(Vec3i { x: a, y: b, z: c })
}

/// Widens a wire bounding-box corner to integer map units.
pub open spec fn spec_vec3i_of(v: Vec3i16) -> Vec3i {
    Vec3i { x: v.x as i32, y: v.y as i32, z: v.z as i32 }
}

pub fn vec3i_of(v: Vec3i16) -> (r: Vec3i)
    ensures
        r == spec_vec3i_of(v),
{
    Vec3i { x: v.x as i32, y: v.y as i32, z: v.z as i32 }
}

/// The leaf the box-containment walk reaches from `node`, with at most
/// `fuel` node visits.  At each node the walk tries the two children in
/// order: a child node whose box holds the point is descended into and
/// decides the answer; a child leaf (other than the empty-leaf mark)
/// whose box holds the point is the answer; otherwise nothing is found.
/// A child index pointing outside its array is passed over.
pub open spec fn spec_find_leaf(
    nodes: Seq<Node>,
    leaves: Seq<Leaf>,
    pos: Vec3i,
    node: int,
    fuel: nat,
) -> Option<i16>
    decreases fuel,
{
    if fuel == 0 || node < 0 || node >= nodes.len() {
        None
    } else {
        let c0 = nodes[node].child_index.0 as int;
        let c1 = nodes[node].child_index.1 as int;
        if c0 >= 0 && c0 < nodes.len() && spec_point_in_box(
            pos,
            spec_vec3i_of(nodes[c0].lower),
            spec_vec3i_of(nodes[c0].upper),
        ) {
            spec_find_leaf(nodes, leaves, pos, c0, (fuel - 1) as nat)
        } else if c0 < -1 && -c0 - 1 < leaves.len() && spec_point_in_box(
            pos,
            spec_vec3i_of(leaves[-c0 - 1].lower),
            spec_vec3i_of(leaves[-c0 - 1].upper),
        ) {
            Some((-c0 - 1) as i16)
        } else if c1 >= 0 && c1 < nodes.len() && spec_point_in_box(
            pos,
            spec_vec3i_of(nodes[c1].lower),
            spec_vec3i_of(nodes[c1].upper),
        ) {
            spec_find_leaf(nodes, leaves, pos, c1, (fuel - 1) as nat)
        } else if c1 < -1 && -c1 - 1 < leaves.len() && spec_point_in_box(
            pos,
            spec_vec3i_of(leaves[-c1 - 1].lower),
            spec_vec3i_of(leaves[-c1 - 1].upper),
        ) {
            Some((-c1 - 1) as i16)
        } else {
            None
        }
    }
}

/// The number of non-solid leaves under a node index, counted with at
/// most `fuel` node visits and saturating instead of overflowing.  A
/// negative index is the bit-complement of a leaf: the empty-leaf mark,
/// an index outside the leaf array and a solid leaf count zero, every
/// other leaf counts one.
pub open spec fn spec_count_vis(
    nodes: Seq<Node>,
    leaves: Seq<Leaf>,
    node: int,
    fuel: nat,
) -> int
    decreases fuel,
{
    if node < 0 {
        if node == -1 || -node - 1 >= leaves.len() {
            0
        } else if leaves[-node - 1].content == crate::bsp30::ContentType::ContentsSolid.spec_code() {
            0
        } else {
            1
        }
    } else if fuel == 0 || node >= nodes.len() {
        0
    } else {
        let l = spec_count_vis(nodes, leaves, nodes[node].child_index.0 as int, (fuel - 1) as nat);
        let r = spec_count_vis(nodes, leaves, nodes[node].child_index.1 as int, (fuel - 1) as nat);
        if l + r > usize::MAX {
            usize::MAX as int
        } else {
            l + r
        }
    }
}

/// A tree whose leaves are all solid has no visible leaf.
pub proof fn lemma_count_vis_all_solid(nodes: Seq<Node>, leaves: Seq<Leaf>, node: int, fuel: nat)
    requires
        forall|i: int|
            0 <= i < leaves.len() ==> (#[trigger] leaves[i]).content
                == crate::bsp30::ContentType::ContentsSolid.spec_code(),
    ensures
        spec_count_vis(nodes, leaves, node, fuel) == 0,
    decreases fuel,
{
    if node >= 0 && fuel > 0 && node < nodes.len() {
        lemma_count_vis_all_solid(nodes, leaves, nodes[node].child_index.0 as int,
            (fuel - 1) as nat);
        lemma_count_vis_all_solid(nodes, leaves, nodes[node].child_index.1 as int,
            (fuel - 1) as nat);
    }
}

/// The box-containment walk is a function of the tree and the point
/// alone: two walks from the same node over the same arrays end at the
/// same leaf.
pub proof fn lemma_find_leaf_deterministic(
    nodes: Seq<Node>,
    leaves: Seq<Leaf>,
    pos: Vec3i,
    node: int,
    fuel: nat,
    r1: Option<i16>,
    r2: Option<i16>,
)
    requires
        r1 == spec_find_leaf(nodes, leaves, pos, node, fuel),
        r2 == spec_find_leaf(nodes, leaves, pos, node, fuel),
    ensures
        r1 == r2,
{
}

/// The bits of one literal visibility byte, placed at output byte
/// `out`.
pub open spec fn spec_byte_bits(b: u8, out: int) -> Set<usize> {
    Set::new(
        |i: usize|
            out * 8 <= i < out * 8 + 8 && (b >> ((i - out * 8) as u8)) & 1 == 1,
    )
}

/// The set of leaf-numbered bits the run-length decoder emits, reading
/// `c` from `read` with `out` output bytes already produced, until
/// `row` output bytes are covered or the stream ends.  A zero byte
/// carries a count of empty output bytes in the byte after it; any
/// other byte is a literal bitmask.
pub open spec fn spec_vis_bits(c: Seq<u8>, read: int, out: int, row: int) -> Set<usize>
    decreases c.len() - read,
{
    if out >= row || read < 0 || read >= c.len() {
        Set::empty()
    } else if c[read] == 0 {
        if read + 1 < c.len() {
            spec_vis_bits(c, read + 2, out + c[read + 1], row)
        } else {
            Set::empty()
        }
    } else {
        spec_byte_bits(c[read], out).union(spec_vis_bits(c, read + 1, out + 1, row))
    }
}

/// Inserts the set bits of one literal byte, numbered from output byte
/// `out`.
fn insert_byte_bits(pvs: &mut bit_set::BitSet, b: u8, out: usize)
    requires
        out * 8 + 8 <= usize::MAX,
    ensures
        bit_set_contents(*final(pvs)) == bit_set_contents(*old(pvs)).union(
            spec_byte_bits(b, out as int),
        ),
{
    let base: usize = out * 8;
    let mut j: usize = 0;
    while j < 8
        invariant
            j <= 8,
            base == out * 8,
            base + 8 <= usize::MAX,
            bit_set_contents(*pvs) == bit_set_contents(*old(pvs)).union(
                Set::new(
                    |i: usize|
                        out * 8 <= i < out * 8 + j && (b >> ((i - out * 8) as u8)) & 1 == 1,
                ),
            ),
        decreases 8 - j,
    {
        let ghost before = bit_set_contents(*pvs);
        if (b >> (j as u8)) & 1 == 1 {
            bit_set_insert(pvs, base + j);
        }
        proof {
            assert(bit_set_contents(*pvs) =~= bit_set_contents(*old(pvs)).union(
                Set::new(
                    |i: usize|
                        out * 8 <= i < out * 8 + (j + 1) && (b >> ((i - out * 8) as u8)) & 1
                            == 1,
                ),
            ));
        }
        j = j + 1;
    }
    proof {
        assert(bit_set_contents(*pvs) =~= bit_set_contents(*old(pvs)).union(
            spec_byte_bits(b, out as int),
        ));
    }
}

/// The bytes of the property name or value `classname`.
pub open spec fn spec_classname_bytes() -> Seq<u8> {
    seq![99, 108, 97, 115, 115, 110, 97, 109, 101]
}

pub fn classname_bytes() -> (r: Vec<u8>)
    ensures
        r@ == spec_classname_bytes(),
{
    let r: Vec<u8> = vec![99, 108, 97, 115, 115, 110, 97, 109, 101];
    proof {
        assert(r@ =~= spec_classname_bytes());
    }
    r
}

/// The bytes of the property name or value `origin`.
pub open spec fn spec_origin_bytes() -> Seq<u8> {
    seq![111, 114, 105, 103, 105, 110]
}

pub fn origin_bytes() -> (r: Vec<u8>)
    ensures
        r@ == spec_origin_bytes(),
{
    let r: Vec<u8> = vec![111, 114, 105, 103, 105, 110];
    proof {
        assert(r@ =~= spec_origin_bytes());
    }
    r
}

/// The bytes of the property name or value `model`.
pub open spec fn spec_model_bytes() -> Seq<u8> {
    seq![109, 111, 100, 101, 108]
}

pub fn model_bytes() -> (r: Vec<u8>)
    ensures
        r@ == spec_model_bytes(),
{
    let r: Vec<u8> = vec![109, 111, 100, 101, 108];
    proof {
        assert(r@ =~= spec_model_bytes());
    }
    r
}

/// The bytes of the property name or value `rendermode`.
pub open spec fn spec_rendermode_bytes() -> Seq<u8> {
    seq![114, 101, 110, 100, 101, 114, 109, 111, 100, 101]
}

pub fn rendermode_bytes() -> (r: Vec<u8>)
    ensures
        r@ == spec_rendermode_bytes(),
{
    let r: Vec<u8> = vec![114, 101, 110, 100, 101, 114, 109, 111, 100, 101];
    proof {
        assert(r@ =~= spec_rendermode_bytes());
    }
    r
}

/// The bytes of the property name or value `wad`.
pub open spec fn spec_wad_bytes() -> Seq<u8> {
    seq![119, 97, 100]
}

pub fn wad_bytes() -> (r: Vec<u8>)
    ensures
        r@ == spec_wad_bytes(),
{
    let r: Vec<u8> = vec![119, 97, 100];
    proof {
        assert(r@ =~= spec_wad_bytes());
    }
    r
}

/// The bytes of the property name or value `texture`.
pub open spec fn spec_texture_bytes() -> Seq<u8> {
    seq![116, 101, 120, 116, 117, 114, 101]
}

pub fn texture_bytes() -> (r: Vec<u8>)
    ensures
        r@ == spec_texture_bytes(),
{
    let r: Vec<u8> = vec![116, 101, 120, 116, 117, 114, 101];
    proof {
        assert(r@ =~= spec_texture_bytes());
    }
    r
}

/// The bytes of the property name or value `worldspawn`.
pub open spec fn spec_worldspawn_bytes() -> Seq<u8> {
    seq![119, 111, 114, 108, 100, 115, 112, 97, 119, 110]
}

pub fn worldspawn_bytes() -> (r: Vec<u8>)
    ensures
        r@ == spec_worldspawn_bytes(),
{
    let r: Vec<u8> = vec![119, 111, 114, 108, 100, 115, 112, 97, 119, 110];
    proof {
        assert(r@ =~= spec_worldspawn_bytes());
    }
    r
}

/// The bytes of the property name or value `infodecal`.
pub open spec fn spec_infodecal_bytes() -> Seq<u8> {
    seq![105, 110, 102, 111, 100, 101, 99, 97, 108]
}

pub fn infodecal_bytes() -> (r: Vec<u8>)
    ensures
        r@ == spec_infodecal_bytes(),
{
    let r: Vec<u8> = vec![105, 110, 102, 111, 100, 101, 99, 97, 108];
    proof {
        assert(r@ =~= spec_infodecal_bytes());
    }
    r
}

/// The bytes of the property name or value `func_door_rotating`.
pub open spec fn spec_func_door_rotating_bytes() -> Seq<u8> {
    seq![102, 117, 110, 99, 95, 100, 111, 111, 114, 95, 114, 111, 116, 97, 116, 105, 110, 103]
}

pub fn func_door_rotating_bytes() -> (r: Vec<u8>)
    ensures
        r@ == spec_func_door_rotating_bytes(),
{
    let r: Vec<u8> = vec![102, 117, 110, 99, 95, 100, 111, 111, 114, 95, 114, 111, 116, 97, 116, 105, 110, 103];
    proof {
        assert(r@ =~= spec_func_door_rotating_bytes());
    }
    r
}

/// The bytes of the property name or value `func_door`.
pub open spec fn spec_func_door_bytes() -> Seq<u8> {
    seq![102, 117, 110, 99, 95, 100, 111, 111, 114]
}

pub fn func_door_bytes() -> (r: Vec<u8>)
    ensures
        r@ == spec_func_door_bytes(),
{
    let r: Vec<u8> = vec![102, 117, 110, 99, 95, 100, 111, 111, 114];
    proof {
        assert(r@ =~= spec_func_door_bytes());
    }
    r
}

/// The bytes of the property name or value `func_illusionary`.
pub open spec fn spec_func_illusionary_bytes() -> Seq<u8> {
    seq![102, 117, 110, 99, 95, 105, 108, 108, 117, 115, 105, 111, 110, 97, 114, 121]
}

pub fn func_illusionary_bytes() -> (r: Vec<u8>)
    ensures
        r@ == spec_func_illusionary_bytes(),
{
    let r: Vec<u8> = vec![102, 117, 110, 99, 95, 105, 108, 108, 117, 115, 105, 111, 110, 97, 114, 121];
    proof {
        assert(r@ =~= spec_func_illusionary_bytes());
    }
    r
}

/// The bytes of the property name or value `func_wall`.
pub open spec fn spec_func_wall_bytes() -> Seq<u8> {
    seq![102, 117, 110, 99, 95, 119, 97, 108, 108]
}

pub fn func_wall_bytes() -> (r: Vec<u8>)
    ensures
        r@ == spec_func_wall_bytes(),
{
    let r: Vec<u8> = vec![102, 117, 110, 99, 95, 119, 97, 108, 108];
    proof {
        assert(r@ =~= spec_func_wall_bytes());
    }
    r
}

/// The bytes of the property name or value `func_breakable`.
pub open spec fn spec_func_breakable_bytes() -> Seq<u8> {
    seq![102, 117, 110, 99, 95, 98, 114, 101, 97, 107, 97, 98, 108, 101]
}

pub fn func_breakable_bytes() -> (r: Vec<u8>)
    ensures
        r@ == spec_func_breakable_bytes(),
{
    let r: Vec<u8> = vec![102, 117, 110, 99, 95, 98, 114, 101, 97, 107, 97, 98, 108, 101];
    proof {
        assert(r@ =~= spec_func_breakable_bytes());
    }
    r
}

/// The bytes of the property name or value `func_button`.
pub open spec fn spec_func_button_bytes() -> Seq<u8> {
    seq![102, 117, 110, 99, 95, 98, 117, 116, 116, 111, 110]
}

pub fn func_button_bytes() -> (r: Vec<u8>)
    ensures
        r@ == spec_func_button_bytes(),
{
    let r: Vec<u8> = vec![102, 117, 110, 99, 95, 98, 117, 116, 116, 111, 110];
    proof {
        assert(r@ =~= spec_func_button_bytes());
    }
    r
}
/// Whether an entity is a brush entity: it names a `model` and its
/// `classname` is one of the fixed brush classes.
pub open spec fn spec_is_brush(props: Seq<(Seq<u8>, Seq<u8>)>) -> bool {
    &&& spec_lookup(props, spec_model_bytes()) is Some
    &&& match spec_lookup(props, spec_classname_bytes()) {
        Some(c) => c == spec_func_door_rotating_bytes() || c == spec_func_door_bytes() || c
            == spec_func_illusionary_bytes() || c == spec_func_wall_bytes() || c
            == spec_func_breakable_bytes() || c == spec_func_button_bytes(),
        None => false,
    }
}

/// The entity blocks of the entity text from `pos` on: each balanced
/// `{ ... }` block parsed into its property pairs.  An opening brace
/// with no closing partner ends the scan.
pub open spec fn spec_parse_entities(s: Seq<u8>, pos: int) -> Seq<Seq<(Seq<u8>, Seq<u8>)>>
    decreases s.len() - pos,
    when 0 <= pos
    via parse_entities_decreases
{
    let ob = spec_find_byte(s, pos, 123);
    if ob == -1 {
        Seq::empty()
    } else {
        let cb = spec_find_byte(s, ob + 1, 125);
        if cb == -1 {
            Seq::empty()
        } else {
            seq![spec_parse_props(s.subrange(ob + 1, cb), 0)] + spec_parse_entities(s, cb + 1)
        }
    }
}

#[via_fn]
proof fn parse_entities_decreases(s: Seq<u8>, pos: int) {
    crate::entity::lemma_find_byte(s, pos, 123);
    let ob = spec_find_byte(s, pos, 123);
    if ob != -1 {
        crate::entity::lemma_find_byte(s, ob + 1, 125);
    }
}

/// The map aggregate: every decoded record array of one level file,
/// the entity and texture stores filled by the loader, and the
/// visibility sets.  Wire values that are floating-point on disk stay
/// raw bit patterns here.
pub struct BSP {
    pub header: Header,
    pub vertices: Vec<Vec3Bits>,
    pub edges: Vec<Edge>,
    pub surface_edges: Vec<SurfaceEdge>,
    pub nodes: Vec<Node>,
    pub leaves: Vec<Leaf>,
    pub mark_surfaces: Vec<MarkSurface>,
    pub planes: Vec<Plane>,
    pub faces: Vec<Face>,
    pub clip_nodes: Vec<ClipNode>,
    pub texture_header: TextureHeader,
    pub mip_textures: Vec<MipTex>,
    pub mip_texture_offsets: Vec<MipTexOffset>,
    pub texture_infos: Vec<TextureInfo>,
    pub entities: Vec<Entity>,
    pub brush_entities: Vec<usize>,
    pub special_entities: Vec<usize>,
    pub m_decals: Vec<Decal>,
    pub vis_lists: Vec<bit_set::BitSet>,
    pub m_textures: Vec<MipmapTexture>,
    pub m_lightmaps: Vec<Image>,
    pub hull_0_clip_nodes: Vec<ClipNode>,
    pub models: Vec<Model>,
    /// The raw lighting lump, kept for the lightmap slicing step.
    pub light_map_data: Vec<u8>,
}

impl BSP {
    /// Scans the entity text for `{ ... }` blocks and parses each into
    /// an entity.
    pub fn parse_entities(entities_bytes: &Vec<u8>) -> (r: Vec<Entity>)
        ensures
            r@.len() == spec_parse_entities(entities_bytes@, 0).len(),
            forall|i: int|
                0 <= i < r@.len() ==> (#[trigger] r@[i]).spec_props() == spec_parse_entities(
                    entities_bytes@,
                    0,
                )[i],
    {
        let s = entities_bytes;
        let n: usize = s.len();
        let mut entities: Vec<Entity> = Vec::new();
        let mut pos: usize = 0;
        loop
            invariant
                s@ == entities_bytes@,
                n == s@.len(),
                Seq::new(entities@.len(), |i: int| entities@[i].spec_props())
                    + spec_parse_entities(s@, pos as int) == spec_parse_entities(s@, 0),
            decreases s@.len() - pos,
        {
            let ghost before = Seq::new(entities@.len(), |i: int| entities@[i].spec_props());
            let ob = match find_byte(s, pos, 123) {
                Some(v) => v,
                None => {
                    proof {
                        assert(spec_parse_entities(s@, pos as int) =~= Seq::<
                            Seq<(Seq<u8>, Seq<u8>)>,
                        >::empty());
                        assert(before =~= spec_parse_entities(s@, 0));
                        assert(Seq::new(entities@.len(), |i: int| entities@[i].spec_props())
                            =~= before);
                    }
                    return entities;
                },
            };
            let cb = match find_byte(s, ob + 1, 125) {
                Some(v) => v,
                None => {
                    proof {
                        assert(spec_parse_entities(s@, pos as int) =~= Seq::<
                            Seq<(Seq<u8>, Seq<u8>)>,
                        >::empty());
                        assert(before =~= spec_parse_entities(s@, 0));
                        assert(Seq::new(entities@.len(), |i: int| entities@[i].spec_props())
                            =~= before);
                    }
                    return entities;
                },
            };
            let block = copy_range(s, ob + 1, cb);
            let e = Entity::new(&block);
            entities.push(e);
            proof {
                let now = Seq::new(entities@.len(), |i: int| entities@[i].spec_props());
                assert(now =~= before + seq![spec_parse_props(s@.subrange(ob + 1, cb as int), 0)]);
                assert(spec_parse_entities(s@, pos as int) == seq![spec_parse_props(s@.subrange(
                    ob + 1, cb as int), 0)] + spec_parse_entities(s@, cb + 1));
                assert(now + spec_parse_entities(s@, cb + 1) =~= spec_parse_entities(s@, 0));
            }
            pos = cb + 1;
        }
    }

    /// The position of the first entity whose `classname` value equals
    /// `name`, or `-1`.
    pub open spec fn spec_find_entity_from(ents: Seq<Entity>, name: Seq<u8>, i: int) -> int
        decreases ents.len() - i,
    {
        if i < 0 || i >= ents.len() {
            -1
        } else if spec_lookup(ents[i].spec_props(), spec_classname_bytes()) == Some(name) {
            i
        } else {
            Self::spec_find_entity_from(ents, name, i + 1)
        }
    }

    /// The first entity carrying `classname` equal to `name`.
    pub fn find_entity<'a>(entities: &'a Vec<Entity>, name: &Vec<u8>) -> (r: Option<&'a Entity>)
        ensures
            r is Some <==> Self::spec_find_entity_from(entities@, name@, 0) >= 0,
            r is Some ==> *r->Some_0 == entities@[Self::spec_find_entity_from(entities@, name@,
                0)],
    {
        let n: usize = entities.len();
        let key = classname_bytes();
        let mut i: usize = 0;
        while i < n
            invariant
                i <= n,
                n == entities@.len(),
                key@ == spec_classname_bytes(),
                Self::spec_find_entity_from(entities@, name@, 0)
                    == Self::spec_find_entity_from(entities@, name@, i as int),
            decreases n - i,
        {
            match entities[i].find_property(&key) {
                Some(value) => {
                    if bytes_eq(value, name) {
                        return Some(&entities[i]);
                    }
                },
                None => {},
            }
            i = i + 1;
        }
        None
    }

    /// The positions of the entities from `i` on whose `classname`
    /// value equals `name`, in entity order.
    pub open spec fn spec_classname_list(ents: Seq<Entity>, name: Seq<u8>, i: int) -> Seq<usize>
        decreases ents.len() - i,
    {
        if i < 0 || i >= ents.len() {
            Seq::empty()
        } else if spec_lookup(ents[i].spec_props(), spec_classname_bytes()) == Some(name) {
            seq![i as usize] + Self::spec_classname_list(ents, name, i + 1)
        } else {
            Self::spec_classname_list(ents, name, i + 1)
        }
    }

    /// The positions of every entity carrying `classname` equal to
    /// `name`: the order-preserving filter of the entity list.
    pub fn find_entities(entities: &Vec<Entity>, name: &Vec<u8>) -> (r: Vec<usize>)
        ensures
            r@ == Self::spec_classname_list(entities@, name@, 0),
    {
        let n: usize = entities.len();
        let key = classname_bytes();
        let mut r: Vec<usize> = Vec::new();
        let mut i: usize = 0;
        while i < n
            invariant
                i <= n,
                n == entities@.len(),
                key@ == spec_classname_bytes(),
                r@ + Self::spec_classname_list(entities@, name@, i as int)
                    == Self::spec_classname_list(entities@, name@, 0),
            decreases n - i,
        {
            let ghost r_before = r@;
            let mut matched: bool = false;
            match entities[i].find_property(&key) {
                Some(value) => {
                    if bytes_eq(value, name) {
                        r.push(i);
                        matched = true;
                    }
                },
                None => {},
            }
            proof {
                if matched {
                    assert(r@ =~= r_before + seq![i as usize]);
                    assert(r@ + Self::spec_classname_list(entities@, name@, i + 1)
                        =~= Self::spec_classname_list(entities@, name@, 0));
                } else {
                    assert(r@ + Self::spec_classname_list(entities@, name@, i + 1)
                        =~= Self::spec_classname_list(entities@, name@, 0));
                }
            }
            i = i + 1;
        }
        proof {
            assert(Self::spec_classname_list(entities@, name@, n as int) =~= Seq::<
                usize,
            >::empty());
            assert(r@ =~= r@ + Seq::<usize>::empty());
        }
        r
    }

    /// Whether an entity is a brush entity: it names a `model` and a
    /// recognised brush `classname`.
    pub fn is_brush_entity(entity: &Entity) -> (r: bool)
        ensures
            r == spec_is_brush(entity.spec_props()),
    {
        let model_key = model_bytes();
        if entity.find_property(&model_key).is_none() {
            return false;
        }
        let classname_key = classname_bytes();
        let classname = match entity.find_property(&classname_key) {
            Some(value) => value,
            None => {
                return false;
            },
        };
        let c1 = func_door_rotating_bytes();
        let c2 = func_door_bytes();
        let c3 = func_illusionary_bytes();
        let c4 = func_wall_bytes();
        let c5 = func_breakable_bytes();
        let c6 = func_button_bytes();
        bytes_eq(classname, &c1) || bytes_eq(classname, &c2) || bytes_eq(classname, &c3)
            || bytes_eq(classname, &c4) || bytes_eq(classname, &c5) || bytes_eq(classname, &c6)
    }

    /// The box-containment point-location walk, bounded by `fuel` node
    /// visits.
    fn find_leaf_depth(&self, pos: Vec3i, node: usize, fuel: usize) -> (r: Option<i16>)
        ensures
            r == spec_find_leaf(self.nodes@, self.leaves@, pos, node as int, fuel as nat),
        decreases fuel,
    {
        if fuel == 0 || node >= self.nodes.len() {
            return None;
        }
        let c0 = self.nodes[node].child_index.0;
        let c1 = self.nodes[node].child_index.1;
        if c0 >= 0 && (c0 as usize) < self.nodes.len() && point_in_box(
            pos,
            vec3i_of(self.nodes[c0 as usize].lower),
            vec3i_of(self.nodes[c0 as usize].upper),
        ) {
            self.find_leaf_depth(pos, c0 as usize, fuel - 1)
        } else if c0 < -1 && ((-(c0 as i32) - 1) as usize) < self.leaves.len() && point_in_box(
            pos,
            vec3i_of(self.leaves[(-(c0 as i32) - 1) as usize].lower),
            vec3i_of(self.leaves[(-(c0 as i32) - 1) as usize].upper),
        ) {
            Some((-(c0 as i32) - 1) as i16)
        } else if c1 >= 0 && (c1 as usize) < self.nodes.len() && point_in_box(
            pos,
            vec3i_of(self.nodes[c1 as usize].lower),
            vec3i_of(self.nodes[c1 as usize].upper),
        ) {
            self.find_leaf_depth(pos, c1 as usize, fuel - 1)
        } else if c1 < -1 && ((-(c1 as i32) - 1) as usize) < self.leaves.len() && point_in_box(
            pos,
            vec3i_of(self.leaves[(-(c1 as i32) - 1) as usize].lower),
            vec3i_of(self.leaves[(-(c1 as i32) - 1) as usize].upper),
        ) {
            Some((-(c1 as i32) - 1) as i16)
        } else {
            None
        }
    }

    /// Locates the leaf whose box holds `pos`, walking from `node`.
    /// The walk gives up after one visit per node of the tree, so a
    /// malformed cyclic tree cannot hang it.
    pub fn find_leaf(&self, pos: Vec3i, node: usize) -> (r: Option<i16>)
        ensures
            r == spec_find_leaf(self.nodes@, self.leaves@, pos, node as int, self.nodes@.len()),
    {
        self.find_leaf_depth(pos, node, self.nodes.len())
    }

    /// The visible-leaf count, bounded by `fuel` node visits.
    fn count_vis_leaves_depth(&self, i_node: i32, fuel: usize) -> (r: usize)
        requires
            -32768 <= i_node <= 32767,
        ensures
            r == spec_count_vis(self.nodes@, self.leaves@, i_node as int, fuel as nat),
        decreases fuel,
    {
        if i_node < 0 {
            let leaf = (-i_node - 1) as usize;
            if i_node == -1 || leaf >= self.leaves.len() {
                return 0;
            }
            if self.leaves[leaf].content == crate::bsp30::ContentType::ContentsSolid.code() {
                return 0;
            }
            return 1;
        }
        if fuel == 0 || i_node as usize >= self.nodes.len() {
            return 0;
        }
        let l = self.count_vis_leaves_depth(
            self.nodes[i_node as usize].child_index.0 as i32,
            fuel - 1,
        );
        let r = self.count_vis_leaves_depth(
            self.nodes[i_node as usize].child_index.1 as i32,
            fuel - 1,
        );
        if l > usize::MAX - r {
            usize::MAX
        } else {
            l + r
        }
    }

    /// Counts the non-solid leaves under a node: the empty-leaf mark
    /// and solid leaves contribute nothing, every other leaf one.
    pub fn count_vis_leaves(&self, i_node: i16) -> (r: usize)
        ensures
            r == spec_count_vis(self.nodes@, self.leaves@, i_node as int, self.nodes@.len()),
    {
        self.count_vis_leaves_depth(i_node as i32, self.nodes.len())
    }

    /// Run-length decodes one leaf's potentially-visible set, starting
    /// at the leaf's stored offset into the compressed stream.  Reading
    /// past the end of the stream leaves the remaining bits unset.
    pub fn decompress_vis(&self, leaf: usize, compressed_vis: &Vec<u8>) -> (pvs: bit_set::BitSet)
        requires
            leaf < self.leaves@.len(),
            0 <= self.leaves@[leaf as int].vis_offset,
            self.leaves@.len() * 8 + 8 <= usize::MAX,
        ensures
            bit_set_contents(pvs) == spec_vis_bits(
                compressed_vis@,
                self.leaves@[leaf as int].vis_offset as int,
                0,
                (self.leaves@.len() as int + 7) / 8,
            ),
    {
        let leaf_count: usize = self.leaves.len();
        let row: usize = if leaf_count % 8 == 0 {
            leaf_count / 8
        } else {
            leaf_count / 8 + 1
        };
        proof {
            assert(row == (leaf_count as int + 7) / 8);
        }
        let clen: usize = compressed_vis.len();
        let mut pvs = bit_set_new();
        let mut read: usize = self.leaves[leaf].vis_offset as usize;
        let ghost read0 = read as int;
        let mut out: usize = 0;
        while out < row && read < clen
            invariant
                clen == compressed_vis@.len(),
                leaf < self.leaves@.len(),
                read0 == self.leaves@[leaf as int].vis_offset as int,
                row == (self.leaves@.len() as int + 7) / 8,
                row <= self.leaves@.len() / 8 + 1,
                self.leaves@.len() * 8 + 8 <= usize::MAX,
                bit_set_contents(pvs).union(
                    spec_vis_bits(compressed_vis@, read as int, out as int, row as int),
                ) == spec_vis_bits(compressed_vis@, read0, 0, row as int),
            decreases clen - read,
        {
            let b = compressed_vis[read];
            if b == 0 {
                if read + 1 < clen {
                    let run: usize = compressed_vis[read + 1] as usize;
                    proof {
                        assert(spec_vis_bits(compressed_vis@, read as int, out as int, row as int)
                            == spec_vis_bits(compressed_vis@, read + 2, out + run, row as int));
                    }
                    if run > row - out {
                        out = row;
                        proof {
                            assert(spec_vis_bits(compressed_vis@, read + 2, out as int + run,
                                row as int) =~= Set::<usize>::empty());
                            assert(spec_vis_bits(compressed_vis@, read + 2, row as int,
                                row as int) =~= Set::<usize>::empty());
                        }
                    } else {
                        out = out + run;
                    }
                    read = read + 2;
                } else {
                    proof {
                        assert(spec_vis_bits(compressed_vis@, read as int, out as int, row as int)
                            =~= Set::<usize>::empty());
                        assert(bit_set_contents(pvs).union(Set::<usize>::empty())
                            =~= bit_set_contents(pvs));
                        assert(bit_set_contents(pvs) =~= spec_vis_bits(compressed_vis@, read0, 0,
                            row as int));
                    }
                    return pvs;
                }
            } else {
                proof {
                    let ll = self.leaves@.len() as int;
                    assert(out * 8 + 8 <= (ll / 8) * 8 + 8) by (nonlinear_arith)
                        requires
                            out < row,
                            row <= ll / 8 + 1,
                    ;
                    assert((ll / 8) * 8 <= ll) by (nonlinear_arith);
                }
                let ghost before = bit_set_contents(pvs);
                insert_byte_bits(&mut pvs, b, out);
                proof {
                    assert(spec_vis_bits(compressed_vis@, read as int, out as int, row as int)
                        == spec_byte_bits(b, out as int).union(spec_vis_bits(compressed_vis@,
                        read + 1, out + 1, row as int)));
                    assert(bit_set_contents(pvs).union(
                        spec_vis_bits(compressed_vis@, read + 1, out + 1, row as int),
                    ) =~= before.union(
                        spec_vis_bits(compressed_vis@, read as int, out as int, row as int),
                    ));
                }
                out = out + 1;
                read = read + 1;
            }
        }
        proof {
            assert(spec_vis_bits(compressed_vis@, read as int, out as int, row as int) =~= Set::<
                usize,
            >::empty());
            assert(bit_set_contents(pvs).union(Set::<usize>::empty()) =~= bit_set_contents(pvs));
            assert(bit_set_contents(pvs) =~= spec_vis_bits(compressed_vis@, read0, 0,
                row as int));
        }
        pvs
    }
}

/// The low sixteen bits of a wire integer, as the signed value they
/// spell: the truncation the hull builder applies when it narrows a
/// leaf's contents tag into a clip-node child slot.
pub open spec fn spec_i32_to_i16(v: i32) -> i16 {
    crate::codec::spec_i16_of_u16((crate::codec::spec_u32_of_i32(v) % 0x10000) as u16)
}

pub fn i32_to_i16(v: i32) -> (r: i16)
    ensures
        r == spec_i32_to_i16(v),
{
    let u: u32 = if v >= 0 {
        v as u32
    } else {
        ((v as i64) + 0x1_0000_0000) as u32
    };
    let low: u16 = (u % 0x10000) as u16;
    if low < 0x8000 {
        low as i16
    } else {
        ((low as i32) - 0x10000) as i16
    }
}

/// The IEEE-754 single-precision bit pattern of a whole number whose
/// magnitude is at most `2^24`, at which every such number is exact.
pub open spec fn spec_f32_bits_of_int(v: int) -> int
    recommends
        -0x100_0000 <= v <= 0x100_0000,
{
    if v == 0 {
        0
    } else {
        let sign: int = if v < 0 {
            0x8000_0000
        } else {
            0
        };
        let m = if v < 0 {
            -v
        } else {
            v
        };
        let norm = spec_f32_normalize(m, 150);
        sign + norm.1 * 0x80_0000 + (norm.0 - 0x80_0000)
    }
}

/// Doubles the mantissa until it reaches the implicit-one position,
/// lowering the exponent once per doubling.
pub open spec fn spec_f32_normalize(mant: int, e: int) -> (int, int)
    recommends
        1 <= mant <= 0x100_0000,
    decreases 0x100_0000 - mant,
{
    if mant <= 0 || mant >= 0x80_0000 {
        (mant, e)
    } else {
        spec_f32_normalize(mant * 2, e - 1)
    }
}

/// Encodes a whole number of map units as single-precision bits.
pub fn f32_bits_of_int(v: i32) -> (r: u32)
    requires
        -0x100_0000 <= v <= 0x100_0000,
    ensures
        r == spec_f32_bits_of_int(v as int),
{
    if v == 0 {
        return 0;
    }
    let sign: u32 = if v < 0 {
        0x8000_0000
    } else {
        0
    };
    let m0: u32 = if v < 0 {
        (-(v as i64)) as u32
    } else {
        v as u32
    };
    let mut mant: u32 = m0;
    let mut e: u32 = 150;
    proof {
        vstd::arithmetic::power2::lemma2_to64();
    }
    while mant < 0x80_0000
        invariant
            1 <= mant <= 0x100_0000,
            127 <= e <= 150,
            mant >= vstd::arithmetic::power2::pow2((150 - e) as nat),
            spec_f32_normalize(mant as int, e as int) == spec_f32_normalize(m0 as int, 150),
        decreases 0x100_0000 - mant,
    {
        proof {
            vstd::arithmetic::power2::lemma2_to64();
            if 150 - e >= 23 {
                if 150 - e > 23 {
                    vstd::arithmetic::power2::lemma_pow2_strictly_increases(
                        23,
                        (150 - e) as nat,
                    );
                }
                assert(vstd::arithmetic::power2::pow2((150 - e) as nat) >= 0x80_0000);
            }
            assert(e > 127);
            assert(vstd::arithmetic::power2::pow2((150 - (e - 1)) as nat) == 2
                * vstd::arithmetic::power2::pow2((150 - e) as nat)) by {
                vstd::arithmetic::power2::lemma_pow2_adds(1, (150 - e) as nat);
                vstd::arithmetic::power2::lemma2_to64();
            }
        }
        mant = mant * 2;
        e = e - 1;
    }
    proof {
        assert(spec_f32_normalize(mant as int, e as int) == (mant as int, e as int));
    }
    sign + e * 0x80_0000 + (mant - 0x80_0000)
}


/// A fresh copy of a vector of plain records.
pub fn copy_vec<T: Copy>(v: &Vec<T>) -> (r: Vec<T>)
    ensures
        r@ == v@,
{
    let n: usize = v.len();
    let mut r: Vec<T> = Vec::new();
    let mut i: usize = 0;
    while i < n
        invariant
            i <= n,
            n == v@.len(),
            r@ =~= v@.subrange(0, i as int),
        decreases n - i,
    {
        r.push(v[i]);
        assert(r@ =~= v@.subrange(0, i + 1));
        i = i + 1;
    }
    proof {
        assert(v@.subrange(0, n as int) =~= v@);
    }
    r
}

/// A rendering-tree child slot rewritten for a collision hull: a leaf
/// reference becomes that leaf's contents tag, narrowed to the slot
/// width; a node reference and an out-of-range leaf stay as they are.
pub open spec fn spec_clip_child(c: i16, leaves: Seq<Leaf>) -> i16 {
    if c < 0 && -c - 1 < leaves.len() {
        spec_i32_to_i16(leaves[-c - 1].content)
    } else {
        c
    }
}

/// One rendering-tree node rewritten as a collision clip-node.
pub open spec fn spec_hull0_clipnode(n: Node, leaves: Seq<Leaf>) -> ClipNode {
    ClipNode {
        plane_index: crate::codec::spec_i32_of_u32(n.plane_index),
        child_index: (
            spec_clip_child(n.child_index.0, leaves),
            spec_clip_child(n.child_index.1, leaves),
        ),
    }
}

/// The whole rendering tree rewritten as the zeroth collision hull.
pub open spec fn spec_hull0_clipnodes(nodes: Seq<Node>, leaves: Seq<Leaf>) -> Seq<ClipNode> {
    Seq::new(nodes.len(), |i: int| spec_hull0_clipnode(nodes[i], leaves))
}

/// Builds the clip-node image of the rendering tree.
pub fn build_hull0_clipnodes(nodes: &Vec<Node>, leaves: &Vec<Leaf>) -> (r: Vec<ClipNode>)
    ensures
        r@ == spec_hull0_clipnodes(nodes@, leaves@),
{
    let n: usize = nodes.len();
    let nleaves: usize = leaves.len();
    let mut r: Vec<ClipNode> = Vec::new();
    let mut i: usize = 0;
    while i < n
        invariant
            i <= n,
            n == nodes@.len(),
            nleaves == leaves@.len(),
            r@.len() == i,
            forall|k: int| 0 <= k < i ==> r@[k] == spec_hull0_clipnode(nodes@[k], leaves@),
        decreases n - i,
    {
        let node = nodes[i];
        let plane_index = if node.plane_index < 0x8000_0000 {
            node.plane_index as i32
        } else {
            ((node.plane_index as i64) - 0x1_0000_0000) as i32
        };
        let c0 = node.child_index.0;
        let c1 = node.child_index.1;
        let m0: i16 = if c0 < 0 && ((-(c0 as i32) - 1) as usize) < nleaves {
            i32_to_i16(leaves[(-(c0 as i32) - 1) as usize].content)
        } else {
            c0
        };
        let m1: i16 = if c1 < 0 && ((-(c1 as i32) - 1) as usize) < nleaves {
            i32_to_i16(leaves[(-(c1 as i32) - 1) as usize].content)
        } else {
            c1
        };
        r.push(ClipNode { plane_index, child_index: (m0, m1) });
        i = i + 1;
    }
    proof {
        assert(r@ =~= spec_hull0_clipnodes(nodes@, leaves@));
    }
    r
}

/// The hull set every model carries: the node-derived hull at slot
/// zero, the coarser clip-node tree at slots one to three, each with
/// its fixed bounding-box inflation.
fn build_hulls(
    hull0_cn: &Vec<ClipNode>,
    clip_nodes: &Vec<ClipNode>,
    planes: &Vec<Plane>,
) -> (r: Vec<Hull>)
    requires
        hull0_cn@.len() * 8 <= usize::MAX,
        clip_nodes@.len() * 8 <= usize::MAX,
    ensures
        r@.len() == 4,
        r@[0].clip_nodes@ == hull0_cn@,
        r@[1].clip_nodes@ == clip_nodes@,
        r@[2].clip_nodes@ == clip_nodes@,
        r@[3].clip_nodes@ == clip_nodes@,
        forall|k: int| 0 <= k < 4 ==> (#[trigger] r@[k]).planes@ == planes@,
        forall|k: int| 0 <= k < 4 ==> (#[trigger] r@[k]).first_clip_node == 0,
        r@[0].last_clip_node == hull0_cn@.len() - 1,
        forall|k: int| 1 <= k < 4 ==> (#[trigger] r@[k]).last_clip_node == clip_nodes@.len() - 1,
        r@[1].clip_mins == (Vec3i { x: -16i32, y: -16i32, z: -36i32 }),
        r@[1].clip_maxs == (Vec3i { x: 16i32, y: 16i32, z: 36i32 }),
        r@[2].clip_mins == (Vec3i { x: -32i32, y: -32i32, z: -32i32 }),
        r@[2].clip_maxs == (Vec3i { x: 32i32, y: 32i32, z: 32i32 }),
        r@[3].clip_mins == (Vec3i { x: -16i32, y: -16i32, z: -18i32 }),
        r@[3].clip_maxs == (Vec3i { x: 16i32, y: 16i32, z: 18i32 }),
{
    let h0_last: isize = if hull0_cn.len() == 0 {
        -1
    } else {
        (hull0_cn.len() - 1) as isize
    };
    let c_last: isize = if clip_nodes.len() == 0 {
        -1
    } else {
        (clip_nodes.len() - 1) as isize
    };
    let mut hulls: Vec<Hull> = Vec::new();
    hulls.push(
        Hull {
            clip_nodes: copy_vec(hull0_cn),
            planes: copy_vec(planes),
            first_clip_node: 0,
            last_clip_node: h0_last,
            clip_mins: Vec3i { x: 0, y: 0, z: 0 },
            clip_maxs: Vec3i { x: 0, y: 0, z: 0 },
        },
    );
    hulls.push(
        Hull {
            clip_nodes: copy_vec(clip_nodes),
            planes: copy_vec(planes),
            first_clip_node: 0,
            last_clip_node: c_last,
            clip_mins: Vec3i { x: -16, y: -16, z: -36 },
            clip_maxs: Vec3i { x: 16, y: 16, z: 36 },
        },
    );
    hulls.push(
        Hull {
            clip_nodes: copy_vec(clip_nodes),
            planes: copy_vec(planes),
            first_clip_node: 0,
            last_clip_node: c_last,
            clip_mins: Vec3i { x: -32, y: -32, z: -32 },
            clip_maxs: Vec3i { x: 32, y: 32, z: 32 },
        },
    );
    hulls.push(
        Hull {
            clip_nodes: copy_vec(clip_nodes),
            planes: copy_vec(planes),
            first_clip_node: 0,
            last_clip_node: c_last,
            clip_mins: Vec3i { x: -16, y: -16, z: -18 },
            clip_maxs: Vec3i { x: 16, y: 16, z: 18 },
        },
    );
    hulls
}

/// Decodes the model lump and equips every brush model with the four
/// collision hulls: hull zero is the rendering tree rewritten as
/// clip-nodes, hulls one to three run over the dedicated clip-node
/// lump at their fixed box inflations.
pub fn load_models(
    sub_models: Vec<WireModel>,
    nodes: &Vec<Node>,
    leaves: &Vec<Leaf>,
    clip_nodes: &Vec<ClipNode>,
    planes: &Vec<Plane>,
) -> (r: (Vec<Model>, Vec<ClipNode>))
    requires
        nodes@.len() * 24 <= usize::MAX,
        clip_nodes@.len() * 8 <= usize::MAX,
    ensures
        ({
            let (models, hull0_cn) = r;
            &&& hull0_cn@ == spec_hull0_clipnodes(nodes@, leaves@)
            &&& models@.len() == sub_models@.len()
            &&& forall|m: int|
                0 <= m < models@.len() ==> (#[trigger] models@[m]).model == sub_models@[m]
            &&& forall|m: int|
                0 <= m < models@.len() ==> (#[trigger] models@[m]).hulls@.len() == 4
            &&& forall|m: int|
                0 <= m < models@.len() ==> (#[trigger] models@[m]).hulls@[0].clip_nodes@
                    == spec_hull0_clipnodes(nodes@, leaves@)
            &&& forall|m: int, k: int|
                0 <= m < models@.len() && 1 <= k < 4 ==> (#[trigger] models@[m].hulls@[k]).clip_nodes@
                    == clip_nodes@
            &&& forall|m: int, k: int|
                0 <= m < models@.len() && 0 <= k < 4 ==> (#[trigger] models@[m].hulls@[k]).planes@
                    == planes@
            &&& forall|m: int, k: int|
                0 <= m < models@.len() && 0 <= k < 4 ==> (#[trigger] models@[m].hulls@[k]).first_clip_node
                    == 0
            &&& forall|m: int|
                0 <= m < models@.len() ==> (#[trigger] models@[m]).hulls@[0].last_clip_node
                    == nodes@.len() - 1
            &&& forall|m: int, k: int|
                0 <= m < models@.len() && 1 <= k < 4 ==> (#[trigger] models@[m].hulls@[k]).last_clip_node
                    == clip_nodes@.len() - 1
            &&& forall|m: int|
                0 <= m < models@.len() ==> (#[trigger] models@[m]).hulls@[1].clip_mins == (Vec3i {
                    x: -16i32,
                    y: -16i32,
                    z: -36i32,
                }) && models@[m].hulls@[1].clip_maxs == (Vec3i { x: 16i32, y: 16i32, z: 36i32 })
            &&& forall|m: int|
                0 <= m < models@.len() ==> (#[trigger] models@[m]).hulls@[2].clip_mins == (Vec3i {
                    x: -32i32,
                    y: -32i32,
                    z: -32i32,
                }) && models@[m].hulls@[2].clip_maxs == (Vec3i { x: 32i32, y: 32i32, z: 32i32 })
            &&& forall|m: int|
                0 <= m < models@.len() ==> (#[trigger] models@[m]).hulls@[3].clip_mins == (Vec3i {
                    x: -16i32,
                    y: -16i32,
                    z: -18i32,
                }) && models@[m].hulls@[3].clip_maxs == (Vec3i { x: 16i32, y: 16i32, z: 18i32 })
        }),
{
    let hull0_cn = build_hull0_clipnodes(nodes, leaves);
    let count: usize = sub_models.len();
    let mut models: Vec<Model> = Vec::new();
    let mut i: usize = 0;
    while i < count
        invariant
            i <= count,
            count == sub_models@.len(),
            hull0_cn@ == spec_hull0_clipnodes(nodes@, leaves@),
            nodes@.len() * 24 <= usize::MAX,
            clip_nodes@.len() * 8 <= usize::MAX,
            hull0_cn@.len() == nodes@.len(),
            models@.len() == i,
            forall|m: int|
                0 <= m < i ==> (#[trigger] models@[m]).model == sub_models@[m],
            forall|m: int| 0 <= m < i ==> (#[trigger] models@[m]).hulls@.len() == 4,
            forall|m: int|
                0 <= m < i ==> (#[trigger] models@[m]).hulls@[0].clip_nodes@ == hull0_cn@,
            forall|m: int, k: int|
                0 <= m < i && 1 <= k < 4 ==> (#[trigger] models@[m].hulls@[k]).clip_nodes@
                    == clip_nodes@,
            forall|m: int, k: int|
                0 <= m < i && 0 <= k < 4 ==> (#[trigger] models@[m].hulls@[k]).planes@
                    == planes@,
            forall|m: int, k: int|
                0 <= m < i && 0 <= k < 4 ==> (#[trigger] models@[m].hulls@[k]).first_clip_node
                    == 0,
            forall|m: int|
                0 <= m < i ==> (#[trigger] models@[m]).hulls@[0].last_clip_node == nodes@.len()
                    - 1,
            forall|m: int, k: int|
                0 <= m < i && 1 <= k < 4 ==> (#[trigger] models@[m].hulls@[k]).last_clip_node
                    == clip_nodes@.len() - 1,
            forall|m: int|
                0 <= m < i ==> (#[trigger] models@[m]).hulls@[1].clip_mins == (Vec3i {
                    x: -16i32,
                    y: -16i32,
                    z: -36i32,
                }) && models@[m].hulls@[1].clip_maxs == (Vec3i { x: 16i32, y: 16i32, z: 36i32 }),
            forall|m: int|
                0 <= m < i ==> (#[trigger] models@[m]).hulls@[2].clip_mins == (Vec3i {
                    x: -32i32,
                    y: -32i32,
                    z: -32i32,
                }) && models@[m].hulls@[2].clip_maxs == (Vec3i { x: 32i32, y: 32i32, z: 32i32 }),
            forall|m: int|
                0 <= m < i ==> (#[trigger] models@[m]).hulls@[3].clip_mins == (Vec3i {
                    x: -16i32,
                    y: -16i32,
                    z: -18i32,
                }) && models@[m].hulls@[3].clip_maxs == (Vec3i { x: 16i32, y: 16i32, z: 18i32 }),
        decreases count - i,
    {
        let hulls = build_hulls(&hull0_cn, clip_nodes, planes);
        models.push(Model { model: sub_models[i], hulls });
        i = i + 1;
    }
    (models, hull0_cn)
}

/// Whether an entity asks for the texture render mode: its
/// `rendermode` property parses to that mode's numeric value.
pub open spec fn spec_is_texture_mode(props: Seq<(Seq<u8>, Seq<u8>)>) -> bool {
    match spec_lookup(props, spec_rendermode_bytes()) {
        Some(v) => spec_parse_u32(v) == Some(
            crate::bsp30::RenderMode::RenderModeTexture.spec_code(),
        ),
        None => false,
    }
}

/// The positions of the brush entities from `i` on, in order.
pub open spec fn spec_brush_list(ents: Seq<Entity>, i: int) -> Seq<usize>
    decreases ents.len() - i,
{
    if i < 0 || i >= ents.len() {
        Seq::empty()
    } else if spec_is_brush(ents[i].spec_props()) {
        seq![i as usize] + spec_brush_list(ents, i + 1)
    } else {
        spec_brush_list(ents, i + 1)
    }
}

/// The positions of the non-brush entities from `i` on, in order.
pub open spec fn spec_special_list(ents: Seq<Entity>, i: int) -> Seq<usize>
    decreases ents.len() - i,
{
    if i < 0 || i >= ents.len() {
        Seq::empty()
    } else if !spec_is_brush(ents[i].spec_props()) {
        seq![i as usize] + spec_special_list(ents, i + 1)
    } else {
        spec_special_list(ents, i + 1)
    }
}

/// The entries of `idxs` from `j` on whose entity's texture-mode test
/// answers `want`, in order.
pub open spec fn spec_tex_filter(ents: Seq<Entity>, idxs: Seq<usize>, want: bool, j: int) -> Seq<
    usize,
>
    decreases idxs.len() - j,
{
    if j < 0 || j >= idxs.len() {
        Seq::empty()
    } else if idxs[j] < ents.len() && spec_is_texture_mode(ents[idxs[j] as int].spec_props())
        == want {
        seq![idxs[j]] + spec_tex_filter(ents, idxs, want, j + 1)
    } else {
        spec_tex_filter(ents, idxs, want, j + 1)
    }
}

/// Splits the entity list into brush and special entities, each list
/// in entity order.
pub fn classify_entities(entities: &Vec<Entity>) -> (r: (Vec<usize>, Vec<usize>))
    ensures
        r.0@ == spec_brush_list(entities@, 0),
        r.1@ == spec_special_list(entities@, 0),
{
    let n: usize = entities.len();
    let mut brush: Vec<usize> = Vec::new();
    let mut special: Vec<usize> = Vec::new();
    let mut i: usize = 0;
    while i < n
        invariant
            i <= n,
            n == entities@.len(),
            brush@ + spec_brush_list(entities@, i as int) == spec_brush_list(entities@, 0),
            special@ + spec_special_list(entities@, i as int) == spec_special_list(entities@, 0),
        decreases n - i,
    {
        let ghost brush_before = brush@;
        let ghost special_before = special@;
        if BSP::is_brush_entity(&entities[i]) {
            brush.push(i);
            proof {
                assert(brush@ =~= brush_before + seq![i as usize]);
                assert(brush@ + spec_brush_list(entities@, i + 1) =~= spec_brush_list(
                    entities@,
                    0,
                ));
                assert(special@ + spec_special_list(entities@, i + 1) =~= spec_special_list(
                    entities@,
                    0,
                ));
            }
        } else {
            special.push(i);
            proof {
                assert(special@ =~= special_before + seq![i as usize]);
                assert(special@ + spec_special_list(entities@, i + 1) =~= spec_special_list(
                    entities@,
                    0,
                ));
                assert(brush@ + spec_brush_list(entities@, i + 1) =~= spec_brush_list(
                    entities@,
                    0,
                ));
            }
        }
        i = i + 1;
    }
    proof {
        assert(brush@ =~= brush@ + spec_brush_list(entities@, n as int));
        assert(special@ =~= special@ + spec_special_list(entities@, n as int));
    }
    (brush, special)
}

/// Stably partitions the brush list so entities in texture render mode
/// come first, keeping the relative order inside each group.
pub fn partition_brush_entities(entities: &Vec<Entity>, brush: &Vec<usize>) -> (r: Vec<usize>)
    ensures
        r@ == spec_tex_filter(entities@, brush@, true, 0) + spec_tex_filter(
            entities@,
            brush@,
            false,
            0,
        ),
{
    let n: usize = brush.len();
    let key = rendermode_bytes();
    let mut first: Vec<usize> = Vec::new();
    let mut second: Vec<usize> = Vec::new();
    let mut j: usize = 0;
    while j < n
        invariant
            j <= n,
            n == brush@.len(),
            key@ == spec_rendermode_bytes(),
            first@ + spec_tex_filter(entities@, brush@, true, j as int) == spec_tex_filter(
                entities@,
                brush@,
                true,
                0,
            ),
            second@ + spec_tex_filter(entities@, brush@, false, j as int) == spec_tex_filter(
                entities@,
                brush@,
                false,
                0,
            ),
        decreases n - j,
    {
        let ghost first_before = first@;
        let ghost second_before = second@;
        let bi: usize = brush[j];
        let mut is_tex: bool = false;
        if bi < entities.len() {
            match entities[bi].find_property(&key) {
                Some(value) => {
                    match parse_u32_bytes(value, 0) {
                        Some(v) => {
                            if v == crate::bsp30::RenderMode::RenderModeTexture.code() {
                                is_tex = true;
                            }
                        },
                        None => {},
                    }
                },
                None => {},
            }
            proof {
                assert(is_tex == spec_is_texture_mode(entities@[bi as int].spec_props()));
            }
            if is_tex {
                first.push(bi);
                proof {
                    assert(first@ =~= first_before + seq![bi]);
                    assert(first@ + spec_tex_filter(entities@, brush@, true, j + 1)
                        =~= spec_tex_filter(entities@, brush@, true, 0));
                    assert(second@ + spec_tex_filter(entities@, brush@, false, j + 1)
                        =~= spec_tex_filter(entities@, brush@, false, 0));
                }
            } else {
                second.push(bi);
                proof {
                    assert(second@ =~= second_before + seq![bi]);
                    assert(second@ + spec_tex_filter(entities@, brush@, false, j + 1)
                        =~= spec_tex_filter(entities@, brush@, false, 0));
                    assert(first@ + spec_tex_filter(entities@, brush@, true, j + 1)
                        =~= spec_tex_filter(entities@, brush@, true, 0));
                }
            }
        } else {
            proof {
                assert(first@ + spec_tex_filter(entities@, brush@, true, j + 1)
                    =~= spec_tex_filter(entities@, brush@, true, 0));
                assert(second@ + spec_tex_filter(entities@, brush@, false, j + 1)
                    =~= spec_tex_filter(entities@, brush@, false, 0));
            }
        }
        j = j + 1;
    }
    proof {
        assert(first@ =~= first@ + spec_tex_filter(entities@, brush@, true, n as int));
        assert(second@ =~= second@ + spec_tex_filter(entities@, brush@, false, n as int));
    }
    let mut r = first;
    let mut rest = second;
    r.append(&mut rest);
    r
}

/// One brush entity's effect on the model records: when the entity
/// carries a parsable in-range `origin` and a `*N` model reference
/// naming a record, that record's origin becomes the single-precision
/// bits of the whole-number coordinates; in every other case nothing
/// changes.
pub open spec fn spec_override_step(
    models: Seq<WireModel>,
    ents: Seq<Entity>,
    bi: usize,
) -> Seq<WireModel> {
    if bi >= ents.len() {
        models
    } else {
        let props = ents[bi as int].spec_props();
        match spec_lookup(props, spec_origin_bytes()) {
            None => models,
            Some(ov) => match spec_parse_origin(ov) {
                None => models,
                Some(o) => if o.0 < -0x100_0000 || o.0 > 0x100_0000 || o.1 < -0x100_0000 || o.1
                    > 0x100_0000 || o.2 < -0x100_0000 || o.2 > 0x100_0000 {
                    models
                } else {
                    match spec_lookup(props, spec_model_bytes()) {
                        None => models,
                        Some(mv) => if mv.len() <= 1 || mv[0] != 42 {
                            models
                        } else {
                            match spec_parse_u32_from(mv, 1, 0) {
                                None => models,
                                Some(v) => if v >= models.len() {
                                    models
                                } else {
                                    models.update(
                                        v as int,
                                        WireModel {
                                            origin: Vec3Bits {
                                                x: spec_f32_bits_of_int(o.0) as u32,
                                                y: spec_f32_bits_of_int(o.1) as u32,
                                                z: spec_f32_bits_of_int(o.2) as u32,
                                            },
                                            ..models[v as int]
                                        },
                                    )
                                },
                            }
                        },
                    }
                },
            },
        }
    }
}

/// The model records after every brush entity from `j` on has applied
/// its override, in list order.
pub open spec fn spec_apply_overrides(
    models: Seq<WireModel>,
    ents: Seq<Entity>,
    brush: Seq<usize>,
    j: int,
) -> Seq<WireModel>
    decreases brush.len() - j,
{
    if j < 0 || j >= brush.len() {
        models
    } else {
        spec_apply_overrides(spec_override_step(models, ents, brush[j]), ents, brush, j + 1)
    }
}

/// Writes the origin a brush entity's `origin` property overrides into
/// the model its `model` property names, as single-precision bits of
/// the whole-number coordinates, walking the brush list in order.  A
/// malformed or out-of-range origin, or a model reference that does
/// not resolve, leaves everything as it was.
pub fn apply_origin_overrides(
    sub_models: &mut Vec<WireModel>,
    entities: &Vec<Entity>,
    brush: &Vec<usize>,
)
    ensures
        final(sub_models)@ == spec_apply_overrides(old(sub_models)@, entities@, brush@, 0),
        final(sub_models)@.len() == old(sub_models)@.len(),
{
    let origin_key = origin_bytes();
    let model_key = model_bytes();
    let n: usize = brush.len();
    let mut j: usize = 0;
    while j < n
        invariant
            j <= n,
            n == brush@.len(),
            origin_key@ == spec_origin_bytes(),
            model_key@ == spec_model_bytes(),
            sub_models@.len() == old(sub_models)@.len(),
            spec_apply_overrides(sub_models@, entities@, brush@, j as int)
                == spec_apply_overrides(old(sub_models)@, entities@, brush@, 0),
        decreases n - j,
    {
        let ghost before = sub_models@;
        let bi: usize = brush[j];
        j = j + 1;
        if bi >= entities.len() {
            proof {
                assert(spec_override_step(before, entities@, bi) == before);
            }
            continue ;
        }
        let origin_value = match entities[bi].find_property(&origin_key) {
            Some(v) => v,
            None => {
                proof {
                    assert(spec_override_step(before, entities@, bi) == before);
                }
                continue ;
            },
        };
        let origin = match parse_origin_bytes(origin_value) {
            Some(v) => v,
            None => {
                proof {
                    assert(spec_override_step(before, entities@, bi) == before);
                }
                continue ;
            },
        };
        if origin.x < -0x100_0000 || origin.x > 0x100_0000 || origin.y < -0x100_0000 || origin.y
            > 0x100_0000 || origin.z < -0x100_0000 || origin.z > 0x100_0000 {
            proof {
                lemma_parse_origin_bounds(origin_value@);
                assert(spec_override_step(before, entities@, bi) == before);
            }
            continue ;
        }
        let model_value = match entities[bi].find_property(&model_key) {
            Some(v) => v,
            None => {
                proof {
                    assert(spec_override_step(before, entities@, bi) == before);
                }
                continue ;
            },
        };
        if model_value.len() == 0 || model_value[0] != 42 {
            proof {
                assert(spec_override_step(before, entities@, bi) == before);
            }
            continue ;
        }
        let midx: usize = match parse_u32_bytes(model_value, 1) {
            Some(v) => v as usize,
            None => {
                proof {
                    assert(spec_override_step(before, entities@, bi) == before);
                }
                continue ;
            },
        };
        if midx >= sub_models.len() {
            proof {
                assert(spec_override_step(before, entities@, bi) == before);
            }
            continue ;
        }
        proof {
            lemma_parse_origin_bounds(origin_value@);
        }
        let mut rec = sub_models[midx];
        rec.origin = Vec3Bits {
            x: f32_bits_of_int(origin.x),
            y: f32_bits_of_int(origin.y),
            z: f32_bits_of_int(origin.z),
        };
        sub_models.set(midx, rec);
        proof {
            let o = spec_parse_origin(origin_value@)->Some_0;
            assert(origin.x as int == o.0 && origin.y as int == o.1 && origin.z as int == o.2);
            assert(rec.origin.x == spec_f32_bits_of_int(o.0));
            assert(rec.origin.y == spec_f32_bits_of_int(o.1));
            assert(rec.origin.z == spec_f32_bits_of_int(o.2));
            assert(rec == (WireModel {
                origin: Vec3Bits {
                    x: spec_f32_bits_of_int(o.0) as u32,
                    y: spec_f32_bits_of_int(o.1) as u32,
                    z: spec_f32_bits_of_int(o.2) as u32,
                },
                ..before[midx as int]
            }));
            assert(sub_models@ =~= spec_override_step(before, entities@, bi));
        }
    }
}

/// The record size of each lump category: one byte for the raw text,
/// lighting and visibility lumps, the fixed record width elsewhere.
pub open spec fn spec_lump_record_size(i: int) -> nat {
    if i == 1 {
        20
    } else if i == 3 {
        12
    } else if i == 5 {
        24
    } else if i == 6 {
        40
    } else if i == 7 {
        20
    } else if i == 9 {
        8
    } else if i == 10 {
        28
    } else if i == 11 {
        2
    } else if i == 12 {
        4
    } else if i == 13 {
        4
    } else if i == 14 {
        64
    } else {
        1
    }
}

/// Whether the texture lump is well-formed: its sub-header fits, the
/// declared per-texture offset table fits, and every mip-texture
/// header the offsets point at lies inside the file.
pub open spec fn spec_textures_valid(data: Seq<u8>) -> bool {
    let tl = Header::spec_lump_at(data, 2);
    let count = le_u32(data, tl.offset as int) as int;
    ||| tl.length == 0
    ||| {
        &&& 0 <= tl.offset
        &&& tl.offset + 4 <= data.len()
        &&& tl.offset + 4 + 4 * count <= data.len()
        &&& forall|i: int|
            0 <= i < count ==> {
                let o = #[trigger] le_i32(data, tl.offset + 4 + 4 * i);
                0 <= o && tl.offset + o + 40 <= data.len()
            }
    }
}

/// Whether a whole level file is well-formed: it holds a version-30
/// header, every record lump lies inside the file and spans a whole
/// number of its records, the byte lumps lie inside the file, and the
/// texture lump's directory is sound.
pub open spec fn spec_bsp_valid(data: Seq<u8>) -> bool {
    &&& data.len() >= HEADER_SIZE
    &&& le_i32(data, 0) == 30
    &&& spec_lump_valid(Header::spec_lump_at(data, 1), data.len() as int, 20)
    &&& spec_lump_valid(Header::spec_lump_at(data, 3), data.len() as int, 12)
    &&& spec_lump_valid(Header::spec_lump_at(data, 5), data.len() as int, 24)
    &&& spec_lump_valid(Header::spec_lump_at(data, 6), data.len() as int, 40)
    &&& spec_lump_valid(Header::spec_lump_at(data, 7), data.len() as int, 20)
    &&& spec_lump_valid(Header::spec_lump_at(data, 9), data.len() as int, 8)
    &&& spec_lump_valid(Header::spec_lump_at(data, 10), data.len() as int, 28)
    &&& spec_lump_valid(Header::spec_lump_at(data, 11), data.len() as int, 2)
    &&& spec_lump_valid(Header::spec_lump_at(data, 12), data.len() as int, 4)
    &&& spec_lump_valid(Header::spec_lump_at(data, 13), data.len() as int, 4)
    &&& spec_lump_valid(Header::spec_lump_at(data, 14), data.len() as int, 64)
    &&& spec_lump_valid(Header::spec_lump_at(data, 0), data.len() as int, 1)
    &&& spec_lump_valid(Header::spec_lump_at(data, 8), data.len() as int, 1)
    &&& spec_lump_valid(Header::spec_lump_at(data, 4), data.len() as int, 1)
    &&& spec_textures_valid(data)
}

impl BSP {
    /// Extracts the raw bytes of one whole-byte lump.
    fn lump_bytes(data: &Vec<u8>, lump: Lump, lump_index: usize) -> (r: Result<
        Vec<u8>,
        FormatError,
    >)
        ensures
            r is Ok <==> spec_lump_valid(lump, data@.len() as int, 1),
            r is Ok ==> r->Ok_0@ == data@.subrange(lump.offset as int, lump.offset + lump.length),
            r is Err ==> r->Err_0.lump_index == lump_index && r->Err_0.reason
                == FormatReason::Bounds,
    {
        if lump.offset < 0 || lump.length < 0 {
            return Err(FormatError {
                lump_index,
                offset: lump.offset,
                length: lump.length,
                reason: FormatReason::Bounds,
            });
        }
        let n: usize = data.len();
        let off: usize = lump.offset as usize;
        let len: usize = lump.length as usize;
        if off > n || len > n - off {
            return Err(FormatError {
                lump_index,
                offset: lump.offset,
                length: lump.length,
                reason: FormatReason::Bounds,
            });
        }
        Ok(copy_range(data, off, off + len))
    }

    /// Decodes one whole level file from memory: the header, every
    /// record lump, the entity text, the texture directory, the raw
    /// lighting bytes, the visibility sets, the brush models with
    /// their collision hulls, and the classified and partitioned
    /// entity lists.  Any malformed piece rejects the whole file, and
    /// acceptance is exactly `spec_bsp_valid`.  Textures, lightmap
    /// slices and decals are filled in by their own steps afterwards.
    #[verifier::rlimit(100)]
    pub fn from_bytes(data: &Vec<u8>) -> (r: Result<BSP, FormatError>)
        ensures
            r is Ok <==> spec_bsp_valid(data@),
            r is Err ==> {
                let e = r->Err_0;
                &&& (e.reason == FormatReason::TooShort <==> data@.len() < HEADER_SIZE)
                &&& e.reason == FormatReason::BadVersion ==> data@.len() >= HEADER_SIZE
                    && le_i32(data@, 0) != 30
                &&& (data@.len() >= HEADER_SIZE && le_i32(data@, 0) != 30 ==> e.reason
                    == FormatReason::BadVersion)
                &&& (e.reason == FormatReason::Bounds || e.reason == FormatReason::Alignment)
                    ==> (if e.lump_index == 2 {
                    !spec_textures_valid(data@)
                } else {
                    e.lump_index < HEADER_LUMP_COUNT && !spec_lump_valid(
                        Header::spec_lump_at(data@, e.lump_index as int),
                        data@.len() as int,
                        spec_lump_record_size(e.lump_index as int),
                    )
                })
            },
            r is Ok ==> {
                let b = r->Ok_0;
                let ents = data@.subrange(
                    Header::spec_lump_at(data@, 0).offset as int,
                    Header::spec_lump_at(data@, 0).offset + Header::spec_lump_at(
                        data@,
                        0,
                    ).length,
                );
                &&& b.header.wf()
                &&& b.header.version == 30
                &&& forall|i: int|
                    0 <= i < HEADER_LUMP_COUNT ==> b.header.lump@[i] == Header::spec_lump_at(
                        data@,
                        i,
                    )
                &&& b.planes@ == spec_lump_records::<Plane>(data@, Header::spec_lump_at(data@, 1))
                &&& b.vertices@ == spec_lump_records::<Vec3Bits>(data@, Header::spec_lump_at(
                    data@, 3))
                &&& b.nodes@ == spec_lump_records::<Node>(data@, Header::spec_lump_at(data@, 5))
                &&& b.texture_infos@ == spec_lump_records::<TextureInfo>(data@,
                    Header::spec_lump_at(data@, 6))
                &&& b.faces@ == spec_lump_records::<Face>(data@, Header::spec_lump_at(data@, 7))
                &&& b.clip_nodes@ == spec_lump_records::<ClipNode>(data@, Header::spec_lump_at(
                    data@, 9))
                &&& b.leaves@ == spec_lump_records::<Leaf>(data@, Header::spec_lump_at(data@, 10))
                &&& b.mark_surfaces@ == spec_lump_records::<MarkSurface>(data@,
                    Header::spec_lump_at(data@, 11))
                &&& b.edges@ == spec_lump_records::<Edge>(data@, Header::spec_lump_at(data@, 12))
                &&& b.surface_edges@ == spec_lump_records::<SurfaceEdge>(data@,
                    Header::spec_lump_at(data@, 13))
                &&& b.entities@.len() == spec_parse_entities(ents, 0).len()
                &&& forall|i: int|
                    0 <= i < b.entities@.len() ==> (#[trigger] b.entities@[i]).spec_props()
                        == spec_parse_entities(ents, 0)[i]
                &&& (Header::spec_lump_at(data@, 2).length != 0
                    ==> b.texture_header.mip_texture_count == le_u32(data@, Header::spec_lump_at(
                    data@, 2).offset as int))
                &&& (Header::spec_lump_at(data@, 2).length == 0
                    ==> b.texture_header.mip_texture_count == 0)
                &&& b.mip_texture_offsets@.len() == b.texture_header.mip_texture_count
                &&& forall|i: int|
                    0 <= i < b.mip_texture_offsets@.len() ==> b.mip_texture_offsets@[i] == le_i32(
                        data@,
                        Header::spec_lump_at(data@, 2).offset + 4 + 4 * i,
                    )
                &&& b.mip_textures@.len() == b.mip_texture_offsets@.len()
                &&& forall|i: int|
                    0 <= i < b.mip_textures@.len() ==> {
                        let base = Header::spec_lump_at(data@, 2).offset + le_i32(
                            data@,
                            Header::spec_lump_at(data@, 2).offset + 4 + 4 * i,
                        );
                        &&& (#[trigger] b.mip_textures@[i]).name@ == crate::bsp30::spec_char_array_at(
                            data@, base, 16)
                        &&& b.mip_textures@[i].width == le_u32(data@, base + 16)
                        &&& b.mip_textures@[i].height == le_u32(data@, base + 20)
                        &&& b.mip_textures@[i].offsets.0 == le_u32(data@, base + 24)
                    }
                &&& b.light_map_data@ == data@.subrange(
                    Header::spec_lump_at(data@, 8).offset as int,
                    Header::spec_lump_at(data@, 8).offset + Header::spec_lump_at(data@, 8).length,
                )
                &&& b.hull_0_clip_nodes@ == spec_hull0_clipnodes(b.nodes@, b.leaves@)
                &&& b.models@.len() == Header::spec_lump_at(data@, 14).length as int / 64
                &&& forall|m: int| 0 <= m < b.models@.len() ==> (#[trigger] b.models@[m]).hulls@.len() == 4
                &&& b.brush_entities@ == spec_tex_filter(b.entities@, spec_brush_list(b.entities@, 0), true, 0)
                    + spec_tex_filter(b.entities@, spec_brush_list(b.entities@, 0), false, 0)
                &&& b.special_entities@ == spec_special_list(b.entities@, 0)
                &&& b.m_textures@.len() == 0
                &&& b.m_lightmaps@.len() == 0
                &&& b.m_decals@.len() == 0
                &&& (Header::spec_lump_at(data@, 4).length == 0 ==> b.vis_lists@.len() == 0)
                &&& (Header::spec_lump_at(data@, 4).length != 0 ==> {
                    let vl = Header::spec_lump_at(data@, 4);
                    let vdata = data@.subrange(vl.offset as int, vl.offset + vl.length);
                    let row = (b.leaves@.len() as int + 7) / 8;
                    let vcount = spec_count_vis(b.nodes@, b.leaves@, 0, b.nodes@.len());
                    let lim: int = if b.leaves@.len() > 0 {
                        b.leaves@.len() - 1
                    } else {
                        0
                    };
                    &&& b.vis_lists@.len() == (if vcount <= lim {
                        vcount
                    } else {
                        lim
                    })
                    &&& forall|k: int|
                        0 <= k < b.vis_lists@.len() ==> bit_set_contents(
                            #[trigger] b.vis_lists@[k],
                        ) == (if b.leaves@[k + 1].vis_offset >= 0 {
                            spec_vis_bits(vdata, b.leaves@[k + 1].vis_offset as int, 0, row)
                        } else {
                            Set::<usize>::empty()
                        })
                })
            },
    {
        let n: usize = data.len();
        let header = match Header::decode(data) {
            Some(h) => h,
            None => {
                return Err(FormatError {
                    lump_index: 15,
                    offset: 0,
                    length: 0,
                    reason: FormatReason::TooShort,
                });
            },
        };
        if header.version != 30 {
            return Err(FormatError {
                lump_index: 15,
                offset: 0,
                length: 0,
                reason: FormatReason::BadVersion,
            });
        }
        let planes = match decode_lump::<Plane>(data, header.lump[LumpType::LumpPlanes.index()], LumpType::LumpPlanes.index()) {
            Ok(v) => v,
            Err(e) => {
                return Err(e);
            },
        };
        let vertices = match decode_lump::<Vec3Bits>(data, header.lump[LumpType::LumpVertexes.index()], LumpType::LumpVertexes.index()) {
            Ok(v) => v,
            Err(e) => {
                return Err(e);
            },
        };
        let nodes = match decode_lump::<Node>(data, header.lump[LumpType::LumpNodes.index()], LumpType::LumpNodes.index()) {
            Ok(v) => v,
            Err(e) => {
                return Err(e);
            },
        };
        let texture_infos = match decode_lump::<TextureInfo>(data, header.lump[LumpType::LumpTexinfo.index()], LumpType::LumpTexinfo.index()) {
            Ok(v) => v,
            Err(e) => {
                return Err(e);
            },
        };
        let faces = match decode_lump::<Face>(data, header.lump[LumpType::LumpFaces.index()], LumpType::LumpFaces.index()) {
            Ok(v) => v,
            Err(e) => {
                return Err(e);
            },
        };
        let clip_nodes = match decode_lump::<ClipNode>(data, header.lump[LumpType::LumpClipNodes.index()], LumpType::LumpClipNodes.index()) {
            Ok(v) => v,
            Err(e) => {
                return Err(e);
            },
        };
        let leaves = match decode_lump::<Leaf>(data, header.lump[LumpType::LumpLeaves.index()], LumpType::LumpLeaves.index()) {
            Ok(v) => v,
            Err(e) => {
                return Err(e);
            },
        };
        let mark_surfaces = match decode_lump::<MarkSurface>(data, header.lump[LumpType::LumpMarkSurfaces.index()], LumpType::LumpMarkSurfaces.index()) {
            Ok(v) => v,
            Err(e) => {
                return Err(e);
            },
        };
        let edges = match decode_lump::<Edge>(data, header.lump[LumpType::LumpEdges.index()], LumpType::LumpEdges.index()) {
            Ok(v) => v,
            Err(e) => {
                return Err(e);
            },
        };
        let surface_edges = match decode_lump::<SurfaceEdge>(data, header.lump[LumpType::LumpSurfaceEdges.index()], LumpType::LumpSurfaceEdges.index()) {
            Ok(v) => v,
            Err(e) => {
                return Err(e);
            },
        };
        let sub_models = match decode_lump::<WireModel>(data, header.lump[LumpType::LumpModels.index()], LumpType::LumpModels.index()) {
            Ok(v) => v,
            Err(e) => {
                return Err(e);
            },
        };
        let entity_bytes = match Self::lump_bytes(data, header.lump[LumpType::LumpEntities.index()], LumpType::LumpEntities.index()) {
            Ok(v) => v,
            Err(e) => {
                return Err(e);
            },
        };
        let entities = Self::parse_entities(&entity_bytes);
        let light_map_data = match Self::lump_bytes(data, header.lump[LumpType::LumpLighting.index()], LumpType::LumpLighting.index()) {
            Ok(v) => v,
            Err(e) => {
                return Err(e);
            },
        };
        let compressed_vis = match Self::lump_bytes(data, header.lump[LumpType::LumpVisibility.index()], LumpType::LumpVisibility.index()) {
            Ok(v) => v,
            Err(e) => {
                return Err(e);
            },
        };
        // Texture directory; a zero-length lump means the level has no
        // texture directory at all.
        let tl: Lump = header.lump[LumpType::LumpTextures.index()];
        let mut texture_header = TextureHeader { mip_texture_count: 0 };
        let mut mip_texture_offsets: Vec<MipTexOffset> = Vec::new();
        let mut mip_textures: Vec<MipTex> = Vec::new();
        if tl.length != 0 {
        if tl.offset < 0 || tl.offset as usize > n || n - (tl.offset as usize) < 4 {
            proof {
                assert(!spec_textures_valid(data@));
            }
            return Err(FormatError {
                lump_index: 2,
                offset: tl.offset,
                length: tl.length,
                reason: FormatReason::Bounds,
            });
        }
        let tl_off: usize = tl.offset as usize;
        texture_header = TextureHeader::decode_at(data, tl_off);
        let count: usize = texture_header.mip_texture_count as usize;
        if (count as u64) * 4 > (n as u64) - (tl_off as u64) - 4 {
            proof {
                assert(tl_off + 4 + 4 * (count as int) > n);
                assert(!spec_textures_valid(data@));
            }
            return Err(FormatError {
                lump_index: 2,
                offset: tl.offset,
                length: tl.length,
                reason: FormatReason::Bounds,
            });
        }
        let mut i: usize = 0;
        while i < count
            invariant
                i <= count,
                n == data@.len(),
                tl_off == Header::spec_lump_at(data@, 2).offset,
                tl_off + 4 + 4 * count <= n,
                mip_texture_offsets@.len() == i,
                forall|k: int|
                    0 <= k < i ==> mip_texture_offsets@[k] == le_i32(
                        data@,
                        tl_off + 4 + 4 * k,
                    ),
            decreases count - i,
        {
            mip_texture_offsets.push(crate::codec::read_i32(data, tl_off + 4 + 4 * i));
            i = i + 1;
        }
        let mut i: usize = 0;
        while i < count
            invariant
                i <= count,
                n == data@.len(),
                tl_off == Header::spec_lump_at(data@, 2).offset,
                tl_off + 4 + 4 * count <= n,
                count == le_u32(data@, tl_off as int),
                Header::spec_lump_at(data@, 2).length != 0,
                data@.len() >= HEADER_SIZE,
                le_i32(data@, 0) == 30,
                mip_texture_offsets@.len() == count,
                forall|k: int|
                    0 <= k < count ==> mip_texture_offsets@[k] == le_i32(
                        data@,
                        tl_off + 4 + 4 * k,
                    ),
                mip_textures@.len() == i,
                forall|k: int|
                    0 <= k < i ==> {
                        let o = #[trigger] le_i32(data@, tl_off + 4 + 4 * k);
                        0 <= o && tl_off + o + 40 <= n
                    },
                forall|k: int|
                    0 <= k < i ==> {
                        let base = tl_off + le_i32(data@, tl_off + 4 + 4 * k);
                        &&& (#[trigger] mip_textures@[k]).name@
                            == crate::bsp30::spec_char_array_at(data@, base, 16)
                        &&& mip_textures@[k].width == le_u32(data@, base + 16)
                        &&& mip_textures@[k].height == le_u32(data@, base + 20)
                        &&& mip_textures@[k].offsets.0 == le_u32(data@, base + 24)
                        &&& mip_textures@[k].offsets.1 == le_u32(data@, base + 28)
                        &&& mip_textures@[k].offsets.2 == le_u32(data@, base + 32)
                        &&& mip_textures@[k].offsets.3 == le_u32(data@, base + 36)
                    },
            decreases count - i,
        {
            let o: i32 = mip_texture_offsets[i];
            if o < 0 || (o as u64) > (n as u64) - (tl_off as u64) || ((n as u64) - (tl_off
                as u64) - (o as u64)) < 40 {
                proof {
                    assert(o == le_i32(data@, tl_off + 4 + 4 * (i as int)));
                    assert(!(0 <= o && tl_off + o + 40 <= n));
                    assert(!spec_textures_valid(data@));
                }
                return Err(FormatError {
                    lump_index: 2,
                    offset: tl.offset,
                    length: tl.length,
                    reason: FormatReason::Bounds,
                });
            }
            let base: usize = tl_off + o as usize;
            mip_textures.push(MipTex::decode_at(data, base));
            i = i + 1;
        }
        }
        // Brush models with their collision hulls, the entity's origin
        // overrides applied first.
        let (brush_pre, special_entities) = classify_entities(&entities);
        let mut sub_models = sub_models;
        apply_origin_overrides(&mut sub_models, &entities, &brush_pre);
        proof {
            assert(nodes@.len() * 24 <= usize::MAX) by (nonlinear_arith)
                requires
                    nodes@.len() == Header::spec_lump_at(data@, 5).length as int / 24,
                    0 <= Header::spec_lump_at(data@, 5).length <= usize::MAX,
            ;
            assert(clip_nodes@.len() * 8 <= usize::MAX) by (nonlinear_arith)
                requires
                    clip_nodes@.len() == Header::spec_lump_at(data@, 9).length as int / 8,
                    0 <= Header::spec_lump_at(data@, 9).length <= usize::MAX,
            ;
        }
        let (models, hull_0_clip_nodes) = load_models(
            sub_models,
            &nodes,
            &leaves,
            &clip_nodes,
            &planes,
        );
        let brush_entities = partition_brush_entities(&entities, &brush_pre);
        let mut bsp = BSP {
            header,
            vertices,
            edges,
            surface_edges,
            nodes,
            leaves,
            mark_surfaces,
            planes,
            faces,
            clip_nodes,
            texture_header,
            mip_textures,
            mip_texture_offsets,
            texture_infos,
            entities,
            brush_entities,
            special_entities,
            m_decals: Vec::new(),
            vis_lists: Vec::new(),
            m_textures: Vec::new(),
            m_lightmaps: Vec::new(),
            hull_0_clip_nodes,
            models,
            light_map_data,
        };
        // Visibility: count the visible leaves, then decompress each
        // leaf's set where one is stored.
        if compressed_vis.len() > 0 {
            proof {
                assert(bsp.leaves@.len() * 28 <= usize::MAX) by (nonlinear_arith)
                    requires
                        bsp.leaves@.len() == Header::spec_lump_at(data@, 10).length as int / 28,
                        0 <= Header::spec_lump_at(data@, 10).length <= usize::MAX,
                ;
                assert(bsp.leaves@.len() * 8 + 8 <= usize::MAX) by (nonlinear_arith)
                    requires
                        bsp.leaves@.len() * 28 <= usize::MAX,
                ;
            }
            let vcount: usize = bsp.count_vis_leaves(0);
            let leaves_len: usize = bsp.leaves.len();
            let mut vis_lists: Vec<bit_set::BitSet> = Vec::new();
            let mut i: usize = 0;
            while i < vcount && i + 1 < leaves_len
                invariant
                    leaves_len == bsp.leaves@.len(),
                    bsp.leaves@.len() * 8 + 8 <= usize::MAX,
                    vis_lists@.len() == i,
                    i <= vcount,
                    leaves_len > 0 ==> i <= leaves_len - 1,
                    leaves_len == 0 ==> i == 0,
                    forall|k: int|
                        0 <= k < i ==> bit_set_contents(#[trigger] vis_lists@[k]) == (
                        if bsp.leaves@[k + 1].vis_offset >= 0 {
                            spec_vis_bits(
                                compressed_vis@,
                                bsp.leaves@[k + 1].vis_offset as int,
                                0,
                                (bsp.leaves@.len() as int + 7) / 8,
                            )
                        } else {
                            Set::<usize>::empty()
                        }),
                decreases vcount - i,
            {
                if bsp.leaves[i + 1].vis_offset >= 0 {
                    let pvs = bsp.decompress_vis(i + 1, &compressed_vis);
                    vis_lists.push(pvs);
                } else {
                    vis_lists.push(bit_set_new());
                }
                i = i + 1;
            }
            proof {
                let lim: int = if leaves_len > 0 {
                    leaves_len - 1
                } else {
                    0int
                };
                assert(vcount == spec_count_vis(bsp.nodes@, bsp.leaves@, 0, bsp.nodes@.len()));
                assert(i as int == if vcount as int <= lim {
                    vcount as int
                } else {
                    lim
                });
            }
            bsp.vis_lists = vis_lists;
        }
        Ok(bsp)
    }
}

/// The position of the last occurrence of `b` in `s` before `upto`, or
/// `-1`.
pub open spec fn spec_rfind_byte(s: Seq<u8>, upto: int, b: u8) -> int
    decreases upto,
{
    if upto <= 0 || upto > s.len() {
        -1
    } else if s[upto - 1] == b {
        upto - 1
    } else {
        spec_rfind_byte(s, upto - 1, b)
    }
}

/// Last position of `b` strictly before `upto`.
pub fn rfind_byte(data: &Vec<u8>, upto: usize, b: u8) -> (r: Option<usize>)
    requires
        upto <= data@.len(),
    ensures
        r is None <==> spec_rfind_byte(data@, upto as int, b) == -1,
        r is Some ==> r->Some_0 == spec_rfind_byte(data@, upto as int, b) && r->Some_0 < upto,
{
    let mut i: usize = upto;
    while i > 0
        invariant
            i <= upto <= data@.len(),
            spec_rfind_byte(data@, upto as int, b) == spec_rfind_byte(data@, i as int, b),
        decreases i,
    {
        i = i - 1;
        if data[i] == b {
            return Some(i);
        }
    }
    None
}

/// One texture archive path as the loader normalises it: backslashes
/// become slashes, only the name and its parent directory are kept,
/// and the local archive directory is put in front.
pub open spec fn spec_normalize_wad_path(token: Seq<u8>) -> Seq<u8> {
    let slashed = Seq::new(token.len(), |i: int| if token[i] == 92 { 47u8 } else { token[i] });
    let stripped = if slashed.len() > 0 && slashed[0] == 47 {
        slashed.subrange(1, slashed.len() as int)
    } else {
        slashed
    };
    let last = spec_rfind_byte(stripped, stripped.len() as int, 47);
    let tail = if last == -1 {
        stripped
    } else {
        let prev = spec_rfind_byte(stripped, last, 47);
        if prev == -1 {
            stripped
        } else {
            stripped.subrange(prev + 1, stripped.len() as int)
        }
    };
    spec_wad_dir_bytes() + tail
}

/// The bytes of the local archive directory prefix.
pub open spec fn spec_wad_dir_bytes() -> Seq<u8> {
    seq![100u8, 97, 116, 97, 47, 119, 97, 100, 115, 47]
}

pub fn wad_dir_bytes() -> (r: Vec<u8>)
    ensures
        r@ == spec_wad_dir_bytes(),
{
    let r: Vec<u8> = vec![100u8, 97, 116, 97, 47, 119, 97, 100, 115, 47];
    proof {
        assert(r@ =~= spec_wad_dir_bytes());
    }
    r
}

/// Normalises one semicolon-separated token of a `wad` property.
pub fn normalize_wad_path(token: &Vec<u8>) -> (r: Vec<u8>)
    ensures
        r@ == spec_normalize_wad_path(token@),
{
    let n: usize = token.len();
    let mut slashed: Vec<u8> = Vec::new();
    let mut i: usize = 0;
    while i < n
        invariant
            i <= n,
            n == token@.len(),
            slashed@.len() == i,
            forall|k: int|
                0 <= k < i ==> slashed@[k] == (if token@[k] == 92 {
                    47u8
                } else {
                    token@[k]
                }),
        decreases n - i,
    {
        let b = token[i];
        slashed.push(if b == 92 {
            47
        } else {
            b
        });
        i = i + 1;
    }
    let ghost slashed_spec = Seq::new(token@.len(), |k: int| if token@[k] == 92 {
        47u8
    } else {
        token@[k]
    });
    proof {
        assert(slashed@ =~= slashed_spec);
    }
    let stripped: Vec<u8> = if slashed.len() > 0 && slashed[0] == 47 {
        copy_range(&slashed, 1, slashed.len())
    } else {
        slashed
    };
    let sn: usize = stripped.len();
    let tail: Vec<u8> = match rfind_byte(&stripped, sn, 47) {
        None => stripped,
        Some(last) => {
            match rfind_byte(&stripped, last, 47) {
                None => stripped,
                Some(prev) => copy_range(&stripped, prev + 1, sn),
            }
        },
    };
    let mut r = wad_dir_bytes();
    let tn: usize = tail.len();
    let mut j: usize = 0;
    while j < tn
        invariant
            j <= tn,
            tn == tail@.len(),
            r@ == spec_wad_dir_bytes() + tail@.subrange(0, j as int),
        decreases tn - j,
    {
        r.push(tail[j]);
        assert(r@ =~= spec_wad_dir_bytes() + tail@.subrange(0, j + 1));
        j = j + 1;
    }
    proof {
        assert(tail@.subrange(0, tn as int) =~= tail@);
    }
    r
}

/// The normalised archive paths a `wad` property names, one per
/// non-empty semicolon-separated token.
pub open spec fn spec_wad_paths(s: Seq<u8>, pos: int) -> Seq<Seq<u8>>
    decreases s.len() - pos,
    when 0 <= pos
    via wad_paths_decreases
{
    if pos >= s.len() {
        Seq::empty()
    } else {
        let semi = spec_find_byte(s, pos, 59);
        if semi == -1 {
            seq![spec_normalize_wad_path(s.subrange(pos, s.len() as int))]
        } else if semi == pos {
            spec_wad_paths(s, pos + 1)
        } else {
            seq![spec_normalize_wad_path(s.subrange(pos, semi))] + spec_wad_paths(s, semi + 1)
        }
    }
}

#[via_fn]
proof fn wad_paths_decreases(s: Seq<u8>, pos: int) {
    crate::entity::lemma_find_byte(s, pos, 59);
}

impl BSP {
    /// Splits a `wad` property into the local paths of the archives it
    /// names, dropping empty tokens.
    pub fn load_wad_files(wad_str: &Vec<u8>) -> (r: Vec<Vec<u8>>)
        ensures
            r@.map_values(|v: Vec<u8>| v@) == spec_wad_paths(wad_str@, 0),
    {
        let n: usize = wad_str.len();
        let mut r: Vec<Vec<u8>> = Vec::new();
        let mut pos: usize = 0;
        while pos < n
            invariant
                n == wad_str@.len(),
                r@.map_values(|v: Vec<u8>| v@) + spec_wad_paths(wad_str@, pos as int)
                    == spec_wad_paths(wad_str@, 0),
            decreases n - pos,
        {
            let ghost before = r@.map_values(|v: Vec<u8>| v@);
            match find_byte(wad_str, pos, 59) {
                None => {
                    let token = copy_range(wad_str, pos, n);
                    r.push(normalize_wad_path(&token));
                    proof {
                        let now = r@.map_values(|v: Vec<u8>| v@);
                        assert(now =~= before + seq![spec_normalize_wad_path(wad_str@.subrange(
                            pos as int, n as int))]);
                        assert(now + spec_wad_paths(wad_str@, n as int) =~= spec_wad_paths(
                            wad_str@, 0));
                    }
                    pos = n;
                },
                Some(semi) => {
                    if semi == pos {
                        pos = pos + 1;
                    } else {
                        let token = copy_range(wad_str, pos, semi);
                        r.push(normalize_wad_path(&token));
                        proof {
                            let now = r@.map_values(|v: Vec<u8>| v@);
                            assert(now =~= before + seq![spec_normalize_wad_path(
                                wad_str@.subrange(pos as int, semi as int))]);
                            assert(now + spec_wad_paths(wad_str@, semi + 1) =~= spec_wad_paths(
                                wad_str@, 0));
                        }
                        pos = semi + 1;
                    }
                },
            }
        }
        proof {
            assert(spec_wad_paths(wad_str@, pos as int) =~= Seq::<Seq<u8>>::empty());
            let now = r@.map_values(|v: Vec<u8>| v@);
            assert(now =~= now + Seq::<Seq<u8>>::empty());
        }
        r
    }

    /// The position of the first archive that yields a usable texture
    /// under `name`: its lookup hits and the bytes decode.
    pub open spec fn spec_first_wad(wads: Seq<Wad>, name: Seq<u8>, i: int) -> int
        decreases wads.len() - i,
    {
        if i < 0 || i >= wads.len() {
            -1
        } else if wads[i].spec_get_texture(name).len() > 0 && spec_mip_data_valid(
            wads[i].spec_get_texture(name),
        ) {
            i
        } else {
            Self::spec_first_wad(wads, name, i + 1)
        }
    }

    /// The first archive in the list that yields the texture: the
    /// result is that archive's decode, and a miss means no archive
    /// holds a usable texture of that name.
    pub fn load_texture_from_wads(&self, wads: &Vec<Wad>, name: &Vec<u8>) -> (r: Option<
        MipmapTexture,
    >)
        ensures
            r is Some <==> Self::spec_first_wad(wads@, name@, 0) >= 0,
            r is Some ==> crate::wad::spec_mip_levels_ok(
                r->Some_0,
                wads@[Self::spec_first_wad(wads@, name@, 0)].spec_get_texture(name@),
            ),
    {
        let n: usize = wads.len();
        let mut i: usize = 0;
        while i < n
            invariant
                i <= n,
                n == wads@.len(),
                Self::spec_first_wad(wads@, name@, 0) == Self::spec_first_wad(
                    wads@,
                    name@,
                    i as int,
                ),
            decreases n - i,
        {
            match wads[i].load_texture(name) {
                Some(tex) => {
                    proof {
                        assert(Self::spec_first_wad(wads@, name@, i as int) == i);
                    }
                    return Some(tex);
                },
                None => {},
            }
            i = i + 1;
        }
        None
    }

    /// The cached slot bound to `name`: that of the first cache entry
    /// carrying it.
    pub open spec fn spec_cache_lookup(cache: Seq<(Vec<u8>, u32)>, name: Seq<u8>, i: int) -> Option<
        u32,
    >
        decreases cache.len() - i,
    {
        if i < 0 || i >= cache.len() {
            None
        } else if cache[i].0@ == name {
            Some(cache[i].1)
        } else {
            Self::spec_cache_lookup(cache, name, i + 1)
        }
    }

    /// Fetches a decal texture by name, consulting the cache first: a
    /// hit returns the cached slot and changes nothing; otherwise the
    /// first archive holding a usable texture of that name fills a new
    /// slot, which the cache then remembers under the name; and when no
    /// archive holds one, nothing changes.
    pub fn load_decal_texture(
        &mut self,
        decal_wads: &Vec<Wad>,
        cache: &mut Vec<(Vec<u8>, u32)>,
        name: &Vec<u8>,
    ) -> (r: Option<u32>)
        requires
            old(self).m_textures@.len() + 1 <= u32::MAX,
            forall|k: int|
                0 <= k < old(cache)@.len() ==> (#[trigger] old(cache)@[k]).1 < old(self).m_textures@.len(),
        ensures
            forall|k: int|
                0 <= k < final(cache)@.len() ==> (#[trigger] final(cache)@[k]).1 < final(self).m_textures@.len(),
            r is Some ==> r->Some_0 < final(self).m_textures@.len(),
            Self::spec_cache_lookup(old(cache)@, name@, 0) is Some ==> r
                == Self::spec_cache_lookup(old(cache)@, name@, 0) && final(self).m_textures
                == old(self).m_textures && final(cache)@ == old(cache)@,
            Self::spec_cache_lookup(old(cache)@, name@, 0) is None ==> {
                let w = Self::spec_first_wad(decal_wads@, name@, 0);
                &&& (r is Some <==> w >= 0)
                &&& w >= 0 ==> r == Some(old(self).m_textures@.len() as u32)
                    && final(self).m_textures@.len() == old(self).m_textures@.len() + 1
                    && final(self).m_textures@.subrange(0, old(self).m_textures@.len() as int)
                        == old(self).m_textures@
                    && crate::wad::spec_decal_levels_ok(
                    final(self).m_textures@.last(),
                    decal_wads@[w].spec_get_texture(name@),
                ) && final(cache)@.len() == old(cache)@.len() + 1 && final(cache)@.last().0@
                    == name@ && final(cache)@.last().1 == old(self).m_textures@.len()
                    && final(cache)@.subrange(0, old(cache)@.len() as int) == old(cache)@
                &&& w < 0 ==> final(self).m_textures == old(self).m_textures && final(cache)@
                    == old(cache)@
            },
    {
        let cn: usize = cache.len();
        let mut i: usize = 0;
        while i < cn
            invariant
                i <= cn,
                cn == cache@.len(),
                self == old(self),
                cache@ == old(cache)@,
                Self::spec_cache_lookup(cache@, name@, 0) == Self::spec_cache_lookup(
                    cache@,
                    name@,
                    i as int,
                ),
                forall|k: int|
                    0 <= k < cache@.len() ==> (#[trigger] cache@[k]).1
                        < self.m_textures@.len(),
            decreases cn - i,
        {
            if bytes_eq(&cache[i].0, name) {
                proof {
                    assert(Self::spec_cache_lookup(cache@, name@, i as int) == Some(
                        cache@[i as int].1,
                    ));
                }
                return Some(cache[i].1);
            }
            i = i + 1;
        }
        let wn: usize = decal_wads.len();
        let mut w: usize = 0;
        while w < wn
            invariant
                w <= wn,
                wn == decal_wads@.len(),
                self == old(self),
                cache@ == old(cache)@,
                old(self).m_textures@.len() + 1 <= u32::MAX,
                Self::spec_cache_lookup(old(cache)@, name@, 0) is None,
                Self::spec_first_wad(decal_wads@, name@, 0) == Self::spec_first_wad(
                    decal_wads@,
                    name@,
                    w as int,
                ),
                forall|k: int|
                    0 <= k < cache@.len() ==> (#[trigger] cache@[k]).1
                        < self.m_textures@.len(),
            decreases wn - w,
        {
            match decal_wads[w].load_decal_texture(name) {
                Some(tex) => {
                    proof {
                        assert(Self::spec_first_wad(decal_wads@, name@, w as int) == w);
                    }
                    let slot: u32 = self.m_textures.len() as u32;
                    self.m_textures.push(tex);
                    let mut key: Vec<u8> = Vec::new();
                    let mut ki: usize = 0;
                    let nn: usize = name.len();
                    while ki < nn
                        invariant
                            ki <= nn,
                            nn == name@.len(),
                            key@ == name@.subrange(0, ki as int),
                        decreases nn - ki,
                    {
                        key.push(name[ki]);
                        assert(key@ =~= name@.subrange(0, ki + 1));
                        ki = ki + 1;
                    }
                    proof {
                        assert(key@ =~= name@);
                    }
                    let ghost cache_before = cache@;
                    cache.push((key, slot));
                    proof {
                        assert(self.m_textures@.subrange(
                            0,
                            old(self).m_textures@.len() as int,
                        ) =~= old(self).m_textures@);
                        assert(cache@.subrange(0, cache_before.len() as int) =~= cache_before);
                        assert forall|k: int|
                            0 <= k < cache@.len() implies (#[trigger] cache@[k]).1
                            < self.m_textures@.len() by {
                            if k < cache@.len() - 1 {
                                assert(cache@[k] == cache_before[k]);
                            }
                        }
                    }
                    return Some(slot);
                },
                None => {},
            }
            w = w + 1;
        }
        None
    }

    /// Appends one generated decal.
    pub fn push_decal(&mut self, decal: Decal)
        ensures
            final(self).m_decals@ == old(self).m_decals@.push(decal),
            final(self).header == old(self).header,
            final(self).vertices == old(self).vertices,
            final(self).edges == old(self).edges,
            final(self).surface_edges == old(self).surface_edges,
            final(self).nodes == old(self).nodes,
            final(self).leaves == old(self).leaves,
            final(self).mark_surfaces == old(self).mark_surfaces,
            final(self).planes == old(self).planes,
            final(self).faces == old(self).faces,
            final(self).clip_nodes == old(self).clip_nodes,
            final(self).texture_header == old(self).texture_header,
            final(self).mip_textures == old(self).mip_textures,
            final(self).mip_texture_offsets == old(self).mip_texture_offsets,
            final(self).texture_infos == old(self).texture_infos,
            final(self).entities == old(self).entities,
            final(self).brush_entities == old(self).brush_entities,
            final(self).special_entities == old(self).special_entities,
            final(self).vis_lists == old(self).vis_lists,
            final(self).m_textures == old(self).m_textures,
            final(self).m_lightmaps == old(self).m_lightmaps,
            final(self).hull_0_clip_nodes == old(self).hull_0_clip_nodes,
            final(self).models == old(self).models,
            final(self).light_map_data == old(self).light_map_data,
    {
        self.m_decals.push(decal);
    }
}


/// Whether an embedded texture's declared byte range lies inside the
/// file: its record offset and the size its header spells (the four
/// levels, the palette-size field and the palette) fit behind the
/// texture lump's start.
pub open spec fn spec_embedded_ok(data: Seq<u8>, tl: Lump, mt: MipTex, o: i32) -> bool {
    &&& 0 <= tl.offset
    &&& 0 <= o
    &&& tl.offset + o + (mt.offsets.3 + (mt.height as int / 8) * (mt.width as int / 8) + 2 + 768)
        <= data.len()
}

/// The raw bytes of an embedded texture.
pub open spec fn spec_embedded_raw(data: Seq<u8>, tl: Lump, mt: MipTex, o: i32) -> Seq<u8> {
    data.subrange(
        tl.offset + o,
        tl.offset + o + (mt.offsets.3 + (mt.height as int / 8) * (mt.width as int / 8) + 2
            + 768),
    )
}

/// Whether texture slot `k` resolves: an external texture (first level
/// offset zero) when some archive yields a usable texture under its
/// trimmed name, an embedded one when its bytes are in range and
/// decode.
pub open spec fn spec_slot_resolves(
    data: Seq<u8>,
    tl: Lump,
    mts: Seq<MipTex>,
    offs: Seq<i32>,
    wads: Seq<Wad>,
    k: int,
) -> bool {
    let mt = mts[k];
    if mt.offsets.0 == 0 {
        BSP::spec_first_wad(wads, crate::wad::spec_trim_name(mt.name@), 0) >= 0
    } else {
        &&& k < offs.len()
        &&& spec_embedded_ok(data, tl, mt, offs[k])
        &&& spec_mip_data_valid(spec_embedded_raw(data, tl, mt, offs[k]))
    }
}

/// How many of the first `i` texture slots fail to resolve.
pub open spec fn spec_tex_failures(
    data: Seq<u8>,
    tl: Lump,
    mts: Seq<MipTex>,
    offs: Seq<i32>,
    wads: Seq<Wad>,
    i: int,
) -> int
    decreases i,
{
    if i <= 0 {
        0
    } else {
        spec_tex_failures(data, tl, mts, offs, wads, i - 1) + (if spec_slot_resolves(
            data,
            tl,
            mts,
            offs,
            wads,
            i - 1,
        ) {
            0int
        } else {
            1int
        })
    }
}

impl BSP {
    /// Resolves every declared mip-texture: one whose first level
    /// offset is zero is fetched by its trimmed name from the opened
    /// archives, any other is decoded from its bytes embedded in the
    /// file.  A slot that resolves holds exactly the decode of its
    /// source bytes; a failed slot keeps an empty placeholder and is
    /// counted, never fatal.  Returns how many textures failed.
    pub fn load_textures(&mut self, data: &Vec<u8>, wads: &Vec<Wad>) -> (errors: usize)
        requires
            old(self).header.wf(),
        ensures
            final(self).m_textures@.len() == old(self).mip_textures@.len(),
            ({
                let tl = old(self).header.lump@[2];
                let mts = old(self).mip_textures@;
                let offs = old(self).mip_texture_offsets@;
                &&& errors == spec_tex_failures(data@, tl, mts, offs, wads@, mts.len() as int)
                &&& forall|i: int|
                    0 <= i < mts.len() && spec_slot_resolves(data@, tl, mts, offs, wads@, i)
                        && (#[trigger] mts[i]).offsets.0 == 0
                        ==> crate::wad::spec_mip_levels_ok(
                        final(self).m_textures@[i],
                        wads@[Self::spec_first_wad(wads@, crate::wad::spec_trim_name(mts[i].name@),
                            0)].spec_get_texture(crate::wad::spec_trim_name(mts[i].name@)),
                    )
                &&& forall|i: int|
                    0 <= i < mts.len() && spec_slot_resolves(data@, tl, mts, offs, wads@, i)
                        && (#[trigger] mts[i]).offsets.0 != 0
                        ==> crate::wad::spec_mip_levels_ok(
                        final(self).m_textures@[i],
                        spec_embedded_raw(data@, tl, mts[i], offs[i]),
                    )
                &&& forall|i: int|
                    0 <= i < mts.len() && !spec_slot_resolves(data@, tl, mts, offs, wads@, i)
                        ==> crate::wad::spec_placeholder_tex(#[trigger] final(self).m_textures@[i])
            }),
            final(self).mip_textures == old(self).mip_textures,
            final(self).faces == old(self).faces,
            final(self).entities == old(self).entities,
            final(self).nodes == old(self).nodes,
            final(self).leaves == old(self).leaves,
            final(self).header == old(self).header,
    {
        let n: usize = data.len();
        let tl: Lump = self.header.lump[2];
        let count: usize = self.mip_textures.len();
        let mut textures: Vec<MipmapTexture> = Vec::new();
        let mut errors: usize = 0;
        let mut i: usize = 0;
        while i < count
            invariant
                i <= count,
                n == data@.len(),
                count == self.mip_textures@.len(),
                self == old(self),
                tl == old(self).header.lump@[2],
                textures@.len() == i,
                errors <= i,
                errors == spec_tex_failures(data@, tl, self.mip_textures@,
                    self.mip_texture_offsets@, wads@, i as int),
                forall|k: int|
                    0 <= k < i && spec_slot_resolves(data@, tl, self.mip_textures@,
                        self.mip_texture_offsets@, wads@, k)
                        && (#[trigger] self.mip_textures@[k]).offsets.0 == 0
                        ==> crate::wad::spec_mip_levels_ok(
                        textures@[k],
                        wads@[Self::spec_first_wad(wads@, crate::wad::spec_trim_name(
                            self.mip_textures@[k].name@), 0)].spec_get_texture(
                            crate::wad::spec_trim_name(self.mip_textures@[k].name@)),
                    ),
                forall|k: int|
                    0 <= k < i && spec_slot_resolves(data@, tl, self.mip_textures@,
                        self.mip_texture_offsets@, wads@, k)
                        && (#[trigger] self.mip_textures@[k]).offsets.0 != 0
                        ==> crate::wad::spec_mip_levels_ok(
                        textures@[k],
                        spec_embedded_raw(data@, tl, self.mip_textures@[k],
                            self.mip_texture_offsets@[k]),
                    ),
                forall|k: int|
                    0 <= k < i && !spec_slot_resolves(data@, tl, self.mip_textures@,
                        self.mip_texture_offsets@, wads@, k)
                        ==> crate::wad::spec_placeholder_tex(#[trigger] textures@[k]),
            decreases count - i,
        {
            let ghost resolves = spec_slot_resolves(data@, tl, self.mip_textures@,
                self.mip_texture_offsets@, wads@, i as int);
            let mut resolved: Option<MipmapTexture> = None;
            if self.mip_textures[i].offsets.0 == 0 {
                // External texture: fetch it from the archives by name.
                let name = crate::wad::trim_name(&self.mip_textures[i].name);
                resolved = self.load_texture_from_wads(wads, &name);
                proof {
                    assert(resolved is Some <==> resolves);
                }
            } else if i < self.mip_texture_offsets.len() {
                // Embedded texture: decode it out of the file bytes.
                let o: i32 = self.mip_texture_offsets[i];
                let mt_w: u64 = self.mip_textures[i].width as u64;
                let mt_h: u64 = self.mip_textures[i].height as u64;
                proof {
                    assert((mt_h / 8) * (mt_w / 8) < 0x1000_0000_0000_0000) by (nonlinear_arith)
                        requires
                            mt_h < 0x1_0000_0000,
                            mt_w < 0x1_0000_0000,
                    ;
                    assert((mt_h / 8) * (mt_w / 8) == (self.mip_textures@[i as int].height as int
                        / 8) * (self.mip_textures@[i as int].width as int / 8))
                        by (nonlinear_arith)
                        requires
                            mt_h == self.mip_textures@[i as int].height,
                            mt_w == self.mip_textures@[i as int].width,
                    ;
                }
                let size64: u64 = self.mip_textures[i].offsets.3 as u64 + (mt_h / 8) * (mt_w / 8)
                    + 2 + 768;
                if tl.offset >= 0 && o >= 0 && (tl.offset as u64) + (o as u64) <= n as u64
                    && size64 <= (n as u64) - (tl.offset as u64) - (o as u64) {
                    let base: usize = (tl.offset as u64 + o as u64) as usize;
                    let size: usize = size64 as usize;
                    let raw = copy_range(data, base, base + size);
                    proof {
                        assert(raw@ == spec_embedded_raw(data@, tl,
                            self.mip_textures@[i as int], o));
                        assert(spec_embedded_ok(data@, tl, self.mip_textures@[i as int], o));
                    }
                    resolved = Wad::create_mip_texture(&raw);
                    proof {
                        assert(resolved is Some <==> resolves);
                    }
                } else {
                    proof {
                        assert(!spec_embedded_ok(data@, tl, self.mip_textures@[i as int], o));
                        assert(!resolves);
                    }
                }
            } else {
                proof {
                    assert(!resolves);
                }
            }
            match resolved {
                Some(tex) => {
                    textures.push(tex);
                },
                None => {
                    textures.push(MipmapTexture::new());
                    errors = errors + 1;
                },
            }
            i = i + 1;
        }
        self.m_textures = textures;
        errors
    }

    /// Slices every eligible face's lightmap out of the raw lighting
    /// bytes: a face is eligible when its first lighting style is not
    /// the unlit mark and its stored lightmap offset is non-negative.
    /// The per-face texel extents come from the caller, which projects
    /// the face into texture space.  Ineligible or out-of-range faces
    /// get a zero-size placeholder, keeping the array aligned with the
    /// faces.
    pub fn load_light_maps(&mut self, extents: &Vec<(u32, u32)>)
        requires
            extents@.len() == old(self).faces@.len(),
        ensures
            final(self).m_lightmaps@.len() == old(self).faces@.len(),
            forall|i: int|
                0 <= i < final(self).m_lightmaps@.len() ==> {
                    let f = old(self).faces@[i];
                    let w = extents@[i].0 as int;
                    let h = extents@[i].1 as int;
                    let off = f.lightmap_offset as int;
                    let eligible = f.styles.0 != 255 && crate::codec::spec_i32_of_u32(
                        f.lightmap_offset,
                    ) >= 0 && off + w * h * 3 <= old(self).light_map_data@.len() && w * h * 3
                        <= usize::MAX;
                    &&& (eligible ==> (#[trigger] final(self).m_lightmaps@[i]).channels == 3
                        && final(self).m_lightmaps@[i].width == w
                        && final(self).m_lightmaps@[i].height == h
                        && final(self).m_lightmaps@[i].data@
                            == old(self).light_map_data@.subrange(off, off + w * h * 3))
                    &&& (!eligible ==> (#[trigger] final(self).m_lightmaps@[i]).width == 0
                        && final(self).m_lightmaps@[i].height == 0)
                },
            final(self).faces == old(self).faces,
            final(self).light_map_data == old(self).light_map_data,
            final(self).entities == old(self).entities,
            final(self).nodes == old(self).nodes,
            final(self).leaves == old(self).leaves,
            final(self).header == old(self).header,
            final(self).m_textures == old(self).m_textures,
    {
        let count: usize = self.faces.len();
        let ln: usize = self.light_map_data.len();
        let mut lightmaps: Vec<Image> = Vec::new();
        let mut i: usize = 0;
        while i < count
            invariant
                i <= count,
                count == self.faces@.len(),
                count == extents@.len(),
                ln == self.light_map_data@.len(),
                self == old(self),
                lightmaps@.len() == i,
                forall|k: int|
                    0 <= k < i ==> {
                        let f = self.faces@[k];
                        let w = extents@[k].0 as int;
                        let h = extents@[k].1 as int;
                        let off = f.lightmap_offset as int;
                        let eligible = f.styles.0 != 255 && crate::codec::spec_i32_of_u32(
                            f.lightmap_offset,
                        ) >= 0 && off + w * h * 3 <= self.light_map_data@.len() && w * h * 3
                            <= usize::MAX;
                        &&& (eligible ==> (#[trigger] lightmaps@[k]).channels == 3
                            && lightmaps@[k].width == w && lightmaps@[k].height == h
                            && lightmaps@[k].data@ == self.light_map_data@.subrange(
                            off,
                            off + w * h * 3,
                        ))
                        &&& (!eligible ==> (#[trigger] lightmaps@[k]).width == 0
                            && lightmaps@[k].height == 0)
                    },
            decreases count - i,
        {
            let f = self.faces[i];
            let w: u32 = extents[i].0;
            let h: u32 = extents[i].1;
            let signed_ok: bool = f.lightmap_offset < 0x8000_0000;
            proof {
                assert((w as u64) * (h as u64) < 0x1_0000_0000_0000_0000) by (nonlinear_arith)
                    requires
                        w < 0x1_0000_0000,
                        h < 0x1_0000_0000,
                ;
            }
            let wh64: u64 = (w as u64) * (h as u64);
            let fits: bool = wh64 <= (usize::MAX / 3) as u64;
            proof {
                if fits {
                    assert(wh64 * 3 <= usize::MAX) by (nonlinear_arith)
                        requires
                            wh64 <= usize::MAX as int / 3,
                    ;
                } else {
                    assert(wh64 * 3 > usize::MAX) by (nonlinear_arith)
                        requires
                            wh64 > usize::MAX as int / 3,
                    ;
                }
                assert(wh64 * 3 == (w as int) * (h as int) * 3) by (nonlinear_arith)
                    requires
                        wh64 == (w as int) * (h as int),
                ;
            }
            let size64: u64 = if fits {
                wh64 * 3
            } else {
                u64::MAX
            };
            let mut eligible: bool = f.styles.0 != 255 && signed_ok && fits;
            if eligible {
                if f.lightmap_offset as u64 > ln as u64 || size64 > (ln as u64) - (f.lightmap_offset
                    as u64) {
                    eligible = false;
                }
            }
            if eligible {
                let off: usize = f.lightmap_offset as usize;
                let size: usize = size64 as usize;
                let data = copy_range(&self.light_map_data, off, off + size);
                lightmaps.push(Image { channels: 3, width: w as usize, height: h as usize, data });
            } else {
                lightmaps.push(Image { channels: 4, width: 0, height: 0, data: Vec::new() });
            }
            i = i + 1;
        }
        self.m_lightmaps = lightmaps;
    }
}

} // verus!
