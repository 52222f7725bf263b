//! The wire schema of the BSP30 level format: the fixed little-endian
//! layout of every record category, decode and encode functions for each,
//! and the proof that decoding an encoded record yields the record back.
//!
//! Fields that are IEEE-754 single-precision values on the wire (plane
//! normals and distances, vertices, texture bases, model bounds) are held
//! as their raw bit patterns in `u32` fields, so the byte layout is carried
//! exactly without any floating-point arithmetic.

use vstd::prelude::*;

verus! {

use crate::codec::{
    le_u16, le_u32, le_i16, le_i32, spec_u16_le, spec_u32_le, spec_u16_of_i16, spec_u32_of_i32,
    read_u8, read_u16, read_u32, read_i16, read_i32, push_u16, push_u32, push_i16, push_i32,
    lemma_split_at, lemma_le_u16_here, lemma_le_u32_here, lemma_le_i16_here, lemma_le_i32_here,
};

pub const MAX_MAP_HULLS: usize = 4;

pub const MAX_TEXTURE_NAME: usize = 16;

pub const MIP_LEVELS: usize = 4;

/// Number of lump descriptors in the header of a version-30 level file.
pub const HEADER_LUMP_COUNT: usize = 15;

/// The lump categories, in the order their descriptors appear in the header.
pub enum LumpType {
    LumpEntities,
    LumpPlanes,
    LumpTextures,
    LumpVertexes,
    LumpVisibility,
    LumpNodes,
    LumpTexinfo,
    LumpFaces,
    LumpLighting,
    LumpClipNodes,
    LumpLeaves,
    LumpMarkSurfaces,
    LumpEdges,
    LumpSurfaceEdges,
    LumpModels,
    HeaderLumps,
}

impl LumpType {
    /// The position of this category's descriptor in the header table.
    pub open spec fn spec_index(self) -> int {
        match self {
            LumpType::LumpEntities => 0,
            LumpType::LumpPlanes => 1,
            LumpType::LumpTextures => 2,
            LumpType::LumpVertexes => 3,
            LumpType::LumpVisibility => 4,
            LumpType::LumpNodes => 5,
            LumpType::LumpTexinfo => 6,
            LumpType::LumpFaces => 7,
            LumpType::LumpLighting => 8,
            LumpType::LumpClipNodes => 9,
            LumpType::LumpLeaves => 10,
            LumpType::LumpMarkSurfaces => 11,
            LumpType::LumpEdges => 12,
            LumpType::LumpSurfaceEdges => 13,
            LumpType::LumpModels => 14,
            LumpType::HeaderLumps => 15,
        }
    }

    pub fn index(self) -> (r: usize)
        ensures
            r == self.spec_index(),
    {
        match self {
            LumpType::LumpEntities => 0,
            LumpType::LumpPlanes => 1,
            LumpType::LumpTextures => 2,
            LumpType::LumpVertexes => 3,
            LumpType::LumpVisibility => 4,
            LumpType::LumpNodes => 5,
            LumpType::LumpTexinfo => 6,
            LumpType::LumpFaces => 7,
            LumpType::LumpLighting => 8,
            LumpType::LumpClipNodes => 9,
            LumpType::LumpLeaves => 10,
            LumpType::LumpMarkSurfaces => 11,
            LumpType::LumpEdges => 12,
            LumpType::LumpSurfaceEdges => 13,
            LumpType::LumpModels => 14,
            LumpType::HeaderLumps => 15,
        }
    }
}

/// The contents classification stored in a leaf, a small negative integer
/// on the wire.
#[derive(Clone, Copy, PartialEq, Eq, Structural, Debug)]
pub enum ContentType {
    ContentsEmpty,
    ContentsSolid,
    ContentsWater,
    ContentsSlime,
    ContentsLava,
    ContentsSky,
    ContentsOrigin,
    ContentsClip,
    ContentsCurrent0,
    ContentsCurrent90,
    ContentsCurrent180,
    ContentsCurrent270,
    ContentsCurrentUp,
    ContentsCurrentDown,
    ContentsTranslucent,
}

impl ContentType {
    /// The wire value of this contents classification.
    pub open spec fn spec_code(self) -> int {
        match self {
            ContentType::ContentsEmpty => -1,
            ContentType::ContentsSolid => -2,
            ContentType::ContentsWater => -3,
            ContentType::ContentsSlime => -4,
            ContentType::ContentsLava => -5,
            ContentType::ContentsSky => -6,
            ContentType::ContentsOrigin => -7,
            ContentType::ContentsClip => -8,
            ContentType::ContentsCurrent0 => -9,
            ContentType::ContentsCurrent90 => -10,
            ContentType::ContentsCurrent180 => -11,
            ContentType::ContentsCurrent270 => -12,
            ContentType::ContentsCurrentUp => -13,
            ContentType::ContentsCurrentDown => -14,
            ContentType::ContentsTranslucent => -15,
        }
    }

    pub fn code(self) -> (r: i32)
        ensures
            r == self.spec_code(),
    {
        match self {
            ContentType::ContentsEmpty => -1,
            ContentType::ContentsSolid => -2,
            ContentType::ContentsWater => -3,
            ContentType::ContentsSlime => -4,
            ContentType::ContentsLava => -5,
            ContentType::ContentsSky => -6,
            ContentType::ContentsOrigin => -7,
            ContentType::ContentsClip => -8,
            ContentType::ContentsCurrent0 => -9,
            ContentType::ContentsCurrent90 => -10,
            ContentType::ContentsCurrent180 => -11,
            ContentType::ContentsCurrent270 => -12,
            ContentType::ContentsCurrentUp => -13,
            ContentType::ContentsCurrentDown => -14,
            ContentType::ContentsTranslucent => -15,
        }
    }
}

/// Axis classification of a plane, as stored on the wire.
#[derive(Clone, Copy, PartialEq, Eq, Structural, Debug)]
pub enum PlaneType {
    PlaneX,
    PlaneY,
    PlaneZ,
    PlaneAnyX,
    PlaneAnyY,
    PlaneAnyZ,
}

impl PlaneType {
    /// The wire value of this axis classification.
    pub open spec fn spec_code(self) -> int {
        match self {
            PlaneType::PlaneX => 0,
            PlaneType::PlaneY => 1,
            PlaneType::PlaneZ => 2,
            PlaneType::PlaneAnyX => 3,
            PlaneType::PlaneAnyY => 4,
            PlaneType::PlaneAnyZ => 5,
        }
    }

    pub fn code(self) -> (r: i32)
        ensures
            r == self.spec_code(),
    {
        match self {
            PlaneType::PlaneX => 0,
            PlaneType::PlaneY => 1,
            PlaneType::PlaneZ => 2,
            PlaneType::PlaneAnyX => 3,
            PlaneType::PlaneAnyY => 4,
            PlaneType::PlaneAnyZ => 5,
        }
    }
}

/// Render mode of a brush entity, as written in its `rendermode` property.
#[derive(Clone, Copy, PartialEq, Eq, Structural, Debug)]
pub enum RenderMode {
    RenderModeNormal,
    RenderModeColor,
    RenderModeTexture,
    RenderModeGlow,
    RenderModeSolid,
    RenderModeAdditive,
}

impl RenderMode {
    /// The numeric value a `rendermode` entity property uses for this mode.
    pub open spec fn spec_code(self) -> int {
        match self {
            RenderMode::RenderModeNormal => 0,
            RenderMode::RenderModeColor => 1,
            RenderMode::RenderModeTexture => 2,
            RenderMode::RenderModeGlow => 3,
            RenderMode::RenderModeSolid => 4,
            RenderMode::RenderModeAdditive => 5,
        }
    }

    pub fn code(self) -> (r: u32)
        ensures
            r == self.spec_code(),
    {
        match self {
            RenderMode::RenderModeNormal => 0,
            RenderMode::RenderModeColor => 1,
            RenderMode::RenderModeTexture => 2,
            RenderMode::RenderModeGlow => 3,
            RenderMode::RenderModeSolid => 4,
            RenderMode::RenderModeAdditive => 5,
        }
    }
}

/// A triple of 16-bit map coordinates, used for node and leaf bounding
/// boxes.
#[derive(Clone, Copy, PartialEq, Eq, Structural, Debug)]
pub struct Vec3i16 {
    pub x: i16,
    pub y: i16,
    pub z: i16,
}

/// A triple of IEEE-754 single-precision bit patterns: a vertex position,
/// plane normal or texture basis vector as it stands on the wire.
#[derive(Clone, Copy, PartialEq, Eq, Structural, Debug)]
pub struct Vec3Bits {
    pub x: u32,
    pub y: u32,
    pub z: u32,
}

/// A fixed-size record category of the level file: its wire size, the
/// record stored at a byte offset, and the bytes a record encodes to.
pub trait WireRecord: Sized {
    /// Size of one record on the wire, in bytes.
    spec fn wire_size() -> nat;

    /// The record stored at byte offset `off` of `b`.
    spec fn decoded(b: Seq<u8>, off: int) -> Self;

    /// The bytes this record encodes to.
    spec fn encoded(r: Self) -> Seq<u8>;

    proof fn lemma_wire_size()
        ensures
            0 < Self::wire_size() <= 64,
    ;

    /// Encoding a record always yields exactly `wire_size` bytes, and
    /// decoding them gives the record back.
    proof fn lemma_round_trip(r: Self)
        ensures
            Self::encoded(r).len() == Self::wire_size(),
            Self::decoded(Self::encoded(r), 0) == r,
    ;

    fn record_size() -> (n: usize)
        ensures
            n == Self::wire_size(),
    ;

    fn decode_at(data: &Vec<u8>, off: usize) -> (r: Self)
        requires
            off + Self::wire_size() <= data@.len(),
        ensures
            r == Self::decoded(data@, off as int),
    ;

    fn encode_onto(&self, out: &mut Vec<u8>)
        ensures
            final(out)@ == old(out)@ + Self::encoded(*self),
    ;
}

/// A lump descriptor of the header: where a lump starts and how many bytes
/// it spans.
#[derive(Clone, Copy, PartialEq, Eq, Structural, Debug)]
pub struct Lump {
    pub offset: i32,
    pub length: i32,
}

impl WireRecord for Lump {
    open spec fn wire_size() -> nat {
        8
    }

    open spec fn decoded(b: Seq<u8>, off: int) -> Self {
        Lump { offset: le_i32(b, off), length: le_i32(b, off + 4) }
    }

    open spec fn encoded(r: Self) -> Seq<u8> {
        spec_u32_le(spec_u32_of_i32(r.offset)) + spec_u32_le(spec_u32_of_i32(r.length))
    }

    proof fn lemma_wire_size() {
    }

    proof fn lemma_round_trip(r: Self) {
        let b = Self::encoded(r);
        assert(b.subrange(0, 8) =~= b);
        let c1 = spec_u32_le(spec_u32_of_i32(r.offset)) + spec_u32_le(spec_u32_of_i32(r.length));
        lemma_split_at(b, 0, spec_u32_le(spec_u32_of_i32(r.offset)), spec_u32_le(spec_u32_of_i32(r.length)));
        lemma_le_i32_here(b, 0, r.offset);
        lemma_le_i32_here(b, 4, r.length);
    }

    fn record_size() -> usize {
        8
    }

    fn decode_at(data: &Vec<u8>, off: usize) -> (r: Self)
        ensures
            r == Self::decoded(data@, off as int),
    {
        let n: usize = data.len();
        assert(off + 8 <= n);
        let offset = read_i32(data, off);
        let length = read_i32(data, off + 4);
        Lump { offset, length }
    }

    fn encode_onto(&self, out: &mut Vec<u8>)
        ensures
            final(out)@ == old(out)@ + Self::encoded(*self),
    {
        push_i32(out, self.offset);
        push_i32(out, self.length);
        assert(out@ =~= old(out)@ + Self::encoded(*self));
    }
}

/// A mark-surface: an index into the face array, the unit of the
/// per-leaf surface lists.
pub type MarkSurface = u16;

impl WireRecord for u16 {
    open spec fn wire_size() -> nat {
        2
    }

    open spec fn decoded(b: Seq<u8>, off: int) -> Self {
        le_u16(b, off)
    }

    open spec fn encoded(r: Self) -> Seq<u8> {
        spec_u16_le(r)
    }

    proof fn lemma_wire_size() {
    }

    proof fn lemma_round_trip(r: Self) {
        let b = Self::encoded(r);
        assert(b.subrange(0, 2) =~= b);
        lemma_le_u16_here(b, 0, r);
    }

    fn record_size() -> usize {
        2
    }

    fn decode_at(data: &Vec<u8>, off: usize) -> (r: Self)
        ensures
            r == Self::decoded(data@, off as int),
    {
        let n: usize = data.len();
        assert(off + 2 <= n);
        read_u16(data, off)
    }

    fn encode_onto(&self, out: &mut Vec<u8>)
        ensures
            final(out)@ == old(out)@ + Self::encoded(*self),
    {
        push_u16(out, *self);
        assert(out@ =~= old(out)@ + Self::encoded(*self));
    }
}

/// A surface-edge: a signed index into the edge array.  A positive value
/// walks the edge forward (vertex 0 first); a negative value walks the
/// edge with index `-value` reversed (vertex 1 first).
pub type SurfaceEdge = i32;

impl WireRecord for i32 {
    open spec fn wire_size() -> nat {
        4
    }

    open spec fn decoded(b: Seq<u8>, off: int) -> Self {
        le_i32(b, off)
    }

    open spec fn encoded(r: Self) -> Seq<u8> {
        spec_u32_le(spec_u32_of_i32(r))
    }

    proof fn lemma_wire_size() {
    }

    proof fn lemma_round_trip(r: Self) {
        let b = Self::encoded(r);
        assert(b.subrange(0, 4) =~= b);
        lemma_le_i32_here(b, 0, r);
    }

    fn record_size() -> usize {
        4
    }

    fn decode_at(data: &Vec<u8>, off: usize) -> (r: Self)
        ensures
            r == Self::decoded(data@, off as int),
    {
        let n: usize = data.len();
        assert(off + 4 <= n);
        read_i32(data, off)
    }

    fn encode_onto(&self, out: &mut Vec<u8>)
        ensures
            final(out)@ == old(out)@ + Self::encoded(*self),
    {
        push_i32(out, *self);
        assert(out@ =~= old(out)@ + Self::encoded(*self));
    }
}

/// The `Vec3i16` stored at byte offset `off` of `b`.
pub open spec fn vec3i16_at(b: Seq<u8>, off: int) -> Vec3i16 {
    Vec3i16 { x: le_i16(b, off), y: le_i16(b, off + 2), z: le_i16(b, off + 4) }
}

/// The `Vec3Bits` stored at byte offset `off` of `b`.
pub open spec fn vec3bits_at(b: Seq<u8>, off: int) -> Vec3Bits {
    Vec3Bits { x: le_u32(b, off), y: le_u32(b, off + 4), z: le_u32(b, off + 8) }
}

impl WireRecord for Vec3Bits {
    open spec fn wire_size() -> nat {
        12
    }

    open spec fn decoded(b: Seq<u8>, off: int) -> Self {
        vec3bits_at(b, off)
    }

    open spec fn encoded(r: Self) -> Seq<u8> {
        spec_u32_le(r.x) + spec_u32_le(r.y) + spec_u32_le(r.z)
    }

    proof fn lemma_wire_size() {
    }

    proof fn lemma_round_trip(r: Self) {
        let b = Self::encoded(r);
        assert(b.subrange(0, 12) =~= b);
        let c1 = spec_u32_le(r.x) + spec_u32_le(r.y);
        let c2 = spec_u32_le(r.x) + spec_u32_le(r.y) + spec_u32_le(r.z);
        lemma_split_at(b, 0, c1, spec_u32_le(r.z));
        lemma_split_at(b, 0, spec_u32_le(r.x), spec_u32_le(r.y));
        lemma_le_u32_here(b, 0, r.x);
        lemma_le_u32_here(b, 4, r.y);
        lemma_le_u32_here(b, 8, r.z);
    }

    fn record_size() -> usize {
        12
    }

    fn decode_at(data: &Vec<u8>, off: usize) -> (r: Self)
        ensures
            r == Self::decoded(data@, off as int),
    {
        let n: usize = data.len();
        assert(off + 12 <= n);
        let x = read_u32(data, off);
        let y = read_u32(data, off + 4);
        let z = read_u32(data, off + 8);
        Vec3Bits { x, y, z }
    }

    fn encode_onto(&self, out: &mut Vec<u8>)
        ensures
            final(out)@ == old(out)@ + Self::encoded(*self),
    {
        push_u32(out, self.x);
        push_u32(out, self.y);
        push_u32(out, self.z);
        assert(out@ =~= old(out)@ + Self::encoded(*self));
    }
}

/// An edge: the two vertex indices it connects.
#[derive(Clone, Copy, PartialEq, Eq, Debug)]
pub struct Edge {
    pub vertex_index: (u16, u16),
}

impl WireRecord for Edge {
    open spec fn wire_size() -> nat {
        4
    }

    open spec fn decoded(b: Seq<u8>, off: int) -> Self {
        Edge { vertex_index: (le_u16(b, off), le_u16(b, off + 2)) }
    }

    open spec fn encoded(r: Self) -> Seq<u8> {
        spec_u16_le(r.vertex_index.0) + spec_u16_le(r.vertex_index.1)
    }

    proof fn lemma_wire_size() {
    }

    proof fn lemma_round_trip(r: Self) {
        let b = Self::encoded(r);
        assert(b.subrange(0, 4) =~= b);
        let c1 = spec_u16_le(r.vertex_index.0) + spec_u16_le(r.vertex_index.1);
        lemma_split_at(b, 0, spec_u16_le(r.vertex_index.0), spec_u16_le(r.vertex_index.1));
        lemma_le_u16_here(b, 0, r.vertex_index.0);
        lemma_le_u16_here(b, 2, r.vertex_index.1);
    }

    fn record_size() -> usize {
        4
    }

    fn decode_at(data: &Vec<u8>, off: usize) -> (r: Self)
        ensures
            r == Self::decoded(data@, off as int),
    {
        let n: usize = data.len();
        assert(off + 4 <= n);
        let a = read_u16(data, off);
        let b = read_u16(data, off + 2);
        Edge { vertex_index: (a, b) }
    }

    fn encode_onto(&self, out: &mut Vec<u8>)
        ensures
            final(out)@ == old(out)@ + Self::encoded(*self),
    {
        push_u16(out, self.vertex_index.0);
        push_u16(out, self.vertex_index.1);
        assert(out@ =~= old(out)@ + Self::encoded(*self));
    }
}

/// An internal node of the rendering tree.  A child index that is
/// non-negative names another node; a negative one is the bit-complement
/// of a leaf index.
#[derive(Clone, Copy, PartialEq, Eq, Debug)]
pub struct Node {
    pub plane_index: u32,
    pub child_index: (i16, i16),
    pub lower: Vec3i16,
    pub upper: Vec3i16,
    pub first_face: u16,
    pub last_face: u16,
}

impl WireRecord for Node {
    open spec fn wire_size() -> nat {
        24
    }

    open spec fn decoded(b: Seq<u8>, off: int) -> Self {
        Node {
            plane_index: le_u32(b, off),
            child_index: (le_i16(b, off + 4), le_i16(b, off + 6)),
            lower: vec3i16_at(b, off + 8),
            upper: vec3i16_at(b, off + 14),
            first_face: le_u16(b, off + 20),
            last_face: le_u16(b, off + 22),
        }
    }

    open spec fn encoded(r: Self) -> Seq<u8> {
        spec_u32_le(r.plane_index) + spec_u16_le(spec_u16_of_i16(r.child_index.0)) + spec_u16_le(spec_u16_of_i16(r.child_index.1)) + spec_u16_le(spec_u16_of_i16(r.lower.x)) + spec_u16_le(spec_u16_of_i16(r.lower.y)) + spec_u16_le(spec_u16_of_i16(r.lower.z)) + spec_u16_le(spec_u16_of_i16(r.upper.x)) + spec_u16_le(spec_u16_of_i16(r.upper.y)) + spec_u16_le(spec_u16_of_i16(r.upper.z)) + spec_u16_le(r.first_face) + spec_u16_le(r.last_face)
    }

    proof fn lemma_wire_size() {
    }

    proof fn lemma_round_trip(r: Self) {
        let b = Self::encoded(r);
        assert(b.subrange(0, 24) =~= b);
        let c1 = spec_u32_le(r.plane_index) + spec_u16_le(spec_u16_of_i16(r.child_index.0));
        let c2 = spec_u32_le(r.plane_index) + spec_u16_le(spec_u16_of_i16(r.child_index.0)) + spec_u16_le(spec_u16_of_i16(r.child_index.1));
        let c3 = spec_u32_le(r.plane_index) + spec_u16_le(spec_u16_of_i16(r.child_index.0)) + spec_u16_le(spec_u16_of_i16(r.child_index.1)) + spec_u16_le(spec_u16_of_i16(r.lower.x));
        let c4 = spec_u32_le(r.plane_index) + spec_u16_le(spec_u16_of_i16(r.child_index.0)) + spec_u16_le(spec_u16_of_i16(r.child_index.1)) + spec_u16_le(spec_u16_of_i16(r.lower.x)) + spec_u16_le(spec_u16_of_i16(r.lower.y));
        let c5 = spec_u32_le(r.plane_index) + spec_u16_le(spec_u16_of_i16(r.child_index.0)) + spec_u16_le(spec_u16_of_i16(r.child_index.1)) + spec_u16_le(spec_u16_of_i16(r.lower.x)) + spec_u16_le(spec_u16_of_i16(r.lower.y)) + spec_u16_le(spec_u16_of_i16(r.lower.z));
        let c6 = spec_u32_le(r.plane_index) + spec_u16_le(spec_u16_of_i16(r.child_index.0)) + spec_u16_le(spec_u16_of_i16(r.child_index.1)) + spec_u16_le(spec_u16_of_i16(r.lower.x)) + spec_u16_le(spec_u16_of_i16(r.lower.y)) + spec_u16_le(spec_u16_of_i16(r.lower.z)) + spec_u16_le(spec_u16_of_i16(r.upper.x));
        let c7 = spec_u32_le(r.plane_index) + spec_u16_le(spec_u16_of_i16(r.child_index.0)) + spec_u16_le(spec_u16_of_i16(r.child_index.1)) + spec_u16_le(spec_u16_of_i16(r.lower.x)) + spec_u16_le(spec_u16_of_i16(r.lower.y)) + spec_u16_le(spec_u16_of_i16(r.lower.z)) + spec_u16_le(spec_u16_of_i16(r.upper.x)) + spec_u16_le(spec_u16_of_i16(r.upper.y));
        let c8 = spec_u32_le(r.plane_index) + spec_u16_le(spec_u16_of_i16(r.child_index.0)) + spec_u16_le(spec_u16_of_i16(r.child_index.1)) + spec_u16_le(spec_u16_of_i16(r.lower.x)) + spec_u16_le(spec_u16_of_i16(r.lower.y)) + spec_u16_le(spec_u16_of_i16(r.lower.z)) + spec_u16_le(spec_u16_of_i16(r.upper.x)) + spec_u16_le(spec_u16_of_i16(r.upper.y)) + spec_u16_le(spec_u16_of_i16(r.upper.z));
        let c9 = spec_u32_le(r.plane_index) + spec_u16_le(spec_u16_of_i16(r.child_index.0)) + spec_u16_le(spec_u16_of_i16(r.child_index.1)) + spec_u16_le(spec_u16_of_i16(r.lower.x)) + spec_u16_le(spec_u16_of_i16(r.lower.y)) + spec_u16_le(spec_u16_of_i16(r.lower.z)) + spec_u16_le(spec_u16_of_i16(r.upper.x)) + spec_u16_le(spec_u16_of_i16(r.upper.y)) + spec_u16_le(spec_u16_of_i16(r.upper.z)) + spec_u16_le(r.first_face);
        let c10 = spec_u32_le(r.plane_index) + spec_u16_le(spec_u16_of_i16(r.child_index.0)) + spec_u16_le(spec_u16_of_i16(r.child_index.1)) + spec_u16_le(spec_u16_of_i16(r.lower.x)) + spec_u16_le(spec_u16_of_i16(r.lower.y)) + spec_u16_le(spec_u16_of_i16(r.lower.z)) + spec_u16_le(spec_u16_of_i16(r.upper.x)) + spec_u16_le(spec_u16_of_i16(r.upper.y)) + spec_u16_le(spec_u16_of_i16(r.upper.z)) + spec_u16_le(r.first_face) + spec_u16_le(r.last_face);
        lemma_split_at(b, 0, c9, spec_u16_le(r.last_face));
        lemma_split_at(b, 0, c8, spec_u16_le(r.first_face));
        lemma_split_at(b, 0, c7, spec_u16_le(spec_u16_of_i16(r.upper.z)));
        lemma_split_at(b, 0, c6, spec_u16_le(spec_u16_of_i16(r.upper.y)));
        lemma_split_at(b, 0, c5, spec_u16_le(spec_u16_of_i16(r.upper.x)));
        lemma_split_at(b, 0, c4, spec_u16_le(spec_u16_of_i16(r.lower.z)));
        lemma_split_at(b, 0, c3, spec_u16_le(spec_u16_of_i16(r.lower.y)));
        lemma_split_at(b, 0, c2, spec_u16_le(spec_u16_of_i16(r.lower.x)));
        lemma_split_at(b, 0, c1, spec_u16_le(spec_u16_of_i16(r.child_index.1)));
        lemma_split_at(b, 0, spec_u32_le(r.plane_index), spec_u16_le(spec_u16_of_i16(r.child_index.0)));
        lemma_le_u32_here(b, 0, r.plane_index);
        lemma_le_i16_here(b, 4, r.child_index.0);
        lemma_le_i16_here(b, 6, r.child_index.1);
        lemma_le_i16_here(b, 8, r.lower.x);
        lemma_le_i16_here(b, 10, r.lower.y);
        lemma_le_i16_here(b, 12, r.lower.z);
        lemma_le_i16_here(b, 14, r.upper.x);
        lemma_le_i16_here(b, 16, r.upper.y);
        lemma_le_i16_here(b, 18, r.upper.z);
        lemma_le_u16_here(b, 20, r.first_face);
        lemma_le_u16_here(b, 22, r.last_face);
    }

    fn record_size() -> usize {
        24
    }

    fn decode_at(data: &Vec<u8>, off: usize) -> (r: Self)
        ensures
            r == Self::decoded(data@, off as int),
    {
        let n: usize = data.len();
        assert(off + 24 <= n);
        let plane_index = read_u32(data, off);
        let c0 = read_i16(data, off + 4);
        let c1 = read_i16(data, off + 6);
        let lower = Vec3i16 {
            x: read_i16(data, off + 8),
            y: read_i16(data, off + 10),
            z: read_i16(data, off + 12),
        };
        let upper = Vec3i16 {
            x: read_i16(data, off + 14),
            y: read_i16(data, off + 16),
            z: read_i16(data, off + 18),
        };
        let first_face = read_u16(data, off + 20);
        let last_face = read_u16(data, off + 22);
        Node { plane_index, child_index: (c0, c1), lower, upper, first_face, last_face }
    }

    fn encode_onto(&self, out: &mut Vec<u8>)
        ensures
            final(out)@ == old(out)@ + Self::encoded(*self),
    {
        push_u32(out, self.plane_index);
        push_i16(out, self.child_index.0);
        push_i16(out, self.child_index.1);
        push_i16(out, self.lower.x);
        push_i16(out, self.lower.y);
        push_i16(out, self.lower.z);
        push_i16(out, self.upper.x);
        push_i16(out, self.upper.y);
        push_i16(out, self.upper.z);
        push_u16(out, self.first_face);
        push_u16(out, self.last_face);
        assert(out@ =~= old(out)@ + Self::encoded(*self));
    }
}

/// A terminal convex region of the rendering tree.
#[derive(Clone, Copy, PartialEq, Eq, Debug)]
pub struct Leaf {
    pub content: i32,
    pub vis_offset: i32,
    pub lower: Vec3i16,
    pub upper: Vec3i16,
    pub first_mark_surface: u16,
    pub mark_surface_count: u16,
    pub ambient_levels: (u8, u8, u8, u8),
}

impl WireRecord for Leaf {
    open spec fn wire_size() -> nat {
        28
    }

    open spec fn decoded(b: Seq<u8>, off: int) -> Self {
        Leaf {
            content: le_i32(b, off),
            vis_offset: le_i32(b, off + 4),
            lower: vec3i16_at(b, off + 8),
            upper: vec3i16_at(b, off + 14),
            first_mark_surface: le_u16(b, off + 20),
            mark_surface_count: le_u16(b, off + 22),
            ambient_levels: (b[off + 24], b[off + 25], b[off + 26], b[off + 27]),
        }
    }

    open spec fn encoded(r: Self) -> Seq<u8> {
        spec_u32_le(spec_u32_of_i32(r.content)) + spec_u32_le(spec_u32_of_i32(r.vis_offset)) + spec_u16_le(spec_u16_of_i16(r.lower.x)) + spec_u16_le(spec_u16_of_i16(r.lower.y)) + spec_u16_le(spec_u16_of_i16(r.lower.z)) + spec_u16_le(spec_u16_of_i16(r.upper.x)) + spec_u16_le(spec_u16_of_i16(r.upper.y)) + spec_u16_le(spec_u16_of_i16(r.upper.z)) + spec_u16_le(r.first_mark_surface) + spec_u16_le(r.mark_surface_count) + seq![r.ambient_levels.0] + seq![r.ambient_levels.1] + seq![r.ambient_levels.2] + seq![r.ambient_levels.3]
    }

    proof fn lemma_wire_size() {
    }

    proof fn lemma_round_trip(r: Self) {
        let b = Self::encoded(r);
        assert(b.subrange(0, 28) =~= b);
        let c1 = spec_u32_le(spec_u32_of_i32(r.content)) + spec_u32_le(spec_u32_of_i32(r.vis_offset));
        let c2 = spec_u32_le(spec_u32_of_i32(r.content)) + spec_u32_le(spec_u32_of_i32(r.vis_offset)) + spec_u16_le(spec_u16_of_i16(r.lower.x));
        let c3 = spec_u32_le(spec_u32_of_i32(r.content)) + spec_u32_le(spec_u32_of_i32(r.vis_offset)) + spec_u16_le(spec_u16_of_i16(r.lower.x)) + spec_u16_le(spec_u16_of_i16(r.lower.y));
        let c4 = spec_u32_le(spec_u32_of_i32(r.content)) + spec_u32_le(spec_u32_of_i32(r.vis_offset)) + spec_u16_le(spec_u16_of_i16(r.lower.x)) + spec_u16_le(spec_u16_of_i16(r.lower.y)) + spec_u16_le(spec_u16_of_i16(r.lower.z));
        let c5 = spec_u32_le(spec_u32_of_i32(r.content)) + spec_u32_le(spec_u32_of_i32(r.vis_offset)) + spec_u16_le(spec_u16_of_i16(r.lower.x)) + spec_u16_le(spec_u16_of_i16(r.lower.y)) + spec_u16_le(spec_u16_of_i16(r.lower.z)) + spec_u16_le(spec_u16_of_i16(r.upper.x));
        let c6 = spec_u32_le(spec_u32_of_i32(r.content)) + spec_u32_le(spec_u32_of_i32(r.vis_offset)) + spec_u16_le(spec_u16_of_i16(r.lower.x)) + spec_u16_le(spec_u16_of_i16(r.lower.y)) + spec_u16_le(spec_u16_of_i16(r.lower.z)) + spec_u16_le(spec_u16_of_i16(r.upper.x)) + spec_u16_le(spec_u16_of_i16(r.upper.y));
        let c7 = spec_u32_le(spec_u32_of_i32(r.content)) + spec_u32_le(spec_u32_of_i32(r.vis_offset)) + spec_u16_le(spec_u16_of_i16(r.lower.x)) + spec_u16_le(spec_u16_of_i16(r.lower.y)) + spec_u16_le(spec_u16_of_i16(r.lower.z)) + spec_u16_le(spec_u16_of_i16(r.upper.x)) + spec_u16_le(spec_u16_of_i16(r.upper.y)) + spec_u16_le(spec_u16_of_i16(r.upper.z));
        let c8 = spec_u32_le(spec_u32_of_i32(r.content)) + spec_u32_le(spec_u32_of_i32(r.vis_offset)) + spec_u16_le(spec_u16_of_i16(r.lower.x)) + spec_u16_le(spec_u16_of_i16(r.lower.y)) + spec_u16_le(spec_u16_of_i16(r.lower.z)) + spec_u16_le(spec_u16_of_i16(r.upper.x)) + spec_u16_le(spec_u16_of_i16(r.upper.y)) + spec_u16_le(spec_u16_of_i16(r.upper.z)) + spec_u16_le(r.first_mark_surface);
        let c9 = spec_u32_le(spec_u32_of_i32(r.content)) + spec_u32_le(spec_u32_of_i32(r.vis_offset)) + spec_u16_le(spec_u16_of_i16(r.lower.x)) + spec_u16_le(spec_u16_of_i16(r.lower.y)) + spec_u16_le(spec_u16_of_i16(r.lower.z)) + spec_u16_le(spec_u16_of_i16(r.upper.x)) + spec_u16_le(spec_u16_of_i16(r.upper.y)) + spec_u16_le(spec_u16_of_i16(r.upper.z)) + spec_u16_le(r.first_mark_surface) + spec_u16_le(r.mark_surface_count);
        let c10 = spec_u32_le(spec_u32_of_i32(r.content)) + spec_u32_le(spec_u32_of_i32(r.vis_offset)) + spec_u16_le(spec_u16_of_i16(r.lower.x)) + spec_u16_le(spec_u16_of_i16(r.lower.y)) + spec_u16_le(spec_u16_of_i16(r.lower.z)) + spec_u16_le(spec_u16_of_i16(r.upper.x)) + spec_u16_le(spec_u16_of_i16(r.upper.y)) + spec_u16_le(spec_u16_of_i16(r.upper.z)) + spec_u16_le(r.first_mark_surface) + spec_u16_le(r.mark_surface_count) + seq![r.ambient_levels.0];
        let c11 = spec_u32_le(spec_u32_of_i32(r.content)) + spec_u32_le(spec_u32_of_i32(r.vis_offset)) + spec_u16_le(spec_u16_of_i16(r.lower.x)) + spec_u16_le(spec_u16_of_i16(r.lower.y)) + spec_u16_le(spec_u16_of_i16(r.lower.z)) + spec_u16_le(spec_u16_of_i16(r.upper.x)) + spec_u16_le(spec_u16_of_i16(r.upper.y)) + spec_u16_le(spec_u16_of_i16(r.upper.z)) + spec_u16_le(r.first_mark_surface) + spec_u16_le(r.mark_surface_count) + seq![r.ambient_levels.0] + seq![r.ambient_levels.1];
        let c12 = spec_u32_le(spec_u32_of_i32(r.content)) + spec_u32_le(spec_u32_of_i32(r.vis_offset)) + spec_u16_le(spec_u16_of_i16(r.lower.x)) + spec_u16_le(spec_u16_of_i16(r.lower.y)) + spec_u16_le(spec_u16_of_i16(r.lower.z)) + spec_u16_le(spec_u16_of_i16(r.upper.x)) + spec_u16_le(spec_u16_of_i16(r.upper.y)) + spec_u16_le(spec_u16_of_i16(r.upper.z)) + spec_u16_le(r.first_mark_surface) + spec_u16_le(r.mark_surface_count) + seq![r.ambient_levels.0] + seq![r.ambient_levels.1] + seq![r.ambient_levels.2];
        let c13 = spec_u32_le(spec_u32_of_i32(r.content)) + spec_u32_le(spec_u32_of_i32(r.vis_offset)) + spec_u16_le(spec_u16_of_i16(r.lower.x)) + spec_u16_le(spec_u16_of_i16(r.lower.y)) + spec_u16_le(spec_u16_of_i16(r.lower.z)) + spec_u16_le(spec_u16_of_i16(r.upper.x)) + spec_u16_le(spec_u16_of_i16(r.upper.y)) + spec_u16_le(spec_u16_of_i16(r.upper.z)) + spec_u16_le(r.first_mark_surface) + spec_u16_le(r.mark_surface_count) + seq![r.ambient_levels.0] + seq![r.ambient_levels.1] + seq![r.ambient_levels.2] + seq![r.ambient_levels.3];
        lemma_split_at(b, 0, c12, seq![r.ambient_levels.3]);
        lemma_split_at(b, 0, c11, seq![r.ambient_levels.2]);
        lemma_split_at(b, 0, c10, seq![r.ambient_levels.1]);
        lemma_split_at(b, 0, c9, seq![r.ambient_levels.0]);
        lemma_split_at(b, 0, c8, spec_u16_le(r.mark_surface_count));
        lemma_split_at(b, 0, c7, spec_u16_le(r.first_mark_surface));
        lemma_split_at(b, 0, c6, spec_u16_le(spec_u16_of_i16(r.upper.z)));
        lemma_split_at(b, 0, c5, spec_u16_le(spec_u16_of_i16(r.upper.y)));
        lemma_split_at(b, 0, c4, spec_u16_le(spec_u16_of_i16(r.upper.x)));
        lemma_split_at(b, 0, c3, spec_u16_le(spec_u16_of_i16(r.lower.z)));
        lemma_split_at(b, 0, c2, spec_u16_le(spec_u16_of_i16(r.lower.y)));
        lemma_split_at(b, 0, c1, spec_u16_le(spec_u16_of_i16(r.lower.x)));
        lemma_split_at(b, 0, spec_u32_le(spec_u32_of_i32(r.content)), spec_u32_le(spec_u32_of_i32(r.vis_offset)));
        lemma_le_i32_here(b, 0, r.content);
        lemma_le_i32_here(b, 4, r.vis_offset);
        lemma_le_i16_here(b, 8, r.lower.x);
        lemma_le_i16_here(b, 10, r.lower.y);
        lemma_le_i16_here(b, 12, r.lower.z);
        lemma_le_i16_here(b, 14, r.upper.x);
        lemma_le_i16_here(b, 16, r.upper.y);
        lemma_le_i16_here(b, 18, r.upper.z);
        lemma_le_u16_here(b, 20, r.first_mark_surface);
        lemma_le_u16_here(b, 22, r.mark_surface_count);
        assert(b[24] == b.subrange(24, 25)[0]);
        assert(b[25] == b.subrange(25, 26)[0]);
        assert(b[26] == b.subrange(26, 27)[0]);
        assert(b[27] == b.subrange(27, 28)[0]);
    }

    fn record_size() -> usize {
        28
    }

    fn decode_at(data: &Vec<u8>, off: usize) -> (r: Self)
        ensures
            r == Self::decoded(data@, off as int),
    {
        let n: usize = data.len();
        assert(off + 28 <= n);
        let content = read_i32(data, off);
        let vis_offset = read_i32(data, off + 4);
        let lower = Vec3i16 {
            x: read_i16(data, off + 8),
            y: read_i16(data, off + 10),
            z: read_i16(data, off + 12),
        };
        let upper = Vec3i16 {
            x: read_i16(data, off + 14),
            y: read_i16(data, off + 16),
            z: read_i16(data, off + 18),
        };
        let first_mark_surface = read_u16(data, off + 20);
        let mark_surface_count = read_u16(data, off + 22);
        let ambient_levels = (
            read_u8(data, off + 24),
            read_u8(data, off + 25),
            read_u8(data, off + 26),
            read_u8(data, off + 27),
        );
        Leaf {
            content,
            vis_offset,
            lower,
            upper,
            first_mark_surface,
            mark_surface_count,
            ambient_levels,
        }
    }

    fn encode_onto(&self, out: &mut Vec<u8>)
        ensures
            final(out)@ == old(out)@ + Self::encoded(*self),
    {
        push_i32(out, self.content);
        push_i32(out, self.vis_offset);
        push_i16(out, self.lower.x);
        push_i16(out, self.lower.y);
        push_i16(out, self.lower.z);
        push_i16(out, self.upper.x);
        push_i16(out, self.upper.y);
        push_i16(out, self.upper.z);
        push_u16(out, self.first_mark_surface);
        push_u16(out, self.mark_surface_count);
        out.push(self.ambient_levels.0);
        out.push(self.ambient_levels.1);
        out.push(self.ambient_levels.2);
        out.push(self.ambient_levels.3);
        assert(out@ =~= old(out)@ + Self::encoded(*self));
    }
}

/// A splitting plane: unit-normal bits, signed distance bits and the axis
/// classification tag.
#[derive(Clone, Copy, PartialEq, Eq, Structural, Debug)]
pub struct Plane {
    pub normal: Vec3Bits,
    pub dist: u32,
    pub plane_type: i32,
}

impl WireRecord for Plane {
    open spec fn wire_size() -> nat {
        20
    }

    open spec fn decoded(b: Seq<u8>, off: int) -> Self {
        Plane {
            normal: vec3bits_at(b, off),
            dist: le_u32(b, off + 12),
            plane_type: le_i32(b, off + 16),
        }
    }

    open spec fn encoded(r: Self) -> Seq<u8> {
        spec_u32_le(r.normal.x) + spec_u32_le(r.normal.y) + spec_u32_le(r.normal.z) + spec_u32_le(r.dist) + spec_u32_le(spec_u32_of_i32(r.plane_type))
    }

    proof fn lemma_wire_size() {
    }

    proof fn lemma_round_trip(r: Self) {
        let b = Self::encoded(r);
        assert(b.subrange(0, 20) =~= b);
        let c1 = spec_u32_le(r.normal.x) + spec_u32_le(r.normal.y);
        let c2 = spec_u32_le(r.normal.x) + spec_u32_le(r.normal.y) + spec_u32_le(r.normal.z);
        let c3 = spec_u32_le(r.normal.x) + spec_u32_le(r.normal.y) + spec_u32_le(r.normal.z) + spec_u32_le(r.dist);
        let c4 = spec_u32_le(r.normal.x) + spec_u32_le(r.normal.y) + spec_u32_le(r.normal.z) + spec_u32_le(r.dist) + spec_u32_le(spec_u32_of_i32(r.plane_type));
        lemma_split_at(b, 0, c3, spec_u32_le(spec_u32_of_i32(r.plane_type)));
        lemma_split_at(b, 0, c2, spec_u32_le(r.dist));
        lemma_split_at(b, 0, c1, spec_u32_le(r.normal.z));
        lemma_split_at(b, 0, spec_u32_le(r.normal.x), spec_u32_le(r.normal.y));
        lemma_le_u32_here(b, 0, r.normal.x);
        lemma_le_u32_here(b, 4, r.normal.y);
        lemma_le_u32_here(b, 8, r.normal.z);
        lemma_le_u32_here(b, 12, r.dist);
        lemma_le_i32_here(b, 16, r.plane_type);
    }

    fn record_size() -> usize {
        20
    }

    fn decode_at(data: &Vec<u8>, off: usize) -> (r: Self)
        ensures
            r == Self::decoded(data@, off as int),
    {
        let n: usize = data.len();
        assert(off + 20 <= n);
        let normal = Vec3Bits {
            x: read_u32(data, off),
            y: read_u32(data, off + 4),
            z: read_u32(data, off + 8),
        };
        let dist = read_u32(data, off + 12);
        let plane_type = read_i32(data, off + 16);
        Plane { normal, dist, plane_type }
    }

    fn encode_onto(&self, out: &mut Vec<u8>)
        ensures
            final(out)@ == old(out)@ + Self::encoded(*self),
    {
        push_u32(out, self.normal.x);
        push_u32(out, self.normal.y);
        push_u32(out, self.normal.z);
        push_u32(out, self.dist);
        push_i32(out, self.plane_type);
        assert(out@ =~= old(out)@ + Self::encoded(*self));
    }
}

/// A polygonal surface: the plane it lies in, the edge range that bounds
/// it, its texture-info index, lighting styles and lightmap offset.
#[derive(Clone, Copy, PartialEq, Eq, Debug)]
pub struct Face {
    pub plane_index: u16,
    pub plane_side: u16,
    pub first_edge_index: u32,
    pub edge_count: u16,
    pub texture_info: u16,
    pub styles: (u8, u8, u8, u8),
    pub lightmap_offset: u32,
}

impl WireRecord for Face {
    open spec fn wire_size() -> nat {
        20
    }

    open spec fn decoded(b: Seq<u8>, off: int) -> Self {
        Face {
            plane_index: le_u16(b, off),
            plane_side: le_u16(b, off + 2),
            first_edge_index: le_u32(b, off + 4),
            edge_count: le_u16(b, off + 8),
            texture_info: le_u16(b, off + 10),
            styles: (b[off + 12], b[off + 13], b[off + 14], b[off + 15]),
            lightmap_offset: le_u32(b, off + 16),
        }
    }

    open spec fn encoded(r: Self) -> Seq<u8> {
        spec_u16_le(r.plane_index) + spec_u16_le(r.plane_side) + spec_u32_le(r.first_edge_index) + spec_u16_le(r.edge_count) + spec_u16_le(r.texture_info) + seq![r.styles.0] + seq![r.styles.1] + seq![r.styles.2] + seq![r.styles.3] + spec_u32_le(r.lightmap_offset)
    }

    proof fn lemma_wire_size() {
    }

    proof fn lemma_round_trip(r: Self) {
        let b = Self::encoded(r);
        assert(b.subrange(0, 20) =~= b);
        let c1 = spec_u16_le(r.plane_index) + spec_u16_le(r.plane_side);
        let c2 = spec_u16_le(r.plane_index) + spec_u16_le(r.plane_side) + spec_u32_le(r.first_edge_index);
        let c3 = spec_u16_le(r.plane_index) + spec_u16_le(r.plane_side) + spec_u32_le(r.first_edge_index) + spec_u16_le(r.edge_count);
        let c4 = spec_u16_le(r.plane_index) + spec_u16_le(r.plane_side) + spec_u32_le(r.first_edge_index) + spec_u16_le(r.edge_count) + spec_u16_le(r.texture_info);
        let c5 = spec_u16_le(r.plane_index) + spec_u16_le(r.plane_side) + spec_u32_le(r.first_edge_index) + spec_u16_le(r.edge_count) + spec_u16_le(r.texture_info) + seq![r.styles.0];
        let c6 = spec_u16_le(r.plane_index) + spec_u16_le(r.plane_side) + spec_u32_le(r.first_edge_index) + spec_u16_le(r.edge_count) + spec_u16_le(r.texture_info) + seq![r.styles.0] + seq![r.styles.1];
        let c7 = spec_u16_le(r.plane_index) + spec_u16_le(r.plane_side) + spec_u32_le(r.first_edge_index) + spec_u16_le(r.edge_count) + spec_u16_le(r.texture_info) + seq![r.styles.0] + seq![r.styles.1] + seq![r.styles.2];
        let c8 = spec_u16_le(r.plane_index) + spec_u16_le(r.plane_side) + spec_u32_le(r.first_edge_index) + spec_u16_le(r.edge_count) + spec_u16_le(r.texture_info) + seq![r.styles.0] + seq![r.styles.1] + seq![r.styles.2] + seq![r.styles.3];
        let c9 = spec_u16_le(r.plane_index) + spec_u16_le(r.plane_side) + spec_u32_le(r.first_edge_index) + spec_u16_le(r.edge_count) + spec_u16_le(r.texture_info) + seq![r.styles.0] + seq![r.styles.1] + seq![r.styles.2] + seq![r.styles.3] + spec_u32_le(r.lightmap_offset);
        lemma_split_at(b, 0, c8, spec_u32_le(r.lightmap_offset));
        lemma_split_at(b, 0, c7, seq![r.styles.3]);
        lemma_split_at(b, 0, c6, seq![r.styles.2]);
        lemma_split_at(b, 0, c5, seq![r.styles.1]);
        lemma_split_at(b, 0, c4, seq![r.styles.0]);
        lemma_split_at(b, 0, c3, spec_u16_le(r.texture_info));
        lemma_split_at(b, 0, c2, spec_u16_le(r.edge_count));
        lemma_split_at(b, 0, c1, spec_u32_le(r.first_edge_index));
        lemma_split_at(b, 0, spec_u16_le(r.plane_index), spec_u16_le(r.plane_side));
        lemma_le_u16_here(b, 0, r.plane_index);
        lemma_le_u16_here(b, 2, r.plane_side);
        lemma_le_u32_here(b, 4, r.first_edge_index);
        lemma_le_u16_here(b, 8, r.edge_count);
        lemma_le_u16_here(b, 10, r.texture_info);
        assert(b[12] == b.subrange(12, 13)[0]);
        assert(b[13] == b.subrange(13, 14)[0]);
        assert(b[14] == b.subrange(14, 15)[0]);
        assert(b[15] == b.subrange(15, 16)[0]);
        lemma_le_u32_here(b, 16, r.lightmap_offset);
    }

    fn record_size() -> usize {
        20
    }

    fn decode_at(data: &Vec<u8>, off: usize) -> (r: Self)
        ensures
            r == Self::decoded(data@, off as int),
    {
        let n: usize = data.len();
        assert(off + 20 <= n);
        let plane_index = read_u16(data, off);
        let plane_side = read_u16(data, off + 2);
        let first_edge_index = read_u32(data, off + 4);
        let edge_count = read_u16(data, off + 8);
        let texture_info = read_u16(data, off + 10);
        let styles = (
            read_u8(data, off + 12),
            read_u8(data, off + 13),
            read_u8(data, off + 14),
            read_u8(data, off + 15),
        );
        let lightmap_offset = read_u32(data, off + 16);
        Face {
            plane_index,
            plane_side,
            first_edge_index,
            edge_count,
            texture_info,
            styles,
            lightmap_offset,
        }
    }

    fn encode_onto(&self, out: &mut Vec<u8>)
        ensures
            final(out)@ == old(out)@ + Self::encoded(*self),
    {
        push_u16(out, self.plane_index);
        push_u16(out, self.plane_side);
        push_u32(out, self.first_edge_index);
        push_u16(out, self.edge_count);
        push_u16(out, self.texture_info);
        out.push(self.styles.0);
        out.push(self.styles.1);
        out.push(self.styles.2);
        out.push(self.styles.3);
        push_u32(out, self.lightmap_offset);
        assert(out@ =~= old(out)@ + Self::encoded(*self));
    }
}

/// A node of a collision hull, with the same child-index convention as
/// `Node` but without boxes or faces.
#[derive(Clone, Copy, PartialEq, Eq, Debug, Default)]
pub struct ClipNode {
    pub plane_index: i32,
    pub child_index: (i16, i16),
}

impl WireRecord for ClipNode {
    open spec fn wire_size() -> nat {
        8
    }

    open spec fn decoded(b: Seq<u8>, off: int) -> Self {
        ClipNode {
            plane_index: le_i32(b, off),
            child_index: (le_i16(b, off + 4), le_i16(b, off + 6)),
        }
    }

    open spec fn encoded(r: Self) -> Seq<u8> {
        spec_u32_le(spec_u32_of_i32(r.plane_index)) + spec_u16_le(spec_u16_of_i16(r.child_index.0)) + spec_u16_le(spec_u16_of_i16(r.child_index.1))
    }

    proof fn lemma_wire_size() {
    }

    proof fn lemma_round_trip(r: Self) {
        let b = Self::encoded(r);
        assert(b.subrange(0, 8) =~= b);
        let c1 = spec_u32_le(spec_u32_of_i32(r.plane_index)) + spec_u16_le(spec_u16_of_i16(r.child_index.0));
        let c2 = spec_u32_le(spec_u32_of_i32(r.plane_index)) + spec_u16_le(spec_u16_of_i16(r.child_index.0)) + spec_u16_le(spec_u16_of_i16(r.child_index.1));
        lemma_split_at(b, 0, c1, spec_u16_le(spec_u16_of_i16(r.child_index.1)));
        lemma_split_at(b, 0, spec_u32_le(spec_u32_of_i32(r.plane_index)), spec_u16_le(spec_u16_of_i16(r.child_index.0)));
        lemma_le_i32_here(b, 0, r.plane_index);
        lemma_le_i16_here(b, 4, r.child_index.0);
        lemma_le_i16_here(b, 6, r.child_index.1);
    }

    fn record_size() -> usize {
        8
    }

    fn decode_at(data: &Vec<u8>, off: usize) -> (r: Self)
        ensures
            r == Self::decoded(data@, off as int),
    {
        let n: usize = data.len();
        assert(off + 8 <= n);
        let plane_index = read_i32(data, off);
        let c0 = read_i16(data, off + 4);
        let c1 = read_i16(data, off + 6);
        ClipNode { plane_index, child_index: (c0, c1) }
    }

    fn encode_onto(&self, out: &mut Vec<u8>)
        ensures
            final(out)@ == old(out)@ + Self::encoded(*self),
    {
        push_i32(out, self.plane_index);
        push_i16(out, self.child_index.0);
        push_i16(out, self.child_index.1);
        assert(out@ =~= old(out)@ + Self::encoded(*self));
    }
}

/// Mapping from world position to texture coordinates: two basis vectors
/// with shifts, the mip-texture the face uses and its flags.
#[derive(Clone, Copy, PartialEq, Eq, Structural, Debug)]
pub struct TextureInfo {
    pub s: Vec3Bits,
    pub s_shift: u32,
    pub t: Vec3Bits,
    pub t_shift: u32,
    pub mip_tex_index: u32,
    pub flags: u32,
}

impl WireRecord for TextureInfo {
    open spec fn wire_size() -> nat {
        40
    }

    open spec fn decoded(b: Seq<u8>, off: int) -> Self {
        TextureInfo {
            s: vec3bits_at(b, off),
            s_shift: le_u32(b, off + 12),
            t: vec3bits_at(b, off + 16),
            t_shift: le_u32(b, off + 28),
            mip_tex_index: le_u32(b, off + 32),
            flags: le_u32(b, off + 36),
        }
    }

    open spec fn encoded(r: Self) -> Seq<u8> {
        spec_u32_le(r.s.x) + spec_u32_le(r.s.y) + spec_u32_le(r.s.z) + spec_u32_le(r.s_shift) + spec_u32_le(r.t.x) + spec_u32_le(r.t.y) + spec_u32_le(r.t.z) + spec_u32_le(r.t_shift) + spec_u32_le(r.mip_tex_index) + spec_u32_le(r.flags)
    }

    proof fn lemma_wire_size() {
    }

    proof fn lemma_round_trip(r: Self) {
        let b = Self::encoded(r);
        assert(b.subrange(0, 40) =~= b);
        let c1 = spec_u32_le(r.s.x) + spec_u32_le(r.s.y);
        let c2 = spec_u32_le(r.s.x) + spec_u32_le(r.s.y) + spec_u32_le(r.s.z);
        let c3 = spec_u32_le(r.s.x) + spec_u32_le(r.s.y) + spec_u32_le(r.s.z) + spec_u32_le(r.s_shift);
        let c4 = spec_u32_le(r.s.x) + spec_u32_le(r.s.y) + spec_u32_le(r.s.z) + spec_u32_le(r.s_shift) + spec_u32_le(r.t.x);
        let c5 = spec_u32_le(r.s.x) + spec_u32_le(r.s.y) + spec_u32_le(r.s.z) + spec_u32_le(r.s_shift) + spec_u32_le(r.t.x) + spec_u32_le(r.t.y);
        let c6 = spec_u32_le(r.s.x) + spec_u32_le(r.s.y) + spec_u32_le(r.s.z) + spec_u32_le(r.s_shift) + spec_u32_le(r.t.x) + spec_u32_le(r.t.y) + spec_u32_le(r.t.z);
        let c7 = spec_u32_le(r.s.x) + spec_u32_le(r.s.y) + spec_u32_le(r.s.z) + spec_u32_le(r.s_shift) + spec_u32_le(r.t.x) + spec_u32_le(r.t.y) + spec_u32_le(r.t.z) + spec_u32_le(r.t_shift);
        let c8 = spec_u32_le(r.s.x) + spec_u32_le(r.s.y) + spec_u32_le(r.s.z) + spec_u32_le(r.s_shift) + spec_u32_le(r.t.x) + spec_u32_le(r.t.y) + spec_u32_le(r.t.z) + spec_u32_le(r.t_shift) + spec_u32_le(r.mip_tex_index);
        let c9 = spec_u32_le(r.s.x) + spec_u32_le(r.s.y) + spec_u32_le(r.s.z) + spec_u32_le(r.s_shift) + spec_u32_le(r.t.x) + spec_u32_le(r.t.y) + spec_u32_le(r.t.z) + spec_u32_le(r.t_shift) + spec_u32_le(r.mip_tex_index) + spec_u32_le(r.flags);
        lemma_split_at(b, 0, c8, spec_u32_le(r.flags));
        lemma_split_at(b, 0, c7, spec_u32_le(r.mip_tex_index));
        lemma_split_at(b, 0, c6, spec_u32_le(r.t_shift));
        lemma_split_at(b, 0, c5, spec_u32_le(r.t.z));
        lemma_split_at(b, 0, c4, spec_u32_le(r.t.y));
        lemma_split_at(b, 0, c3, spec_u32_le(r.t.x));
        lemma_split_at(b, 0, c2, spec_u32_le(r.s_shift));
        lemma_split_at(b, 0, c1, spec_u32_le(r.s.z));
        lemma_split_at(b, 0, spec_u32_le(r.s.x), spec_u32_le(r.s.y));
        lemma_le_u32_here(b, 0, r.s.x);
        lemma_le_u32_here(b, 4, r.s.y);
        lemma_le_u32_here(b, 8, r.s.z);
        lemma_le_u32_here(b, 12, r.s_shift);
        lemma_le_u32_here(b, 16, r.t.x);
        lemma_le_u32_here(b, 20, r.t.y);
        lemma_le_u32_here(b, 24, r.t.z);
        lemma_le_u32_here(b, 28, r.t_shift);
        lemma_le_u32_here(b, 32, r.mip_tex_index);
        lemma_le_u32_here(b, 36, r.flags);
    }

    fn record_size() -> usize {
        40
    }

    fn decode_at(data: &Vec<u8>, off: usize) -> (r: Self)
        ensures
            r == Self::decoded(data@, off as int),
    {
        let n: usize = data.len();
        assert(off + 40 <= n);
        let s = Vec3Bits {
            x: read_u32(data, off),
            y: read_u32(data, off + 4),
            z: read_u32(data, off + 8),
        };
        let s_shift = read_u32(data, off + 12);
        let t = Vec3Bits {
            x: read_u32(data, off + 16),
            y: read_u32(data, off + 20),
            z: read_u32(data, off + 24),
        };
        let t_shift = read_u32(data, off + 28);
        let mip_tex_index = read_u32(data, off + 32);
        let flags = read_u32(data, off + 36);
        TextureInfo { s, s_shift, t, t_shift, mip_tex_index, flags }
    }

    fn encode_onto(&self, out: &mut Vec<u8>)
        ensures
            final(out)@ == old(out)@ + Self::encoded(*self),
    {
        push_u32(out, self.s.x);
        push_u32(out, self.s.y);
        push_u32(out, self.s.z);
        push_u32(out, self.s_shift);
        push_u32(out, self.t.x);
        push_u32(out, self.t.y);
        push_u32(out, self.t.z);
        push_u32(out, self.t_shift);
        push_u32(out, self.mip_tex_index);
        push_u32(out, self.flags);
        assert(out@ =~= old(out)@ + Self::encoded(*self));
    }
}

/// A brush model: bounds and origin bits, the head node of each collision
/// hull, and the face range the model draws.
#[derive(Clone, Copy, PartialEq, Eq, Debug)]
pub struct Model {
    pub lower: Vec3Bits,
    pub upper: Vec3Bits,
    pub origin: Vec3Bits,
    pub head_nodes_index: (i32, i32, i32, i32),
    pub vis_leaves: i32,
    pub first_face: i32,
    pub face_count: i32,
}

impl Model {
    /// A model with every field zeroed, as the loader starts from.
    pub fn new() -> (r: Self)
        ensures
            r == (Model {
                lower: Vec3Bits { x: 0, y: 0, z: 0 },
                upper: Vec3Bits { x: 0, y: 0, z: 0 },
                origin: Vec3Bits { x: 0, y: 0, z: 0 },
                head_nodes_index: (0i32, 0i32, 0i32, 0i32),
                vis_leaves: 0i32,
                first_face: 0i32,
                face_count: 0i32,
            }),
    {
        Model {
            lower: Vec3Bits { x: 0, y: 0, z: 0 },
            upper: Vec3Bits { x: 0, y: 0, z: 0 },
            origin: Vec3Bits { x: 0, y: 0, z: 0 },
            head_nodes_index: (0, 0, 0, 0),
            vis_leaves: 0,
            first_face: 0,
            face_count: 0,
        }
    }
}

impl WireRecord for Model {
    open spec fn wire_size() -> nat {
        64
    }

    open spec fn decoded(b: Seq<u8>, off: int) -> Self {
        Model {
            lower: vec3bits_at(b, off),
            upper: vec3bits_at(b, off + 12),
            origin: vec3bits_at(b, off + 24),
            head_nodes_index: (
                le_i32(b, off + 36),
                le_i32(b, off + 40),
                le_i32(b, off + 44),
                le_i32(b, off + 48),
            ),
            vis_leaves: le_i32(b, off + 52),
            first_face: le_i32(b, off + 56),
            face_count: le_i32(b, off + 60),
        }
    }

    open spec fn encoded(r: Self) -> Seq<u8> {
        spec_u32_le(r.lower.x) + spec_u32_le(r.lower.y) + spec_u32_le(r.lower.z) + spec_u32_le(r.upper.x) + spec_u32_le(r.upper.y) + spec_u32_le(r.upper.z) + spec_u32_le(r.origin.x) + spec_u32_le(r.origin.y) + spec_u32_le(r.origin.z) + spec_u32_le(spec_u32_of_i32(r.head_nodes_index.0)) + spec_u32_le(spec_u32_of_i32(r.head_nodes_index.1)) + spec_u32_le(spec_u32_of_i32(r.head_nodes_index.2)) + spec_u32_le(spec_u32_of_i32(r.head_nodes_index.3)) + spec_u32_le(spec_u32_of_i32(r.vis_leaves)) + spec_u32_le(spec_u32_of_i32(r.first_face)) + spec_u32_le(spec_u32_of_i32(r.face_count))
    }

    proof fn lemma_wire_size() {
    }

    proof fn lemma_round_trip(r: Self) {
        let b = Self::encoded(r);
        assert(b.subrange(0, 64) =~= b);
        let c1 = spec_u32_le(r.lower.x) + spec_u32_le(r.lower.y);
        let c2 = spec_u32_le(r.lower.x) + spec_u32_le(r.lower.y) + spec_u32_le(r.lower.z);
        let c3 = spec_u32_le(r.lower.x) + spec_u32_le(r.lower.y) + spec_u32_le(r.lower.z) + spec_u32_le(r.upper.x);
        let c4 = spec_u32_le(r.lower.x) + spec_u32_le(r.lower.y) + spec_u32_le(r.lower.z) + spec_u32_le(r.upper.x) + spec_u32_le(r.upper.y);
        let c5 = spec_u32_le(r.lower.x) + spec_u32_le(r.lower.y) + spec_u32_le(r.lower.z) + spec_u32_le(r.upper.x) + spec_u32_le(r.upper.y) + spec_u32_le(r.upper.z);
        let c6 = spec_u32_le(r.lower.x) + spec_u32_le(r.lower.y) + spec_u32_le(r.lower.z) + spec_u32_le(r.upper.x) + spec_u32_le(r.upper.y) + spec_u32_le(r.upper.z) + spec_u32_le(r.origin.x);
        let c7 = spec_u32_le(r.lower.x) + spec_u32_le(r.lower.y) + spec_u32_le(r.lower.z) + spec_u32_le(r.upper.x) + spec_u32_le(r.upper.y) + spec_u32_le(r.upper.z) + spec_u32_le(r.origin.x) + spec_u32_le(r.origin.y);
        let c8 = spec_u32_le(r.lower.x) + spec_u32_le(r.lower.y) + spec_u32_le(r.lower.z) + spec_u32_le(r.upper.x) + spec_u32_le(r.upper.y) + spec_u32_le(r.upper.z) + spec_u32_le(r.origin.x) + spec_u32_le(r.origin.y) + spec_u32_le(r.origin.z);
        let c9 = spec_u32_le(r.lower.x) + spec_u32_le(r.lower.y) + spec_u32_le(r.lower.z) + spec_u32_le(r.upper.x) + spec_u32_le(r.upper.y) + spec_u32_le(r.upper.z) + spec_u32_le(r.origin.x) + spec_u32_le(r.origin.y) + spec_u32_le(r.origin.z) + spec_u32_le(spec_u32_of_i32(r.head_nodes_index.0));
        let c10 = spec_u32_le(r.lower.x) + spec_u32_le(r.lower.y) + spec_u32_le(r.lower.z) + spec_u32_le(r.upper.x) + spec_u32_le(r.upper.y) + spec_u32_le(r.upper.z) + spec_u32_le(r.origin.x) + spec_u32_le(r.origin.y) + spec_u32_le(r.origin.z) + spec_u32_le(spec_u32_of_i32(r.head_nodes_index.0)) + spec_u32_le(spec_u32_of_i32(r.head_nodes_index.1));
        let c11 = spec_u32_le(r.lower.x) + spec_u32_le(r.lower.y) + spec_u32_le(r.lower.z) + spec_u32_le(r.upper.x) + spec_u32_le(r.upper.y) + spec_u32_le(r.upper.z) + spec_u32_le(r.origin.x) + spec_u32_le(r.origin.y) + spec_u32_le(r.origin.z) + spec_u32_le(spec_u32_of_i32(r.head_nodes_index.0)) + spec_u32_le(spec_u32_of_i32(r.head_nodes_index.1)) + spec_u32_le(spec_u32_of_i32(r.head_nodes_index.2));
        let c12 = spec_u32_le(r.lower.x) + spec_u32_le(r.lower.y) + spec_u32_le(r.lower.z) + spec_u32_le(r.upper.x) + spec_u32_le(r.upper.y) + spec_u32_le(r.upper.z) + spec_u32_le(r.origin.x) + spec_u32_le(r.origin.y) + spec_u32_le(r.origin.z) + spec_u32_le(spec_u32_of_i32(r.head_nodes_index.0)) + spec_u32_le(spec_u32_of_i32(r.head_nodes_index.1)) + spec_u32_le(spec_u32_of_i32(r.head_nodes_index.2)) + spec_u32_le(spec_u32_of_i32(r.head_nodes_index.3));
        let c13 = spec_u32_le(r.lower.x) + spec_u32_le(r.lower.y) + spec_u32_le(r.lower.z) + spec_u32_le(r.upper.x) + spec_u32_le(r.upper.y) + spec_u32_le(r.upper.z) + spec_u32_le(r.origin.x) + spec_u32_le(r.origin.y) + spec_u32_le(r.origin.z) + spec_u32_le(spec_u32_of_i32(r.head_nodes_index.0)) + spec_u32_le(spec_u32_of_i32(r.head_nodes_index.1)) + spec_u32_le(spec_u32_of_i32(r.head_nodes_index.2)) + spec_u32_le(spec_u32_of_i32(r.head_nodes_index.3)) + spec_u32_le(spec_u32_of_i32(r.vis_leaves));
        let c14 = spec_u32_le(r.lower.x) + spec_u32_le(r.lower.y) + spec_u32_le(r.lower.z) + spec_u32_le(r.upper.x) + spec_u32_le(r.upper.y) + spec_u32_le(r.upper.z) + spec_u32_le(r.origin.x) + spec_u32_le(r.origin.y) + spec_u32_le(r.origin.z) + spec_u32_le(spec_u32_of_i32(r.head_nodes_index.0)) + spec_u32_le(spec_u32_of_i32(r.head_nodes_index.1)) + spec_u32_le(spec_u32_of_i32(r.head_nodes_index.2)) + spec_u32_le(spec_u32_of_i32(r.head_nodes_index.3)) + spec_u32_le(spec_u32_of_i32(r.vis_leaves)) + spec_u32_le(spec_u32_of_i32(r.first_face));
        let c15 = spec_u32_le(r.lower.x) + spec_u32_le(r.lower.y) + spec_u32_le(r.lower.z) + spec_u32_le(r.upper.x) + spec_u32_le(r.upper.y) + spec_u32_le(r.upper.z) + spec_u32_le(r.origin.x) + spec_u32_le(r.origin.y) + spec_u32_le(r.origin.z) + spec_u32_le(spec_u32_of_i32(r.head_nodes_index.0)) + spec_u32_le(spec_u32_of_i32(r.head_nodes_index.1)) + spec_u32_le(spec_u32_of_i32(r.head_nodes_index.2)) + spec_u32_le(spec_u32_of_i32(r.head_nodes_index.3)) + spec_u32_le(spec_u32_of_i32(r.vis_leaves)) + spec_u32_le(spec_u32_of_i32(r.first_face)) + spec_u32_le(spec_u32_of_i32(r.face_count));
        lemma_split_at(b, 0, c14, spec_u32_le(spec_u32_of_i32(r.face_count)));
        lemma_split_at(b, 0, c13, spec_u32_le(spec_u32_of_i32(r.first_face)));
        lemma_split_at(b, 0, c12, spec_u32_le(spec_u32_of_i32(r.vis_leaves)));
        lemma_split_at(b, 0, c11, spec_u32_le(spec_u32_of_i32(r.head_nodes_index.3)));
        lemma_split_at(b, 0, c10, spec_u32_le(spec_u32_of_i32(r.head_nodes_index.2)));
        lemma_split_at(b, 0, c9, spec_u32_le(spec_u32_of_i32(r.head_nodes_index.1)));
        lemma_split_at(b, 0, c8, spec_u32_le(spec_u32_of_i32(r.head_nodes_index.0)));
        lemma_split_at(b, 0, c7, spec_u32_le(r.origin.z));
        lemma_split_at(b, 0, c6, spec_u32_le(r.origin.y));
        lemma_split_at(b, 0, c5, spec_u32_le(r.origin.x));
        lemma_split_at(b, 0, c4, spec_u32_le(r.upper.z));
        lemma_split_at(b, 0, c3, spec_u32_le(r.upper.y));
        lemma_split_at(b, 0, c2, spec_u32_le(r.upper.x));
        lemma_split_at(b, 0, c1, spec_u32_le(r.lower.z));
        lemma_split_at(b, 0, spec_u32_le(r.lower.x), spec_u32_le(r.lower.y));
        lemma_le_u32_here(b, 0, r.lower.x);
        lemma_le_u32_here(b, 4, r.lower.y);
        lemma_le_u32_here(b, 8, r.lower.z);
        lemma_le_u32_here(b, 12, r.upper.x);
        lemma_le_u32_here(b, 16, r.upper.y);
        lemma_le_u32_here(b, 20, r.upper.z);
        lemma_le_u32_here(b, 24, r.origin.x);
        lemma_le_u32_here(b, 28, r.origin.y);
        lemma_le_u32_here(b, 32, r.origin.z);
        lemma_le_i32_here(b, 36, r.head_nodes_index.0);
        lemma_le_i32_here(b, 40, r.head_nodes_index.1);
        lemma_le_i32_here(b, 44, r.head_nodes_index.2);
        lemma_le_i32_here(b, 48, r.head_nodes_index.3);
        lemma_le_i32_here(b, 52, r.vis_leaves);
        lemma_le_i32_here(b, 56, r.first_face);
        lemma_le_i32_here(b, 60, r.face_count);
    }

    fn record_size() -> usize {
        64
    }

    fn decode_at(data: &Vec<u8>, off: usize) -> (r: Self)
        ensures
            r == Self::decoded(data@, off as int),
    {
        let n: usize = data.len();
        assert(off + 64 <= n);
        let lower = Vec3Bits {
            x: read_u32(data, off),
            y: read_u32(data, off + 4),
            z: read_u32(data, off + 8),
        };
        let upper = Vec3Bits {
            x: read_u32(data, off + 12),
            y: read_u32(data, off + 16),
            z: read_u32(data, off + 20),
        };
        let origin = Vec3Bits {
            x: read_u32(data, off + 24),
            y: read_u32(data, off + 28),
            z: read_u32(data, off + 32),
        };
        let head_nodes_index = (
            read_i32(data, off + 36),
            read_i32(data, off + 40),
            read_i32(data, off + 44),
            read_i32(data, off + 48),
        );
        let vis_leaves = read_i32(data, off + 52);
        let first_face = read_i32(data, off + 56);
        let face_count = read_i32(data, off + 60);
        Model { lower, upper, origin, head_nodes_index, vis_leaves, first_face, face_count }
    }

    fn encode_onto(&self, out: &mut Vec<u8>)
        ensures
            final(out)@ == old(out)@ + Self::encoded(*self),
    {
        push_u32(out, self.lower.x);
        push_u32(out, self.lower.y);
        push_u32(out, self.lower.z);
        push_u32(out, self.upper.x);
        push_u32(out, self.upper.y);
        push_u32(out, self.upper.z);
        push_u32(out, self.origin.x);
        push_u32(out, self.origin.y);
        push_u32(out, self.origin.z);
        push_i32(out, self.head_nodes_index.0);
        push_i32(out, self.head_nodes_index.1);
        push_i32(out, self.head_nodes_index.2);
        push_i32(out, self.head_nodes_index.3);
        push_i32(out, self.vis_leaves);
        push_i32(out, self.first_face);
        push_i32(out, self.face_count);
        assert(out@ =~= old(out)@ + Self::encoded(*self));
    }
}

/// Whether every byte after a zero byte in `name` is itself zero: the
/// shape a fixed-width name field has after decoding.
pub open spec fn is_normalized_name(name: Seq<u8>) -> bool {
    forall|i: int, j: int| 0 <= j < i < name.len() && name[j] == 0 ==> name[i] == 0
}

/// The fixed-width, null-padded character array stored at `off`: bytes up
/// to and including the first zero are kept, the padding behind the first
/// zero is discarded and read back as zeros.
pub open spec fn spec_char_array_at(b: Seq<u8>, off: int, len: int) -> Seq<u8> {
    Seq::new(len as nat, |i: int| if exists|j: int| 0 <= j < i && #[trigger] b[off + j] == 0 {
        0u8
    } else {
        b[off + i]
    })
}

/// Reads a fixed-width, null-padded character array.  The full width is
/// always consumed; whatever the wire holds behind the first zero byte is
/// discarded, so the result is a normalized name.
pub fn read_char_array(data: &Vec<u8>, off: usize, len: usize) -> (r: Vec<u8>)
    requires
        off + len <= data@.len(),
    ensures
        r@ == spec_char_array_at(data@, off as int, len as int),
        r@.len() == len,
        is_normalized_name(r@),
{
    let n: usize = data.len();
    assert(off + len <= n);
    let mut r: Vec<u8> = Vec::new();
    let mut null_seen: bool = false;
    let mut i: usize = 0;
    while i < len
        invariant
            i <= len,
            n == data@.len(),
            off + len <= n,
            r@.len() == i,
            null_seen == exists|j: int| 0 <= j < i && #[trigger] data@[off + j] == 0,
            forall|k: int| 0 <= k < i ==> r@[k] == spec_char_array_at(
                data@,
                off as int,
                len as int,
            )[k],
        decreases len - i,
    {
        if null_seen {
            r.push(0);
        } else {
            let v = data[off + i];
            r.push(v);
            if v == 0 {
                null_seen = true;
            }
            assert(null_seen == exists|j: int| 0 <= j < i + 1 && #[trigger] data@[off + j] == 0);
        }
        i = i + 1;
    }
    assert(r@ =~= spec_char_array_at(data@, off as int, len as int));
    assert forall|a: int, c: int|
        0 <= c < a < r@.len() && r@[c] == 0 implies r@[a] == 0 by {
        assert(r@[c] == spec_char_array_at(data@, off as int, len as int)[c]);
    }
    r
}

/// The texture lump's sub-header: how many mip-textures follow.
#[derive(Clone, Copy, PartialEq, Eq, Structural, Debug, Default)]
pub struct TextureHeader {
    pub mip_texture_count: u32,
}

impl TextureHeader {
    pub fn decode_at(data: &Vec<u8>, off: usize) -> (r: Self)
        requires
            off + 4 <= data@.len(),
        ensures
            r.mip_texture_count == le_u32(data@, off as int),
    {
        TextureHeader { mip_texture_count: read_u32(data, off) }
    }
}

/// The offset of one mip-texture record, relative to the texture lump.
pub type MipTexOffset = i32;

/// A mip-texture: a fixed-width name, its dimensions, and the byte offset
/// of each of the four mip levels relative to the record start.  A first
/// offset of zero means the pixels live externally in a texture archive.
#[derive(PartialEq, Eq, Debug)]
pub struct MipTex {
    pub name: Vec<u8>,
    pub width: u32,
    pub height: u32,
    pub offsets: (u32, u32, u32, u32),
}

/// Size of a `MipTex` record header on the wire.
pub const MIP_TEX_SIZE: usize = 40;

/// The bytes a `MipTex` with the given fields encodes to.
pub open spec fn spec_mip_tex_le(
    name: Seq<u8>,
    width: u32,
    height: u32,
    offsets: (u32, u32, u32, u32),
) -> Seq<u8> {
    name + spec_u32_le(width) + spec_u32_le(height) + spec_u32_le(offsets.0) + spec_u32_le(
        offsets.1,
    ) + spec_u32_le(offsets.2) + spec_u32_le(offsets.3)
}

impl MipTex {
    /// A name field is sixteen bytes with the padding behind the first
    /// zero discarded.
    pub open spec fn wf(self) -> bool {
        self.name@.len() == 16 && is_normalized_name(self.name@)
    }

    pub fn decode_at(data: &Vec<u8>, off: usize) -> (r: Self)
        requires
            off + 40 <= data@.len(),
        ensures
            r.name@ == spec_char_array_at(data@, off as int, 16),
            r.width == le_u32(data@, off as int + 16),
            r.height == le_u32(data@, off as int + 20),
            r.offsets.0 == le_u32(data@, off as int + 24),
            r.offsets.1 == le_u32(data@, off as int + 28),
            r.offsets.2 == le_u32(data@, off as int + 32),
            r.offsets.3 == le_u32(data@, off as int + 36),
            r.wf(),
    {
        let n: usize = data.len();
        assert(off + 40 <= n);
        let name = read_char_array(data, off, 16);
        let width = read_u32(data, off + 16);
        let height = read_u32(data, off + 20);
        let offsets = (
            read_u32(data, off + 24),
            read_u32(data, off + 28),
            read_u32(data, off + 32),
            read_u32(data, off + 36),
        );
        MipTex { name, width, height, offsets }
    }

    pub fn encode_onto(&self, out: &mut Vec<u8>)
        requires
            self.name@.len() == 16,
        ensures
            final(out)@ == old(out)@ + spec_mip_tex_le(
                self.name@,
                self.width,
                self.height,
                self.offsets,
            ),
    {
        let mut i: usize = 0;
        let name_len: usize = self.name.len();
        while i < name_len
            invariant
                name_len == self.name@.len(),
                i <= name_len,
                out@ == old(out)@ + self.name@.subrange(0, i as int),
            decreases name_len - i,
        {
            out.push(self.name[i]);
            assert(out@ =~= old(out)@ + self.name@.subrange(0, i + 1));
            i = i + 1;
        }
        assert(self.name@.subrange(0, 16) =~= self.name@);
        push_u32(out, self.width);
        push_u32(out, self.height);
        push_u32(out, self.offsets.0);
        push_u32(out, self.offsets.1);
        push_u32(out, self.offsets.2);
        push_u32(out, self.offsets.3);
        assert(out@ =~= old(out)@ + spec_mip_tex_le(
            self.name@,
            self.width,
            self.height,
            self.offsets,
        ));
    }

    /// The mip-level offset selected by `level`.
    pub open spec fn spec_offset(self, level: int) -> u32 {
        if level == 0 {
            self.offsets.0
        } else if level == 1 {
            self.offsets.1
        } else if level == 2 {
            self.offsets.2
        } else {
            self.offsets.3
        }
    }

    pub fn offset(&self, level: usize) -> (r: u32)
        requires
            level < 4,
        ensures
            r == self.spec_offset(level as int),
    {
        if level == 0 {
            self.offsets.0
        } else if level == 1 {
            self.offsets.1
        } else if level == 2 {
            self.offsets.2
        } else {
            self.offsets.3
        }
    }
}

/// A well-formed `MipTex` decodes from its own encoding: every field,
/// including the name with its discarded padding, comes back unchanged.
pub proof fn lemma_mip_tex_round_trip(
    name: Seq<u8>,
    width: u32,
    height: u32,
    offsets: (u32, u32, u32, u32),
)
    requires
        name.len() == 16,
        is_normalized_name(name),
    ensures
        spec_mip_tex_le(name, width, height, offsets).len() == 40,
        spec_char_array_at(spec_mip_tex_le(name, width, height, offsets), 0, 16) == name,
        le_u32(spec_mip_tex_le(name, width, height, offsets), 16) == width,
        le_u32(spec_mip_tex_le(name, width, height, offsets), 20) == height,
        le_u32(spec_mip_tex_le(name, width, height, offsets), 24) == offsets.0,
        le_u32(spec_mip_tex_le(name, width, height, offsets), 28) == offsets.1,
        le_u32(spec_mip_tex_le(name, width, height, offsets), 32) == offsets.2,
        le_u32(spec_mip_tex_le(name, width, height, offsets), 36) == offsets.3,
{
    let b = spec_mip_tex_le(name, width, height, offsets);
    assert(b.subrange(0, 40) =~= b);
    let p1 = spec_u32_le(width);
    let p2 = spec_u32_le(height);
    let p3 = spec_u32_le(offsets.0);
    let p4 = spec_u32_le(offsets.1);
    let p5 = spec_u32_le(offsets.2);
    let p6 = spec_u32_le(offsets.3);
    let c1 = name + p1;
    let c2 = name + p1 + p2;
    let c3 = name + p1 + p2 + p3;
    let c4 = name + p1 + p2 + p3 + p4;
    let c5 = name + p1 + p2 + p3 + p4 + p5;
    lemma_split_at(b, 0, c5, p6);
    lemma_split_at(b, 0, c4, p5);
    lemma_split_at(b, 0, c3, p4);
    lemma_split_at(b, 0, c2, p3);
    lemma_split_at(b, 0, c1, p2);
    lemma_split_at(b, 0, name, p1);
    lemma_le_u32_here(b, 16, width);
    lemma_le_u32_here(b, 20, height);
    lemma_le_u32_here(b, 24, offsets.0);
    lemma_le_u32_here(b, 28, offsets.1);
    lemma_le_u32_here(b, 32, offsets.2);
    lemma_le_u32_here(b, 36, offsets.3);
    assert forall|i: int| 0 <= i < 16 implies spec_char_array_at(b, 0, 16)[i] == name[i] by {
        assert(b.subrange(0, 16)[i] == name[i]);
        if exists|j: int| 0 <= j < i && #[trigger] b[j] == 0 {
            let j = choose|j: int| 0 <= j < i && #[trigger] b[j] == 0;
            assert(b.subrange(0, 16)[j] == name[j]);
            assert(name[j] == 0);
            assert(name[i] == 0);
        }
    }
    assert(spec_char_array_at(b, 0, 16) =~= name);
}

/// The file header: the format version followed by the fixed table of
/// lump descriptors.
#[derive(PartialEq, Eq, Debug)]
pub struct Header {
    pub version: i32,
    pub lump: Vec<Lump>,
}

/// Wire size of the file header: the version field and fifteen lump
/// descriptors.
pub const HEADER_SIZE: usize = 124;

impl Header {
    /// A header always carries exactly one descriptor per lump category.
    pub open spec fn wf(self) -> bool {
        self.lump@.len() == HEADER_LUMP_COUNT
    }

    /// The lump descriptor table starts right behind the version field.
    pub open spec fn spec_lump_at(b: Seq<u8>, i: int) -> Lump {
        Lump::decoded(b, 4 + 8 * i)
    }

    /// Decodes the header.  Fails exactly when the buffer cannot hold it.
    pub fn decode(data: &Vec<u8>) -> (r: Option<Header>)
        ensures
            r is Some <==> data@.len() >= HEADER_SIZE,
            r is Some ==> {
                let h = r->Some_0;
                &&& h.wf()
                &&& h.version == le_i32(data@, 0)
                &&& forall|i: int|
                    0 <= i < HEADER_LUMP_COUNT ==> h.lump@[i] == Self::spec_lump_at(data@, i)
            },
    {
        let n: usize = data.len();
        if n < HEADER_SIZE {
            return None;
        }
        let version = read_i32(data, 0);
        let mut lump: Vec<Lump> = Vec::new();
        let mut i: usize = 0;
        while i < HEADER_LUMP_COUNT
            invariant
                i <= HEADER_LUMP_COUNT,
                data@.len() >= HEADER_SIZE,
                lump@.len() == i,
                forall|k: int| 0 <= k < i ==> lump@[k] == Self::spec_lump_at(data@, k),
            decreases HEADER_LUMP_COUNT - i,
        {
            let l = Lump::decode_at(data, 4 + 8 * i);
            lump.push(l);
            i = i + 1;
        }
        Some(Header { version, lump })
    }
}

/// Why a lump was rejected.
#[derive(Clone, Copy, PartialEq, Eq, Structural, Debug)]
pub enum FormatReason {
    /// The descriptor points outside the file.
    Bounds,
    /// The lump's byte length is not a multiple of its record size.
    Alignment,
    /// The file is too short to hold a header.
    TooShort,
    /// The version field does not name the supported format.
    BadVersion,
}

/// A fatal decoding failure: the whole load aborts with it.
#[derive(Clone, Copy, PartialEq, Eq, Structural, Debug)]
pub struct FormatError {
    /// Position of the offending lump in the header table, or the count
    /// of the table itself for header-level failures.
    pub lump_index: usize,
    pub offset: i32,
    pub length: i32,
    pub reason: FormatReason,
}

/// Whether a lump descriptor is valid for records of `size` bytes in a
/// file of `flen` bytes: it lies inside the file and spans a whole number
/// of records.
pub open spec fn spec_lump_valid(lump: Lump, flen: int, size: nat) -> bool {
    &&& 0 <= lump.offset
    &&& 0 <= lump.length
    &&& lump.offset + lump.length <= flen
    &&& (lump.length as int) % (size as int) == 0
}

/// The records a valid lump descriptor denotes, each decoded at its
/// slot.
pub open spec fn spec_lump_records<T: WireRecord>(b: Seq<u8>, lump: Lump) -> Seq<T> {
    Seq::new(
        (lump.length as int / T::wire_size() as int) as nat,
        |i: int| T::decoded(b, lump.offset + i * T::wire_size() as int),
    )
}

/// Decodes a whole lump of fixed-size records.  Succeeds exactly on a
/// valid descriptor and then yields `length / size` records, each decoded
/// at its slot; any invalid descriptor rejects the lump as a whole.
pub fn decode_lump<T: WireRecord>(data: &Vec<u8>, lump: Lump, lump_index: usize) -> (r: Result<
    Vec<T>,
    FormatError,
>)
    ensures
        r is Ok <==> spec_lump_valid(lump, data@.len() as int, T::wire_size()),
        r is Ok ==> {
            let v = r->Ok_0;
            &&& v@.len() == lump.length as int / T::wire_size() as int
            &&& v@ == spec_lump_records::<T>(data@, lump)
            &&& forall|i: int|
                0 <= i < v@.len() ==> v@[i] == T::decoded(
                    data@,
                    lump.offset + i * T::wire_size(),
                )
        },
        r is Err ==> {
            let e = r->Err_0;
            &&& e.lump_index == lump_index
            &&& e.offset == lump.offset
            &&& e.length == lump.length
            &&& (e.reason == FormatReason::Bounds || e.reason == FormatReason::Alignment)
        },
{
    proof {
        T::lemma_wire_size();
    }
    let n: usize = data.len();
    let size: usize = T::record_size();
    if lump.offset < 0 || lump.length < 0 {
        return Err(FormatError {
            lump_index,
            offset: lump.offset,
            length: lump.length,
            reason: FormatReason::Bounds,
        });
    }
    let offset: usize = lump.offset as usize;
    let length: usize = lump.length as usize;
    if offset > n || length > n - offset {
        return Err(FormatError {
            lump_index,
            offset: lump.offset,
            length: lump.length,
            reason: FormatReason::Bounds,
        });
    }
    if length % size != 0 {
        return Err(FormatError {
            lump_index,
            offset: lump.offset,
            length: lump.length,
            reason: FormatReason::Alignment,
        });
    }
    let count: usize = length / size;
    let mut v: Vec<T> = Vec::new();
    let mut i: usize = 0;
    while i < count
        invariant
            i <= count,
            n == data@.len(),
            size == T::wire_size(),
            0 < size <= 64,
            count == length / size,
            offset + length <= n,
            length % size == 0,
            v@.len() == i,
            forall|k: int|
                0 <= k < i ==> v@[k] == T::decoded(data@, offset + k * T::wire_size()),
        decreases count - i,
    {
        assert((i + 1) * size <= count * size == length) by (nonlinear_arith)
            requires i < count, count == length / size, length % size == 0, 0 < size;
        assert(i * size + size == (i + 1) * size) by (nonlinear_arith);
        let rec = T::decode_at(data, offset + i * size);
        v.push(rec);
        i = i + 1;
    }
    proof {
        assert(v@ =~= spec_lump_records::<T>(data@, lump));
    }
    Ok(v)
}

} // verus!