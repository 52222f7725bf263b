use lambda_bsp::bsp30::{
    ClipNode, Edge, Face, Header, Leaf, Lump, MipTex, Model, Node, Plane, TextureInfo, Vec3Bits,
    Vec3i16, WireRecord, decode_lump, read_char_array,
};
use lambda_bsp::codec::{push_i16, push_i32, push_u16, push_u32, read_i16, read_i32, read_u16, read_u32};
use lambda_bsp::image::Image;
use lambda_bsp::wad::{Wad, WadDirEntry, MipmapTexture, apply_alpha_sections, sqrt2_scale, to_upper, trim_name, WadError};
use lambda_bsp::atlas::{AtlasError, TextureAtlas};

fn push_u32v(out: &mut Vec<u8>, v: u32) {
    out.extend_from_slice(&v.to_le_bytes());
}

fn push_i32v(out: &mut Vec<u8>, v: i32) {
    out.extend_from_slice(&v.to_le_bytes());
}

#[test]
fn codec_round_trips() {
    let mut buf: Vec<u8> = Vec::new();
    push_u16(&mut buf, 0xBEEF);
    push_i16(&mut buf, -1234);
    push_u32(&mut buf, 0xDEADBEEF);
    push_i32(&mut buf, -123456789);
    assert_eq!(read_u16(&buf, 0), 0xBEEF);
    assert_eq!(read_i16(&buf, 2), -1234);
    assert_eq!(read_u32(&buf, 4), 0xDEADBEEF);
    assert_eq!(read_i32(&buf, 8), -123456789);
}

#[test]
fn lump_round_trip() {
    let l = Lump { offset: -5, length: 1234 };
    let mut out: Vec<u8> = Vec::new();
    l.encode_onto(&mut out);
    assert_eq!(out.len(), 8);
    assert_eq!(Lump::decode_at(&out, 0), l);
}

#[test]
fn node_round_trip() {
    let n = Node {
        plane_index: 7,
        child_index: (-2, 3),
        lower: Vec3i16 { x: -100, y: 0, z: 50 },
        upper: Vec3i16 { x: 100, y: 200, z: 300 },
        first_face: 4,
        last_face: 9,
    };
    let mut out: Vec<u8> = Vec::new();
    n.encode_onto(&mut out);
    assert_eq!(out.len(), 24);
    assert_eq!(Node::decode_at(&out, 0), n);
}

#[test]
fn leaf_round_trip() {
    let l = Leaf {
        content: -2,
        vis_offset: -1,
        lower: Vec3i16 { x: -1, y: -2, z: -3 },
        upper: Vec3i16 { x: 1, y: 2, z: 3 },
        first_mark_surface: 10,
        mark_surface_count: 4,
        ambient_levels: (1, 2, 3, 4),
    };
    let mut out: Vec<u8> = Vec::new();
    l.encode_onto(&mut out);
    assert_eq!(out.len(), 28);
    assert_eq!(Leaf::decode_at(&out, 0), l);
}

#[test]
fn plane_round_trip() {
    let p = Plane {
        normal: Vec3Bits { x: 0x3F800000, y: 0, z: 0 },
        dist: 0x42C80000,
        plane_type: 0,
    };
    let mut out: Vec<u8> = Vec::new();
    p.encode_onto(&mut out);
    assert_eq!(out.len(), 20);
    assert_eq!(Plane::decode_at(&out, 0), p);
}

#[test]
fn edge_round_trip() {
    let e = Edge { vertex_index: (12, 65535) };
    let mut out: Vec<u8> = Vec::new();
    e.encode_onto(&mut out);
    assert_eq!(out.len(), 4);
    assert_eq!(Edge::decode_at(&out, 0), e);
}

#[test]
fn face_round_trip() {
    let f = Face {
        plane_index: 3,
        plane_side: 1,
        first_edge_index: 77,
        edge_count: 4,
        texture_info: 2,
        styles: (0, 255, 1, 2),
        lightmap_offset: 0xFFFFFFFF,
    };
    let mut out: Vec<u8> = Vec::new();
    f.encode_onto(&mut out);
    assert_eq!(out.len(), 20);
    assert_eq!(Face::decode_at(&out, 0), f);
}

#[test]
fn clip_node_round_trip() {
    let c = ClipNode { plane_index: -9, child_index: (-32768, 32767) };
    let mut out: Vec<u8> = Vec::new();
    c.encode_onto(&mut out);
    assert_eq!(out.len(), 8);
    assert_eq!(ClipNode::decode_at(&out, 0), c);
}

#[test]
fn model_round_trip() {
    let m = Model {
        lower: Vec3Bits { x: 1, y: 2, z: 3 },
        upper: Vec3Bits { x: 4, y: 5, z: 6 },
        origin: Vec3Bits { x: 7, y: 8, z: 9 },
        head_nodes_index: (0, -1, 2, -3),
        vis_leaves: 12,
        first_face: 1,
        face_count: 6,
    };
    let mut out: Vec<u8> = Vec::new();
    m.encode_onto(&mut out);
    assert_eq!(out.len(), 64);
    assert_eq!(Model::decode_at(&out, 0), m);
}

#[test]
fn texture_info_round_trip() {
    let t = TextureInfo {
        s: Vec3Bits { x: 0x3F800000, y: 0, z: 0 },
        s_shift: 16,
        t: Vec3Bits { x: 0, y: 0x3F800000, z: 0 },
        t_shift: 32,
        mip_tex_index: 5,
        flags: 1,
    };
    let mut out: Vec<u8> = Vec::new();
    t.encode_onto(&mut out);
    assert_eq!(out.len(), 40);
    assert_eq!(TextureInfo::decode_at(&out, 0), t);
}

#[test]
fn mip_tex_round_trip() {
    let mut raw: Vec<u8> = Vec::new();
    raw.extend_from_slice(b"AAATRIGGER\0\0\0\0\0\0");
    push_u32v(&mut raw, 64);
    push_u32v(&mut raw, 32);
    for o in [40u32, 2088, 2600, 2728] {
        push_u32v(&mut raw, o);
    }
    let m = MipTex::decode_at(&raw, 0);
    assert_eq!(&m.name[..], b"AAATRIGGER\0\0\0\0\0\0");
    assert_eq!(m.width, 64);
    assert_eq!(m.height, 32);
    assert_eq!(m.offsets, (40, 2088, 2600, 2728));
    let mut out: Vec<u8> = Vec::new();
    m.encode_onto(&mut out);
    assert_eq!(out, raw);
}

#[test]
fn char_array_discards_padding_after_nul() {
    // Whatever the wire carries behind the first zero byte is consumed
    // but read back as zeros.
    let mut raw: Vec<u8> = b"FOO\0garbage!".to_vec();
    raw.extend_from_slice(&[1, 2, 3, 4]);
    let name = read_char_array(&raw, 0, 16);
    assert_eq!(&name[..4], b"FOO\0");
    assert!(name[4..].iter().all(|&b| b == 0));
}

#[test]
fn lump_rejects_non_multiple_length() {
    let data: Vec<u8> = vec![0u8; 100];
    // 23 bytes is not a whole number of 24-byte node records.
    let bad = Lump { offset: 0, length: 23 };
    assert!(decode_lump::<Node>(&data, bad, 5).is_err());
    let good = Lump { offset: 0, length: 48 };
    let nodes = decode_lump::<Node>(&data, good, 5).unwrap();
    assert_eq!(nodes.len(), 2);
}

#[test]
fn lump_rejects_out_of_bounds() {
    let data: Vec<u8> = vec![0u8; 100];
    assert!(decode_lump::<Node>(&data, Lump { offset: 90, length: 24 }, 5).is_err());
    assert!(decode_lump::<Node>(&data, Lump { offset: -1, length: 24 }, 5).is_err());
}

#[test]
fn header_rejects_short_buffer() {
    let data: Vec<u8> = vec![0u8; 100];
    assert!(Header::decode(&data).is_none());
    let data: Vec<u8> = vec![0u8; 124];
    let h = Header::decode(&data).unwrap();
    assert_eq!(h.version, 0);
    assert_eq!(h.lump.len(), 15);
}

/// A raw 2x2 palette texture whose four texels all use palette entry 0.
fn tiny_raw_texture(entry0: (u8, u8, u8), index_byte: u8) -> Vec<u8> {
    let mut raw: Vec<u8> = Vec::new();
    raw.extend_from_slice(b"X\0\0\0\0\0\0\0\0\0\0\0\0\0\0\0");
    push_u32v(&mut raw, 2); // width
    push_u32v(&mut raw, 2); // height
    push_u32v(&mut raw, 40); // level 0: 4 texels
    push_u32v(&mut raw, 44); // level 1: 1 texel
    push_u32v(&mut raw, 45); // level 2: 0 texels
    push_u32v(&mut raw, 45); // level 3: 0 texels
    raw.extend_from_slice(&[index_byte; 4]); // level 0 indices
    raw.push(index_byte); // level 1 index
    // palette size field (2 bytes), then 256 RGB entries
    raw.extend_from_slice(&[0, 1]);
    raw.push(entry0.0);
    raw.push(entry0.1);
    raw.push(entry0.2);
    for _ in 1..256 {
        raw.extend_from_slice(&[9, 9, 9]);
    }
    raw
}

#[test]
fn palette_decode_expands_to_rgba() {
    let raw = tiny_raw_texture((10, 20, 30), 0);
    let tex = Wad::create_mip_texture(&raw).unwrap();
    let img0 = &tex.img[0];
    assert_eq!(img0.width, 2);
    assert_eq!(img0.height, 2);
    assert_eq!(img0.channels, 4);
    for p in 0..4 {
        assert_eq!(&img0.data[p * 4..p * 4 + 4], &[10, 20, 30, 255]);
    }
}

#[test]
fn palette_decode_rejects_truncated() {
    let mut raw = tiny_raw_texture((10, 20, 30), 0);
    raw.truncate(100);
    assert!(Wad::create_mip_texture(&raw).is_none());
}

#[test]
fn decal_decode_uses_entry_255_and_index_alpha() {
    let mut raw = tiny_raw_texture((10, 20, 30), 7);
    // palette entry 255 carries the decal colour
    let pal = 45 + 2;
    let e255 = pal + 255 * 3;
    raw[e255] = 100;
    raw[e255 + 1] = 110;
    raw[e255 + 2] = 120;
    let tex = Wad::create_decal_texture(&raw).unwrap();
    let img0 = &tex.img[0];
    for p in 0..4 {
        assert_eq!(&img0.data[p * 4..p * 4 + 4], &[100, 110, 120, 255 - 7]);
    }
}

#[test]
fn alpha_pass_zeroes_key_pixels() {
    // One pure blue texel beside three red ones.
    let mut img = Image {
        channels: 4,
        width: 2,
        height: 2,
        data: vec![
            0, 0, 255, 255, /**/ 200, 0, 0, 255, /**/
            200, 0, 0, 255, /**/ 200, 0, 0, 255,
        ],
    };
    apply_alpha_sections(&mut img);
    assert_eq!(img.data[3], 0, "key texel alpha must end at zero");
    // non-key texels stay untouched
    for p in 1..4 {
        assert_eq!(&img.data[p * 4..p * 4 + 4], &[200, 0, 0, 255]);
    }
}

#[test]
fn alpha_pass_is_idempotent_after_one_pass() {
    let mut img = Image {
        channels: 4,
        width: 2,
        height: 2,
        data: vec![
            0, 0, 255, 255, /**/ 200, 30, 0, 255, /**/
            90, 0, 10, 255, /**/ 10, 60, 0, 255,
        ],
    };
    apply_alpha_sections(&mut img);
    assert!(
        (0..4).all(|p| {
            let d = &img.data[p * 4..p * 4 + 4];
            !(d[0] == 0 && d[1] == 0 && d[2] == 255)
        }),
        "no texel stays pure blue after one pass",
    );
    let after_one = img.data.clone();
    apply_alpha_sections(&mut img);
    assert_eq!(img.data, after_one, "a second pass is a no-op");
}

#[test]
fn alpha_pass_leaves_keyless_image_alone() {
    let mut img = Image { channels: 4, width: 1, height: 2, data: vec![1, 2, 3, 4, 5, 6, 7, 8] };
    let before = img.data.clone();
    apply_alpha_sections(&mut img);
    assert_eq!(img.data, before);
}

#[test]
fn sqrt2_scale_matches_single_precision() {
    for v in 0u16..=255 {
        let expected = (v as f32 * std::f32::consts::SQRT_2) as usize;
        assert_eq!(sqrt2_scale(v as u8), expected, "diagonal weight of {v}");
    }
}

/// A tiny WAD holding one texture under the given directory name.
fn tiny_wad(dir_name: &[u8], compressed: bool) -> Vec<u8> {
    let raw = tiny_raw_texture((10, 20, 30), 0);
    let mut data: Vec<u8> = Vec::new();
    data.extend_from_slice(b"WAD3");
    push_i32v(&mut data, 1); // one directory entry
    let dir_offset = 12 + raw.len() as i32;
    push_i32v(&mut data, dir_offset);
    data.extend_from_slice(&raw);
    // directory entry
    push_i32v(&mut data, 12); // file pos
    push_i32v(&mut data, raw.len() as i32); // disk size
    push_u32v(&mut data, raw.len() as u32); // size
    data.push(0x43); // type
    data.push(if compressed { 1 } else { 0 });
    data.extend_from_slice(&[0, 0]); // dummy
    let mut name = [0u8; 16];
    name[..dir_name.len()].copy_from_slice(dir_name);
    data.extend_from_slice(&name);
    data
}

#[test]
fn wad_lookup_is_case_insensitive() {
    let wad = Wad::from_bytes(tiny_wad(b"FOO", false)).unwrap();
    assert!(wad.load_texture(&b"foo".to_vec()).is_some());
    assert!(wad.load_texture(&b"FOO".to_vec()).is_some());
    assert!(wad.load_texture(&b"BAR".to_vec()).is_none());
}

#[test]
fn wad_declines_compressed_entries() {
    let wad = Wad::from_bytes(tiny_wad(b"FOO", true)).unwrap();
    assert!(wad.load_texture(&b"foo".to_vec()).is_none());
}

#[test]
fn wad_rejects_bad_magic() {
    let mut data = tiny_wad(b"FOO", false);
    data[3] = b'9';
    assert!(matches!(Wad::from_bytes(data), Err(WadError::BadMagic)));
    assert!(matches!(Wad::from_bytes(vec![1, 2, 3]), Err(WadError::TooShort)));
}

#[test]
fn wad_dir_entry_decodes_name() {
    let data = tiny_wad(b"LMP", false);
    let wad = Wad::from_bytes(data).unwrap();
    assert_eq!(wad.dir_entries.len(), 1);
    let e: &WadDirEntry = &wad.dir_entries[0];
    assert_eq!(trim_name(&e.name), b"LMP".to_vec());
    assert!(!e.compressed);
}

#[test]
fn name_helpers() {
    assert_eq!(to_upper(&b"foo_Bar9".to_vec()), b"FOO_BAR9".to_vec());
    assert_eq!(trim_name(&b"AB\0CD".to_vec()), b"AB".to_vec());
    assert_eq!(trim_name(&b"ABCD".to_vec()), b"ABCD".to_vec());
}

#[test]
fn mipmap_texture_has_four_levels() {
    let t = MipmapTexture::new();
    assert_eq!(t.img.len(), 4);
}

#[test]
fn image_at_reads_first_channel() {
    let img = Image { channels: 2, width: 2, height: 2, data: vec![9, 1, 8, 2, 7, 3, 6, 4] };
    assert_eq!(*img.at(0, 0), 9);
    assert_eq!(*img.at(1, 0), 8);
    assert_eq!(*img.at(0, 1), 7);
    assert_eq!(*img.at(1, 1), 6);
}

#[test]
fn atlas_packs_two_images_disjointly() {
    let mut atlas = TextureAtlas::new(8, 8, 1);
    let img = Image { channels: 1, width: 4, height: 2, data: vec![7; 8] };
    let (x1, y1) = atlas.store(&img).unwrap();
    let (x2, y2) = atlas.store(&img).unwrap();
    assert!(x1 + 4 <= 8 && y1 + 2 <= 8);
    assert!(x2 + 4 <= 8 && y2 + 2 <= 8);
    assert!(x1 != x2 || y1 != y2);
    // the stored bytes are in place
    assert_eq!(*atlas.m_image.at(x1, y1), 7);
}

#[test]
fn atlas_rejects_mismatch_and_overflow() {
    let mut atlas = TextureAtlas::new(4, 4, 1);
    let wrong = Image { channels: 3, width: 2, height: 2, data: vec![0; 12] };
    assert_eq!(atlas.store(&wrong), Err(AtlasError::ChannelMismatch));
    let huge = Image { channels: 1, width: 8, height: 8, data: vec![0; 64] };
    assert_eq!(atlas.store(&huge), Err(AtlasError::Full));
}

#[test]
fn wad_lookup_finds_lowercase_stored_entries() {
    // the directory is indexed by uppercase name: storage under a
    // lowercase name is still found, from either case of the query
    let wad = Wad::from_bytes(tiny_wad(b"foo", false)).unwrap();
    assert!(wad.load_texture(&b"FOO".to_vec()).is_some());
    assert!(wad.load_texture(&b"foo".to_vec()).is_some());
    assert!(wad.load_texture(&b"bar".to_vec()).is_none());
}

#[test]
fn alpha_pass_excludes_key_neighbours() {
    // two adjacent key texels: each one's average is judged on the
    // image before the pass, so a key neighbour contributes nothing
    let mut img = Image {
        channels: 4,
        width: 3,
        height: 1,
        data: vec![
            0, 0, 255, 255, /**/ 0, 0, 255, 255, /**/ 200, 0, 0, 255,
        ],
    };
    apply_alpha_sections(&mut img);
    // the left key has only a key neighbour: nothing contributes
    assert_eq!(&img.data[0..4], &[0, 0, 0, 0]);
    // the right key averages only its non-key neighbour
    assert_eq!(&img.data[4..8], &[200, 0, 0, 0]);
    assert_eq!(&img.data[8..12], &[200, 0, 0, 255]);
}
