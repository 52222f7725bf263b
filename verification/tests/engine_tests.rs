use lambda_bsp::bsp::{BSP, Decal, parse_origin_bytes, f32_bits_of_int};
use lambda_bsp::bsp30::FormatReason;
use lambda_bsp::entity::Entity;
use lambda_bsp::mathutil::{point_in_box, Vec3i};
use lambda_bsp::wad::Wad;

fn push_i32v(out: &mut Vec<u8>, v: i32) {
    out.extend_from_slice(&v.to_le_bytes());
}

/// Builds a minimal version-30 level: one plane, one node over two
/// leaves, three leaves (the zeroth is unreachable by the child
/// encoding), and the given entity text.  All other lumps are empty.
fn tiny_bsp_file(entities_text: &[u8]) -> Vec<u8> {
    // lump payloads
    let mut planes: Vec<u8> = Vec::new();
    for _ in 0..4 {
        push_i32v(&mut planes, 0);
    }
    push_i32v(&mut planes, 0); // plane type X

    let mut nodes: Vec<u8> = Vec::new();
    push_i32v(&mut nodes, 0); // plane index
    // children: the bit-complements of leaves 1 and 2
    nodes.extend_from_slice(&(-2i16).to_le_bytes());
    nodes.extend_from_slice(&(-3i16).to_le_bytes());
    for v in [-100i16, -100, -100, 100, 100, 100] {
        nodes.extend_from_slice(&v.to_le_bytes());
    }
    nodes.extend_from_slice(&0u16.to_le_bytes());
    nodes.extend_from_slice(&0u16.to_le_bytes());

    let mut leaves: Vec<u8> = Vec::new();
    let boxes: [[i16; 6]; 3] = [
        [0, 0, 0, 0, 0, 0],
        [0, 0, 0, 10, 10, 10],
        [20, 20, 20, 30, 30, 30],
    ];
    for b in boxes.iter() {
        push_i32v(&mut leaves, -1); // contents: empty
        push_i32v(&mut leaves, -1); // no visibility data
        for v in b.iter() {
            leaves.extend_from_slice(&v.to_le_bytes());
        }
        leaves.extend_from_slice(&0u16.to_le_bytes());
        leaves.extend_from_slice(&0u16.to_le_bytes());
        leaves.extend_from_slice(&[0, 0, 0, 0]);
    }

    // header: version + 15 lump descriptors
    let mut offsets: [(i32, i32); 15] = [(0, 0); 15];
    let mut payload: Vec<u8> = Vec::new();
    let base = 124i32;
    offsets[0] = (base + payload.len() as i32, entities_text.len() as i32);
    payload.extend_from_slice(entities_text);
    offsets[1] = (base + payload.len() as i32, planes.len() as i32);
    payload.extend_from_slice(&planes);
    offsets[5] = (base + payload.len() as i32, nodes.len() as i32);
    payload.extend_from_slice(&nodes);
    offsets[10] = (base + payload.len() as i32, leaves.len() as i32);
    payload.extend_from_slice(&leaves);

    let mut data: Vec<u8> = Vec::new();
    push_i32v(&mut data, 30);
    for (o, l) in offsets.iter() {
        push_i32v(&mut data, *o);
        push_i32v(&mut data, *l);
    }
    data.extend_from_slice(&payload);
    data
}

#[test]
fn end_to_end_minimal_level() {
    let text = b"{ \"classname\" \"worldspawn\" }{ \"classname\" \"info_player_start\" }";
    let data = tiny_bsp_file(text);
    let bsp = BSP::from_bytes(&data).unwrap();
    assert_eq!(bsp.header.version, 30);
    assert_eq!(bsp.planes.len(), 1);
    assert_eq!(bsp.nodes.len(), 1);
    assert_eq!(bsp.leaves.len(), 3);
    assert_eq!(bsp.entities.len(), 2, "one entity per brace block");
    // a point inside leaf 1's box lands in leaf 1
    assert_eq!(bsp.find_leaf(Vec3i { x: 5, y: 5, z: 5 }, 0), Some(1));
    // a point inside leaf 2's box lands in leaf 2
    assert_eq!(bsp.find_leaf(Vec3i { x: 25, y: 25, z: 25 }, 0), Some(2));
    // a point outside both boxes lands nowhere
    assert_eq!(bsp.find_leaf(Vec3i { x: 500, y: 500, z: 500 }, 0), None);
    // no visibility lump: nothing decompressed
    assert_eq!(bsp.vis_lists.len(), 0);
}

#[test]
fn rejects_wrong_version() {
    let mut data = tiny_bsp_file(b"");
    data[0] = 29;
    let err = BSP::from_bytes(&data).err().unwrap();
    assert_eq!(err.reason, FormatReason::BadVersion);
}

#[test]
fn rejects_misaligned_lump() {
    let mut data = tiny_bsp_file(b"");
    // shrink the plane lump to 19 bytes: not a whole record
    data[4 + 8 + 4] = 19;
    let err = BSP::from_bytes(&data).err().unwrap();
    assert_eq!(err.reason, FormatReason::Alignment);
    assert_eq!(err.lump_index, 1);
}

#[test]
fn rejects_truncated_file() {
    let data: Vec<u8> = vec![30, 0, 0, 0];
    let err = BSP::from_bytes(&data).err().unwrap();
    assert_eq!(err.reason, FormatReason::TooShort);
}

#[test]
fn find_leaf_is_deterministic() {
    let data = tiny_bsp_file(b"");
    let bsp = BSP::from_bytes(&data).unwrap();
    let p = Vec3i { x: 5, y: 5, z: 5 };
    let first = bsp.find_leaf(p, 0);
    let second = bsp.find_leaf(p, 0);
    assert_eq!(first, second);
    assert_eq!(first, Some(1));
}

#[test]
fn point_in_box_orientation_symmetry() {
    let points = [
        Vec3i { x: 0, y: 0, z: 0 },
        Vec3i { x: 5, y: -3, z: 12 },
        Vec3i { x: -100, y: 100, z: 0 },
    ];
    let a = Vec3i { x: -10, y: -10, z: -10 };
    let b = Vec3i { x: 10, y: 10, z: 10 };
    for p in points.iter() {
        assert_eq!(point_in_box(*p, a, b), point_in_box(*p, b, a));
    }
    assert!(point_in_box(Vec3i { x: 10, y: 10, z: 10 }, b, a), "bounds are inclusive");
}

fn bsp_with_leaf_contents(contents: &[i32], children: (i16, i16)) -> BSP {
    let data = tiny_bsp_file(b"");
    let mut bsp = BSP::from_bytes(&data).unwrap();
    for (i, c) in contents.iter().enumerate() {
        bsp.leaves[i].content = *c;
    }
    bsp.nodes[0].child_index = children;
    bsp
}

#[test]
fn count_vis_leaves_all_solid_is_zero() {
    let bsp = bsp_with_leaf_contents(&[-2, -2, -2], (-2, -3));
    assert_eq!(bsp.count_vis_leaves(0), 0);
}

#[test]
fn count_vis_leaves_counts_non_solid() {
    // one solid leaf, one empty leaf under the root
    let bsp = bsp_with_leaf_contents(&[-2, -1, -2], (-2, -3));
    assert_eq!(bsp.count_vis_leaves(0), 1);
    // a single non-solid leaf at depth zero: the node index is the
    // leaf's bit-complement itself
    assert_eq!(bsp.count_vis_leaves(-2), 1);
    assert_eq!(bsp.count_vis_leaves(-1), 0, "the empty-leaf mark counts nothing");
}

#[test]
fn decompress_vis_reads_runs_and_literals() {
    let data = tiny_bsp_file(b"");
    let mut bsp = BSP::from_bytes(&data).unwrap();
    // sixteen leaves cover two visibility bytes
    while bsp.leaves.len() < 16 {
        let l = bsp.leaves[1];
        bsp.leaves.push(l);
    }
    bsp.leaves[1].vis_offset = 0;
    // a literal 0x81, then a zero byte running over the second byte
    let compressed: Vec<u8> = vec![0x81, 0x00, 0x01];
    let pvs = bsp.decompress_vis(1, &compressed);
    assert!(pvs.contains(0));
    assert!(pvs.contains(7));
    assert!(!pvs.contains(1));
    assert!((8..16).all(|b| !pvs.contains(b)), "the zero run leaves the bits unset");
    // a stream that ends early leaves the rest unset
    bsp.leaves[1].vis_offset = 2;
    let pvs = bsp.decompress_vis(1, &compressed);
    assert!(pvs.contains(0) && !pvs.contains(1));
}

#[test]
fn entity_parsing_and_lookup() {
    let e = Entity::new(&b"\"classname\" \"worldspawn\" \"wad\" \"\\half\\a.wad;b.wad\"".to_vec());
    assert_eq!(
        e.find_property(&b"classname".to_vec()),
        Some(&b"worldspawn".to_vec()),
    );
    assert_eq!(e.find_property(&b"wad".to_vec()), Some(&b"\\half\\a.wad;b.wad".to_vec()));
    assert_eq!(e.find_property(&b"missing".to_vec()), None);
}

#[test]
fn entity_later_duplicate_shadows_earlier() {
    let e = Entity::new(&b"\"k\" \"one\" \"k\" \"two\"".to_vec());
    assert_eq!(e.find_property(&b"k".to_vec()), Some(&b"two".to_vec()));
}

#[test]
fn entity_unclosed_quote_ends_scan() {
    let e = Entity::new(&b"\"a\" \"1\" \"broken".to_vec());
    assert_eq!(e.find_property(&b"a".to_vec()), Some(&b"1".to_vec()));
    assert_eq!(e.properties.len(), 1);
}

#[test]
fn parse_entities_scans_blocks() {
    let text = b"junk { \"a\" \"1\" } between { \"b\" \"2\" } { unterminated";
    let ents = BSP::parse_entities(&text.to_vec());
    assert_eq!(ents.len(), 2, "the unterminated block is skipped");
    assert_eq!(ents[0].find_property(&b"a".to_vec()), Some(&b"1".to_vec()));
    assert_eq!(ents[1].find_property(&b"b".to_vec()), Some(&b"2".to_vec()));
}

#[test]
fn find_entity_by_classname() {
    let text = b"{ \"classname\" \"worldspawn\" \"wad\" \"x.wad\" }{ \"classname\" \"infodecal\" }{ \"classname\" \"infodecal\" }";
    let ents = BSP::parse_entities(&text.to_vec());
    let w = BSP::find_entity(&ents, &b"worldspawn".to_vec()).unwrap();
    assert_eq!(w.find_property(&b"wad".to_vec()), Some(&b"x.wad".to_vec()));
    assert!(BSP::find_entity(&ents, &b"func_door".to_vec()).is_none());
    let decals = BSP::find_entities(&ents, &b"infodecal".to_vec());
    assert_eq!(decals, vec![1, 2]);
}

#[test]
fn brush_entities_partition_by_render_mode() {
    let text = b"{ \"classname\" \"worldspawn\" }\
        { \"classname\" \"func_wall\" \"model\" \"*1\" }\
        { \"classname\" \"func_door\" \"model\" \"*2\" \"rendermode\" \"2\" }\
        { \"classname\" \"func_button\" \"model\" \"*3\" \"rendermode\" \"0\" }";
    let data = tiny_bsp_file(text);
    let bsp = BSP::from_bytes(&data).unwrap();
    // texture-mode brush entities come first, order kept inside groups
    assert_eq!(bsp.brush_entities, vec![2, 1, 3]);
    assert_eq!(bsp.special_entities, vec![0]);
}

#[test]
fn is_brush_entity_needs_model_and_class() {
    let yes = Entity::new(&b"\"classname\" \"func_wall\" \"model\" \"*1\"".to_vec());
    let no_model = Entity::new(&b"\"classname\" \"func_wall\"".to_vec());
    let wrong_class = Entity::new(&b"\"classname\" \"light\" \"model\" \"*1\"".to_vec());
    assert!(BSP::is_brush_entity(&yes));
    assert!(!BSP::is_brush_entity(&no_model));
    assert!(!BSP::is_brush_entity(&wrong_class));
}

#[test]
fn origin_parsing() {
    assert_eq!(
        parse_origin_bytes(&b"1 -2 3".to_vec()),
        Some(Vec3i { x: 1, y: -2, z: 3 }),
    );
    assert_eq!(parse_origin_bytes(&b"0 0 0".to_vec()), Some(Vec3i { x: 0, y: 0, z: 0 }));
    assert_eq!(parse_origin_bytes(&b"1 2".to_vec()), None);
    assert_eq!(parse_origin_bytes(&b"1 2 3 4".to_vec()), None);
    assert_eq!(parse_origin_bytes(&b"1 x 3".to_vec()), None);
}

#[test]
fn float_bits_of_whole_numbers() {
    assert_eq!(f32_bits_of_int(0), 0);
    assert_eq!(f32_bits_of_int(1), 1.0f32.to_bits());
    assert_eq!(f32_bits_of_int(-2), (-2.0f32).to_bits());
    assert_eq!(f32_bits_of_int(12345), 12345.0f32.to_bits());
    assert_eq!(f32_bits_of_int(-16777216), (-16777216.0f32).to_bits());
}

#[test]
fn origin_override_rewrites_model() {
    let text = b"{ \"classname\" \"func_wall\" \"model\" \"*0\" \"origin\" \"4 -8 16\" }";
    let mut data = tiny_bsp_file(text);
    // append a models lump with one zeroed model record
    let model_off = data.len() as i32;
    data.extend_from_slice(&[0u8; 64]);
    data[4 + 14 * 8..4 + 14 * 8 + 4].copy_from_slice(&model_off.to_le_bytes());
    data[4 + 14 * 8 + 4..4 + 14 * 8 + 8].copy_from_slice(&64i32.to_le_bytes());
    let bsp = BSP::from_bytes(&data).unwrap();
    assert_eq!(bsp.models.len(), 1);
    let origin = bsp.models[0].model.origin;
    assert_eq!(origin.x, 4.0f32.to_bits());
    assert_eq!(origin.y, (-8.0f32).to_bits());
    assert_eq!(origin.z, 16.0f32.to_bits());
    assert_eq!(bsp.models[0].hulls.len(), 4);
    assert_eq!(bsp.models[0].hulls[0].clip_nodes.len(), 1);
}

#[test]
fn wad_path_normalisation() {
    let paths = BSP::load_wad_files(&b"\\sierra\\half\\valve\\a.wad;;c:\\x\\b.wad".to_vec());
    assert_eq!(paths.len(), 2);
    assert_eq!(paths[0], b"data/wads/valve/a.wad".to_vec());
    assert_eq!(paths[1], b"data/wads/x/b.wad".to_vec());
}

fn push_u32v(out: &mut Vec<u8>, v: u32) {
    out.extend_from_slice(&v.to_le_bytes());
}

/// A WAD with one 2x2 texture named `X`.
fn decal_wad() -> Wad {
    let mut raw: Vec<u8> = Vec::new();
    raw.extend_from_slice(b"X\0\0\0\0\0\0\0\0\0\0\0\0\0\0\0");
    push_u32v(&mut raw, 2);
    push_u32v(&mut raw, 2);
    for o in [40u32, 44, 45, 45] {
        push_u32v(&mut raw, o);
    }
    raw.extend_from_slice(&[0; 5]);
    raw.extend_from_slice(&[0, 1]);
    for _ in 0..256 {
        raw.extend_from_slice(&[1, 2, 3]);
    }
    let mut data: Vec<u8> = Vec::new();
    data.extend_from_slice(b"WAD3");
    push_i32v(&mut data, 1);
    push_i32v(&mut data, 12 + raw.len() as i32);
    data.extend_from_slice(&raw);
    push_i32v(&mut data, 12);
    push_i32v(&mut data, raw.len() as i32);
    push_u32v(&mut data, raw.len() as u32);
    data.push(0x43);
    data.push(0);
    data.extend_from_slice(&[0, 0]);
    let mut name = [0u8; 16];
    name[0] = b'X';
    data.extend_from_slice(&name);
    Wad::from_bytes(data).unwrap()
}

#[test]
fn decal_texture_loads_once_and_is_cached() {
    let data = tiny_bsp_file(b"{ \"classname\" \"infodecal\" \"origin\" \"0 0 0\" \"texture\" \"X\" }");
    let mut bsp = BSP::from_bytes(&data).unwrap();
    let wads = vec![decal_wad()];
    let mut cache: Vec<(Vec<u8>, u32)> = Vec::new();
    let before = bsp.m_textures.len();
    let a = bsp.load_decal_texture(&wads, &mut cache, &b"X".to_vec()).unwrap();
    let b = bsp.load_decal_texture(&wads, &mut cache, &b"X".to_vec()).unwrap();
    assert_eq!(a, b, "the cache hands the same slot back");
    assert_eq!(bsp.m_textures.len(), before + 1, "the texture is loaded once");
    assert!(bsp.load_decal_texture(&wads, &mut cache, &b"Y".to_vec()).is_none());
}

#[test]
fn texture_resolution_counts_misses() {
    // one declared texture stored externally, not present in any wad
    let mut data = tiny_bsp_file(b"{ \"classname\" \"worldspawn\" }");
    let tex_off = data.len() as i32;
    let mut texlump: Vec<u8> = Vec::new();
    push_u32v(&mut texlump, 1); // one texture
    push_i32v(&mut texlump, 8); // its record offset inside the lump
    texlump.extend_from_slice(b"MISSING\0\0\0\0\0\0\0\0\0");
    push_u32v(&mut texlump, 16);
    push_u32v(&mut texlump, 16);
    for _ in 0..4 {
        push_u32v(&mut texlump, 0); // external: first level offset is zero
    }
    data.extend_from_slice(&texlump);
    data[4 + 2 * 8..4 + 2 * 8 + 4].copy_from_slice(&tex_off.to_le_bytes());
    data[4 + 2 * 8 + 4..4 + 2 * 8 + 8].copy_from_slice(&(texlump.len() as i32).to_le_bytes());
    let mut bsp = BSP::from_bytes(&data).unwrap();
    assert_eq!(bsp.mip_textures.len(), 1);
    let errors = bsp.load_textures(&data, &Vec::new());
    assert_eq!(errors, 1, "the miss is counted, not fatal");
    assert_eq!(bsp.m_textures.len(), 1, "a placeholder keeps the arrays aligned");
    assert_eq!(bsp.m_textures[0].img[0].width, 0);
}

#[test]
fn lightmaps_slice_and_stay_aligned() {
    let mut data = tiny_bsp_file(b"");
    // a face lump with one eligible face and a lighting lump of 12 bytes
    let face_off = data.len() as i32;
    let mut face: Vec<u8> = Vec::new();
    face.extend_from_slice(&0u16.to_le_bytes()); // plane
    face.extend_from_slice(&0u16.to_le_bytes()); // side
    push_u32v(&mut face, 0); // first edge
    face.extend_from_slice(&0u16.to_le_bytes()); // edge count
    face.extend_from_slice(&0u16.to_le_bytes()); // texinfo
    face.extend_from_slice(&[0, 0, 0, 0]); // styles: lit
    push_u32v(&mut face, 3); // lightmap offset
    data.extend_from_slice(&face);
    data[4 + 7 * 8..4 + 7 * 8 + 4].copy_from_slice(&face_off.to_le_bytes());
    data[4 + 7 * 8 + 4..4 + 7 * 8 + 8].copy_from_slice(&20i32.to_le_bytes());
    let light_off = data.len() as i32;
    data.extend_from_slice(&[9u8; 15]);
    data[4 + 8 * 8..4 + 8 * 8 + 4].copy_from_slice(&light_off.to_le_bytes());
    data[4 + 8 * 8 + 4..4 + 8 * 8 + 8].copy_from_slice(&15i32.to_le_bytes());
    let mut bsp = BSP::from_bytes(&data).unwrap();
    assert_eq!(bsp.faces.len(), 1);
    assert_eq!(bsp.light_map_data.len(), 15);
    bsp.load_light_maps(&vec![(2, 2)]);
    assert_eq!(bsp.m_lightmaps.len(), 1);
    assert_eq!(bsp.m_lightmaps[0].width, 2);
    assert_eq!(bsp.m_lightmaps[0].height, 2);
    assert_eq!(bsp.m_lightmaps[0].channels, 3);
    assert_eq!(bsp.m_lightmaps[0].data, vec![9u8; 12]);
    // an unlit face gets a placeholder
    bsp.faces[0].styles.0 = 255;
    bsp.load_light_maps(&vec![(2, 2)]);
    assert_eq!(bsp.m_lightmaps[0].width, 0);
}

/// A level like `tiny_bsp_file`, plus a visibility lump and a leaf
/// that stores a visibility offset.
fn tiny_bsp_with_vis(compressed: &[u8]) -> Vec<u8> {
    let mut data = tiny_bsp_file(b"");
    // leaf 1 stores visibility offset 0; the leaves lump begins at the
    // offset recorded in descriptor 10
    let leaves_off =
        i32::from_le_bytes(data[4 + 10 * 8..4 + 10 * 8 + 4].try_into().unwrap()) as usize;
    let leaf1_vis = leaves_off + 28 + 4;
    data[leaf1_vis..leaf1_vis + 4].copy_from_slice(&0i32.to_le_bytes());
    let vis_off = data.len() as i32;
    data.extend_from_slice(compressed);
    data[4 + 4 * 8..4 + 4 * 8 + 4].copy_from_slice(&vis_off.to_le_bytes());
    data[4 + 4 * 8 + 4..4 + 4 * 8 + 8].copy_from_slice(&(compressed.len() as i32).to_le_bytes());
    data
}

#[test]
fn loader_decompresses_stored_visibility() {
    let data = tiny_bsp_with_vis(&[0x05]);
    let bsp = BSP::from_bytes(&data).unwrap();
    // both leaves under the root are empty, so two visibility slots
    assert_eq!(bsp.vis_lists.len(), 2);
    // leaf 1 stored an offset: bits 0 and 2 of its set are lit
    assert!(bsp.vis_lists[0].contains(0));
    assert!(!bsp.vis_lists[0].contains(1));
    assert!(bsp.vis_lists[0].contains(2));
    // leaf 2 stored none: its set is empty
    assert!(!bsp.vis_lists[1].contains(0));
}

#[test]
fn decal_generation_appends_symmetric_quad() {
    // an infodecal whose origin lies inside leaf 1; the quad corners
    // are placed by the caller and appended through the library
    let text = b"{ \"classname\" \"infodecal\" \"origin\" \"5 5 5\" \"texture\" \"X\" }";
    let data = tiny_bsp_file(text);
    let mut bsp = BSP::from_bytes(&data).unwrap();
    let decals = BSP::find_entities(&bsp.entities, &b"infodecal".to_vec());
    assert_eq!(decals.len(), 1);
    let origin_value = bsp.entities[decals[0]].find_property(&b"origin".to_vec()).unwrap();
    let o = parse_origin_bytes(origin_value).unwrap();
    assert_eq!(bsp.find_leaf(o, 0), Some(1));
    let wads = vec![decal_wad()];
    let mut cache: Vec<(Vec<u8>, u32)> = Vec::new();
    let tex_index = bsp.load_decal_texture(&wads, &mut cache, &b"X".to_vec()).unwrap();
    let img = &bsp.m_textures[tex_index as usize].img[0];
    let (w2, h2) = (img.width as f32 / 2.0, img.height as f32 / 2.0);
    let (ox, oy, oz) = (o.x as f32, o.y as f32, o.z as f32);
    // texture-space axes for the quad
    let s = [w2, 0.0, 0.0];
    let t = [0.0, h2, 0.0];
    let corner = |sx: f32, tx: f32| lambda_bsp::bsp30::Vec3Bits {
        x: (ox + sx * s[0] + tx * t[0]).to_bits(),
        y: (oy + sx * s[1] + tx * t[1]).to_bits(),
        z: (oz + sx * s[2] + tx * t[2]).to_bits(),
    };
    bsp.push_decal(Decal {
        tex_index,
        normal: lambda_bsp::bsp30::Vec3Bits { x: 0, y: 0, z: 0x3F800000 },
        vec: (corner(-1.0, -1.0), corner(1.0, -1.0), corner(1.0, 1.0), corner(-1.0, 1.0)),
    });
    assert_eq!(bsp.m_decals.len(), 1, "exactly one decal is appended");
    let d = &bsp.m_decals[0];
    // opposite corners are symmetric about the origin
    let f = |b: u32| f32::from_bits(b);
    assert_eq!(f(d.vec.0.x) + f(d.vec.2.x), 2.0 * ox);
    assert_eq!(f(d.vec.0.y) + f(d.vec.2.y), 2.0 * oy);
    assert_eq!(f(d.vec.1.x) + f(d.vec.3.x), 2.0 * ox);
    assert_eq!(f(d.vec.1.y) + f(d.vec.3.y), 2.0 * oy);
}
