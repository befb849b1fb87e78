use game_core::mdx::mesh::{
    bone_index_of, matrix_group_starts, resolve_texture_name, stand_sequence, surface_indices, vertex_bones,
};
use game_core::mdx::parser::{parse_bone_nodes, parse_mdx, read_c_str, read_u32};
use game_core::mdx::rig::{
    animation_plan, bone_parent, keys_in_window, pick_name, sequence_by_name, sequence_length_ms, track_interpolation,
    Interpolation,
};
use game_core::mdx::types::{
    Bone, Geoset, LayerDef, MaterialDef, MdxError, MdxModel, RotationKf, ScaleKf, Sequence, TextureRef, TranslationKf,
};

fn le(v: u32) -> [u8; 4] {
    v.to_le_bytes()
}

fn chunk(tag: &[u8; 4], data: &[u8]) -> Vec<u8> {
    let mut c = tag.to_vec();
    c.extend_from_slice(&le(data.len() as u32));
    c.extend_from_slice(data);
    c
}

fn fixed_str(s: &str, n: usize) -> Vec<u8> {
    let mut v = s.as_bytes().to_vec();
    v.resize(n, 0);
    v
}

fn texture(replaceable: u32, name: &str, flags: u32) -> Vec<u8> {
    let mut t = le(replaceable).to_vec();
    t.extend(fixed_str(name, 260));
    t.extend_from_slice(&le(flags));
    t
}

fn sequence(name: &str, start: u32, end: u32, non_looping: u32) -> Vec<u8> {
    let mut s = fixed_str(name, 80);
    s.extend_from_slice(&le(start));
    s.extend_from_slice(&le(end));
    s.extend_from_slice(&1.5f32.to_le_bytes());
    s.extend_from_slice(&le(non_looping));
    s.resize(132, 0);
    s
}

fn node(name: &str, object_id: u32, parent: u32) -> Vec<u8> {
    let mut n = le(96).to_vec();
    n.extend(fixed_str(name, 80));
    n.extend_from_slice(&le(object_id));
    n.extend_from_slice(&le(parent));
    n.extend_from_slice(&le(0));
    n
}

fn model(chunks: &[Vec<u8>]) -> Vec<u8> {
    let mut m = b"MDLX".to_vec();
    for c in chunks {
        m.extend_from_slice(c);
    }
    m
}

#[test]
fn missing_magic_is_rejected() {
    assert!(matches!(parse_mdx(b"MDL"), Err(MdxError::MissingMagic)));
    assert!(matches!(parse_mdx(b"XDLM1234"), Err(MdxError::MissingMagic)));
}

#[test]
fn chunk_tag_must_be_text() {
    let bytes = model(&[chunk(&[0xff, 0xfe, 0x00, 0x01], &[])]);
    let e = parse_mdx(&bytes).err().unwrap();
    assert_eq!(e, MdxError::InvalidChunkTag { valid_up_to: 0, error_len: Some(1) });
    let std_err = std::str::from_utf8(&[0xff, 0xfe, 0x00, 0x01]).unwrap_err();
    assert_eq!(e.message(), format!("invalid chunk tag: {std_err}"));
}

#[test]
fn error_messages_match_the_reported_texts() {
    let cut = model(&[chunk(&[b'A', 0xe2, 0x82, b'B'], &[])]);
    let e = parse_mdx(&cut).err().unwrap();
    let std_err = std::str::from_utf8(&[b'A', 0xe2, 0x82, b'B']).unwrap_err();
    assert_eq!(e, MdxError::InvalidChunkTag { valid_up_to: 1, error_len: Some(2) });
    assert_eq!(e.message(), format!("invalid chunk tag: {std_err}"));
    let tail = model(&[chunk(&[b'A', b'B', b'C', 0xe2], &[])]);
    let e = parse_mdx(&tail).err().unwrap();
    let std_err = std::str::from_utf8(&[b'A', b'B', b'C', 0xe2]).unwrap_err();
    assert_eq!(e, MdxError::InvalidChunkTag { valid_up_to: 3, error_len: None });
    assert_eq!(e.message(), format!("invalid chunk tag: {std_err}"));
    assert_eq!(MdxError::MissingMagic.message(), "Not a valid MDX file (missing MDLX magic)");
    assert_eq!(MdxError::TooLarge.message(), "capacity overflow");
}

#[test]
fn short_material_is_malformed() {
    let mut mat = le(8).to_vec();
    mat.extend_from_slice(&le(0));
    let bytes = model(&[chunk(b"MTLS", &mat)]);
    assert!(matches!(parse_mdx(&bytes), Err(MdxError::Malformed)));
}

#[test]
fn header_only_model() {
    let m = parse_mdx(b"MDLX").unwrap();
    assert!(m.textures.is_empty() && m.geosets.is_empty() && m.bones.is_empty());
    assert_eq!(m.geoset_alpha.len(), 1);
    assert!(m.geoset_alpha[0].is_none());
}

#[test]
fn textures_and_sequences_are_read() {
    let mut texs = texture(1, "", 0);
    texs.extend(texture(0, "Textures\\Peasant.blp", 3));
    let mut seqs = sequence("Stand", 0, 1000, 0);
    seqs.extend(sequence("Walk", 1000, 2000, 1));
    let bytes = model(&[chunk(b"TEXS", &texs), chunk(b"VERS", &le(800)), chunk(b"SEQS", &seqs)]);
    let m = parse_mdx(&bytes).unwrap();
    assert_eq!(m.textures.len(), 2);
    assert_eq!(m.textures[0].replaceable_id, 1);
    assert_eq!(m.textures[1].file_name, "Textures\\Peasant.blp");
    assert_eq!(m.textures[1].flags, 3);
    assert_eq!(m.sequences.len(), 2);
    assert_eq!(m.sequences[0].name, "Stand");
    assert!(m.sequences[0].loop_);
    assert_eq!((m.sequences[1].start_ms, m.sequences[1].end_ms), (1000, 2000));
    assert!(!m.sequences[1].loop_);
    assert_eq!(f32::from_bits(m.sequences[1].move_speed), 1.5);
}

#[test]
fn chunk_past_the_end_stops_reading() {
    let mut bytes = model(&[chunk(b"TEXS", &texture(0, "a.blp", 0))]);
    bytes.extend_from_slice(b"SEQS");
    bytes.extend_from_slice(&le(1000));
    let m = parse_mdx(&bytes).unwrap();
    assert_eq!(m.textures.len(), 1);
    assert!(m.sequences.is_empty());
}

#[test]
fn bones_and_pivots_are_read() {
    let mut bones = node("Bone_Root", 0, 0xffff_ffff);
    bones.extend(node("Bone_Arm", 1, 0));
    let mut pivots = Vec::new();
    for v in [1.0f32, 2.0, 3.0, 4.0, 5.0, 6.0] {
        pivots.extend_from_slice(&v.to_le_bytes());
    }
    let bytes = model(&[chunk(b"BONE", &bones), chunk(b"HELP", &node("Helper", 2, 0)), chunk(b"PIVT", &pivots)]);
    let m = parse_mdx(&bytes).unwrap();
    assert_eq!(m.bones.len(), 2);
    assert_eq!(m.bones[0].name, "Bone_Root");
    assert_eq!(m.bones[0].parent_id, 0xffff_ffff);
    assert_eq!(m.bones[1].object_id, 1);
    assert_eq!(m.helpers.len(), 1);
    assert_eq!(m.helpers[0].name, "Helper");
    assert_eq!(m.pivots.len(), 2);
    assert_eq!(f32::from_bits(m.pivots[1].2), 6.0);
}

#[test]
fn bone_records_with_bad_ids_are_skipped() {
    let data = node("Bad", 600, 0);
    let bones = parse_bone_nodes(&data).unwrap();
    assert!(bones.is_empty());
}

#[test]
fn c_strings_stop_at_nul() {
    assert_eq!(read_c_str(b"abc\0def"), "abc");
    assert_eq!(read_c_str(b"xyz"), "xyz");
    assert_eq!(read_c_str(b""), "");
    assert_eq!(read_u32(&[1, 2, 3, 4, 5], 1), 0x0504_0302);
}

fn bone(name: &str, object_id: u32) -> Bone {
    Bone {
        name: name.to_string(),
        object_id,
        parent_id: 0xffff_ffff,
        flags: 0,
        translations: vec![],
        rotations: vec![],
        scales: vec![],
    }
}

fn seq(name: &str) -> Sequence {
    Sequence { name: name.to_string(), start_ms: 0, end_ms: 100, move_speed: 0, loop_: true }
}

fn empty_model() -> MdxModel {
    MdxModel {
        textures: vec![],
        materials: vec![],
        geosets: vec![],
        bones: vec![],
        helpers: vec![],
        pivots: vec![],
        sequences: vec![],
        geoset_alpha: vec![],
    }
}

fn layer(texture_id: u32) -> LayerDef {
    LayerDef { filter_mode: 0, shading_flags: 0, texture_id, texture_animation_id: 0, coord_id: 0, alpha: 0 }
}

#[test]
fn stand_sequence_is_found_case_insensitively() {
    let mut m = empty_model();
    assert_eq!(stand_sequence(&m), None);
    m.sequences = vec![seq("Walk"), seq("STAND Ready"), seq("Stand")];
    assert_eq!(stand_sequence(&m), Some(1));
    m.sequences = vec![seq("Walk"), seq("Attack")];
    assert_eq!(stand_sequence(&m), Some(0));
}

#[test]
fn sequence_by_name_prefers_exact_match_over_prefix() {
    let mut m = empty_model();
    assert_eq!(sequence_by_name(&m, "stand"), None);
    m.sequences = vec![seq("Walk"), seq("Stand Ready"), seq("STAND"), seq("Attack")];
    assert_eq!(sequence_by_name(&m, "stand"), Some(2));
    assert_eq!(sequence_by_name(&m, "Stand Re"), Some(1));
    assert_eq!(sequence_by_name(&m, "ATTACK"), Some(3));
    assert_eq!(sequence_by_name(&m, "Death"), None);
    assert_eq!(sequence_by_name(&m, ""), Some(0));
    m.sequences = vec![seq("Stand Ready"), seq("Stand Victory")];
    assert_eq!(sequence_by_name(&m, "stand"), Some(0));
    m.sequences = vec![seq("Walk"), seq("\u{c4}rger")];
    assert_eq!(sequence_by_name(&m, "\u{e4}RGER"), Some(1));
}

#[test]
fn pick_name_prefers_equal_then_prefix() {
    let names: Vec<String> = ["walk", "stand ready", "stand"].iter().map(|s| s.to_string()).collect();
    assert_eq!(pick_name(&names, "stand"), Some(2));
    assert_eq!(pick_name(&names, "stand r"), Some(1));
    assert_eq!(pick_name(&names, "Stand"), None);
    assert_eq!(pick_name(&[], "stand"), None);
}

#[test]
fn texture_name_skips_team_color_layers() {
    let mut m = empty_model();
    m.textures = vec![
        TextureRef { replaceable_id: 1, file_name: String::new(), flags: 0 },
        TextureRef { replaceable_id: 0, file_name: String::new(), flags: 0 },
        TextureRef { replaceable_id: 0, file_name: "body.blp".to_string(), flags: 0 },
    ];
    m.materials = vec![MaterialDef { priority_plane: 0, flags: 0, layers: vec![layer(0), layer(7), layer(1), layer(2)] }];
    assert_eq!(resolve_texture_name(&m, 0), Some("body.blp".to_string()));
    assert_eq!(resolve_texture_name(&m, 1), None);
    m.materials[0].layers.truncate(2);
    assert_eq!(resolve_texture_name(&m, 0), None);
}

#[test]
fn bone_index_counts_bones_then_helpers() {
    let mut m = empty_model();
    m.bones = vec![bone("a", 10), bone("b", 11)];
    m.helpers = vec![bone("h", 20), bone("dup", 10)];
    assert_eq!(bone_index_of(&m, 11), Some(1));
    assert_eq!(bone_index_of(&m, 20), Some(2));
    assert_eq!(bone_index_of(&m, 10), Some(3));
    assert_eq!(bone_index_of(&m, 99), None);
}

#[test]
fn faces_have_their_winding_reversed() {
    assert_eq!(surface_indices(&[(0, 1, 2), (2, 3, 4)]), vec![0, 2, 1, 2, 4, 3]);
    assert!(surface_indices(&[]).is_empty());
}

#[test]
fn matrix_groups_and_vertex_bones() {
    assert_eq!(matrix_group_starts(&[2, 1, 3]), vec![0, 2, 3]);
    let mut m = empty_model();
    m.bones = vec![bone("a", 5), bone("b", 6), bone("c", 7)];
    let g = Geoset {
        vertex_positions: vec![(0, 0, 0); 3],
        vertex_normals: vec![],
        faces: vec![],
        uvs: vec![],
        material_id: 0,
        selection_group: 0,
        selection_flags: 0,
        vertex_groups: vec![1, 0, 9],
        matrix_group_counts: vec![2, 1],
        matrix_indices: vec![6, 7, 5],
    };
    let starts = matrix_group_starts(&g.matrix_group_counts);
    assert_eq!(vertex_bones(&m, &g, &starts, 0), (1, [0, 0, 0, 0]));
    assert_eq!(vertex_bones(&m, &g, &starts, 1), (2, [1, 2, 0, 0]));
    assert_eq!(vertex_bones(&m, &g, &starts, 2), (0, [0, 0, 0, 0]));
    assert_eq!(vertex_bones(&m, &g, &starts, 7), (2, [1, 2, 0, 0]));
}

#[test]
fn skeleton_parents_resolve_by_object_id() {
    let mut m = empty_model();
    let mut root = bone("root", 0);
    root.parent_id = 0xffff_ffff;
    let mut arm = bone("arm", 1);
    arm.parent_id = 0;
    let mut selfish = bone("self", 2);
    selfish.parent_id = 2;
    let mut orphan = bone("orphan", 3);
    orphan.parent_id = 42;
    m.bones = vec![root, arm, selfish];
    let mut helper = bone("helper", 4);
    helper.parent_id = 1;
    m.helpers = vec![helper, orphan];
    assert_eq!(bone_parent(&m, 0), None);
    assert_eq!(bone_parent(&m, 1), Some(0));
    assert_eq!(bone_parent(&m, 2), None);
    assert_eq!(bone_parent(&m, 3), Some(1));
    assert_eq!(bone_parent(&m, 4), None);
}

#[test]
fn keys_are_cut_to_the_window() {
    let keys: Vec<ScaleKf> = [0u32, 100, 200, 300]
        .iter()
        .map(|&t| ScaleKf { time_ms: t, value: (t, 0, 0), interpolation: 1 })
        .collect();
    let w = keys_in_window(&keys, 100, 200);
    assert_eq!(w.iter().map(|k| k.time_ms).collect::<Vec<_>>(), vec![100, 200]);
    assert!(keys_in_window(&keys, 301, 400).is_empty());
}

#[test]
fn interpolation_and_length() {
    assert_eq!(track_interpolation(0), Interpolation::Nearest);
    assert_eq!(track_interpolation(1), Interpolation::Linear);
    assert_eq!(track_interpolation(3), Interpolation::Linear);
    assert_eq!(sequence_length_ms(1000, 2333), 1333);
    assert_eq!(sequence_length_ms(500, 100), 0);
}

#[test]
fn animation_plan_keeps_positive_sequences_and_keyed_tracks() {
    let mut m = empty_model();
    let mut root = bone("Root", 0);
    root.translations = vec![
        TranslationKf { time_ms: 50, value: (1, 2, 3), interpolation: 1 },
        TranslationKf { time_ms: 500, value: (4, 5, 6), interpolation: 1 },
    ];
    root.rotations = vec![RotationKf { time_ms: 600, value: (0, 0, 0, 1), interpolation: 0 }];
    let mut arm = bone("Arm", 1);
    arm.scales = vec![ScaleKf { time_ms: 0, value: (1, 1, 1), interpolation: 0 }];
    m.bones = vec![root];
    m.helpers = vec![arm];
    let mut still = seq("Still");
    still.start_ms = 300;
    still.end_ms = 300;
    let mut walk = seq("Walk");
    walk.start_ms = 400;
    walk.end_ms = 700;
    m.sequences = vec![seq("Stand"), still, walk];
    let plan = animation_plan(&m);
    assert_eq!(plan.len(), 2);
    assert_eq!(plan[0].sequence, 0);
    assert_eq!(plan[0].translations.len(), 1);
    assert_eq!(plan[0].translations[0].node, 0);
    assert_eq!(plan[0].translations[0].keys.len(), 1);
    assert_eq!(plan[0].translations[0].keys[0].time_ms, 50);
    assert!(plan[0].rotations.is_empty());
    assert_eq!(plan[0].scales.len(), 1);
    assert_eq!(plan[0].scales[0].node, 1);
    assert_eq!(plan[1].sequence, 2);
    assert_eq!(plan[1].translations[0].keys[0].time_ms, 500);
    assert_eq!(plan[1].rotations.len(), 1);
    assert_eq!(plan[1].rotations[0].node, 0);
    assert!(plan[1].scales.is_empty());
}

#[test]
fn short_record_prefix_is_skipped() {
    let mut data = node("Root", 0, 0xffff_ffff);
    data.extend(node("Arm", 1, 0));
    let mut prefixed = le(95).to_vec();
    prefixed.extend_from_slice(&data);
    let plain = parse_bone_nodes(&data).unwrap();
    let skipped = parse_bone_nodes(&prefixed).unwrap();
    assert_eq!(plain.len(), 2);
    assert_eq!(skipped.len(), 2);
    assert_eq!(skipped[0].name, plain[0].name);
    assert_eq!(skipped[1].object_id, plain[1].object_id);
}

#[test]
fn cut_short_tail_is_ignored() {
    let bytes = model(&[chunk(b"TEXS", &texture(0, "a.blp", 0)), chunk(b"SEQS", &sequence("Stand", 0, 10, 0))]);
    let base = parse_mdx(&bytes).unwrap();
    for tail in [b"SEQ".to_vec(), [b"BONE".to_vec(), le(9).to_vec(), vec![1, 2, 3]].concat()] {
        let mut longer = bytes.clone();
        longer.extend_from_slice(&tail);
        let m = parse_mdx(&longer).unwrap();
        assert_eq!(m.textures.len(), base.textures.len());
        assert_eq!(m.sequences.len(), base.sequences.len());
        assert_eq!(m.sequences[0].name, "Stand");
        assert!(m.bones.is_empty());
    }
}
