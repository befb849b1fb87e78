//! The MDX binary layout, as read by the parser: what each chunk contributes
//! to the model, stated over the raw bytes.
use vstd::prelude::*;
use crate::mdx::types::{
    BoneV, GeosetAlphaV, GeosetV, LayerDef, MaterialDefV, MdxError, MdxModelV, RotationKf, ScaleKf,
    SequenceV, TextureRefV, TranslationKf,
};

verus! {

/// A four-byte chunk or record tag.
pub type Tag = (u8, u8, u8, u8);

pub const MAGIC_MDLX: Tag = (0x4d, 0x44, 0x4c, 0x58);
pub const TAG_VERS: Tag = (0x56, 0x45, 0x52, 0x53);
pub const TAG_TEXS: Tag = (0x54, 0x45, 0x58, 0x53);
pub const TAG_MTLS: Tag = (0x4d, 0x54, 0x4c, 0x53);
pub const TAG_GEOS: Tag = (0x47, 0x45, 0x4f, 0x53);
pub const TAG_BONE: Tag = (0x42, 0x4f, 0x4e, 0x45);
pub const TAG_HELP: Tag = (0x48, 0x45, 0x4c, 0x50);
pub const TAG_GEOA: Tag = (0x47, 0x45, 0x4f, 0x41);
pub const TAG_PIVT: Tag = (0x50, 0x49, 0x56, 0x54);
pub const TAG_SEQS: Tag = (0x53, 0x45, 0x51, 0x53);
pub const TAG_LAYS: Tag = (0x4c, 0x41, 0x59, 0x53);
pub const TAG_VRTX: Tag = (0x56, 0x52, 0x54, 0x58);
pub const TAG_NRMS: Tag = (0x4e, 0x52, 0x4d, 0x53);
pub const TAG_PTYP: Tag = (0x50, 0x54, 0x59, 0x50);
pub const TAG_PCNT: Tag = (0x50, 0x43, 0x4e, 0x54);
pub const TAG_PVTX: Tag = (0x50, 0x56, 0x54, 0x58);
pub const TAG_GNDX: Tag = (0x47, 0x4e, 0x44, 0x58);
pub const TAG_MTGC: Tag = (0x4d, 0x54, 0x47, 0x43);
pub const TAG_MATS: Tag = (0x4d, 0x41, 0x54, 0x53);
pub const TAG_UVAS: Tag = (0x55, 0x56, 0x41, 0x53);
pub const TAG_UVBS: Tag = (0x55, 0x56, 0x42, 0x53);
pub const TAG_TANG: Tag = (0x54, 0x41, 0x4e, 0x47);
pub const TAG_SKIN: Tag = (0x53, 0x4b, 0x49, 0x4e);
pub const TAG_KGTR: Tag = (0x4b, 0x47, 0x54, 0x52);
pub const TAG_KGRT: Tag = (0x4b, 0x47, 0x52, 0x54);
pub const TAG_KGSC: Tag = (0x4b, 0x47, 0x53, 0x43);
pub const TAG_KGAO: Tag = (0x4b, 0x47, 0x41, 0x4f);
pub const TAG_KGAC: Tag = (0x4b, 0x47, 0x41, 0x43);

/// The four bytes at `i` are `t`.
pub open spec fn has_tag(s: Seq<u8>, i: int, t: Tag) -> bool {
    s[i] == t.0 && s[i + 1] == t.1 && s[i + 2] == t.2 && s[i + 3] == t.3
}

/// Little-endian `u32` at byte `i`.
pub open spec fn le32(s: Seq<u8>, i: int) -> u32 {
    (s[i] as int + s[i + 1] as int * 0x100 + s[i + 2] as int * 0x1_0000 + s[i + 3] as int
        * 0x100_0000) as u32
}

/// Little-endian `u16` at byte `i`.
pub open spec fn le16(s: Seq<u8>, i: int) -> u16 {
    (s[i] as int + s[i + 1] as int * 0x100) as u16
}

/// Three consecutive little-endian 32-bit words at `i`.
pub open spec fn words3(s: Seq<u8>, i: int) -> (u32, u32, u32) {
    (le32(s, i), le32(s, i + 4), le32(s, i + 8))
}

/// Two consecutive little-endian 32-bit words at `i`.
pub open spec fn words2(s: Seq<u8>, i: int) -> (u32, u32) {
    (le32(s, i), le32(s, i + 4))
}

/// The text of a NUL-terminated field: the bytes from `i` up to the first
/// zero byte (or the end), each read as the character of that code point,
/// appended to `acc`.
pub open spec fn c_str_from(s: Seq<u8>, i: int, acc: Seq<char>) -> Seq<char>
    decreases s.len() - i,
{
    if 0 <= i < s.len() && s[i] != 0 {
        c_str_from(s, i + 1, acc.push(s[i] as char))
    } else {
        acc
    }
}

pub open spec fn c_str(s: Seq<u8>) -> Seq<char> {
    c_str_from(s, 0, seq![])
}

// ---- TEXS ---------------------------------------------------------------

/// A texture record of 268 bytes at `off`.
pub open spec fn texture_at(d: Seq<u8>, off: int) -> TextureRefV {
    TextureRefV {
        replaceable_id: le32(d, off),
        file_name: c_str(d.subrange(off + 4, off + 264)),
        flags: le32(d, off + 264),
    }
}

/// Texture records from `off` on, appended to `acc`.
pub open spec fn textures_from(d: Seq<u8>, off: int, acc: Seq<TextureRefV>) -> Seq<TextureRefV>
    decreases d.len() - off,
{
    if 0 <= off && off + 268 <= d.len() {
        textures_from(d, off + 268, acc.push(texture_at(d, off)))
    } else {
        acc
    }
}

// ---- SEQS ---------------------------------------------------------------

/// A sequence record of 132 bytes at `off`.
pub open spec fn sequence_at(d: Seq<u8>, off: int) -> SequenceV {
    SequenceV {
        name: c_str(d.subrange(off, off + 80)),
        start_ms: le32(d, off + 80),
        end_ms: le32(d, off + 84),
        move_speed: le32(d, off + 88),
        loop_: le32(d, off + 92) == 0,
    }
}

pub open spec fn sequences_from(d: Seq<u8>, off: int, acc: Seq<SequenceV>) -> Seq<SequenceV>
    decreases d.len() - off,
{
    if 0 <= off && off + 132 <= d.len() {
        sequences_from(d, off + 132, acc.push(sequence_at(d, off)))
    } else {
        acc
    }
}

// ---- PIVT ---------------------------------------------------------------

/// The pivots of a PIVT chunk: one triple of words per whole 12 bytes.
pub open spec fn pivots_of(d: Seq<u8>) -> Seq<(u32, u32, u32)> {
    Seq::new((d.len() / 12) as nat, |k: int| words3(d, 12 * k))
}

// ---- MTLS ---------------------------------------------------------------

pub open spec fn layer_at(m: Seq<u8>, sub: int) -> LayerDef {
    LayerDef {
        filter_mode: le32(m, sub + 4),
        shading_flags: le32(m, sub + 8),
        texture_id: le32(m, sub + 12),
        texture_animation_id: le32(m, sub + 16),
        coord_id: le32(m, sub + 20),
        alpha: le32(m, sub + 24),
    }
}

/// At most `n` layer records from `sub` on within material bytes `m`. Each
/// declares its own size; reading stops at a record that would pass the end,
/// and a record too short for its fields makes the material unreadable.
pub open spec fn layers_from(m: Seq<u8>, sub: int, n: nat, acc: Seq<LayerDef>) -> Result<
    Seq<LayerDef>,
    MdxError,
>
    decreases n,
{
    if n == 0 || !(0 <= sub && sub + 4 <= m.len()) {
        Ok(acc)
    } else {
        let li = le32(m, sub) as int;
        if sub + li > m.len() {
            Ok(acc)
        } else if sub + 28 > m.len() {
            Err(MdxError::Malformed)
        } else {
            layers_from(m, sub + li, (n - 1) as nat, acc.push(layer_at(m, sub)))
        }
    }
}

/// The material held in the bytes `m` (at least 12 of them).
pub open spec fn material_of(m: Seq<u8>) -> Result<MaterialDefV, MdxError> {
    let layers = if 20 <= m.len() && has_tag(m, 12, TAG_LAYS) {
        layers_from(m, 20, le32(m, 16) as nat, seq![])
    } else {
        Ok(seq![])
    };
    match layers {
        Ok(ls) => Ok(MaterialDefV { priority_plane: le32(m, 4), flags: le32(m, 8), layers: ls }),
        Err(e) => Err(e),
    }
}

/// Material records from `off` on. Each starts with its own inclusive size;
/// a record passing the end stops the list, and one shorter than 12 bytes
/// makes the chunk unreadable.
pub open spec fn materials_from(d: Seq<u8>, off: int, acc: Seq<MaterialDefV>) -> Result<
    Seq<MaterialDefV>,
    MdxError,
>
    decreases d.len() - off,
{
    if !(0 <= off && off + 4 <= d.len()) {
        Ok(acc)
    } else {
        let incl = le32(d, off) as int;
        if off + incl > d.len() {
            Ok(acc)
        } else if incl < 12 {
            Err(MdxError::Malformed)
        } else {
            match material_of(d.subrange(off, off + incl)) {
                Ok(mat) => materials_from(d, off + incl, acc.push(mat)),
                Err(e) => Err(e),
            }
        }
    }
}

// ---- GEOS ---------------------------------------------------------------

pub open spec fn empty_geoset() -> GeosetV {
    GeosetV {
        vertex_positions: seq![],
        vertex_normals: seq![],
        faces: seq![],
        uvs: seq![],
        material_id: 0,
        selection_group: 0,
        selection_flags: 0,
        vertex_groups: seq![],
        matrix_group_counts: seq![],
        matrix_indices: seq![],
    }
}

/// A byte that may appear in a geoset sub-chunk tag: an ASCII letter, ASCII
/// whitespace (space, tab, line feed, form feed, carriage return) or `_`.
pub open spec fn tag_byte(b: u8) -> bool {
    (0x41 <= b <= 0x5a) || (0x61 <= b <= 0x7a) || b == 0x20 || b == 0x09 || b == 0x0a || b
        == 0x0c || b == 0x0d || b == 0x5f
}

pub open spec fn is_tag_at(s: Seq<u8>, i: int) -> bool {
    tag_byte(s[i]) && tag_byte(s[i + 1]) && tag_byte(s[i + 2]) && tag_byte(s[i + 3])
}

pub open spec fn words3_run(s: Seq<u8>, start: int, count: nat) -> Seq<(u32, u32, u32)> {
    Seq::new(count, |k: int| words3(s, start + 12 * k))
}

pub open spec fn words2_run(s: Seq<u8>, start: int, count: nat) -> Seq<(u32, u32)> {
    Seq::new(count, |k: int| words2(s, start + 8 * k))
}

pub open spec fn words_run(s: Seq<u8>, start: int, count: nat) -> Seq<u32> {
    Seq::new(count, |k: int| le32(s, start + 4 * k))
}

/// Number of triangles read from `count` vertex indices (one per started
/// group of three).
pub open spec fn face_count(count: nat) -> nat {
    ((count + 2) / 3) as nat
}

pub open spec fn faces_run(s: Seq<u8>, start: int, count: nat) -> Seq<(u16, u16, u16)> {
    Seq::new(
        face_count(count),
        |k: int| (le16(s, start + 6 * k), le16(s, start + 6 * k + 2), le16(s, start + 6 * k + 4)),
    )
}

/// The UV sets of a UVAS sub-chunk: at most `n` UVBS-style records from `s`;
/// only those tagged UVBS contribute coordinates. Gives the offset after the
/// last record read, with the coordinates appended to `uvs`.
pub open spec fn uv_sets_from(gd: Seq<u8>, s: int, n: nat, uvs: Seq<(u32, u32)>) -> Result<
    (int, Seq<(u32, u32)>),
    MdxError,
>
    decreases n,
{
    if n == 0 || !(0 <= s && s + 8 <= gd.len()) {
        Ok((s, uvs))
    } else {
        let uc = le32(gd, s + 4) as nat;
        if has_tag(gd, s, TAG_UVBS) {
            if s + 8 + 8 * uc > gd.len() {
                Err(MdxError::Malformed)
            } else {
                uv_sets_from(gd, s + 8 + 8 * uc, (n - 1) as nat, uvs + words2_run(gd, s + 8, uc))
            }
        } else {
            uv_sets_from(gd, s + 8 + 8 * uc, (n - 1) as nat, uvs)
        }
    }
}

pub proof fn lemma_uv_sets_advance(gd: Seq<u8>, s: int, n: nat, uvs: Seq<(u32, u32)>)
    requires
        uv_sets_from(gd, s, n, uvs) is Ok,
    ensures
        uv_sets_from(gd, s, n, uvs)->Ok_0.0 >= s,
    decreases n,
{
    if n == 0 || !(0 <= s && s + 8 <= gd.len()) {
    } else {
        let uc = le32(gd, s + 4) as nat;
        if has_tag(gd, s, TAG_UVBS) {
            if s + 8 + 8 * uc <= gd.len() {
                lemma_uv_sets_advance(gd, s + 8 + 8 * uc, (n - 1) as nat, uvs + words2_run(gd, s + 8, uc));
            }
        } else {
            lemma_uv_sets_advance(gd, s + 8 + 8 * uc, (n - 1) as nat, uvs);
        }
    }
}

/// One tagged sub-chunk of a geoset at `sub` (with its count already known to
/// be readable): the offset after it and the geoset with its data added.
pub open spec fn geoset_sub(gd: Seq<u8>, sub: int, g: GeosetV) -> Result<(int, GeosetV), MdxError> {
    let count = le32(gd, sub + 4) as nat;
    let start = sub + 8;
    if has_tag(gd, sub, TAG_VRTX) {
        if start + 12 * count > gd.len() {
            Err(MdxError::Malformed)
        } else {
            Ok(
                (
                    start + 12 * count,
                    GeosetV {
                        vertex_positions: g.vertex_positions + words3_run(gd, start, count),
                        ..g
                    },
                ),
            )
        }
    } else if has_tag(gd, sub, TAG_NRMS) {
        if start + 12 * count > gd.len() {
            Err(MdxError::Malformed)
        } else {
            Ok(
                (
                    start + 12 * count,
                    GeosetV { vertex_normals: g.vertex_normals + words3_run(gd, start, count), ..g },
                ),
            )
        }
    } else if has_tag(gd, sub, TAG_PTYP) || has_tag(gd, sub, TAG_PCNT) {
        Ok((start + 4 * count, g))
    } else if has_tag(gd, sub, TAG_PVTX) {
        if start + 6 * face_count(count) > gd.len() {
            Err(MdxError::Malformed)
        } else {
            Ok((start + 2 * count, GeosetV { faces: g.faces + faces_run(gd, start, count), ..g }))
        }
    } else if has_tag(gd, sub, TAG_GNDX) {
        if start + count > gd.len() {
            Err(MdxError::Malformed)
        } else {
            Ok(
                (
                    start + count,
                    GeosetV {
                        vertex_groups: g.vertex_groups + gd.subrange(start, start + count),
                        ..g
                    },
                ),
            )
        }
    } else if has_tag(gd, sub, TAG_MTGC) {
        if start + 4 * count > gd.len() {
            Err(MdxError::Malformed)
        } else {
            Ok(
                (
                    start + 4 * count,
                    GeosetV {
                        matrix_group_counts: g.matrix_group_counts + words_run(gd, start, count),
                        ..g
                    },
                ),
            )
        }
    } else if has_tag(gd, sub, TAG_MATS) {
        if start + 4 * count > gd.len() {
            Err(MdxError::Malformed)
        } else {
            Ok(
                (
                    start + 4 * count,
                    GeosetV { matrix_indices: g.matrix_indices + words_run(gd, start, count), ..g },
                ),
            )
        }
    } else if has_tag(gd, sub, TAG_UVAS) {
        match uv_sets_from(gd, start, count, g.uvs) {
            Ok((next, uvs)) => Ok((next, GeosetV { uvs, ..g })),
            Err(e) => Err(e),
        }
    } else if has_tag(gd, sub, TAG_SKIN) {
        Ok((start + count, g))
    } else {
        Ok((start + 4 * count, g))
    }
}

pub proof fn lemma_geoset_sub_advances(gd: Seq<u8>, sub: int, g: GeosetV)
    requires
        geoset_sub(gd, sub, g) is Ok,
    ensures
        geoset_sub(gd, sub, g)->Ok_0.0 >= sub + 8,
{
    let count = le32(gd, sub + 4) as nat;
    if has_tag(gd, sub, TAG_UVAS) && !has_tag(gd, sub, TAG_VRTX) && !has_tag(gd, sub, TAG_NRMS)
        && !has_tag(gd, sub, TAG_PTYP) && !has_tag(gd, sub, TAG_PCNT) && !has_tag(gd, sub, TAG_PVTX)
        && !has_tag(gd, sub, TAG_GNDX) && !has_tag(gd, sub, TAG_MTGC) && !has_tag(
        gd,
        sub,
        TAG_MATS,
    ) {
        lemma_uv_sets_advance(gd, sub + 8, count, g.uvs);
    }
}

/// The offset after the untagged trailer at `sub`: 40 fixed bytes, then an
/// extent count and that many 28-byte extents when the count fits.
pub open spec fn trailer_end(gd: Seq<u8>, sub: int) -> int {
    if sub + 44 <= gd.len() {
        sub + 44 + 28 * (le32(gd, sub + 40) as int)
    } else {
        sub + 40
    }
}

/// The geoset with the untagged trailer at `sub` applied: material id and
/// selection fields when 12 bytes remain.
pub open spec fn with_trailer(gd: Seq<u8>, sub: int, g: GeosetV) -> GeosetV {
    if sub + 12 <= gd.len() {
        GeosetV {
            material_id: le32(gd, sub),
            selection_group: le32(gd, sub + 4),
            selection_flags: le32(gd, sub + 8),
            ..g
        }
    } else {
        g
    }
}

/// Walks the sub-chunks of the geoset bytes `gd` from `sub` on.
pub open spec fn geoset_walk(gd: Seq<u8>, sub: int, g: GeosetV) -> Result<GeosetV, MdxError>
    decreases gd.len() - sub,
{
    if !(0 <= sub && sub + 4 <= gd.len()) {
        Ok(g)
    } else if is_tag_at(gd, sub) {
        if sub + 8 > gd.len() {
            Err(MdxError::Malformed)
        } else {
            match geoset_sub(gd, sub, g) {
                Ok((next, g2)) => {
                    proof {
                        lemma_geoset_sub_advances(gd, sub, g);
                    }
                    if next >= gd.len() {
                        Ok(g2)
                    } else {
                        geoset_walk(gd, next, g2)
                    }
                },
                Err(e) => Err(e),
            }
        }
    } else {
        let next = trailer_end(gd, sub);
        if next >= gd.len() {
            Ok(with_trailer(gd, sub, g))
        } else {
            geoset_walk(gd, next, with_trailer(gd, sub, g))
        }
    }
}

/// Geoset records from `off` on; each starts with its own inclusive size. A
/// record passing the end stops the list; a zero-sized record makes the chunk
/// unreadable.
pub open spec fn geosets_from(d: Seq<u8>, off: int, acc: Seq<GeosetV>) -> Result<
    Seq<GeosetV>,
    MdxError,
>
    decreases d.len() - off,
{
    if !(0 <= off && off + 4 <= d.len()) {
        Ok(acc)
    } else {
        let incl = le32(d, off) as int;
        if off + incl > d.len() {
            Ok(acc)
        } else if incl == 0 {
            Err(MdxError::Malformed)
        } else {
            match geoset_walk(d.subrange(off, off + incl), 4, empty_geoset()) {
                Ok(g) => geosets_from(d, off + incl, acc.push(g)),
                Err(e) => Err(e),
            }
        }
    }
}

// ---- BONE / HELP ----------------------------------------------------------

pub proof fn lemma_count_times_key_size(count: nat, kf: int)
    requires
        kf >= 0,
    ensures
        count * kf >= 0,
{
    assert(count * kf >= 0) by (nonlinear_arith)
        requires
            kf >= 0,
    ;
}

/// Size of one keyframe of a translation or scale track.
pub open spec fn vec3_key_size(interp: u32) -> int {
    if interp <= 1 {
        16
    } else {
        40
    }
}

/// Size of one keyframe of a rotation track.
pub open spec fn quat_key_size(interp: u32) -> int {
    if interp <= 1 {
        20
    } else {
        52
    }
}

pub open spec fn translation_keys(d: Seq<u8>, off: int, count: nat, kf: int, interp: u32, acc: Seq<TranslationKf>) -> Seq<TranslationKf>
    decreases count,
{
    if count == 0 || !(0 <= off && off + kf <= d.len()) {
        acc
    } else {
        translation_keys(d, off + kf, (count - 1) as nat, kf, interp, acc.push(TranslationKf { time_ms: le32(d, off), value: words3(d, off + 4), interpolation: interp }))
    }
}

pub open spec fn scale_keys(d: Seq<u8>, off: int, count: nat, kf: int, interp: u32, acc: Seq<ScaleKf>) -> Seq<ScaleKf>
    decreases count,
{
    if count == 0 || !(0 <= off && off + kf <= d.len()) {
        acc
    } else {
        scale_keys(d, off + kf, (count - 1) as nat, kf, interp, acc.push(ScaleKf { time_ms: le32(d, off), value: words3(d, off + 4), interpolation: interp }))
    }
}

pub open spec fn rotation_keys(d: Seq<u8>, off: int, count: nat, kf: int, interp: u32, acc: Seq<RotationKf>) -> Seq<RotationKf>
    decreases count,
{
    if count == 0 || !(0 <= off && off + kf <= d.len()) {
        acc
    } else {
        rotation_keys(d, off + kf, (count - 1) as nat, kf, interp, acc.push(RotationKf { time_ms: le32(d, off), value: (le32(d, off + 4), le32(d, off + 8), le32(d, off + 12), le32(d, off + 16)), interpolation: interp }))
    }
}

/// The animation tracks of the node at `i` (of `size` bytes), read from track
/// offset `toff` on and appended to the three lists. Keyframes stop at the end
/// of the chunk; an unknown track tag ends the tracks.
pub open spec fn node_tracks(
    d: Seq<u8>,
    i: int,
    size: int,
    toff: int,
    ts: Seq<TranslationKf>,
    rs: Seq<RotationKf>,
    ss: Seq<ScaleKf>,
) -> (Seq<TranslationKf>, Seq<RotationKf>, Seq<ScaleKf>)
    decreases (if toff <= size { size - toff } else { 0 }),
{
    if !(0 <= toff && toff + 16 <= size) {
        (ts, rs, ss)
    } else {
        let count = le32(d, i + toff + 4) as nat;
        let interp = le32(d, i + toff + 8);
        let ds = i + toff + 16;
        if has_tag(d, i + toff, TAG_KGTR) {
            let kf = vec3_key_size(interp);
            proof {
                lemma_count_times_key_size(count, kf);
            }
            node_tracks(d, i, size, toff + 16 + count * kf, translation_keys(d, ds, count, kf, interp, ts), rs, ss)
        } else if has_tag(d, i + toff, TAG_KGRT) {
            let kf = quat_key_size(interp);
            proof {
                lemma_count_times_key_size(count, kf);
            }
            node_tracks(d, i, size, toff + 16 + count * kf, ts, rotation_keys(d, ds, count, kf, interp, rs), ss)
        } else if has_tag(d, i + toff, TAG_KGSC) {
            let kf = vec3_key_size(interp);
            proof {
                lemma_count_times_key_size(count, kf);
            }
            node_tracks(d, i, size, toff + 16 + count * kf, ts, rs, scale_keys(d, ds, count, kf, interp, ss))
        } else {
            (ts, rs, ss)
        }
    }
}

/// A node record accepted when its object id is below 500 and its parent is
/// none (`0xFFFFFFFF`) or below 500.
pub open spec fn node_accepted(d: Seq<u8>, i: int) -> bool {
    let obj = le32(d, i + 84);
    let parent = le32(d, i + 88);
    obj < 500 && (parent == 0xFFFF_FFFF || parent < 500)
}

pub open spec fn node_at(d: Seq<u8>, i: int, size: int) -> BoneV {
    let tracks = node_tracks(d, i, size, 96, seq![], seq![], seq![]);
    BoneV {
        name: c_str(d.subrange(i + 4, i + 84)),
        object_id: le32(d, i + 84),
        parent_id: le32(d, i + 88),
        flags: le32(d, i + 92),
        translations: tracks.0,
        rotations: tracks.1,
        scales: tracks.2,
    }
}

/// Node records from `i` on. A record needs 96 bytes; where its declared
/// size is under 96, passes the end, or its ids are rejected, the scan moves
/// on by four bytes.
pub open spec fn nodes_from(d: Seq<u8>, i: int, acc: Seq<BoneV>) -> Seq<BoneV>
    decreases d.len() - i,
{
    if !(0 <= i && i + 96 <= d.len()) {
        acc
    } else {
        let size = le32(d, i) as int;
        if size >= 96 && i + size <= d.len() && node_accepted(d, i) {
            nodes_from(d, i + size, acc.push(node_at(d, i, size)))
        } else {
            nodes_from(d, i + 4, acc)
        }
    }
}

// ---- GEOA -------------------------------------------------------------------

pub open spec fn alpha_keys(d: Seq<u8>, off: int, count: nat, kf: int, acc: Seq<(u32, u32)>) -> Seq<(u32, u32)>
    decreases count,
{
    if count == 0 || !(0 <= off && off + kf <= d.len()) {
        acc
    } else {
        alpha_keys(d, off + kf, (count - 1) as nat, kf, acc.push((le32(d, off), le32(d, off + 4))))
    }
}

/// The alpha keys of the geoset-animation record at `i` from track offset
/// `toff`; color tracks are skipped, an unknown tag ends the tracks.
pub open spec fn alpha_tracks(d: Seq<u8>, i: int, size: int, toff: int, keys: Seq<(u32, u32)>) -> Seq<(u32, u32)>
    decreases (if toff <= size { size - toff } else { 0 }),
{
    if !(0 <= toff && toff + 16 <= size) {
        keys
    } else {
        let count = le32(d, i + toff + 4) as nat;
        let interp = le32(d, i + toff + 8);
        if has_tag(d, i + toff, TAG_KGAO) {
            let kf: int = if interp <= 1 { 8 } else { 16 };
            proof {
                lemma_count_times_key_size(count, kf);
            }
            alpha_tracks(d, i, size, toff + 16 + count * kf, alpha_keys(d, i + toff + 16, count, kf, keys))
        } else if has_tag(d, i + toff, TAG_KGAC) {
            let kf = vec3_key_size(interp);
            proof {
                lemma_count_times_key_size(count, kf);
            }
            alpha_tracks(d, i, size, toff + 16 + count * kf, keys)
        } else {
            keys
        }
    }
}

/// Geoset-animation records from `i` on, as `(geoset id, alpha)` entries in
/// file order; a record shorter than 28 bytes or passing the end stops them.
pub open spec fn alpha_entries(d: Seq<u8>, i: int, acc: Seq<(nat, GeosetAlphaV)>) -> Seq<(nat, GeosetAlphaV)>
    decreases d.len() - i,
{
    if !(0 <= i && i + 28 <= d.len()) {
        acc
    } else {
        let size = le32(d, i) as int;
        if size < 28 || i + size > d.len() {
            acc
        } else {
            alpha_entries(d, i + size, acc.push((le32(d, i + 24) as nat, GeosetAlphaV { static_alpha: le32(d, i + 4), keys: alpha_tracks(d, i, size, 28, seq![]) })))
        }
    }
}

/// The last entry for geoset `id` (later records override earlier ones).
pub open spec fn last_alpha(entries: Seq<(nat, GeosetAlphaV)>, id: int) -> Option<GeosetAlphaV>
    decreases entries.len(),
{
    if entries.len() == 0 {
        None
    } else if entries.last().0 == id {
        Some(entries.last().1)
    } else {
        last_alpha(entries.drop_last(), id)
    }
}

pub open spec fn max_alpha_id(entries: Seq<(nat, GeosetAlphaV)>) -> nat
    decreases entries.len(),
{
    if entries.len() == 0 {
        0
    } else {
        let m = max_alpha_id(entries.drop_last());
        if entries.last().0 > m { entries.last().0 } else { m }
    }
}

// ---- the whole file ---------------------------------------------------------

/// What the chunks read so far contribute.
pub ghost struct ModelAcc {
    pub textures: Seq<TextureRefV>,
    pub materials: Seq<MaterialDefV>,
    pub geosets: Seq<GeosetV>,
    pub bones: Seq<BoneV>,
    pub helpers: Seq<BoneV>,
    pub pivots: Seq<(u32, u32, u32)>,
    pub sequences: Seq<SequenceV>,
    pub alphas: Seq<(nat, GeosetAlphaV)>,
}

pub open spec fn empty_acc() -> ModelAcc {
    ModelAcc {
        textures: seq![],
        materials: seq![],
        geosets: seq![],
        bones: seq![],
        helpers: seq![],
        pivots: seq![],
        sequences: seq![],
        alphas: seq![],
    }
}

/// The effect of one chunk with tag bytes at `t` and contents `data`.
/// Texture, material, geoset, pivot and sequence chunks add to what earlier
/// chunks of their kind gave; bone, helper and geoset-animation chunks replace
/// it; other chunks are ignored.
#[verifier::opaque]
pub open spec fn apply_chunk(b: Seq<u8>, t: int, data: Seq<u8>, acc: ModelAcc) -> Result<ModelAcc, MdxError> {
    if has_tag(b, t, TAG_TEXS) {
        Ok(ModelAcc { textures: textures_from(data, 0, acc.textures), ..acc })
    } else if has_tag(b, t, TAG_MTLS) {
        match materials_from(data, 0, acc.materials) {
            Ok(m) => Ok(ModelAcc { materials: m, ..acc }),
            Err(e) => Err(e),
        }
    } else if has_tag(b, t, TAG_GEOS) {
        match geosets_from(data, 0, acc.geosets) {
            Ok(g) => Ok(ModelAcc { geosets: g, ..acc }),
            Err(e) => Err(e),
        }
    } else if has_tag(b, t, TAG_BONE) {
        Ok(ModelAcc { bones: nodes_from(data, 0, seq![]), ..acc })
    } else if has_tag(b, t, TAG_HELP) {
        Ok(ModelAcc { helpers: nodes_from(data, 0, seq![]), ..acc })
    } else if has_tag(b, t, TAG_GEOA) {
        Ok(ModelAcc { alphas: alpha_entries(data, 0, seq![]), ..acc })
    } else if has_tag(b, t, TAG_PIVT) {
        Ok(ModelAcc { pivots: acc.pivots + pivots_of(data), ..acc })
    } else if has_tag(b, t, TAG_SEQS) {
        Ok(ModelAcc { sequences: sequences_from(data, 0, acc.sequences), ..acc })
    } else {
        Ok(acc)
    }
}

/// How `std::str::from_utf8` rejects `b`: none when it accepts it, else its
/// error's `valid_up_to` and `error_len`.
pub uninterp spec fn utf8_error_of(b: Seq<u8>) -> Option<(usize, Option<usize>)>;

/// The chunks from `off` on: each is a four-byte tag, a little-endian size and
/// that many bytes. A chunk passing the end stops the walk; a tag that is not
/// UTF-8 is an error.
pub open spec fn chunks_from(b: Seq<u8>, off: int, acc: ModelAcc) -> Result<ModelAcc, MdxError>
    decreases b.len() - off,
{
    if !(0 <= off && off + 8 <= b.len()) {
        Ok(acc)
    } else if let Some((valid_up_to, error_len)) = utf8_error_of(b.subrange(off, off + 4)) {
        Err(MdxError::InvalidChunkTag { valid_up_to, error_len })
    } else {
        let size = le32(b, off + 4) as int;
        if off + 8 + size > b.len() {
            Ok(acc)
        } else {
            match apply_chunk(b, off, b.subrange(off + 8, off + 8 + size), acc) {
                Ok(a2) => chunks_from(b, off + 8 + size, a2),
                Err(e) => Err(e),
            }
        }
    }
}

/// Number of geoset-alpha slots: enough for every geoset and for every
/// animated geoset id (at least one).
pub open spec fn alpha_slot_count(n_geosets: nat, alphas: Seq<(nat, GeosetAlphaV)>) -> nat {
    let by_id: nat = if alphas.len() == 0 { 1 } else { max_alpha_id(alphas) + 1 };
    if n_geosets > by_id { n_geosets } else { by_id }
}

pub open spec fn model_of(acc: ModelAcc) -> MdxModelV {
    MdxModelV {
        textures: acc.textures,
        materials: acc.materials,
        geosets: acc.geosets,
        bones: acc.bones,
        helpers: acc.helpers,
        pivots: acc.pivots,
        sequences: acc.sequences,
        geoset_alpha: Seq::new(alpha_slot_count(acc.geosets.len(), acc.alphas), |i: int| last_alpha(acc.alphas, i)),
    }
}

/// The model read from a whole MDX file.
pub open spec fn mdx_of(b: Seq<u8>) -> Result<MdxModelV, MdxError> {
    if b.len() < 4 || !has_tag(b, 0, MAGIC_MDLX) {
        Err(MdxError::MissingMagic)
    } else {
        match chunks_from(b, 4, empty_acc()) {
            Ok(acc) => Ok(model_of(acc)),
            Err(e) => Err(e),
        }
    }
}

// ---- laws ------------------------------------------------------------------

proof fn lemma_byte_shift(p: Seq<u8>, c: Seq<u8>, j: int)
    requires
        p.len() == 4,
        0 <= j < c.len(),
    ensures
        (p + c)[j + 4] == c[j],
{
}

proof fn lemma_le32_shift(p: Seq<u8>, c: Seq<u8>, i: int)
    requires
        p.len() == 4,
        0 <= i,
        i + 4 <= c.len(),
    ensures
        le32(p + c, i + 4) == le32(c, i),
{
    lemma_byte_shift(p, c, i);
    lemma_byte_shift(p, c, i + 1);
    lemma_byte_shift(p, c, i + 2);
    lemma_byte_shift(p, c, i + 3);
}

proof fn lemma_tag_shift(p: Seq<u8>, c: Seq<u8>, i: int, t: Tag)
    requires
        p.len() == 4,
        0 <= i,
        i + 4 <= c.len(),
    ensures
        has_tag(p + c, i + 4, t) == has_tag(c, i, t),
{
    lemma_byte_shift(p, c, i);
    lemma_byte_shift(p, c, i + 1);
    lemma_byte_shift(p, c, i + 2);
    lemma_byte_shift(p, c, i + 3);
}

proof fn lemma_translation_keys_shift(p: Seq<u8>, c: Seq<u8>, off: int, count: nat, kf: int, interp: u32, acc: Seq<TranslationKf>)
    requires
        p.len() == 4,
        0 <= off,
        kf >= 16,
    ensures
        translation_keys(p + c, off + 4, count, kf, interp, acc) == translation_keys(c, off, count, kf, interp, acc),
    decreases count,
{
    if count != 0 && off + kf <= c.len() {
        lemma_le32_shift(p, c, off);
        lemma_le32_shift(p, c, off + 4);
        lemma_le32_shift(p, c, off + 8);
        lemma_le32_shift(p, c, off + 12);
        let k = TranslationKf { time_ms: le32(c, off), value: words3(c, off + 4), interpolation: interp };
        lemma_translation_keys_shift(p, c, off + kf, (count - 1) as nat, kf, interp, acc.push(k));
    }
}

proof fn lemma_scale_keys_shift(p: Seq<u8>, c: Seq<u8>, off: int, count: nat, kf: int, interp: u32, acc: Seq<ScaleKf>)
    requires
        p.len() == 4,
        0 <= off,
        kf >= 16,
    ensures
        scale_keys(p + c, off + 4, count, kf, interp, acc) == scale_keys(c, off, count, kf, interp, acc),
    decreases count,
{
    if count != 0 && off + kf <= c.len() {
        lemma_le32_shift(p, c, off);
        lemma_le32_shift(p, c, off + 4);
        lemma_le32_shift(p, c, off + 8);
        lemma_le32_shift(p, c, off + 12);
        let k = ScaleKf { time_ms: le32(c, off), value: words3(c, off + 4), interpolation: interp };
        lemma_scale_keys_shift(p, c, off + kf, (count - 1) as nat, kf, interp, acc.push(k));
    }
}

proof fn lemma_rotation_keys_shift(p: Seq<u8>, c: Seq<u8>, off: int, count: nat, kf: int, interp: u32, acc: Seq<RotationKf>)
    requires
        p.len() == 4,
        0 <= off,
        kf >= 20,
    ensures
        rotation_keys(p + c, off + 4, count, kf, interp, acc) == rotation_keys(c, off, count, kf, interp, acc),
    decreases count,
{
    if count != 0 && off + kf <= c.len() {
        lemma_le32_shift(p, c, off);
        lemma_le32_shift(p, c, off + 4);
        lemma_le32_shift(p, c, off + 8);
        lemma_le32_shift(p, c, off + 12);
        lemma_le32_shift(p, c, off + 16);
        let k = RotationKf {
            time_ms: le32(c, off),
            value: (le32(c, off + 4), le32(c, off + 8), le32(c, off + 12), le32(c, off + 16)),
            interpolation: interp,
        };
        lemma_rotation_keys_shift(p, c, off + kf, (count - 1) as nat, kf, interp, acc.push(k));
    }
}

proof fn lemma_node_tracks_shift(
    p: Seq<u8>,
    c: Seq<u8>,
    i: int,
    size: int,
    toff: int,
    ts: Seq<TranslationKf>,
    rs: Seq<RotationKf>,
    ss: Seq<ScaleKf>,
)
    requires
        p.len() == 4,
        0 <= i,
        i + size <= c.len(),
    ensures
        node_tracks(p + c, i + 4, size, toff, ts, rs, ss) == node_tracks(c, i, size, toff, ts, rs, ss),
    decreases (if toff <= size { size - toff } else { 0 }),
{
    if 0 <= toff && toff + 16 <= size {
        lemma_le32_shift(p, c, i + toff + 4);
        lemma_le32_shift(p, c, i + toff + 8);
        lemma_tag_shift(p, c, i + toff, TAG_KGTR);
        lemma_tag_shift(p, c, i + toff, TAG_KGRT);
        lemma_tag_shift(p, c, i + toff, TAG_KGSC);
        let count = le32(c, i + toff + 4) as nat;
        let interp = le32(c, i + toff + 8);
        let ds = i + toff + 16;
        if has_tag(c, i + toff, TAG_KGTR) {
            let kf = vec3_key_size(interp);
            lemma_count_times_key_size(count, kf);
            lemma_translation_keys_shift(p, c, ds, count, kf, interp, ts);
            lemma_node_tracks_shift(p, c, i, size, toff + 16 + count * kf, translation_keys(c, ds, count, kf, interp, ts), rs, ss);
        } else if has_tag(c, i + toff, TAG_KGRT) {
            let kf = quat_key_size(interp);
            lemma_count_times_key_size(count, kf);
            lemma_rotation_keys_shift(p, c, ds, count, kf, interp, rs);
            lemma_node_tracks_shift(p, c, i, size, toff + 16 + count * kf, ts, rotation_keys(c, ds, count, kf, interp, rs), ss);
        } else if has_tag(c, i + toff, TAG_KGSC) {
            let kf = vec3_key_size(interp);
            lemma_count_times_key_size(count, kf);
            lemma_scale_keys_shift(p, c, ds, count, kf, interp, ss);
            lemma_node_tracks_shift(p, c, i, size, toff + 16 + count * kf, ts, rs, scale_keys(c, ds, count, kf, interp, ss));
        }
    }
}

proof fn lemma_nodes_from_shift(p: Seq<u8>, c: Seq<u8>, i: int, acc: Seq<BoneV>)
    requires
        p.len() == 4,
        0 <= i,
    ensures
        nodes_from(p + c, i + 4, acc) == nodes_from(c, i, acc),
    decreases c.len() - i,
{
    if i + 96 <= c.len() {
        lemma_le32_shift(p, c, i);
        lemma_le32_shift(p, c, i + 84);
        lemma_le32_shift(p, c, i + 88);
        lemma_le32_shift(p, c, i + 92);
        let size = le32(c, i) as int;
        if size >= 96 && i + size <= c.len() && node_accepted(c, i) {
            lemma_node_tracks_shift(p, c, i, size, 96, seq![], seq![], seq![]);
            assert((p + c).subrange(i + 8, i + 88) =~= c.subrange(i + 4, i + 84)) by {
                assert forall|k: int| 0 <= k < 80 implies #[trigger] (p + c).subrange(i + 8, i + 88)[k] == c.subrange(i + 4, i + 84)[k] by {
                    lemma_byte_shift(p, c, i + 4 + k);
                }
            }
            assert(node_at(p + c, i + 4, size) == node_at(c, i, size));
            lemma_nodes_from_shift(p, c, i + size, acc.push(node_at(c, i, size)));
        } else {
            lemma_nodes_from_shift(p, c, i + 4, acc);
        }
    }
}

/// A node chunk that starts with four bytes whose size word is under 96
/// reads as the chunk without them: the short record is skipped by moving
/// on four bytes, and the scan then meets the same records as before.
pub proof fn lemma_short_record_skipped(p: Seq<u8>, c: Seq<u8>)
    requires
        p.len() == 4,
        le32(p, 0) < 96,
    ensures
        nodes_from(p + c, 0, seq![]) == nodes_from(c, 0, seq![]),
{
    if 96 <= (p + c).len() {
        assert(le32(p + c, 0) == le32(p, 0)) by {
            assert((p + c)[0] == p[0] && (p + c)[1] == p[1] && (p + c)[2] == p[2] && (p + c)[3] == p[3]);
        }
        lemma_nodes_from_shift(p, c, 0, seq![]);
    }
}

/// The chunk walk from `off` lands exactly on the end of `b`: each chunk's
/// tag, size word and contents fit, and the last one ends where `b` does.
pub open spec fn walks_to_end(b: Seq<u8>, off: int) -> bool
    decreases b.len() - off,
{
    if off == b.len() {
        true
    } else if !(0 <= off && off + 8 <= b.len()) {
        false
    } else {
        let size = le32(b, off + 4) as int;
        if off + 8 + size > b.len() {
            false
        } else {
            walks_to_end(b, off + 8 + size)
        }
    }
}

/// `t` cannot hold a whole chunk: it is shorter than a chunk header, or its
/// tag is UTF-8 (`from_utf8` finds no error in it) and its size word
/// reaches past its end.
pub open spec fn cut_short(t: Seq<u8>) -> bool {
    ||| t.len() < 8
    ||| (utf8_error_of(t.subrange(0, 4)) is None && le32(t, 4) as int > t.len() - 8)
}

proof fn lemma_chunks_ignore_tail(b: Seq<u8>, t: Seq<u8>, off: int, acc: ModelAcc)
    requires
        0 <= off,
        walks_to_end(b, off),
        cut_short(t),
    ensures
        chunks_from(b + t, off, acc) == chunks_from(b, off, acc),
    decreases b.len() - off,
{
    let bt = b + t;
    if off == b.len() {
        if off + 8 <= bt.len() {
            assert(bt.subrange(off, off + 4) =~= t.subrange(0, 4));
            assert(le32(bt, off + 4) == le32(t, 4)) by {
                assert(bt[off + 4] == t[4] && bt[off + 5] == t[5] && bt[off + 6] == t[6] && bt[off + 7] == t[7]);
            }
        }
    } else {
        assert(bt.subrange(off, off + 4) =~= b.subrange(off, off + 4));
        assert(le32(bt, off + 4) == le32(b, off + 4)) by {
            assert(bt[off + 4] == b[off + 4] && bt[off + 5] == b[off + 5] && bt[off + 6] == b[off + 6] && bt[off + 7] == b[off + 7]);
        }
        let size = le32(b, off + 4) as int;
        assert(bt.subrange(off + 8, off + 8 + size) =~= b.subrange(off + 8, off + 8 + size));
        assert(apply_chunk(bt, off, b.subrange(off + 8, off + 8 + size), acc) == apply_chunk(b, off, b.subrange(off + 8, off + 8 + size), acc)) by {
            reveal(apply_chunk);
            assert(bt[off] == b[off] && bt[off + 1] == b[off + 1] && bt[off + 2] == b[off + 2] && bt[off + 3] == b[off + 3]);
        }
        match apply_chunk(b, off, b.subrange(off + 8, off + 8 + size), acc) {
            Ok(a2) => {
                lemma_chunks_ignore_tail(b, t, off + 8 + size, a2);
            },
            Err(e) => {},
        }
    }
}

/// Bytes after the last whole chunk of a file that cannot hold a chunk of
/// their own change nothing: the file reads as it does without them.
pub proof fn lemma_cut_short_tail_ignored(b: Seq<u8>, t: Seq<u8>)
    requires
        walks_to_end(b, 4),
        cut_short(t),
    ensures
        mdx_of(b + t) == mdx_of(b),
{
    let bt = b + t;
    assert(b.len() >= 4);
    assert(has_tag(bt, 0, MAGIC_MDLX) == has_tag(b, 0, MAGIC_MDLX)) by {
        assert(bt[0] == b[0] && bt[1] == b[1] && bt[2] == b[2] && bt[3] == b[3]);
    }
    lemma_chunks_ignore_tail(b, t, 4, empty_acc());
}

/// `n` translation keys of `kf` bytes each, back to back from `off`.
pub open spec fn translation_run(d: Seq<u8>, off: int, n: nat, kf: int, interp: u32) -> Seq<TranslationKf> {
    Seq::new(n, |k: int| TranslationKf { time_ms: le32(d, off + k * kf), value: words3(d, off + k * kf + 4), interpolation: interp })
}

/// `n` scale keys of `kf` bytes each, back to back from `off`.
pub open spec fn scale_run(d: Seq<u8>, off: int, n: nat, kf: int, interp: u32) -> Seq<ScaleKf> {
    Seq::new(n, |k: int| ScaleKf { time_ms: le32(d, off + k * kf), value: words3(d, off + k * kf + 4), interpolation: interp })
}

/// `n` rotation keys of `kf` bytes each, back to back from `off`.
pub open spec fn rotation_run(d: Seq<u8>, off: int, n: nat, kf: int, interp: u32) -> Seq<RotationKf> {
    Seq::new(
        n,
        |k: int|
            RotationKf {
                time_ms: le32(d, off + k * kf),
                value: (le32(d, off + k * kf + 4), le32(d, off + k * kf + 8), le32(d, off + k * kf + 12), le32(d, off + k * kf + 16)),
                interpolation: interp,
            },
    )
}

proof fn lemma_step_mul(k: int, kf: int)
    ensures
        (k + 1) * kf == k * kf + kf,
        kf >= 0 && k >= 0 ==> k * kf >= 0,
{
    assert((k + 1) * kf == k * kf + kf) by (nonlinear_arith);
    assert(kf >= 0 && k >= 0 ==> k * kf >= 0) by (nonlinear_arith);
}

proof fn lemma_translation_keys_run(d: Seq<u8>, off: int, n: nat, kf: int, interp: u32, acc: Seq<TranslationKf>)
    requires
        0 <= off,
        kf >= 16,
        off + n * kf <= d.len(),
    ensures
        translation_keys(d, off, n, kf, interp, acc) == acc + translation_run(d, off, n, kf, interp),
    decreases n,
{
    if n == 0 {
        assert(acc + translation_run(d, off, n, kf, interp) =~= acc);
    } else {
        lemma_step_mul((n - 1) as int, kf);
        let k0 = TranslationKf { time_ms: le32(d, off), value: words3(d, off + 4), interpolation: interp };
        lemma_translation_keys_run(d, off + kf, (n - 1) as nat, kf, interp, acc.push(k0));
        let r1 = translation_run(d, off + kf, (n - 1) as nat, kf, interp);
        let r = translation_run(d, off, n, kf, interp);
        assert forall|k: int| 0 <= k < n - 1 implies #[trigger] r1[k] == r[k + 1] by {
            lemma_step_mul(k, kf);
        }
        assert(r[0] == k0);
        assert(acc.push(k0) + r1 =~= acc + r);
    }
}

proof fn lemma_scale_keys_run(d: Seq<u8>, off: int, n: nat, kf: int, interp: u32, acc: Seq<ScaleKf>)
    requires
        0 <= off,
        kf >= 16,
        off + n * kf <= d.len(),
    ensures
        scale_keys(d, off, n, kf, interp, acc) == acc + scale_run(d, off, n, kf, interp),
    decreases n,
{
    if n == 0 {
        assert(acc + scale_run(d, off, n, kf, interp) =~= acc);
    } else {
        lemma_step_mul((n - 1) as int, kf);
        let k0 = ScaleKf { time_ms: le32(d, off), value: words3(d, off + 4), interpolation: interp };
        lemma_scale_keys_run(d, off + kf, (n - 1) as nat, kf, interp, acc.push(k0));
        let r1 = scale_run(d, off + kf, (n - 1) as nat, kf, interp);
        let r = scale_run(d, off, n, kf, interp);
        assert forall|k: int| 0 <= k < n - 1 implies #[trigger] r1[k] == r[k + 1] by {
            lemma_step_mul(k, kf);
        }
        assert(r[0] == k0);
        assert(acc.push(k0) + r1 =~= acc + r);
    }
}

proof fn lemma_rotation_keys_run(d: Seq<u8>, off: int, n: nat, kf: int, interp: u32, acc: Seq<RotationKf>)
    requires
        0 <= off,
        kf >= 20,
        off + n * kf <= d.len(),
    ensures
        rotation_keys(d, off, n, kf, interp, acc) == acc + rotation_run(d, off, n, kf, interp),
    decreases n,
{
    if n == 0 {
        assert(acc + rotation_run(d, off, n, kf, interp) =~= acc);
    } else {
        lemma_step_mul((n - 1) as int, kf);
        let k0 = RotationKf {
            time_ms: le32(d, off),
            value: (le32(d, off + 4), le32(d, off + 8), le32(d, off + 12), le32(d, off + 16)),
            interpolation: interp,
        };
        lemma_rotation_keys_run(d, off + kf, (n - 1) as nat, kf, interp, acc.push(k0));
        let r1 = rotation_run(d, off + kf, (n - 1) as nat, kf, interp);
        let r = rotation_run(d, off, n, kf, interp);
        assert forall|k: int| 0 <= k < n - 1 implies #[trigger] r1[k] == r[k + 1] by {
            lemma_step_mul(k, kf);
        }
        assert(r[0] == k0);
        assert(acc.push(k0) + r1 =~= acc + r);
    }
}

/// How a node's first animation track is laid out. After its 16-byte header
/// (tag, key count, interpolation, global sequence id) come the keys, back
/// to back: a translation or scale key is 16 bytes (time and three values)
/// when the track is not interpolated or interpolated linearly (code 0 or
/// 1), and 40 bytes (with two tangents) otherwise; a rotation key is 20
/// bytes (time and a quaternion), or 52 with tangents. All the track's keys
/// are read when they lie within the chunk, and the next track starts right
/// after the last of them.
pub proof fn lemma_track_key_sizes(d: Seq<u8>, i: int, size: int, count: nat, interp: u32)
    requires
        0 <= i,
        112 <= size,
        le32(d, i + 100) == count,
        le32(d, i + 104) == interp,
    ensures
        (has_tag(d, i + 96, TAG_KGTR) && i + 112 + count * (if interp <= 1 { 16int } else { 40int }) <= d.len())
            ==> node_tracks(d, i, size, 96, seq![], seq![], seq![]) == node_tracks(
            d,
            i,
            size,
            112 + count * (if interp <= 1 { 16int } else { 40int }),
            translation_run(d, i + 112, count, if interp <= 1 { 16int } else { 40int }, interp),
            seq![],
            seq![],
        ),
        (has_tag(d, i + 96, TAG_KGRT) && i + 112 + count * (if interp <= 1 { 20int } else { 52int }) <= d.len())
            ==> node_tracks(d, i, size, 96, seq![], seq![], seq![]) == node_tracks(
            d,
            i,
            size,
            112 + count * (if interp <= 1 { 20int } else { 52int }),
            seq![],
            rotation_run(d, i + 112, count, if interp <= 1 { 20int } else { 52int }, interp),
            seq![],
        ),
        (has_tag(d, i + 96, TAG_KGSC) && i + 112 + count * (if interp <= 1 { 16int } else { 40int }) <= d.len())
            ==> node_tracks(d, i, size, 96, seq![], seq![], seq![]) == node_tracks(
            d,
            i,
            size,
            112 + count * (if interp <= 1 { 16int } else { 40int }),
            seq![],
            seq![],
            scale_run(d, i + 112, count, if interp <= 1 { 16int } else { 40int }, interp),
        ),
{
    let v: int = if interp <= 1 { 16int } else { 40int };
    let q: int = if interp <= 1 { 20int } else { 52int };
    lemma_step_mul(count as int, v);
    lemma_step_mul(count as int, q);
    assert(count * v == v * count) by (nonlinear_arith);
    assert(count * q == q * count) by (nonlinear_arith);
    if has_tag(d, i + 96, TAG_KGTR) && i + 112 + count * v <= d.len() {
        lemma_translation_keys_run(d, i + 112, count, v, interp, seq![]);
        assert(seq![] + translation_run(d, i + 112, count, v, interp) =~= translation_run(d, i + 112, count, v, interp));
    }
    if has_tag(d, i + 96, TAG_KGRT) && i + 112 + count * q <= d.len() {
        lemma_rotation_keys_run(d, i + 112, count, q, interp, seq![]);
        assert(seq![] + rotation_run(d, i + 112, count, q, interp) =~= rotation_run(d, i + 112, count, q, interp));
    }
    if has_tag(d, i + 96, TAG_KGSC) && i + 112 + count * v <= d.len() {
        lemma_scale_keys_run(d, i + 112, count, v, interp, seq![]);
        assert(seq![] + scale_run(d, i + 112, count, v, interp) =~= scale_run(d, i + 112, count, v, interp));
    }
}

} // verus!
