use vstd::prelude::*;
use crate::mdx::format::{MAGIC_MDLX, TAG_BONE, TAG_GEOA, TAG_GEOS, TAG_HELP, TAG_MTLS, TAG_PIVT, TAG_SEQS, TAG_TEXS, apply_chunk, chunks_from, utf8_error_of, empty_acc, mdx_of, model_of, ModelAcc, alpha_slot_count, last_alpha, max_alpha_id, TAG_GNDX, TAG_KGAC, TAG_KGAO, TAG_KGRT, TAG_KGSC, TAG_KGTR, TAG_MATS, TAG_MTGC, TAG_NRMS, TAG_PCNT, TAG_PTYP, TAG_PVTX, TAG_SKIN, TAG_UVAS, TAG_VRTX, alpha_entries, alpha_keys, alpha_tracks, geoset_sub, geoset_walk, geosets_from, lemma_geoset_sub_advances, node_at, node_tracks, nodes_from, rotation_keys, scale_keys, translation_keys, TAG_LAYS, TAG_UVBS, Tag, c_str, c_str_from, empty_geoset, face_count, faces_run, has_tag, layers_from, le16, le32, material_of, materials_from, pivots_of, sequence_at, sequences_from, tag_byte, texture_at, textures_from, uv_sets_from, words2, words2_run, words3, words3_run, words_run};
use crate::mdx::types::{MdxModel, MdxModelV, alphas_view, entries_view, Bone, GeosetAlpha, GeosetAlphaV, RotationKf, ScaleKf, TranslationKf, bones_view, geosets_view, Geoset, LayerDef, MaterialDef, MaterialDefV, MdxError, Sequence, TextureRef, materials_view, sequences_view, textures_view};

verus! {

/// How `b` fails to be UTF-8, if it does. Calls `std::str::from_utf8`; its
/// contract, taken on trust, says the answer is the error's `valid_up_to`
/// and `error_len` ([`utf8_error_of`]), and that there is none exactly when
/// the bytes are UTF-8 as `vstd::utf8::valid_utf8` defines it, which is
/// what `from_utf8` documents. What `error_len` is for given bytes is not
/// restated.
#[verifier::external_body]
fn utf8_error(b: &[u8]) -> (r: Option<(usize, Option<usize>)>)
    ensures
        r == utf8_error_of(b@),
        r is None <==> vstd::utf8::valid_utf8(b@),
{
    match std::str::from_utf8(b) {
        Ok(_) => None,
        Err(e) => Some((e.valid_up_to(), e.error_len())),
    }
}

/// Appends one character to a string. Calls `String::push`; its contract,
/// taken on trust, says the string's characters afterwards are the old ones
/// followed by `c`.
#[verifier::external_body]
pub(crate) fn push_char(s: &mut String, c: char)
    ensures
        final(s)@ == old(s)@.push(c),
{
    s.push(c);
}

fn slice_of<'a>(d: &'a [u8], a: usize, b: usize) -> (r: &'a [u8])
    requires
        a <= b <= d@.len(),
    ensures
        r@ == d@.subrange(a as int, b as int),
{
    vstd::slice::slice_subrange(d, a, b)
}

/// Little-endian `u32` at byte `i`.
pub fn read_u32(d: &[u8], i: usize) -> (r: u32)
    requires
        i + 4 <= d.len(),
    ensures
        r == le32(d@, i as int),
{
    let v: u32 = d[i] as u32 + (d[i + 1] as u32) * 0x100 + (d[i + 2] as u32) * 0x1_0000 + (d[i
        + 3] as u32) * 0x100_0000;
    v
}

/// Little-endian `u16` at byte `i`.
pub fn read_u16(d: &[u8], i: usize) -> (r: u16)
    requires
        i + 2 <= d.len(),
    ensures
        r == le16(d@, i as int),
{
    let v: u16 = d[i] as u16 + (d[i + 1] as u16) * 0x100;
    v
}

/// The bit patterns of the three little-endian `f32`s at `offset`.
pub fn read_float3(data: &[u8], offset: usize) -> (r: (u32, u32, u32))
    requires
        offset + 12 <= data.len(),
    ensures
        r == words3(data@, offset as int),
{
    (read_u32(data, offset), read_u32(data, offset + 4), read_u32(data, offset + 8))
}

/// The bit patterns of the two little-endian `f32`s at `offset`.
pub fn read_float2(data: &[u8], offset: usize) -> (r: (u32, u32))
    requires
        offset + 8 <= data.len(),
    ensures
        r == words2(data@, offset as int),
{
    (read_u32(data, offset), read_u32(data, offset + 4))
}

fn tag_at(d: &[u8], i: usize, t: Tag) -> (r: bool)
    requires
        i + 4 <= d.len(),
    ensures
        r == has_tag(d@, i as int, t),
{
    d[i] == t.0 && d[i + 1] == t.1 && d[i + 2] == t.2 && d[i + 3] == t.3
}

fn is_tag_byte(b: u8) -> (r: bool)
    ensures
        r == tag_byte(b),
{
    (0x41 <= b && b <= 0x5a) || (0x61 <= b && b <= 0x7a) || b == 0x20 || b == 0x09 || b == 0x0a
        || b == 0x0c || b == 0x0d || b == 0x5f
}

/// The text of a NUL-terminated field: the bytes before the first zero byte,
/// each taken as the character with that code point.
pub fn read_c_str(data: &[u8]) -> (r: String)
    ensures
        r@ == c_str(data@),
{
    let mut s = String::new();
    let mut i: usize = 0;
    while i < data.len() && data[i] != 0
        invariant
            i <= data@.len(),
            c_str_from(data@, i as int, s@) == c_str(data@),
        decreases data@.len() - i,
    {
        push_char(&mut s, data[i] as char);
        i = i + 1;
    }
    s
}

fn parse_textures(data: &[u8], out: &mut Vec<TextureRef>)
    ensures
        textures_view(final(out)@) == textures_from(data@, 0, textures_view(old(out)@)),
{
    let ghost target = textures_from(data@, 0, textures_view(out@));
    let mut off: usize = 0;
    while data.len() - off >= 268
        invariant
            off <= data@.len(),
            textures_from(data@, off as int, textures_view(out@)) == target,
            target == textures_from(data@, 0, textures_view(old(out)@)),
        decreases data@.len() - off,
    {
        let t = TextureRef {
            replaceable_id: read_u32(data, off),
            file_name: read_c_str(slice_of(data, off + 4, off + 264)),
            flags: read_u32(data, off + 264),
        };
        let ghost before = out@;
        out.push(t);
        proof {
            assert(textures_view(out@) =~= textures_view(before).push(texture_at(data@, off as int)));
        }
        off = off + 268;
    }
    proof {
        assert(!(off + 268 <= data@.len()));
    }
}

fn parse_sequences(data: &[u8], out: &mut Vec<Sequence>)
    ensures
        sequences_view(final(out)@) == sequences_from(data@, 0, sequences_view(old(out)@)),
{
    let ghost target = sequences_from(data@, 0, sequences_view(out@));
    let mut off: usize = 0;
    while data.len() - off >= 132
        invariant
            off <= data@.len(),
            sequences_from(data@, off as int, sequences_view(out@)) == target,
            target == sequences_from(data@, 0, sequences_view(old(out)@)),
        decreases data@.len() - off,
    {
        let s = Sequence {
            name: read_c_str(slice_of(data, off, off + 80)),
            start_ms: read_u32(data, off + 80),
            end_ms: read_u32(data, off + 84),
            move_speed: read_u32(data, off + 88),
            loop_: read_u32(data, off + 92) == 0,
        };
        let ghost before = out@;
        out.push(s);
        proof {
            assert(sequences_view(out@) =~= sequences_view(before).push(sequence_at(data@, off as int)));
        }
        off = off + 132;
    }
}

fn parse_pivots(data: &[u8], out: &mut Vec<(u32, u32, u32)>)
    ensures
        final(out)@ == old(out)@ + pivots_of(data@),
{
    let count = data.len() / 12;
    let ghost start = out@;
    let mut i: usize = 0;
    let mut off: usize = 0;
    while i < count
        invariant
            count == data@.len() / 12,
            i <= count,
            off == 12 * i,
            off <= data.len(),
            out@ == start + pivots_of(data@).take(i as int),
        decreases count - i,
    {
        out.push(read_float3(data, off));
        proof {
            assert(pivots_of(data@).take(i + 1) =~= pivots_of(data@).take(i as int).push(words3(data@, 12 * i)));
        }
        i = i + 1;
        off = off + 12;
    }
    proof {
        assert(pivots_of(data@).take(count as int) =~= pivots_of(data@));
    }
}

fn parse_layers(m: &[u8], count: u32) -> (r: Result<Vec<LayerDef>, MdxError>)
    requires
        20 <= m@.len(),
    ensures
        match layers_from(m@, 20, count as nat, seq![]) {
            Ok(ls) => r matches Ok(v) && v@ == ls,
            Err(e) => r == Err::<Vec<LayerDef>, MdxError>(e),
        },
{
    let mut layers: Vec<LayerDef> = Vec::new();
    let mut sub_off: usize = 20;
    let mut n: u32 = count;
    while n > 0 && m.len() - sub_off >= 4
        invariant
            sub_off <= m@.len(),
            layers_from(m@, sub_off as int, n as nat, layers@) == layers_from(m@, 20, count as nat, seq![]),
        decreases n,
    {
        let li = read_u32(m, sub_off);
        if li as u64 > (m.len() - sub_off) as u64 {
            return Ok(layers);
        }
        if m.len() - sub_off < 28 {
            return Err(MdxError::Malformed);
        }
        let layer = LayerDef {
            filter_mode: read_u32(m, sub_off + 4),
            shading_flags: read_u32(m, sub_off + 8),
            texture_id: read_u32(m, sub_off + 12),
            texture_animation_id: read_u32(m, sub_off + 16),
            coord_id: read_u32(m, sub_off + 20),
            alpha: read_u32(m, sub_off + 24),
        };
        layers.push(layer);
        sub_off = sub_off + li as usize;
        n = n - 1;
    }
    Ok(layers)
}

fn parse_material(m: &[u8]) -> (r: Result<MaterialDef, MdxError>)
    requires
        12 <= m@.len(),
    ensures
        match material_of(m@) {
            Ok(v) => r matches Ok(x) && x@ == v,
            Err(e) => r matches Err(x) && x == e,
        },
{
    let priority_plane = read_u32(m, 4);
    let flags = read_u32(m, 8);
    let layers = if 20 <= m.len() && tag_at(m, 12, TAG_LAYS) {
        let count = read_u32(m, 16);
        match parse_layers(m, count) {
            Ok(v) => v,
            Err(e) => {
                return Err(e);
            },
        }
    } else {
        Vec::new()
    };
    Ok(MaterialDef { priority_plane, flags, layers })
}

fn parse_materials(data: &[u8], out: &mut Vec<MaterialDef>) -> (r: Result<(), MdxError>)
    ensures
        match materials_from(data@, 0, materials_view(old(out)@)) {
            Ok(ms) => r is Ok && materials_view(final(out)@) == ms,
            Err(e) => r == Err::<(), MdxError>(e),
        },
{
    let ghost target = materials_from(data@, 0, materials_view(out@));
    let mut off: usize = 0;
    while data.len() - off >= 4
        invariant
            off <= data@.len(),
            materials_from(data@, off as int, materials_view(out@)) == target,
            target == materials_from(data@, 0, materials_view(old(out)@)),
        decreases data@.len() - off,
    {
        let incl = read_u32(data, off);
        if incl as u64 > (data.len() - off) as u64 {
            assert(materials_from(data@, off as int, materials_view(out@)) == Ok::<Seq<MaterialDefV>, MdxError>(materials_view(out@)));
            return Ok(());
        }
        if incl < 12 {
            return Err(MdxError::Malformed);
        }
        let end = off + incl as usize;
        match parse_material(slice_of(data, off, end)) {
            Ok(mat) => {
                let ghost before = out@;
                out.push(mat);
                proof {
                    assert(materials_view(out@) =~= materials_view(before).push(mat@));
                }
            },
            Err(e) => {
                return Err(e);
            },
        }
        off = end;
    }
    Ok(())
}

fn empty_geoset_exec() -> (g: Geoset)
    ensures
        g@ == empty_geoset(),
{
    Geoset {
        vertex_positions: Vec::new(),
        vertex_normals: Vec::new(),
        faces: Vec::new(),
        uvs: Vec::new(),
        material_id: 0,
        selection_group: 0,
        selection_flags: 0,
        vertex_groups: Vec::new(),
        matrix_group_counts: Vec::new(),
        matrix_indices: Vec::new(),
    }
}

fn push_words3(gd: &[u8], start: usize, count: u32, out: &mut Vec<(u32, u32, u32)>)
    requires
        start + 12 * count <= gd.len(),
    ensures
        final(out)@ == old(out)@ + words3_run(gd@, start as int, count as nat),
{
    let ghost s0 = out@;
    let mut k: u32 = 0;
    while k < count
        invariant
            k <= count,
            start + 12 * count <= gd.len(),
            out@ == s0 + words3_run(gd@, start as int, k as nat),
        decreases count - k,
    {
        out.push(read_float3(gd, start + 12 * (k as usize)));
        proof {
            assert(words3_run(gd@, start as int, (k + 1) as nat) =~= words3_run(gd@, start as int, k as nat).push(words3(gd@, start + 12 * k)));
        }
        k = k + 1;
    }
}

fn push_words2(gd: &[u8], start: usize, count: u32, out: &mut Vec<(u32, u32)>)
    requires
        start + 8 * count <= gd.len(),
    ensures
        final(out)@ == old(out)@ + words2_run(gd@, start as int, count as nat),
{
    let ghost s0 = out@;
    let mut k: u32 = 0;
    while k < count
        invariant
            k <= count,
            start + 8 * count <= gd.len(),
            out@ == s0 + words2_run(gd@, start as int, k as nat),
        decreases count - k,
    {
        out.push(read_float2(gd, start + 8 * (k as usize)));
        proof {
            assert(words2_run(gd@, start as int, (k + 1) as nat) =~= words2_run(gd@, start as int, k as nat).push(words2(gd@, start + 8 * k)));
        }
        k = k + 1;
    }
}

fn push_words(gd: &[u8], start: usize, count: u32, out: &mut Vec<u32>)
    requires
        start + 4 * count <= gd.len(),
    ensures
        final(out)@ == old(out)@ + words_run(gd@, start as int, count as nat),
{
    let ghost s0 = out@;
    let mut k: u32 = 0;
    while k < count
        invariant
            k <= count,
            start + 4 * count <= gd.len(),
            out@ == s0 + words_run(gd@, start as int, k as nat),
        decreases count - k,
    {
        out.push(read_u32(gd, start + 4 * (k as usize)));
        proof {
            assert(words_run(gd@, start as int, (k + 1) as nat) =~= words_run(gd@, start as int, k as nat).push(le32(gd@, start + 4 * k)));
        }
        k = k + 1;
    }
}

fn push_faces(gd: &[u8], start: usize, count: u32, out: &mut Vec<(u16, u16, u16)>)
    requires
        start + 6 * face_count(count as nat) <= gd.len(),
    ensures
        final(out)@ == old(out)@ + faces_run(gd@, start as int, count as nat),
{
    let ghost s0 = out@;
    let nf: u32 = ((count as u64 + 2) / 3) as u32;
    let mut k: u32 = 0;
    while k < nf
        invariant
            nf == face_count(count as nat),
            k <= nf,
            start + 6 * nf <= gd.len(),
            out@ == s0 + faces_run(gd@, start as int, count as nat).take(k as int),
        decreases nf - k,
    {
        let base = start + 6 * (k as usize);
        out.push((read_u16(gd, base), read_u16(gd, base + 2), read_u16(gd, base + 4)));
        proof {
            assert(faces_run(gd@, start as int, count as nat).take(k + 1) =~= faces_run(gd@, start as int, count as nat).take(k as int).push((le16(gd@, base as int), le16(gd@, base + 2), le16(gd@, base + 4))));
        }
        k = k + 1;
    }
    proof {
        assert(faces_run(gd@, start as int, count as nat).take(nf as int) =~= faces_run(gd@, start as int, count as nat));
    }
}

fn push_bytes(gd: &[u8], start: usize, count: u32, out: &mut Vec<u8>)
    requires
        start + count <= gd.len(),
    ensures
        final(out)@ == old(out)@ + gd@.subrange(start as int, start + count),
{
    let ghost s0 = out@;
    let mut k: usize = 0;
    while k < count as usize
        invariant
            k <= count,
            start + count <= gd.len(),
            out@ == s0 + gd@.subrange(start as int, start + k),
        decreases count - k,
    {
        out.push(gd[start + k]);
        proof {
            assert(gd@.subrange(start as int, start + k + 1) =~= gd@.subrange(start as int, start + k).push(gd@[start + k]));
        }
        k = k + 1;
    }
}

/// Reads the UV sets of a UVAS sub-chunk, appending the UVBS coordinates to
/// `uvs`; returns the offset after the last record read.
fn parse_uv_sets(gd: &[u8], start: usize, count: u32, uvs: &mut Vec<(u32, u32)>) -> (r: Result<u128, MdxError>)
    requires
        start <= gd@.len(),
    ensures
        match uv_sets_from(gd@, start as int, count as nat, old(uvs)@) {
            Ok((next, u)) => r == Ok::<u128, MdxError>(next as u128) && next == next as u128 as int && final(uvs)@ == u,
            Err(e) => r == Err::<u128, MdxError>(e),
        },
{
    let ghost target = uv_sets_from(gd@, start as int, count as nat, uvs@);
    let mut s: usize = start;
    let mut n: u32 = count;
    while n > 0 && gd.len() - s >= 8
        invariant
            s <= gd@.len(),
            uv_sets_from(gd@, s as int, n as nat, uvs@) == target,
            target == uv_sets_from(gd@, start as int, count as nat, old(uvs)@),
        decreases n,
    {
        let uc = read_u32(gd, s + 4);
        let next: u128 = s as u128 + 8 + 8 * (uc as u128);
        if tag_at(gd, s, TAG_UVBS) {
            if next > gd.len() as u128 {
                return Err(MdxError::Malformed);
            }
            push_words2(gd, s + 8, uc, uvs);
        }
        if next > gd.len() as u128 {
            // Past the end: no further record can be read.
            proof {
                assert(uv_sets_from(gd@, next as int, (n - 1) as nat, uvs@) == Ok::<(int, Seq<(u32, u32)>), MdxError>((next as int, uvs@))) by {
                    reveal_with_fuel(uv_sets_from, 2);
                }
            }
            return Ok(next);
        }
        s = next as usize;
        n = n - 1;
    }
    Ok(s as u128)
}


/// One tagged sub-chunk of a geoset at `sub`: adds its data to `g` and gives
/// the offset after it.
fn parse_geoset_sub(gd: &[u8], sub: usize, g: &mut Geoset) -> (r: Result<u128, MdxError>)
    requires
        sub + 8 <= gd.len(),
    ensures
        match geoset_sub(gd@, sub as int, old(g)@) {
            Ok((next, g2)) => r == Ok::<u128, MdxError>(next as u128) && next == next as u128 as int
                && final(g)@ == g2,
            Err(e) => r == Err::<u128, MdxError>(e),
        },
{
    let count = read_u32(gd, sub + 4);
    let start = sub + 8;
    let c = count as u128;
    let len = gd.len() as u128;
    if tag_at(gd, sub, TAG_VRTX) {
        let next = start as u128 + 12 * c;
        if next > len {
            return Err(MdxError::Malformed);
        }
        push_words3(gd, start, count, &mut g.vertex_positions);
        Ok(next)
    } else if tag_at(gd, sub, TAG_NRMS) {
        let next = start as u128 + 12 * c;
        if next > len {
            return Err(MdxError::Malformed);
        }
        push_words3(gd, start, count, &mut g.vertex_normals);
        Ok(next)
    } else if tag_at(gd, sub, TAG_PTYP) || tag_at(gd, sub, TAG_PCNT) {
        Ok(start as u128 + 4 * c)
    } else if tag_at(gd, sub, TAG_PVTX) {
        let nf = (c + 2) / 3;
        if start as u128 + 6 * nf > len {
            return Err(MdxError::Malformed);
        }
        push_faces(gd, start, count, &mut g.faces);
        Ok(start as u128 + 2 * c)
    } else if tag_at(gd, sub, TAG_GNDX) {
        if start as u128 + c > len {
            return Err(MdxError::Malformed);
        }
        push_bytes(gd, start, count, &mut g.vertex_groups);
        Ok(start as u128 + c)
    } else if tag_at(gd, sub, TAG_MTGC) {
        let next = start as u128 + 4 * c;
        if next > len {
            return Err(MdxError::Malformed);
        }
        push_words(gd, start, count, &mut g.matrix_group_counts);
        Ok(next)
    } else if tag_at(gd, sub, TAG_MATS) {
        let next = start as u128 + 4 * c;
        if next > len {
            return Err(MdxError::Malformed);
        }
        push_words(gd, start, count, &mut g.matrix_indices);
        Ok(next)
    } else if tag_at(gd, sub, TAG_UVAS) {
        parse_uv_sets(gd, start, count, &mut g.uvs)
    } else if tag_at(gd, sub, TAG_SKIN) {
        Ok(start as u128 + c)
    } else {
        Ok(start as u128 + 4 * c)
    }
}

/// Reads the geoset record `gd` (which starts with its own size field).
fn parse_geoset(gd: &[u8]) -> (r: Result<Geoset, MdxError>)
    ensures
        match geoset_walk(gd@, 4, empty_geoset()) {
            Ok(v) => r matches Ok(x) && x@ == v,
            Err(e) => r matches Err(x) && x == e,
        },
{
    let ghost target = geoset_walk(gd@, 4, empty_geoset());
    let mut g = empty_geoset_exec();
    let mut sub: usize = 4;
    while sub <= gd.len() && gd.len() - sub >= 4
        invariant
            geoset_walk(gd@, sub as int, g@) == target,
            target == geoset_walk(gd@, 4, empty_geoset()),
        decreases gd@.len() - sub,
    {
        if is_tag_byte(gd[sub]) && is_tag_byte(gd[sub + 1]) && is_tag_byte(gd[sub + 2])
            && is_tag_byte(gd[sub + 3]) {
            if gd.len() - sub < 8 {
                return Err(MdxError::Malformed);
            }
            let ghost g0 = g@;
            match parse_geoset_sub(gd, sub, &mut g) {
                Ok(next) => {
                    proof {
                        lemma_geoset_sub_advances(gd@, sub as int, g0);
                    }
                    if next >= gd.len() as u128 {
                        return Ok(g);
                    }
                    sub = next as usize;
                },
                Err(e) => {
                    return Err(e);
                },
            }
        } else {
            if gd.len() - sub >= 12 {
                g.material_id = read_u32(gd, sub);
                g.selection_group = read_u32(gd, sub + 4);
                g.selection_flags = read_u32(gd, sub + 8);
            }
            let next: u128 = if gd.len() - sub >= 44 {
                sub as u128 + 44 + 28 * (read_u32(gd, sub + 40) as u128)
            } else {
                sub as u128 + 40
            };
            if next >= gd.len() as u128 {
                return Ok(g);
            }
            sub = next as usize;
        }
    }
    Ok(g)
}

fn parse_geosets(data: &[u8], out: &mut Vec<Geoset>) -> (r: Result<(), MdxError>)
    ensures
        match geosets_from(data@, 0, geosets_view(old(out)@)) {
            Ok(gs) => r is Ok && geosets_view(final(out)@) == gs,
            Err(e) => r == Err::<(), MdxError>(e),
        },
{
    let ghost target = geosets_from(data@, 0, geosets_view(out@));
    let mut off: usize = 0;
    while data.len() - off >= 4
        invariant
            off <= data@.len(),
            geosets_from(data@, off as int, geosets_view(out@)) == target,
            target == geosets_from(data@, 0, geosets_view(old(out)@)),
        decreases data@.len() - off,
    {
        let incl = read_u32(data, off);
        if incl as u64 > (data.len() - off) as u64 {
            return Ok(());
        }
        if incl == 0 {
            return Err(MdxError::Malformed);
        }
        let end = off + incl as usize;
        match parse_geoset(slice_of(data, off, end)) {
            Ok(g) => {
                let ghost before = out@;
                out.push(g);
                proof {
                    assert(geosets_view(out@) =~= geosets_view(before).push(g@));
                }
            },
            Err(e) => {
                return Err(e);
            },
        }
        off = end;
    }
    Ok(())
}

fn read_translation_keys(d: &[u8], off: usize, count: u32, kf: usize, interp: u32, out: &mut Vec<TranslationKf>)
    requires
        kf == 16 || kf == 40,
    ensures
        final(out)@ == translation_keys(d@, off as int, count as nat, kf as int, interp, old(out)@),
{
    let ghost target = translation_keys(d@, off as int, count as nat, kf as int, interp, out@);
    let mut cur: usize = off;
    let mut n: u32 = count;
    while n > 0 && cur <= d.len() && d.len() - cur >= kf
        invariant
            kf == 16 || kf == 40,
            translation_keys(d@, cur as int, n as nat, kf as int, interp, out@) == target,
            target == translation_keys(d@, off as int, count as nat, kf as int, interp, old(out)@),
        decreases n,
    {
        out.push(TranslationKf { time_ms: read_u32(d, cur), value: read_float3(d, cur + 4), interpolation: interp });
        cur = cur + kf;
        n = n - 1;
    }
}

fn read_scale_keys(d: &[u8], off: usize, count: u32, kf: usize, interp: u32, out: &mut Vec<ScaleKf>)
    requires
        kf == 16 || kf == 40,
    ensures
        final(out)@ == scale_keys(d@, off as int, count as nat, kf as int, interp, old(out)@),
{
    let ghost target = scale_keys(d@, off as int, count as nat, kf as int, interp, out@);
    let mut cur: usize = off;
    let mut n: u32 = count;
    while n > 0 && cur <= d.len() && d.len() - cur >= kf
        invariant
            kf == 16 || kf == 40,
            scale_keys(d@, cur as int, n as nat, kf as int, interp, out@) == target,
            target == scale_keys(d@, off as int, count as nat, kf as int, interp, old(out)@),
        decreases n,
    {
        out.push(ScaleKf { time_ms: read_u32(d, cur), value: read_float3(d, cur + 4), interpolation: interp });
        cur = cur + kf;
        n = n - 1;
    }
}

fn read_rotation_keys(d: &[u8], off: usize, count: u32, kf: usize, interp: u32, out: &mut Vec<RotationKf>)
    requires
        kf == 20 || kf == 52,
    ensures
        final(out)@ == rotation_keys(d@, off as int, count as nat, kf as int, interp, old(out)@),
{
    let ghost target = rotation_keys(d@, off as int, count as nat, kf as int, interp, out@);
    let mut cur: usize = off;
    let mut n: u32 = count;
    while n > 0 && cur <= d.len() && d.len() - cur >= kf
        invariant
            kf == 20 || kf == 52,
            rotation_keys(d@, cur as int, n as nat, kf as int, interp, out@) == target,
            target == rotation_keys(d@, off as int, count as nat, kf as int, interp, old(out)@),
        decreases n,
    {
        let value = (read_u32(d, cur + 4), read_u32(d, cur + 8), read_u32(d, cur + 12), read_u32(d, cur + 16));
        out.push(RotationKf { time_ms: read_u32(d, cur), value, interpolation: interp });
        cur = cur + kf;
        n = n - 1;
    }
}

/// The animation tracks of the node record at `i` of `size` bytes.
fn parse_node_tracks(
    d: &[u8],
    i: usize,
    size: usize,
    ts: &mut Vec<TranslationKf>,
    rs: &mut Vec<RotationKf>,
    ss: &mut Vec<ScaleKf>,
)
    requires
        i + size <= d.len(),
    ensures
        (final(ts)@, final(rs)@, final(ss)@) == node_tracks(d@, i as int, size as int, 96, old(ts)@, old(rs)@, old(ss)@),
{
    let ghost target = node_tracks(d@, i as int, size as int, 96, ts@, rs@, ss@);
    let mut toff: usize = 96;
    while toff <= size && size - toff >= 16
        invariant
            i + size <= d.len(),
            node_tracks(d@, i as int, size as int, toff as int, ts@, rs@, ss@) == target,
            target == node_tracks(d@, i as int, size as int, 96, old(ts)@, old(rs)@, old(ss)@),
        decreases size - toff,
    {
        let at = i + toff;
        let count = read_u32(d, at + 4);
        let interp = read_u32(d, at + 8);
        let ds = at + 16;
        let next: u128;
        if tag_at(d, at, TAG_KGTR) {
            let kf: usize = if interp <= 1 { 16 } else { 40 };
            read_translation_keys(d, ds, count, kf, interp, ts);
            next = toff as u128 + 16 + count as u128 * kf as u128;
        } else if tag_at(d, at, TAG_KGRT) {
            let kf: usize = if interp <= 1 { 20 } else { 52 };
            read_rotation_keys(d, ds, count, kf, interp, rs);
            next = toff as u128 + 16 + count as u128 * kf as u128;
        } else if tag_at(d, at, TAG_KGSC) {
            let kf: usize = if interp <= 1 { 16 } else { 40 };
            read_scale_keys(d, ds, count, kf, interp, ss);
            next = toff as u128 + 16 + count as u128 * kf as u128;
        } else {
            return;
        }
        if next > size as u128 {
            proof {
                assert(node_tracks(d@, i as int, size as int, next as int, ts@, rs@, ss@) == (ts@, rs@, ss@));
            }
            return;
        }
        toff = next as usize;
    }
}

/// The bone (or helper) nodes of a BONE or HELP chunk. Records whose declared
/// size is under 96 bytes or passes the end, or whose ids are rejected, are
/// skipped by moving on four bytes.
pub fn parse_bone_nodes(chunk_data: &[u8]) -> (r: Result<Vec<Bone>, MdxError>)
    ensures
        r matches Ok(v) && bones_view(v@) == nodes_from(chunk_data@, 0, seq![]),
{
    let ghost target = nodes_from(chunk_data@, 0, seq![]);
    let mut bones: Vec<Bone> = Vec::new();
    let mut i: usize = 0;
    proof {
        assert(bones_view(bones@) =~= seq![]);
    }
    while i <= chunk_data.len() && chunk_data.len() - i >= 96
        invariant
            nodes_from(chunk_data@, i as int, bones_view(bones@)) == target,
            target == nodes_from(chunk_data@, 0, seq![]),
        decreases chunk_data@.len() - i,
    {
        let size = read_u32(chunk_data, i);
        if size >= 96 && size as u64 <= (chunk_data.len() - i) as u64 {
            let obj_id = read_u32(chunk_data, i + 84);
            let parent = read_u32(chunk_data, i + 88);
            if obj_id < 500 && (parent == 0xFFFF_FFFF || parent < 500) {
                let name = read_c_str(slice_of(chunk_data, i + 4, i + 84));
                let flags = read_u32(chunk_data, i + 92);
                let mut translations: Vec<TranslationKf> = Vec::new();
                let mut rotations: Vec<RotationKf> = Vec::new();
                let mut scales: Vec<ScaleKf> = Vec::new();
                parse_node_tracks(chunk_data, i, size as usize, &mut translations, &mut rotations, &mut scales);
                let bone = Bone {
                    name,
                    object_id: obj_id,
                    parent_id: parent,
                    flags,
                    translations,
                    rotations,
                    scales,
                };
                let ghost before = bones@;
                bones.push(bone);
                proof {
                    assert(bones_view(bones@) =~= bones_view(before).push(node_at(chunk_data@, i as int, size as int)));
                }
                i = i + size as usize;
                continue;
            }
        }
        i = i + 4;
    }
    Ok(bones)
}

fn read_alpha_keys(d: &[u8], off: usize, count: u32, kf: usize, out: &mut Vec<(u32, u32)>)
    requires
        kf == 8 || kf == 16,
    ensures
        final(out)@ == alpha_keys(d@, off as int, count as nat, kf as int, old(out)@),
{
    let ghost target = alpha_keys(d@, off as int, count as nat, kf as int, out@);
    let mut cur: usize = off;
    let mut n: u32 = count;
    while n > 0 && cur <= d.len() && d.len() - cur >= kf
        invariant
            kf == 8 || kf == 16,
            alpha_keys(d@, cur as int, n as nat, kf as int, out@) == target,
            target == alpha_keys(d@, off as int, count as nat, kf as int, old(out)@),
        decreases n,
    {
        out.push((read_u32(d, cur), read_u32(d, cur + 4)));
        cur = cur + kf;
        n = n - 1;
    }
}

fn parse_alpha_tracks(d: &[u8], i: usize, size: usize, keys: &mut Vec<(u32, u32)>)
    requires
        i + size <= d.len(),
    ensures
        final(keys)@ == alpha_tracks(d@, i as int, size as int, 28, old(keys)@),
{
    let ghost target = alpha_tracks(d@, i as int, size as int, 28, keys@);
    let mut toff: usize = 28;
    while toff <= size && size - toff >= 16
        invariant
            i + size <= d.len(),
            alpha_tracks(d@, i as int, size as int, toff as int, keys@) == target,
            target == alpha_tracks(d@, i as int, size as int, 28, old(keys)@),
        decreases size - toff,
    {
        let at = i + toff;
        let count = read_u32(d, at + 4);
        let interp = read_u32(d, at + 8);
        let next: u128;
        if tag_at(d, at, TAG_KGAO) {
            let kf: usize = if interp <= 1 { 8 } else { 16 };
            read_alpha_keys(d, at + 16, count, kf, keys);
            let kf_wide: u128 = kf as u128;
            assert(count as u128 * kf_wide <= 0xFFFF_FFFF * 16) by (nonlinear_arith)
                requires
                    kf_wide <= 16,
                    count <= 0xFFFF_FFFF,
            ;
            next = toff as u128 + 16 + count as u128 * kf_wide;
        } else if tag_at(d, at, TAG_KGAC) {
            let kf: u128 = if interp <= 1 { 16 } else { 40 };
            assert(count as u128 * kf <= 0xFFFF_FFFF * 40) by (nonlinear_arith)
                requires
                    kf <= 40,
                    count <= 0xFFFF_FFFF,
            ;
            next = toff as u128 + 16 + count as u128 * kf;
        } else {
            return;
        }
        if next > size as u128 {
            proof {
                assert(alpha_tracks(d@, i as int, size as int, next as int, keys@) == keys@);
            }
            return;
        }
        toff = next as usize;
    }
}

/// The geoset-animation records of a GEOA chunk, as `(geoset id, alpha)`
/// entries in file order (a later entry for the same geoset overrides an
/// earlier one).
fn parse_geoset_animations(chunk_data: &[u8]) -> (r: Vec<(usize, GeosetAlpha)>)
    ensures
        entries_view(r@) == alpha_entries(chunk_data@, 0, seq![]),
        forall|j: int| 0 <= j < r@.len() ==> (#[trigger] r@[j]).0 <= u32::MAX,
{
    let ghost target = alpha_entries(chunk_data@, 0, seq![]);
    let mut out: Vec<(usize, GeosetAlpha)> = Vec::new();
    let mut i: usize = 0;
    proof {
        assert(entries_view(out@) =~= seq![]);
    }
    while i <= chunk_data.len() && chunk_data.len() - i >= 28
        invariant
            alpha_entries(chunk_data@, i as int, entries_view(out@)) == target,
            target == alpha_entries(chunk_data@, 0, seq![]),
            forall|j: int| 0 <= j < out@.len() ==> (#[trigger] out@[j]).0 <= u32::MAX,
        decreases chunk_data@.len() - i,
    {
        let size = read_u32(chunk_data, i);
        if size < 28 || size as u64 > (chunk_data.len() - i) as u64 {
            return out;
        }
        let static_alpha = read_u32(chunk_data, i + 4);
        let geoset_id = read_u32(chunk_data, i + 24);
        let mut keys: Vec<(u32, u32)> = Vec::new();
        parse_alpha_tracks(chunk_data, i, size as usize, &mut keys);
        let ghost before = out@;
        out.push((geoset_id as usize, GeosetAlpha { static_alpha, keys }));
        proof {
            assert(entries_view(out@) =~= entries_view(before).push((geoset_id as nat, GeosetAlphaV { static_alpha, keys: keys@ })));
        }
        i = i + size as usize;
    }
    out
}


/// What the chunks read so far hold.
struct ModelParts {
    textures: Vec<TextureRef>,
    materials: Vec<MaterialDef>,
    geosets: Vec<Geoset>,
    bones: Vec<Bone>,
    helpers: Vec<Bone>,
    pivots: Vec<(u32, u32, u32)>,
    sequences: Vec<Sequence>,
    alphas: Vec<(usize, GeosetAlpha)>,
}

impl ModelParts {
    spec fn acc(&self) -> ModelAcc {
        ModelAcc {
            textures: textures_view(self.textures@),
            materials: materials_view(self.materials@),
            geosets: geosets_view(self.geosets@),
            bones: bones_view(self.bones@),
            helpers: bones_view(self.helpers@),
            pivots: self.pivots@,
            sequences: sequences_view(self.sequences@),
            alphas: entries_view(self.alphas@),
        }
    }
}

proof fn lemma_max_alpha_id_bounds(e: Seq<(nat, GeosetAlphaV)>)
    ensures
        forall|j: int| 0 <= j < e.len() ==> (#[trigger] e[j]).0 <= max_alpha_id(e),
    decreases e.len(),
{
    if e.len() > 0 {
        lemma_max_alpha_id_bounds(e.drop_last());
        assert forall|j: int| 0 <= j < e.len() - 1 implies (#[trigger] e[j]) == e.drop_last()[j] by {}
    }
}

/// Builds the per-geoset alpha table: one slot per geoset or animated geoset
/// id, each holding the last animation given for that id.
/// `None` when the table would not fit this platform's address space.
fn alpha_table(n_geosets: usize, alphas: Vec<(usize, GeosetAlpha)>) -> (r: Option<Vec<Option<GeosetAlpha>>>)
    requires
        forall|j: int| 0 <= j < alphas@.len() ==> (#[trigger] alphas@[j]).0 <= u32::MAX,
    ensures
        alpha_slot_count(n_geosets as nat, entries_view(alphas@)) <= usize::MAX <==> r is Some,
        r matches Some(t) ==> alphas_view(t@) == Seq::new(
            alpha_slot_count(n_geosets as nat, entries_view(alphas@)),
            |i: int| last_alpha(entries_view(alphas@), i),
        ),
{
    let ghost e = entries_view(alphas@);
    let mut alphas = alphas;
    // the largest animated id
    let mut max_id: usize = 0;
    let mut k: usize = 0;
    while k < alphas.len()
        invariant
            k <= alphas@.len(),
            e == entries_view(alphas@),
            max_id as nat == max_alpha_id(e.take(k as int)),
            max_id <= u32::MAX,
            forall|j: int| 0 <= j < alphas@.len() ==> (#[trigger] alphas@[j]).0 <= u32::MAX,
        decreases alphas@.len() - k,
    {
        proof {
            assert(e.take(k + 1).drop_last() =~= e.take(k as int));
            assert(e[k as int].0 == alphas@[k as int].0);
        }
        if alphas[k].0 > max_id {
            max_id = alphas[k].0;
        }
        k = k + 1;
    }
    proof {
        assert(e.take(alphas@.len() as int) =~= e);
        lemma_max_alpha_id_bounds(e);
    }
    if alphas.len() > 0 && max_id == usize::MAX {
        return None;
    }
    let by_id: usize = if alphas.len() == 0 { 1 } else { max_id + 1 };
    let slots: usize = if n_geosets > by_id { n_geosets } else { by_id };
    let mut table: Vec<Option<GeosetAlpha>> = Vec::new();
    let mut i: usize = 0;
    while i < slots
        invariant
            i <= slots,
            table@.len() == i,
            forall|j: int| 0 <= j < i ==> table@[j] is None,
        decreases slots - i,
    {
        table.push(None);
        i = i + 1;
    }
    // Later entries override earlier ones: fill from the back, keeping the
    // first value seen for each id.
    while alphas.len() > 0
        invariant
            table@.len() == slots,
            slots == alpha_slot_count(n_geosets as nat, e),
            entries_view(alphas@) == e.take(alphas@.len() as int),
            alphas@.len() <= e.len(),
            forall|j: int| 0 <= j < e.len() ==> (#[trigger] e[j]).0 < slots,
            forall|j: int|
                0 <= j < slots ==> match #[trigger] table@[j] {
                    Some(a) => Some(a@) == last_alpha(e, j),
                    None => last_alpha(e, j) == last_alpha(e.take(alphas@.len() as int), j),
                },
        decreases alphas@.len(),
    {
        let ghost k = alphas@.len() as int;
        let ghost before = alphas@;
        let (id, a) = alphas.pop().unwrap();
        proof {
            assert(entries_view(before)[k - 1] == (before[k - 1].0 as nat, before[k - 1].1@));
            assert(e.take(k)[k - 1] == e[k - 1]);
            assert(e.take(k - 1) =~= e.take(k).drop_last());
            assert(e[k - 1] == (id as nat, a@));
            assert(entries_view(alphas@) =~= e.take(k - 1));
        }
        if table[id].is_none() {
            table.set(id, Some(a));
        }
        proof {
            assert forall|j: int| 0 <= j < slots implies match #[trigger] table@[j] {
                Some(x) => Some(x@) == last_alpha(e, j),
                None => last_alpha(e, j) == last_alpha(e.take(k - 1), j),
            } by {
                assert(e.take(k).last() == e[k - 1]);
            }
        }
    }
    proof {
        assert(e.take(0) =~= Seq::<(nat, GeosetAlphaV)>::empty());
        assert(alphas_view(table@) =~= Seq::new(slots as nat, |i: int| last_alpha(e, i)));
    }
    Some(table)
}


fn finish(parts: ModelParts) -> (r: Result<MdxModel, MdxError>)
    requires
        forall|j: int| 0 <= j < parts.alphas@.len() ==> (#[trigger] parts.alphas@[j]).0 <= u32::MAX,
    ensures
        alpha_slot_count(parts.acc().geosets.len(), parts.acc().alphas) <= usize::MAX ==> (r matches Ok(
            x,
        ) && x@ == model_of(parts.acc())),
        alpha_slot_count(parts.acc().geosets.len(), parts.acc().alphas) > usize::MAX ==> r
            == Err::<MdxModel, MdxError>(MdxError::TooLarge),
{
    let ghost acc = parts.acc();
    let ModelParts { textures, materials, geosets, bones, helpers, pivots, sequences, alphas } =
        parts;
    let n = geosets.len();
    match alpha_table(n, alphas) {
        None => Err(MdxError::TooLarge),
        Some(geoset_alpha) => {
            let m = MdxModel {
                textures,
                materials,
                geosets,
                bones,
                helpers,
                pivots,
                sequences,
                geoset_alpha,
            };
            proof {
                assert(m@.geoset_alpha == model_of(acc).geoset_alpha);
            }
            Ok(m)
        },
    }
}

/// Reads one chunk whose tag starts at `offset` and whose contents run from
/// `offset + 8` to `end`, adding what it holds to `parts`.
fn read_chunk(bytes: &[u8], offset: usize, end: usize, parts: &mut ModelParts) -> (r: Result<(), MdxError>)
    requires
        offset + 8 <= end <= bytes@.len(),
        forall|j: int| 0 <= j < old(parts).alphas@.len() ==> (#[trigger] old(parts).alphas@[j]).0 <= u32::MAX,
    ensures
        forall|j: int| 0 <= j < final(parts).alphas@.len() ==> (#[trigger] final(parts).alphas@[j]).0 <= u32::MAX,
        match apply_chunk(bytes@, offset as int, bytes@.subrange(offset + 8, end as int), old(parts).acc()) {
            Ok(a) => r is Ok && final(parts).acc() == a,
            Err(e) => r == Err::<(), MdxError>(e),
        },
{
    reveal(apply_chunk);
    let data = slice_of(bytes, offset + 8, end);
    if tag_at(bytes, offset, TAG_TEXS) {
        parse_textures(data, &mut parts.textures);
    } else if tag_at(bytes, offset, TAG_MTLS) {
        match parse_materials(data, &mut parts.materials) {
            Ok(()) => {},
            Err(e) => {
                return Err(e);
            },
        }
    } else if tag_at(bytes, offset, TAG_GEOS) {
        match parse_geosets(data, &mut parts.geosets) {
            Ok(()) => {},
            Err(e) => {
                return Err(e);
            },
        }
    } else if tag_at(bytes, offset, TAG_BONE) {
        match parse_bone_nodes(data) {
            Ok(v) => {
                parts.bones = v;
            },
            Err(e) => {
                return Err(e);
            },
        }
    } else if tag_at(bytes, offset, TAG_HELP) {
        match parse_bone_nodes(data) {
            Ok(v) => {
                parts.helpers = v;
            },
            Err(e) => {
                return Err(e);
            },
        }
    } else if tag_at(bytes, offset, TAG_GEOA) {
        parts.alphas = parse_geoset_animations(data);
    } else if tag_at(bytes, offset, TAG_PIVT) {
        parse_pivots(data, &mut parts.pivots);
    } else if tag_at(bytes, offset, TAG_SEQS) {
        parse_sequences(data, &mut parts.sequences);
    }
    Ok(())
}

/// Reads an MDX model: the `MDLX` magic, then chunks of a four-byte tag, a
/// little-endian size and that many bytes. Texture, material, geoset, bone,
/// helper, pivot, sequence and geoset-animation chunks are read; others are
/// skipped. Reading stops at a chunk that would pass the end of the buffer.
pub fn parse_mdx(bytes: &[u8]) -> (r: Result<MdxModel, MdxError>)
    ensures
        match mdx_of(bytes@) {
            Ok(m) => if m.geoset_alpha.len() <= usize::MAX {
                (r matches Ok(x) && x@ == m)
            } else {
                r == Err::<MdxModel, MdxError>(MdxError::TooLarge)
            },
            Err(e) => r == Err::<MdxModel, MdxError>(e),
        },
{
    if bytes.len() < 4 || !tag_at(bytes, 0, MAGIC_MDLX) {
        return Err(MdxError::MissingMagic);
    }
    let mut parts = ModelParts {
        textures: Vec::new(),
        materials: Vec::new(),
        geosets: Vec::new(),
        bones: Vec::new(),
        helpers: Vec::new(),
        pivots: Vec::new(),
        sequences: Vec::new(),
        alphas: Vec::new(),
    };
    proof {
        assert(parts.acc().textures =~= empty_acc().textures);
        assert(parts.acc().materials =~= empty_acc().materials);
        assert(parts.acc().geosets =~= empty_acc().geosets);
        assert(parts.acc().bones =~= empty_acc().bones);
        assert(parts.acc().helpers =~= empty_acc().helpers);
        assert(parts.acc().pivots =~= empty_acc().pivots);
        assert(parts.acc().sequences =~= empty_acc().sequences);
        assert(parts.acc().alphas =~= empty_acc().alphas);
    }
    let ghost target = chunks_from(bytes@, 4, empty_acc());
    let mut offset: usize = 4;
    while offset <= bytes.len() && bytes.len() - offset >= 8
        invariant
            target == chunks_from(bytes@, 4, empty_acc()),
            chunks_from(bytes@, offset as int, parts.acc()) == target,
            4 <= offset,
            mdx_of(bytes@) == match target {
                Ok(acc) => Ok::<MdxModelV, MdxError>(model_of(acc)),
                Err(e) => Err::<MdxModelV, MdxError>(e),
            },
            forall|j: int| 0 <= j < parts.alphas@.len() ==> (#[trigger] parts.alphas@[j]).0 <= u32::MAX,
        decreases bytes@.len() - offset,
    {
        match utf8_error(slice_of(bytes, offset, offset + 4)) {
            Some((valid_up_to, error_len)) => {
                return Err(MdxError::InvalidChunkTag { valid_up_to, error_len });
            },
            None => {},
        }
        let size = read_u32(bytes, offset + 4);
        if size as u64 > (bytes.len() - offset - 8) as u64 {
            return finish(parts);
        }
        let end = offset + 8 + size as usize;
        match read_chunk(bytes, offset, end, &mut parts) {
            Ok(()) => {},
            Err(e) => {
                return Err(e);
            },
        }
        offset = end;
    }
    finish(parts)
}

} // verus!
