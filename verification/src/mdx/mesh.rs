use vstd::prelude::*;
use vstd::string::StrSliceExecFns;
use crate::lookup::{first_index, is_last, last_index, lemma_first_index_at, lemma_first_index_none, lemma_last_index_at, lemma_last_index_none};
use crate::mdx::types::{Bone, Geoset, GeosetV, MdxModel, MdxModelV, SequenceV, TextureRef, TextureRefV};

verus! {

/// The name starts with "stand", in any mix of upper and lower case. Names
/// are read one byte per character, so only the ASCII letters fold.
pub open spec fn is_stand_name(name: Seq<char>) -> bool {
    let lower = seq!['s', 't', 'a', 'n', 'd'];
    let upper = seq!['S', 'T', 'A', 'N', 'D'];
    &&& name.len() >= 5
    &&& forall|k: int| 0 <= k < 5 ==> #[trigger] name[k] == lower[k] || name[k] == upper[k]
}

pub open spec fn stand_named(s: SequenceV) -> bool {
    is_stand_name(s.name)
}

/// The animation whose window decides which geosets a static mesh shows:
/// the first sequence named "stand…", else the first sequence, else none.
pub open spec fn stand_sequence_of(seqs: Seq<SequenceV>) -> Option<int> {
    match first_index(seqs, |s: SequenceV| stand_named(s)) {
        Some(i) => Some(i),
        None => if seqs.len() > 0 {
            Some(0)
        } else {
            None
        },
    }
}

fn is_stand(name: &String) -> (r: bool)
    ensures
        r == is_stand_name(name@),
{
    let s = name.as_str();
    if s.unicode_len() < 5 {
        return false;
    }
    let c0 = s.get_char(0);
    let c1 = s.get_char(1);
    let c2 = s.get_char(2);
    let c3 = s.get_char(3);
    let c4 = s.get_char(4);
    let r = (c0 == 's' || c0 == 'S') && (c1 == 't' || c1 == 'T') && (c2 == 'a' || c2 == 'A') && (c3 == 'n'
        || c3 == 'N') && (c4 == 'd' || c4 == 'D');
    proof {
        let lower = seq!['s', 't', 'a', 'n', 'd'];
        let upper = seq!['S', 'T', 'A', 'N', 'D'];
        if r {
            assert forall|k: int| 0 <= k < 5 implies #[trigger] name@[k] == lower[k] || name@[k] == upper[k] by {
                if k == 0 {
                } else if k == 1 {
                } else if k == 2 {
                } else if k == 3 {
                } else {
                }
            }
        } else {
            if c0 != 's' && c0 != 'S' {
                assert(!(name@[0] == lower[0] || name@[0] == upper[0]));
            } else if c1 != 't' && c1 != 'T' {
                assert(!(name@[1] == lower[1] || name@[1] == upper[1]));
            } else if c2 != 'a' && c2 != 'A' {
                assert(!(name@[2] == lower[2] || name@[2] == upper[2]));
            } else if c3 != 'n' && c3 != 'N' {
                assert(!(name@[3] == lower[3] || name@[3] == upper[3]));
            } else {
                assert(!(name@[4] == lower[4] || name@[4] == upper[4]));
            }
        }
    }
    r
}

/// Index of the sequence whose window picks the visible geosets: the first
/// one named "stand…" (case-insensitively), else the first one.
pub fn stand_sequence(model: &MdxModel) -> (r: Option<usize>)
    ensures
        r == match stand_sequence_of(crate::mdx::types::sequences_view(model.sequences@)) {
            Some(i) => Some(i as usize),
            None => None::<usize>,
        },
{
    let ghost v = crate::mdx::types::sequences_view(model.sequences@);
    let ghost p = |s: SequenceV| stand_named(s);
    let mut i: usize = 0;
    while i < model.sequences.len()
        invariant
            v == crate::mdx::types::sequences_view(model.sequences@),
            p == (|s: SequenceV| stand_named(s)),
            i <= model.sequences@.len(),
            forall|j: int| 0 <= j < i ==> !p(#[trigger] v[j]),
        decreases model.sequences@.len() - i,
    {
        if is_stand(&model.sequences[i].name) {
            proof {
                assert(p(v[i as int]));
                lemma_first_index_at(v, p, i as int);
            }
            return Some(i);
        }
        i = i + 1;
    }
    proof {
        lemma_first_index_none(v, p);
    }
    if model.sequences.len() > 0 {
        Some(0)
    } else {
        None
    }
}


/// Object ids of the model's skeleton nodes: bones first, then helpers,
/// the order in which the skeleton numbers them.
pub open spec fn node_object_ids(m: MdxModel) -> Seq<u32> {
    m.bones@.map_values(|b: Bone| b.object_id) + m.helpers@.map_values(|b: Bone| b.object_id)
}

pub open spec fn id_is(id: u32) -> spec_fn(u32) -> bool {
    |x: u32| x == id
}

/// Skeleton index of the node with object id `object_id`: the last node
/// carrying it, as a map filled in skeleton order keeps.
pub fn bone_index_of(model: &MdxModel, object_id: u32) -> (r: Option<usize>)
    requires
        model.bones@.len() + model.helpers@.len() <= usize::MAX,
    ensures
        match last_index(node_object_ids(*model), id_is(object_id)) {
            Some(i) => r == Some(i as usize),
            None => r is None,
        },
{
    let ghost ids = node_object_ids(*model);
    let ghost p = id_is(object_id);
    let nb = model.bones.len();
    let mut found: Option<usize> = None;
    let mut i: usize = 0;
    while i < nb
        invariant
            ids == node_object_ids(*model),
            p == id_is(object_id),
            nb == model.bones@.len(),
            i <= nb,
            nb + model.helpers@.len() <= usize::MAX,
            match found {
                Some(k) => k < i && p(ids[k as int]) && forall|j: int| k < j < i ==> !p(#[trigger] ids[j]),
                None => forall|j: int| 0 <= j < i ==> !p(#[trigger] ids[j]),
            },
        decreases nb - i,
    {
        if model.bones[i].object_id == object_id {
            found = Some(i);
        }
        i = i + 1;
    }
    let mut h: usize = 0;
    while h < model.helpers.len()
        invariant
            ids == node_object_ids(*model),
            p == id_is(object_id),
            nb == model.bones@.len(),
            ids.len() == nb + model.helpers@.len(),
            h <= model.helpers@.len(),
            nb + model.helpers@.len() <= usize::MAX,
            match found {
                Some(k) => k < nb + h && p(ids[k as int]) && forall|j: int| k < j < nb + h ==> !p(#[trigger] ids[j]),
                None => forall|j: int| 0 <= j < nb + h ==> !p(#[trigger] ids[j]),
            },
        decreases model.helpers@.len() - h,
    {
        if model.helpers[h].object_id == object_id {
            found = Some(nb + h);
        }
        h = h + 1;
    }
    proof {
        match found {
            Some(k) => lemma_last_index_at(ids, p, k as int),
            None => lemma_last_index_none(ids, p),
        }
    }
    found
}


/// Sum of the first `n` matrix-group sizes.
pub open spec fn group_prefix(counts: Seq<u32>, n: int) -> int
    decreases n,
{
    if n <= 0 {
        0
    } else {
        group_prefix(counts, n - 1) + counts[n - 1]
    }
}

/// Where each matrix group starts in the geoset's flat list of bone
/// object ids: the sum of the sizes of the groups before it.
pub fn matrix_group_starts(counts: &[u32]) -> (starts: Vec<u32>)
    requires
        group_prefix(counts@, counts@.len() as int) <= u32::MAX,
    ensures
        starts@.len() == counts@.len(),
        forall|i: int| 0 <= i < counts@.len() ==> #[trigger] starts@[i] == group_prefix(counts@, i),
{
    let mut starts: Vec<u32> = Vec::new();
    let mut acc: u32 = 0;
    let mut i: usize = 0;
    while i < counts.len()
        invariant
            i <= counts@.len(),
            group_prefix(counts@, counts@.len() as int) <= u32::MAX,
            acc == group_prefix(counts@, i as int),
            starts@.len() == i,
            forall|j: int| 0 <= j < i ==> #[trigger] starts@[j] == group_prefix(counts@, j),
        decreases counts@.len() - i,
    {
        proof {
            lemma_group_prefix_monotone(counts@, i as int + 1, counts@.len() as int);
        }
        starts.push(acc);
        acc = acc + counts[i];
        i = i + 1;
    }
    starts
}

proof fn lemma_group_prefix_monotone(counts: Seq<u32>, a: int, b: int)
    requires
        0 <= a <= b <= counts.len(),
    ensures
        group_prefix(counts, a) <= group_prefix(counts, b),
    decreases b - a,
{
    if a < b {
        lemma_group_prefix_monotone(counts, a, b - 1);
    }
}

/// The skeleton index a vertex's `k`-th influence refers to: the `k`-th
/// object id of its matrix group (object id 0 past the end of the list),
/// mapped through [`bone_index_of`], 0 for an id no node carries. Only the
/// first four influences of a group are kept; the others are 0.
pub open spec fn influence_of(ids: Seq<u32>, g: GeosetV, start: int, count: int, k: int) -> i32 {
    if k < count && k < 4 {
        let obj: u32 = if 0 <= start + k < g.matrix_indices.len() {
            g.matrix_indices[start + k]
        } else {
            0
        };
        match last_index(ids, id_is(obj)) {
            Some(i) => i as i32,
            None => 0,
        }
    } else {
        0
    }
}

/// The matrix group of vertex `v` (group 0 for a vertex with none listed).
pub open spec fn vertex_group_of(g: GeosetV, v: int) -> int {
    if 0 <= v < g.vertex_groups.len() {
        g.vertex_groups[v] as int
    } else {
        0
    }
}

fn influence(model: &MdxModel, g: &Geoset, start: u32, count: u32, k: usize) -> (r: i32)
    requires
        k < 4,
        model.bones@.len() + model.helpers@.len() <= usize::MAX,
    ensures
        r == influence_of(node_object_ids(*model), g@, start as int, count as int, k as int),
{
    if (k as u32) < count {
        let at: u64 = start as u64 + k as u64;
        let obj = if at < g.matrix_indices.len() as u64 {
            g.matrix_indices[at as usize]
        } else {
            0
        };
        match bone_index_of(model, obj) {
            Some(i) => i as i32,
            None => 0,
        }
    } else {
        0
    }
}

/// Rigid skinning of vertex `v`: the size of its matrix group (0 when the
/// group does not exist) and the skeleton indices of its first four bones
/// (see [`influence_of`]). `starts` are the geoset's matrix-group starts.
pub fn vertex_bones(model: &MdxModel, g: &Geoset, starts: &[u32], v: usize) -> (r: (u32, [i32; 4]))
    requires
        starts@.len() == g.matrix_group_counts@.len(),
        model.bones@.len() + model.helpers@.len() <= usize::MAX,
    ensures
        vertex_group_of(g@, v as int) < g.matrix_group_counts@.len() ==> {
            let grp = vertex_group_of(g@, v as int);
            &&& r.0 == g.matrix_group_counts@[grp]
            &&& forall|k: int| 0 <= k < 4 ==> #[trigger] r.1[k] == influence_of(
                node_object_ids(*model),
                g@,
                starts@[grp] as int,
                r.0 as int,
                k,
            )
        },
        vertex_group_of(g@, v as int) >= g.matrix_group_counts@.len() ==> r.0 == 0 && r.1@ == seq![0i32, 0, 0, 0],
{
    let grp: usize = if v < g.vertex_groups.len() {
        g.vertex_groups[v] as usize
    } else {
        0
    };
    if grp < g.matrix_group_counts.len() {
        let count = g.matrix_group_counts[grp];
        let start = starts[grp];
        let b0 = influence(model, g, start, count, 0);
        let b1 = influence(model, g, start, count, 1);
        let b2 = influence(model, g, start, count, 2);
        let b3 = influence(model, g, start, count, 3);
        let r = (count, [b0, b1, b2, b3]);
        proof {
            assert forall|k: int| 0 <= k < 4 implies #[trigger] r.1[k] == influence_of(
                node_object_ids(*model),
                g@,
                starts@[grp as int] as int,
                r.0 as int,
                k,
            ) by {
                if k == 0 {
                } else if k == 1 {
                } else if k == 2 {
                } else {
                }
            }
        }
        r
    } else {
        let r = (0u32, [0i32, 0, 0, 0]);
        proof {
            assert(r.1@ =~= seq![0i32, 0, 0, 0]);
        }
        r
    }
}

/// Triangle indices for the renderer, each face's winding reversed: the
/// change from the model's axes to the renderer's flips handedness.
pub open spec fn reversed_winding(faces: Seq<(u16, u16, u16)>) -> Seq<i32> {
    Seq::new(
        3 * faces.len(),
        |j: int|
            {
                let f = faces[j / 3];
                if j % 3 == 0 {
                    f.0 as i32
                } else if j % 3 == 1 {
                    f.2 as i32
                } else {
                    f.1 as i32
                }
            },
    )
}

/// Index buffer of a geoset's faces with their winding reversed:
/// `(a, b, c)` becomes `a, c, b`.
pub fn surface_indices(faces: &[(u16, u16, u16)]) -> (r: Vec<i32>)
    ensures
        r@ == reversed_winding(faces@),
{
    let mut out: Vec<i32> = Vec::new();
    let mut i: usize = 0;
    while i < faces.len()
        invariant
            i <= faces@.len(),
            out@ == reversed_winding(faces@.take(i as int)),
        decreases faces@.len() - i,
    {
        let (a, b, c) = faces[i];
        let ghost before = out@;
        out.push(a as i32);
        out.push(c as i32);
        out.push(b as i32);
        proof {
            let t = faces@.take(i + 1);
            assert forall|j: int| 0 <= j < 3 * t.len() implies #[trigger] out@[j] == reversed_winding(t)[j] by {
                if j < 3 * i {
                    assert(j / 3 < i) by (nonlinear_arith)
                        requires
                            0 <= j < 3 * i,
                    ;
                    assert(t[j / 3] == faces@.take(i as int)[j / 3]);
                } else {
                    assert(j / 3 == i) by (nonlinear_arith)
                        requires
                            3 * i <= j < 3 * i + 3,
                    ;
                }
            }
            assert(out@ =~= reversed_winding(t));
        }
        i = i + 1;
    }
    proof {
        assert(faces@.take(faces@.len() as int) =~= faces@);
    }
    out
}

/// A texture a layer can be drawn with: it exists, is not a replaceable
/// (team-colour) texture, and names a file.
pub open spec fn usable_texture(textures: Seq<TextureRefV>, texture_id: u32) -> bool {
    &&& texture_id < textures.len()
    &&& textures[texture_id as int].replaceable_id == 0
    &&& textures[texture_id as int].file_name.len() > 0
}

pub open spec fn layer_usable(textures: Seq<TextureRefV>) -> spec_fn(crate::mdx::types::LayerDef) -> bool {
    |l: crate::mdx::types::LayerDef| usable_texture(textures, l.texture_id)
}

/// The file a material is drawn with: the first of its layers whose texture
/// is usable; none for a material that does not exist.
pub open spec fn material_texture(m: MdxModelV, material_id: u32) -> Option<Seq<char>> {
    if material_id < m.materials.len() {
        let layers = m.materials[material_id as int].layers;
        match first_index(layers, layer_usable(m.textures)) {
            Some(l) => Some(m.textures[layers[l].texture_id as int].file_name),
            None => None,
        }
    } else {
        None
    }
}

/// The texture file of material `material_id` (see [`material_texture`]).
pub fn resolve_texture_name(model: &MdxModel, material_id: u32) -> (r: Option<String>)
    ensures
        match material_texture(model@, material_id) {
            Some(name) => (r matches Some(s) && s@ == name),
            None => r is None,
        },
{
    if material_id as usize >= model.materials.len() {
        return None;
    }
    let mat = &model.materials[material_id as usize];
    let ghost tv = crate::mdx::types::textures_view(model.textures@);
    let ghost layers = mat.layers@;
    let ghost p = layer_usable(tv);
    proof {
        assert(model@.materials[material_id as int].layers == layers);
    }
    let mut i: usize = 0;
    while i < mat.layers.len()
        invariant
            tv == crate::mdx::types::textures_view(model.textures@),
            tv == model@.textures,
            layers == mat.layers@,
            material_id < model@.materials.len(),
            model@.materials[material_id as int].layers == layers,
            p == layer_usable(tv),
            i <= layers.len(),
            forall|j: int| 0 <= j < i ==> !p(#[trigger] layers[j]),
        decreases layers.len() - i,
    {
        let tid = mat.layers[i].texture_id;
        if (tid as usize) < model.textures.len() {
            let tex = &model.textures[tid as usize];
            if tex.replaceable_id == 0 && !tex.file_name.as_str().is_empty() {
                proof {
                    assert(tv[tid as int] == tex@);
                    assert(layers[i as int].texture_id == tid);
                    assert(p(layers[i as int]));
                    lemma_first_index_at(layers, p, i as int);
                }
                let name = tex.file_name.clone();
                proof {
                    assert(name@ == tex.file_name@);
                }
                return Some(name);
            }
        }
        proof {
            assert(!p(layers[i as int]));
        }
        i = i + 1;
    }
    proof {
        lemma_first_index_none(layers, p);
    }
    None
}

} // verus!
