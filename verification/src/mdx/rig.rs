use vstd::prelude::*;
use crate::lookup::{first_index, last_index, lemma_first_index_at, lemma_first_index_none};
use vstd::string::StrSliceExecFns;
use crate::mdx::mesh::{bone_index_of, id_is, node_object_ids};
use crate::mdx::types::{Bone, MdxModel, RotationKf, ScaleKf, SequenceV, TranslationKf};

verus! {

/// The parent id of a root node.
pub const NO_PARENT: u32 = 0xFFFF_FFFF;

/// Node `i` of the skeleton: bones first, then helpers.
pub open spec fn node_at(m: MdxModel, i: int) -> Bone {
    if i < m.bones@.len() {
        m.bones@[i]
    } else {
        m.helpers@[i - m.bones@.len()]
    }
}

/// The skeleton parent of node `i`: the node carrying its parent's object
/// id (the last one, when several do); none for a root, for a node that
/// names itself as parent, or for a parent id no node carries.
pub open spec fn parent_slot(m: MdxModel, i: int) -> Option<int> {
    let n = node_at(m, i);
    if n.parent_id == NO_PARENT || n.parent_id == n.object_id {
        None
    } else {
        last_index(node_object_ids(m), id_is(n.parent_id))
    }
}

/// The skeleton parent of node `i` (see [`parent_slot`]).
pub fn bone_parent(model: &MdxModel, i: usize) -> (r: Option<usize>)
    requires
        i < model.bones@.len() + model.helpers@.len(),
        model.bones@.len() + model.helpers@.len() <= usize::MAX,
    ensures
        match parent_slot(*model, i as int) {
            Some(p) => r == Some(p as usize),
            None => r is None,
        },
{
    let (obj, parent) = if i < model.bones.len() {
        (model.bones[i].object_id, model.bones[i].parent_id)
    } else {
        (model.helpers[i - model.bones.len()].object_id, model.helpers[i - model.bones.len()].parent_id)
    };
    if parent == NO_PARENT || parent == obj {
        None
    } else {
        bone_index_of(model, parent)
    }
}

/// A keyframe of an animation track.
pub trait Keyframe {
    spec fn at(&self) -> u32;

    /// The keyframe's time in milliseconds.
    fn time_ms(&self) -> (t: u32)
        ensures
            t == self.at(),
    ;
}

impl Keyframe for TranslationKf {
    open spec fn at(&self) -> u32 {
        self.time_ms
    }

    fn time_ms(&self) -> (t: u32) {
        self.time_ms
    }
}

impl Keyframe for RotationKf {
    open spec fn at(&self) -> u32 {
        self.time_ms
    }

    fn time_ms(&self) -> (t: u32) {
        self.time_ms
    }
}

impl Keyframe for ScaleKf {
    open spec fn at(&self) -> u32 {
        self.time_ms
    }

    fn time_ms(&self) -> (t: u32) {
        self.time_ms
    }
}

/// The key lies in the window `[start, end]`.
pub open spec fn in_window<K: Keyframe>(start: u32, end: u32) -> spec_fn(K) -> bool {
    |k: K| start <= k.at() <= end
}

/// The keys of a track that fall inside an animation's window, in order.
pub fn keys_in_window<K: Keyframe + Copy>(keys: &[K], start: u32, end: u32) -> (r: Vec<K>)
    ensures
        r@ == keys@.filter(in_window::<K>(start, end)),
{
    let mut out: Vec<K> = Vec::new();
    let ghost p = in_window::<K>(start, end);
    let mut i: usize = 0;
    proof {
        reveal(Seq::filter);
        assert(keys@.take(0) =~= seq![]);
        assert(out@ =~= keys@.take(0).filter(p));
    }
    while i < keys.len()
        invariant
            p == in_window::<K>(start, end),
            i <= keys@.len(),
            out@ == keys@.take(i as int).filter(p),
        decreases keys@.len() - i,
    {
        let k = keys[i];
        let t = k.time_ms();
        proof {
            assert(keys@.take(i + 1).drop_last() =~= keys@.take(i as int));
            reveal(Seq::filter);
        }
        if start <= t && t <= end {
            out.push(k);
        }
        i = i + 1;
    }
    proof {
        assert(keys@.take(keys@.len() as int) =~= keys@);
    }
    out
}

/// How a track is interpolated between its keys.
#[derive(Clone, Copy, Debug, PartialEq, Eq, Structural)]
pub enum Interpolation {
    Nearest,
    Linear,
}

/// The interpolation a track uses: the file's code 0 is "none" (hold the
/// nearest key); every other code is played as linear.
pub fn track_interpolation(code: u32) -> (r: Interpolation)
    ensures
        r == if code == 0 {
            Interpolation::Nearest
        } else {
            Interpolation::Linear
        },
{
    if code == 0 {
        Interpolation::Nearest
    } else {
        Interpolation::Linear
    }
}

/// Length of an animation in milliseconds; 0 when it ends before it starts.
pub fn sequence_length_ms(start_ms: u32, end_ms: u32) -> (r: u32)
    ensures
        r == if end_ms >= start_ms {
            (end_ms - start_ms) as u32
        } else {
            0u32
        },
{
    end_ms.saturating_sub(start_ms)
}


/// What `str::to_lowercase` makes of a string: its characters mapped to
/// lower case by the Unicode tables std carries, with the context rule for
/// a final capital sigma.
pub uninterp spec fn lowercase_of(s: Seq<char>) -> Seq<char>;

/// The lower-case form of `s`. Calls `str::to_lowercase`; its contract,
/// taken on trust, says only that the result is [`lowercase_of`] the
/// characters of `s`: std's Unicode mapping is not restated here.
#[verifier::external_body]
pub(crate) fn to_lower(s: &str) -> (r: String)
    ensures
        r@ == lowercase_of(s@),
{
    s.to_lowercase()
}

/// `name` begins with `target`.
pub open spec fn has_prefix(name: Seq<char>, target: Seq<char>) -> bool {
    name.len() >= target.len() && name.subrange(0, target.len() as int) == target
}

pub open spec fn equal_to(target: Seq<char>) -> spec_fn(Seq<char>) -> bool {
    |n: Seq<char>| n == target
}

pub open spec fn prefixed_by(target: Seq<char>) -> spec_fn(Seq<char>) -> bool {
    |n: Seq<char>| has_prefix(n, target)
}

/// The name a request picks among `names`: the first one equal to
/// `target`, else the first one that begins with it, else none.
pub open spec fn first_match(names: Seq<Seq<char>>, target: Seq<char>) -> Option<int> {
    match first_index(names, equal_to(target)) {
        Some(i) => Some(i),
        None => first_index(names, prefixed_by(target)),
    }
}

pub open spec fn lowered_names(seqs: Seq<SequenceV>) -> Seq<Seq<char>> {
    seqs.map_values(|s: SequenceV| lowercase_of(s.name))
}

/// The sequence an animation request by name selects: the first one whose
/// name equals the request once both are in lower case, else the first one
/// whose lower-case name begins with the lower-case request, else none.
pub open spec fn sequence_named(seqs: Seq<SequenceV>, target: Seq<char>) -> Option<int> {
    first_match(lowered_names(seqs), lowercase_of(target))
}

/// Whether `name` begins with `target`, and whether it is `target`.
pub(crate) fn compare_prefix(name: &str, target: &str) -> (r: (bool, bool))
    ensures
        r.0 == has_prefix(name@, target@),
        r.1 == (name@ == target@),
{
    let n = name.unicode_len();
    let t = target.unicode_len();
    if n < t {
        proof {
            if name@ == target@ {
                assert(name@.len() == target@.len());
            }
        }
        return (false, false);
    }
    let mut k: usize = 0;
    while k < t
        invariant
            n == name@.len(),
            t == target@.len(),
            t <= n,
            k <= t,
            forall|j: int| 0 <= j < k ==> name@[j] == target@[j],
        decreases t - k,
    {
        if name.get_char(k) != target.get_char(k) {
            proof {
                assert(name@.subrange(0, t as int)[k as int] != target@[k as int]);
                assert(name@[k as int] != target@[k as int]);
            }
            return (false, false);
        }
        k = k + 1;
    }
    assert(name@.subrange(0, t as int) =~= target@);
    proof {
        if n == t {
            assert(name@ =~= target@);
        }
    }
    (true, n == t)
}

/// The position among `names` that a request for `wanted` picks (see
/// [`first_match`]).
pub fn pick_name(names: &[String], wanted: &str) -> (r: Option<usize>)
    ensures
        r == match first_match(crate::anim::names_view(names@), wanted@) {
            Some(i) => Some(i as usize),
            None => None::<usize>,
        },
{
    let ghost v = crate::anim::names_view(names@);
    let ghost exact = equal_to(wanted@);
    let ghost prefix = prefixed_by(wanted@);
    let mut first_prefix: Option<usize> = None;
    let mut i: usize = 0;
    while i < names.len()
        invariant
            v == crate::anim::names_view(names@),
            exact == equal_to(wanted@),
            prefix == prefixed_by(wanted@),
            i <= names@.len(),
            forall|j: int| 0 <= j < i ==> !exact(#[trigger] v[j]),
            match first_prefix {
                Some(p) => p < i && first_index(v, prefix) == Some(p as int),
                None => forall|j: int| 0 <= j < i ==> !prefix(#[trigger] v[j]),
            },
        decreases names@.len() - i,
    {
        let (starts, equal) = compare_prefix(names[i].as_str(), wanted);
        assert(v[i as int] == names@[i as int]@);
        if equal {
            proof {
                assert(exact(v[i as int]));
                lemma_first_index_at(v, exact, i as int);
            }
            return Some(i);
        }
        if starts && first_prefix.is_none() {
            proof {
                assert(prefix(v[i as int]));
                lemma_first_index_at(v, prefix, i as int);
            }
            first_prefix = Some(i);
        }
        i = i + 1;
    }
    proof {
        lemma_first_index_none(v, exact);
    }
    first_prefix
}

/// The sequence that a request to play `name` selects (see
/// [`sequence_named`]).
pub fn sequence_by_name(model: &MdxModel, name: &str) -> (r: Option<usize>)
    ensures
        r == match sequence_named(crate::mdx::types::sequences_view(model.sequences@), name@) {
            Some(i) => Some(i as usize),
            None => None::<usize>,
        },
{
    let ghost v = crate::mdx::types::sequences_view(model.sequences@);
    let mut lowered: Vec<String> = Vec::new();
    let mut i: usize = 0;
    while i < model.sequences.len()
        invariant
            v == crate::mdx::types::sequences_view(model.sequences@),
            i <= model.sequences@.len(),
            crate::anim::names_view(lowered@) == lowered_names(v.take(i as int)),
        decreases model.sequences@.len() - i,
    {
        let ghost before = lowered@;
        let l = to_lower(model.sequences[i].name.as_str());
        lowered.push(l);
        proof {
            assert(v[i as int] == model.sequences@[i as int]@);
            assert(l@ == lowercase_of(v[i as int].name));
            assert(lowered@ == before.push(l));
            assert(v.len() == model.sequences@.len());
            assert(v.take(i as int).len() == i);
            assert(lowered_names(v.take(i as int)).len() == i);
            assert(before.len() == i);
            assert(lowered@.len() == i + 1);
            let lhs = crate::anim::names_view(lowered@);
            let rhs = lowered_names(v.take(i + 1));
            assert forall|k: int| 0 <= k < i + 1 implies lhs[k] == rhs[k] by {
                assert(lhs[k] == lowered@[k]@);
                assert(rhs[k] == lowercase_of(v.take(i + 1)[k].name));
                if k < i {
                    assert(lowered@[k] == before[k]);
                    assert(crate::anim::names_view(before)[k] == before[k]@);
                    assert(lowered_names(v.take(i as int))[k] == lowercase_of(v.take(i as int)[k].name));
                }
            }
            assert(lhs =~= rhs);
        }
        i = i + 1;
    }
    assert(v.take(v.len() as int) =~= v);
    let wanted = to_lower(name);
    pick_name(lowered.as_slice(), wanted.as_str())
}

/// One bone's track within an animation: the skeleton node it moves and its
/// keys inside the animation's window.
pub struct TrackPlan<K> {
    pub node: usize,
    pub keys: Vec<K>,
}

pub open spec fn tracks_view<K>(v: Seq<TrackPlan<K>>) -> Seq<(usize, Seq<K>)> {
    v.map_values(|t: TrackPlan<K>| (t.node, t.keys@))
}

/// The animation made of one sequence: which sequence, and per channel the
/// tracks of the nodes that have keys in its window, in node order.
pub struct ClipPlan {
    pub sequence: usize,
    pub translations: Vec<TrackPlan<TranslationKf>>,
    pub rotations: Vec<TrackPlan<RotationKf>>,
    pub scales: Vec<TrackPlan<ScaleKf>>,
}

pub ghost struct ClipPlanV {
    pub sequence: usize,
    pub translations: Seq<(usize, Seq<TranslationKf>)>,
    pub rotations: Seq<(usize, Seq<RotationKf>)>,
    pub scales: Seq<(usize, Seq<ScaleKf>)>,
}

impl View for ClipPlan {
    type V = ClipPlanV;

    open spec fn view(&self) -> ClipPlanV {
        ClipPlanV {
            sequence: self.sequence,
            translations: tracks_view(self.translations@),
            rotations: tracks_view(self.rotations@),
            scales: tracks_view(self.scales@),
        }
    }
}

pub open spec fn clips_view(v: Seq<ClipPlan>) -> Seq<ClipPlanV> {
    v.map_values(|c: ClipPlan| c@)
}

/// The tracks of the first `n` nodes: `(i, keys)` for each node `i` whose
/// keys in the window, `window(i)`, are not empty.
pub open spec fn track_list<K>(window: spec_fn(int) -> Seq<K>, n: nat) -> Seq<(usize, Seq<K>)>
    decreases n,
{
    if n == 0 {
        seq![]
    } else {
        let prev = track_list(window, (n - 1) as nat);
        let keys = window(n - 1);
        if keys.len() > 0 {
            prev.push(((n - 1) as usize, keys))
        } else {
            prev
        }
    }
}

pub open spec fn translation_window(m: MdxModel, start: u32, end: u32) -> spec_fn(int) -> Seq<TranslationKf> {
    |i: int| node_at(m, i).translations@.filter(in_window::<TranslationKf>(start, end))
}

pub open spec fn rotation_window(m: MdxModel, start: u32, end: u32) -> spec_fn(int) -> Seq<RotationKf> {
    |i: int| node_at(m, i).rotations@.filter(in_window::<RotationKf>(start, end))
}

pub open spec fn scale_window(m: MdxModel, start: u32, end: u32) -> spec_fn(int) -> Seq<ScaleKf> {
    |i: int| node_at(m, i).scales@.filter(in_window::<ScaleKf>(start, end))
}

pub open spec fn node_count(m: MdxModel) -> nat {
    m.bones@.len() + m.helpers@.len()
}

/// The animation of sequence `j` of the model.
pub open spec fn clip_of(m: MdxModel, j: int) -> ClipPlanV {
    let s = m.sequences@[j];
    ClipPlanV {
        sequence: j as usize,
        translations: track_list(translation_window(m, s.start_ms, s.end_ms), node_count(m)),
        rotations: track_list(rotation_window(m, s.start_ms, s.end_ms), node_count(m)),
        scales: track_list(scale_window(m, s.start_ms, s.end_ms), node_count(m)),
    }
}

/// The animations of the first `count` sequences: one per sequence that
/// ends after it starts, in sequence order.
pub open spec fn clip_list(m: MdxModel, count: nat) -> Seq<ClipPlanV>
    decreases count,
{
    if count == 0 {
        seq![]
    } else {
        let prev = clip_list(m, (count - 1) as nat);
        let s = m.sequences@[count - 1];
        if s.end_ms > s.start_ms {
            prev.push(clip_of(m, count - 1))
        } else {
            prev
        }
    }
}

fn node_ref(model: &MdxModel, i: usize) -> (b: &Bone)
    requires
        i < model.bones@.len() + model.helpers@.len(),
    ensures
        *b == node_at(*model, i as int),
{
    if i < model.bones.len() {
        &model.bones[i]
    } else {
        &model.helpers[i - model.bones.len()]
    }
}

fn clip_for(model: &MdxModel, j: usize) -> (c: ClipPlan)
    requires
        j < model.sequences@.len(),
        model.bones@.len() + model.helpers@.len() <= usize::MAX,
    ensures
        c@ == clip_of(*model, j as int),
{
    let start = model.sequences[j].start_ms;
    let end = model.sequences[j].end_ms;
    let n = model.bones.len() + model.helpers.len();
    let ghost tw = translation_window(*model, start, end);
    let ghost rw = rotation_window(*model, start, end);
    let ghost sw = scale_window(*model, start, end);
    let mut translations: Vec<TrackPlan<TranslationKf>> = Vec::new();
    let mut rotations: Vec<TrackPlan<RotationKf>> = Vec::new();
    let mut scales: Vec<TrackPlan<ScaleKf>> = Vec::new();
    let mut i: usize = 0;
    proof {
        assert(tracks_view(translations@) =~= track_list(tw, 0));
        assert(tracks_view(rotations@) =~= track_list(rw, 0));
        assert(tracks_view(scales@) =~= track_list(sw, 0));
    }
    while i < n
        invariant
            n == node_count(*model),
            i <= n,
            tw == translation_window(*model, start, end),
            rw == rotation_window(*model, start, end),
            sw == scale_window(*model, start, end),
            tracks_view(translations@) == track_list(tw, i as nat),
            tracks_view(rotations@) == track_list(rw, i as nat),
            tracks_view(scales@) == track_list(sw, i as nat),
        decreases n - i,
    {
        let nd = node_ref(model, i);
        let t = keys_in_window(nd.translations.as_slice(), start, end);
        let r = keys_in_window(nd.rotations.as_slice(), start, end);
        let s = keys_in_window(nd.scales.as_slice(), start, end);
        let ghost t0 = translations@;
        let ghost r0 = rotations@;
        let ghost s0 = scales@;
        assert(t@ == tw(i as int));
        assert(r@ == rw(i as int));
        assert(s@ == sw(i as int));
        if t.len() > 0 {
            translations.push(TrackPlan { node: i, keys: t });
            assert(tracks_view(translations@) =~= tracks_view(t0).push((i, tw(i as int))));
        }
        if r.len() > 0 {
            rotations.push(TrackPlan { node: i, keys: r });
            assert(tracks_view(rotations@) =~= tracks_view(r0).push((i, rw(i as int))));
        }
        if s.len() > 0 {
            scales.push(TrackPlan { node: i, keys: s });
            assert(tracks_view(scales@) =~= tracks_view(s0).push((i, sw(i as int))));
        }
        i = i + 1;
    }
    ClipPlan { sequence: j, translations, rotations, scales }
}

/// The animations a model yields: one per sequence that ends after it
/// starts, in sequence order, each with the tracks of every skeleton node
/// (bones, then helpers) that has keys in the sequence's window, in node
/// order, per channel.
pub fn animation_plan(model: &MdxModel) -> (r: Vec<ClipPlan>)
    requires
        model.bones@.len() + model.helpers@.len() <= usize::MAX,
    ensures
        clips_view(r@) == clip_list(*model, model.sequences@.len()),
{
    let mut out: Vec<ClipPlan> = Vec::new();
    let mut j: usize = 0;
    proof {
        assert(clips_view(out@) =~= clip_list(*model, 0));
    }
    while j < model.sequences.len()
        invariant
            j <= model.sequences@.len(),
            model.bones@.len() + model.helpers@.len() <= usize::MAX,
            clips_view(out@) == clip_list(*model, j as nat),
        decreases model.sequences@.len() - j,
    {
        let ghost o0 = out@;
        if model.sequences[j].end_ms > model.sequences[j].start_ms {
            let c = clip_for(model, j);
            out.push(c);
            assert(clips_view(out@) =~= clips_view(o0).push(clip_of(*model, j as int)));
        }
        j = j + 1;
    }
    out
}

} // verus!
