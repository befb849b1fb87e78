use vstd::prelude::*;

verus! {

/// How a texture layer of a model's material is blended.
#[derive(Clone, Copy, Debug, PartialEq, Eq, Structural)]
pub enum FilterMode {
    None_,
    Transparent,
    Blend,
    Additive,
    AddAlpha,
    Modulate,
    Modulate2x,
}

/// The mode's code in the model format and in the layered shader.
pub open spec fn filter_code(f: FilterMode) -> i32 {
    match f {
        FilterMode::None_ => 0,
        FilterMode::Transparent => 1,
        FilterMode::Blend => 2,
        FilterMode::Additive => 3,
        FilterMode::AddAlpha => 4,
        FilterMode::Modulate => 5,
        FilterMode::Modulate2x => 6,
    }
}

impl FilterMode {
    /// The mode's code (see [`filter_code`]).
    pub fn code(self) -> (r: i32)
        ensures
            r == filter_code(self),
    {
        match self {
            FilterMode::None_ => 0,
            FilterMode::Transparent => 1,
            FilterMode::Blend => 2,
            FilterMode::Additive => 3,
            FilterMode::AddAlpha => 4,
            FilterMode::Modulate => 5,
            FilterMode::Modulate2x => 6,
        }
    }
}

/// The filter codes the four-layer shader is given for a material of one
/// to four layers: each layer's code, and 0 for the unused slots.
pub fn shader_filter_codes(filters: &[FilterMode]) -> (r: [i32; 4])
    requires
        1 <= filters@.len() <= 4,
    ensures
        forall|i: int| 0 <= i < 4 ==> #[trigger] r[i] == if i < filters@.len() {
            filter_code(filters@[i])
        } else {
            0
        },
{
    let mut r: [i32; 4] = [0, 0, 0, 0];
    let mut i: usize = 0;
    while i < filters.len()
        invariant
            filters@.len() <= 4,
            i <= filters@.len(),
            forall|j: int| 0 <= j < 4 ==> #[trigger] r[j] == if j < i {
                filter_code(filters@[j])
            } else {
                0
            },
        decreases filters@.len() - i,
    {
        r[i] = filters[i].code();
        i = i + 1;
    }
    r
}

/// The filter modes in the order the model format numbers them: none,
/// transparent, blend, additive, add-alpha, modulate, modulate ×2.
pub open spec fn wc3_filter_order() -> Seq<FilterMode> {
    seq![
        FilterMode::None_,
        FilterMode::Transparent,
        FilterMode::Blend,
        FilterMode::Additive,
        FilterMode::AddAlpha,
        FilterMode::Modulate,
        FilterMode::Modulate2x,
    ]
}

/// Each mode's code is its place in the format's numbering, so the codes
/// run from 0 to 6 with one mode each, and the shader is given exactly the
/// number the model file uses for the mode.
pub proof fn lemma_filter_codes_follow_format(f: FilterMode)
    ensures
        forall|k: int| 0 <= k < 7 ==> filter_code(#[trigger] wc3_filter_order()[k]) == k,
        exists|k: int| 0 <= k < 7 && wc3_filter_order()[k] == f,
        0 <= filter_code(f) <= 6,
        wc3_filter_order()[filter_code(f) as int] == f,
{
    let o = wc3_filter_order();
    assert forall|k: int| 0 <= k < 7 implies filter_code(#[trigger] o[k]) == k by {
        assert(k == 0 || k == 1 || k == 2 || k == 3 || k == 4 || k == 5 || k == 6);
    }
    match f {
        FilterMode::None_ => assert(o[0] == f),
        FilterMode::Transparent => assert(o[1] == f),
        FilterMode::Blend => assert(o[2] == f),
        FilterMode::Additive => assert(o[3] == f),
        FilterMode::AddAlpha => assert(o[4] == f),
        FilterMode::Modulate => assert(o[5] == f),
        FilterMode::Modulate2x => assert(o[6] == f),
    }
}

} // verus!
