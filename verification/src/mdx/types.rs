use vstd::prelude::*;
use vstd::string::StringExecFns;
use crate::text::{decimal, push_decimal};

verus! {

// Floating-point fields of the format (alphas, speeds, positions, rotations)
// are carried as the IEEE-754 bit patterns read from the file.

/// A texture the model names.
pub struct TextureRef {
    pub replaceable_id: u32,
    pub file_name: String,
    pub flags: u32,
}

pub ghost struct TextureRefV {
    pub replaceable_id: u32,
    pub file_name: Seq<char>,
    pub flags: u32,
}

impl View for TextureRef {
    type V = TextureRefV;

    open spec fn view(&self) -> TextureRefV {
        TextureRefV {
            replaceable_id: self.replaceable_id,
            file_name: self.file_name@,
            flags: self.flags,
        }
    }
}

/// One layer of a material; `alpha` is the bit pattern of an `f32`.
#[derive(Clone, Copy, Debug, PartialEq, Eq)]
pub struct LayerDef {
    pub filter_mode: u32,
    pub shading_flags: u32,
    pub texture_id: u32,
    pub texture_animation_id: u32,
    pub coord_id: u32,
    pub alpha: u32,
}

/// A material: its priority plane, flags and layers.
pub struct MaterialDef {
    pub priority_plane: u32,
    pub flags: u32,
    pub layers: Vec<LayerDef>,
}

pub ghost struct MaterialDefV {
    pub priority_plane: u32,
    pub flags: u32,
    pub layers: Seq<LayerDef>,
}

impl View for MaterialDef {
    type V = MaterialDefV;

    open spec fn view(&self) -> MaterialDefV {
        MaterialDefV { priority_plane: self.priority_plane, flags: self.flags, layers: self.layers@ }
    }
}

/// An animation sequence; `move_speed` is the bit pattern of an `f32`.
pub struct Sequence {
    pub name: String,
    pub start_ms: u32,
    pub end_ms: u32,
    pub move_speed: u32,
    pub loop_: bool,
}

pub ghost struct SequenceV {
    pub name: Seq<char>,
    pub start_ms: u32,
    pub end_ms: u32,
    pub move_speed: u32,
    pub loop_: bool,
}

impl View for Sequence {
    type V = SequenceV;

    open spec fn view(&self) -> SequenceV {
        SequenceV {
            name: self.name@,
            start_ms: self.start_ms,
            end_ms: self.end_ms,
            move_speed: self.move_speed,
            loop_: self.loop_,
        }
    }
}

/// Translation keyframe: time, the bit patterns of the three coordinates,
/// and the interpolation kind.
#[derive(Clone, Copy, Debug, PartialEq, Eq)]
pub struct TranslationKf {
    pub time_ms: u32,
    pub value: (u32, u32, u32),
    pub interpolation: u32,
}

/// Rotation keyframe: time, the bit patterns of the quaternion's four
/// components, and the interpolation kind.
#[derive(Clone, Copy, Debug, PartialEq, Eq)]
pub struct RotationKf {
    pub time_ms: u32,
    pub value: (u32, u32, u32, u32),
    pub interpolation: u32,
}

/// Scale keyframe: time, the bit patterns of the three factors, and the
/// interpolation kind.
#[derive(Clone, Copy, Debug, PartialEq, Eq)]
pub struct ScaleKf {
    pub time_ms: u32,
    pub value: (u32, u32, u32),
    pub interpolation: u32,
}

/// A bone (or helper) node with its animation tracks.
pub struct Bone {
    pub name: String,
    pub object_id: u32,
    pub parent_id: u32,
    pub flags: u32,
    pub translations: Vec<TranslationKf>,
    pub rotations: Vec<RotationKf>,
    pub scales: Vec<ScaleKf>,
}

pub ghost struct BoneV {
    pub name: Seq<char>,
    pub object_id: u32,
    pub parent_id: u32,
    pub flags: u32,
    pub translations: Seq<TranslationKf>,
    pub rotations: Seq<RotationKf>,
    pub scales: Seq<ScaleKf>,
}

impl View for Bone {
    type V = BoneV;

    open spec fn view(&self) -> BoneV {
        BoneV {
            name: self.name@,
            object_id: self.object_id,
            parent_id: self.parent_id,
            flags: self.flags,
            translations: self.translations@,
            rotations: self.rotations@,
            scales: self.scales@,
        }
    }
}

/// A mesh of the model. Positions, normals and texture coordinates are bit
/// patterns of `f32`s.
pub struct Geoset {
    pub vertex_positions: Vec<(u32, u32, u32)>,
    pub vertex_normals: Vec<(u32, u32, u32)>,
    pub faces: Vec<(u16, u16, u16)>,
    pub uvs: Vec<(u32, u32)>,
    pub material_id: u32,
    pub selection_group: u32,
    pub selection_flags: u32,
    pub vertex_groups: Vec<u8>,
    pub matrix_group_counts: Vec<u32>,
    pub matrix_indices: Vec<u32>,
}

pub ghost struct GeosetV {
    pub vertex_positions: Seq<(u32, u32, u32)>,
    pub vertex_normals: Seq<(u32, u32, u32)>,
    pub faces: Seq<(u16, u16, u16)>,
    pub uvs: Seq<(u32, u32)>,
    pub material_id: u32,
    pub selection_group: u32,
    pub selection_flags: u32,
    pub vertex_groups: Seq<u8>,
    pub matrix_group_counts: Seq<u32>,
    pub matrix_indices: Seq<u32>,
}

impl View for Geoset {
    type V = GeosetV;

    open spec fn view(&self) -> GeosetV {
        GeosetV {
            vertex_positions: self.vertex_positions@,
            vertex_normals: self.vertex_normals@,
            faces: self.faces@,
            uvs: self.uvs@,
            material_id: self.material_id,
            selection_group: self.selection_group,
            selection_flags: self.selection_flags,
            vertex_groups: self.vertex_groups@,
            matrix_group_counts: self.matrix_group_counts@,
            matrix_indices: self.matrix_indices@,
        }
    }
}

/// Visibility animation of a geoset: the bit pattern of its static alpha and
/// its `(time, alpha bits)` keys.
pub struct GeosetAlpha {
    pub static_alpha: u32,
    pub keys: Vec<(u32, u32)>,
}

pub ghost struct GeosetAlphaV {
    pub static_alpha: u32,
    pub keys: Seq<(u32, u32)>,
}

impl View for GeosetAlpha {
    type V = GeosetAlphaV;

    open spec fn view(&self) -> GeosetAlphaV {
        GeosetAlphaV { static_alpha: self.static_alpha, keys: self.keys@ }
    }
}

/// A parsed MDX model.
pub struct MdxModel {
    pub textures: Vec<TextureRef>,
    pub materials: Vec<MaterialDef>,
    pub geosets: Vec<Geoset>,
    pub bones: Vec<Bone>,
    pub helpers: Vec<Bone>,
    pub pivots: Vec<(u32, u32, u32)>,
    pub sequences: Vec<Sequence>,
    pub geoset_alpha: Vec<Option<GeosetAlpha>>,
}

pub ghost struct MdxModelV {
    pub textures: Seq<TextureRefV>,
    pub materials: Seq<MaterialDefV>,
    pub geosets: Seq<GeosetV>,
    pub bones: Seq<BoneV>,
    pub helpers: Seq<BoneV>,
    pub pivots: Seq<(u32, u32, u32)>,
    pub sequences: Seq<SequenceV>,
    pub geoset_alpha: Seq<Option<GeosetAlphaV>>,
}

pub open spec fn textures_view(v: Seq<TextureRef>) -> Seq<TextureRefV> {
    v.map_values(|t: TextureRef| t@)
}

pub open spec fn materials_view(v: Seq<MaterialDef>) -> Seq<MaterialDefV> {
    v.map_values(|m: MaterialDef| m@)
}

pub open spec fn geosets_view(v: Seq<Geoset>) -> Seq<GeosetV> {
    v.map_values(|g: Geoset| g@)
}

pub open spec fn bones_view(v: Seq<Bone>) -> Seq<BoneV> {
    v.map_values(|b: Bone| b@)
}

pub open spec fn sequences_view(v: Seq<Sequence>) -> Seq<SequenceV> {
    v.map_values(|s: Sequence| s@)
}

pub open spec fn alphas_view(v: Seq<Option<GeosetAlpha>>) -> Seq<Option<GeosetAlphaV>> {
    v.map_values(
        |a: Option<GeosetAlpha>|
            match a {
                Some(x) => Some(x@),
                None => None,
            },
    )
}

/// `(geoset id, alpha)` entries, viewed.
pub open spec fn entries_view(v: Seq<(usize, GeosetAlpha)>) -> Seq<(nat, GeosetAlphaV)> {
    v.map_values(|e: (usize, GeosetAlpha)| (e.0 as nat, e.1@))
}

impl View for MdxModel {
    type V = MdxModelV;

    open spec fn view(&self) -> MdxModelV {
        MdxModelV {
            textures: textures_view(self.textures@),
            materials: materials_view(self.materials@),
            geosets: geosets_view(self.geosets@),
            bones: bones_view(self.bones@),
            helpers: bones_view(self.helpers@),
            pivots: self.pivots@,
            sequences: sequences_view(self.sequences@),
            geoset_alpha: alphas_view(self.geoset_alpha@),
        }
    }
}

/// Why a byte buffer is not read as a model.
#[derive(Clone, Copy, Debug, PartialEq, Eq, Structural)]
pub enum MdxError {
    /// The buffer does not start with the `MDLX` magic.
    MissingMagic,
    /// A top-level chunk tag is not valid UTF-8: the tag's first
    /// `valid_up_to` bytes are, and then comes an invalid sequence of
    /// `error_len` bytes, or (with none) the tag ends inside a character.
    InvalidChunkTag { valid_up_to: usize, error_len: Option<usize> },
    /// A material or geoset record is too short for the fields it declares
    /// (or declares a zero size), so it cannot be read.
    Malformed,
    /// The model animates a geoset id too large for this platform to hold a
    /// slot for it.
    TooLarge,
}

/// The message the error is reported with. A chunk tag that is not UTF-8 is
/// described as `std::str::Utf8Error` describes itself.
pub open spec fn error_text(e: MdxError) -> Seq<char> {
    match e {
        MdxError::MissingMagic => "Not a valid MDX file (missing MDLX magic)"@,
        MdxError::InvalidChunkTag { valid_up_to, error_len } => "invalid chunk tag: "@ + match error_len {
            Some(n) => "invalid utf-8 sequence of "@ + decimal(n as nat) + " bytes from index "@ + decimal(
                valid_up_to as nat,
            ),
            None => "incomplete utf-8 byte sequence from index "@ + decimal(valid_up_to as nat),
        },
        MdxError::Malformed => "malformed MDX data: a record runs past its chunk"@,
        MdxError::TooLarge => "capacity overflow"@,
    }
}

impl MdxError {
    /// The message the error is reported with (see [`error_text`]).
    pub fn message(&self) -> (r: String)
        ensures
            r@ == error_text(*self),
    {
        match *self {
            MdxError::MissingMagic => "Not a valid MDX file (missing MDLX magic)".to_owned(),
            MdxError::InvalidChunkTag { valid_up_to, error_len } => {
                let mut s = "invalid chunk tag: ".to_owned();
                match error_len {
                    Some(n) => {
                        s.append("invalid utf-8 sequence of ");
                        push_decimal(&mut s, n);
                        s.append(" bytes from index ");
                        push_decimal(&mut s, valid_up_to);
                    },
                    None => {
                        s.append("incomplete utf-8 byte sequence from index ");
                        push_decimal(&mut s, valid_up_to);
                    },
                }
                proof {
                    let front = "invalid chunk tag: "@;
                    match error_len {
                        Some(n) => {
                            assert(s@ =~= front + ("invalid utf-8 sequence of "@ + decimal(n as nat) + " bytes from index "@
                                + decimal(valid_up_to as nat)));
                        },
                        None => {
                            assert(s@ =~= front + ("incomplete utf-8 byte sequence from index "@ + decimal(valid_up_to as nat)));
                        },
                    }
                }
                s
            },
            MdxError::Malformed => "malformed MDX data: a record runs past its chunk".to_owned(),
            MdxError::TooLarge => "capacity overflow".to_owned(),
        }
    }
}

} // verus!
