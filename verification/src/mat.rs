//! Material resolution: builds the render-facing material description from
//! a decoded material spec. Defaults are overridden by the spec's first
//! texture entry (color space, per-axis wrap modes and filter, each mapped
//! through a closed table) and by an optional "DiffuseColor" data entry
//! whose first three components become the color, with alpha forced to
//! full by the embedder.
//!
//! The texture image itself and the sampler object belong to the GPU
//! collaborator: this core only validates and describes them.
use vstd::prelude::*;

use crate::cache;
use crate::reflect;

verus! {

/// Texture-sampling edge behavior per axis.
#[derive(Clone, Copy, PartialEq, Eq, Structural, Debug)]
pub enum WrapMode {
    Mirror,
    Clamp,
    Tile,
}

/// Texture minification/magnification method.
#[derive(Clone, Copy, PartialEq, Eq, Structural, Debug)]
pub enum FilterMethod {
    Nearest,
    Bilinear,
    Trilinear,
}

/// Blend mode of a transparent material.
#[derive(Clone, Copy, PartialEq, Eq, Structural, Debug)]
pub enum BlendPreset {
    Alpha,
}

/// Material and texture resolution errors.
#[derive(Debug)]
pub enum Error {
    /// The requested material name is absent from the description.
    NotFound,
    /// The texture image could not be loaded; carries the image path and
    /// the collaborator's message.
    Texture(String, String),
    /// A filter code outside the closed table; carries the texture name.
    SamplerFilter(String, u8),
    /// A wrap code outside the closed table.
    SamplerWrap(i8),
}

/// The closed wrap-mode table.
pub open spec fn spec_parse_wrap(mode: i8) -> Option<WrapMode> {
    if mode == -1 {
        Some(WrapMode::Mirror)
    } else if mode == 0 {
        Some(WrapMode::Clamp)
    } else if mode == 1 {
        Some(WrapMode::Tile)
    } else {
        None
    }
}

/// Maps a wrap code to its mode, or reports the offending code.
pub fn parse_wrap(mode: i8) -> (r: Result<WrapMode, Error>)
    ensures
        match r {
            Ok(w) => spec_parse_wrap(mode) == Some(w),
            Err(e) => spec_parse_wrap(mode) is None && e == Error::SamplerWrap(mode),
        },
{
    match mode {
        -1 => Ok(WrapMode::Mirror),
        0 => Ok(WrapMode::Clamp),
        1 => Ok(WrapMode::Tile),
        _ => Err(Error::SamplerWrap(mode)),
    }
}

/// The closed filter table.
pub open spec fn spec_parse_filter(f: u8) -> Option<FilterMethod> {
    if f == 1 {
        Some(FilterMethod::Nearest)
    } else if f == 2 {
        Some(FilterMethod::Bilinear)
    } else if f == 3 {
        Some(FilterMethod::Trilinear)
    } else {
        None
    }
}

/// What the embedder must ask its GPU collaborator for: the image by path
/// and color space, sampled with the given wrap modes and filter.
pub struct TextureRequest {
    pub path: String,
    pub srgb: bool,
    pub wrap: (WrapMode, WrapMode, WrapMode),
    pub filter: FilterMethod,
}

/// A resolved material: visibility, an optional color override (alpha is
/// forced to full by the embedder), an optional texture request, and an
/// optional blend mode.
pub struct MaterialInfo<S> {
    pub visible: bool,
    pub color: Option<(S, S, S)>,
    pub texture: Option<TextureRequest>,
    pub blend: Option<BlendPreset>,
}

/// Resolves a material spec: always visible; blended iff transparent; the
/// first texture entry, if any, validated through the wrap and filter
/// tables and its color space read as sRGB or linear; the color taken
/// from the first "DiffuseColor" data entry, if any.
pub fn load<S: Copy>(mat: &reflect::Material<S>) -> (r: Result<MaterialInfo<S>, Error>)
    requires
        forall|i: int|
            0 <= i < mat.data@.len() && (#[trigger] mat.data@[i]).0@ == "DiffuseColor"@
                ==> mat.data@[i].1.1@.len() >= 3,
    ensures
        match r {
            Ok(info) => {
                &&& info.visible == true
                &&& info.blend == (if mat.transparent {
                    Some(BlendPreset::Alpha)
                } else {
                    Option::<BlendPreset>::None
                })
                &&& (mat.textures@.len() == 0 ==> info.texture is None)
                &&& (mat.textures@.len() > 0 ==> match info.texture {
                    Some(t) => {
                        &&& t.path@ == mat.textures@[0].image.path@
                        &&& t.srgb == (mat.textures@[0].image.space@ == "sRGB"@)
                        &&& Some(t.wrap.0) == spec_parse_wrap(mat.textures@[0].wrap.0)
                        &&& Some(t.wrap.1) == spec_parse_wrap(mat.textures@[0].wrap.1)
                        &&& Some(t.wrap.2) == spec_parse_wrap(mat.textures@[0].wrap.2)
                        &&& Some(t.filter) == spec_parse_filter(mat.textures@[0].filter)
                    },
                    None => false,
                })
                &&& (match cache::spec_find(mat.data@, "DiffuseColor"@) {
                    Some(d) => info.color == Some((d.1@[0], d.1@[1], d.1@[2])),
                    None => info.color is None,
                })
            },
            Err(e) => match e {
                Error::SamplerWrap(m) => {
                    &&& mat.textures@.len() > 0
                    &&& spec_parse_wrap(m) is None
                    &&& (m == mat.textures@[0].wrap.0 || (spec_parse_wrap(
                        mat.textures@[0].wrap.0,
                    ) is Some && m == mat.textures@[0].wrap.1) || (spec_parse_wrap(
                        mat.textures@[0].wrap.0,
                    ) is Some && spec_parse_wrap(mat.textures@[0].wrap.1) is Some && m
                        == mat.textures@[0].wrap.2))
                },
                Error::SamplerFilter(n, f) => {
                    &&& mat.textures@.len() > 0
                    &&& spec_parse_wrap(mat.textures@[0].wrap.0) is Some
                    &&& spec_parse_wrap(mat.textures@[0].wrap.1) is Some
                    &&& spec_parse_wrap(mat.textures@[0].wrap.2) is Some
                    &&& spec_parse_filter(mat.textures@[0].filter) is None
                    &&& f == mat.textures@[0].filter
                    &&& n@ == mat.textures@[0].name@
                },
                _ => false,
            },
        },
{
    let blend = if mat.transparent {
        Some(BlendPreset::Alpha)
    } else {
        None
    };
    let texture: Option<TextureRequest> = if mat.textures.len() > 0 {
        let rt = &mat.textures[0];
        let srgb = rt.image.space == "sRGB".to_owned();
        let wx = match parse_wrap(rt.wrap.0) {
            Ok(w) => w,
            Err(e) => {
                return Err(e);
            },
        };
        let wy = match parse_wrap(rt.wrap.1) {
            Ok(w) => w,
            Err(e) => {
                return Err(e);
            },
        };
        let wz = match parse_wrap(rt.wrap.2) {
            Ok(w) => w,
            Err(e) => {
                return Err(e);
            },
        };
        let filter = match rt.filter {
            1 => FilterMethod::Nearest,
            2 => FilterMethod::Bilinear,
            3 => FilterMethod::Trilinear,
            other => {
                return Err(Error::SamplerFilter(rt.name.clone(), other));
            },
        };
        Some(
            TextureRequest {
                path: rt.image.path.clone(),
                srgb,
                wrap: (wx, wy, wz),
                filter,
            },
        )
    } else {
        None
    };
    let color: Option<(S, S, S)> = match cache::assoc_find_index(&mat.data, &"DiffuseColor".to_owned()) {
        Some(i) => {
            let vals = &mat.data[i].1.1;
            Some((vals[0], vals[1], vals[2]))
        },
        None => None,
    };
    Ok(MaterialInfo { visible: true, color, texture, blend })
}

} // verus!
