//! Tests of material resolution: the wrap/filter/color-space tables, the
//! blend flag, and the DiffuseColor override.
use claymore::mat;
use claymore::mat::{BlendPreset, Error, FilterMethod, WrapMode};
use claymore::reflect;

fn texture(space: &str, wrap: (i8, i8, i8), filter: u8) -> reflect::Texture {
    reflect::Texture {
        image: reflect::Image { path: "tex/skin.png".to_string(), space: space.to_string() },
        wrap,
        filter,
        name: "skin".to_string(),
    }
}

fn material(
    transparent: bool,
    data: Vec<(String, (String, Vec<f32>))>,
    textures: Vec<reflect::Texture>,
) -> reflect::Material<f32> {
    reflect::Material {
        name: "mat".to_string(),
        shader: "phong".to_string(),
        transparent,
        data,
        textures,
    }
}

#[test]
fn defaults_without_texture_or_color() {
    let info = mat::load(&material(false, Vec::new(), Vec::new())).unwrap();
    assert!(info.visible);
    assert!(info.color.is_none());
    assert!(info.texture.is_none());
    assert!(info.blend.is_none());
}

#[test]
fn transparent_material_gets_alpha_blend() {
    let info = mat::load(&material(true, Vec::new(), Vec::new())).unwrap();
    assert_eq!(info.blend, Some(BlendPreset::Alpha));
}

#[test]
fn first_texture_entry_is_resolved() {
    let info = mat::load(&material(false, Vec::new(), vec![texture("sRGB", (-1, 0, 1), 2)]))
        .unwrap();
    let t = info.texture.unwrap();
    assert_eq!(t.path, "tex/skin.png");
    assert!(t.srgb);
    assert_eq!(t.wrap, (WrapMode::Mirror, WrapMode::Clamp, WrapMode::Tile));
    assert_eq!(t.filter, FilterMethod::Bilinear);
}

#[test]
fn linear_and_unknown_color_spaces_are_not_srgb() {
    for space in ["Linear", "Gamma"] {
        let info =
            mat::load(&material(false, Vec::new(), vec![texture(space, (0, 0, 0), 1)])).unwrap();
        assert!(!info.texture.unwrap().srgb);
    }
}

#[test]
fn bad_wrap_code_is_sampler_wrap_error() {
    let r = mat::load(&material(false, Vec::new(), vec![texture("Linear", (0, 5, 0), 1)]));
    assert!(matches!(r, Err(Error::SamplerWrap(5))));
}

#[test]
fn bad_filter_code_is_sampler_filter_error() {
    let r = mat::load(&material(false, Vec::new(), vec![texture("Linear", (0, 0, 0), 9)]));
    match r {
        Err(Error::SamplerFilter(name, code)) => {
            assert_eq!(name, "skin");
            assert_eq!(code, 9);
        },
        other => panic!("expected a sampler filter error, got {:?}", other.err()),
    }
}

#[test]
fn diffuse_color_overrides_first_three_components() {
    let data = vec![
        ("Shininess".to_string(), ("FLOAT".to_string(), vec![8.0f32])),
        ("DiffuseColor".to_string(), ("COLOR".to_string(), vec![0.5f32, 0.25, 0.125, 0.9])),
    ];
    let info = mat::load(&material(false, data, Vec::new())).unwrap();
    assert_eq!(info.color, Some((0.5, 0.25, 0.125)));
}

#[test]
fn filters_map_one_to_one() {
    for (code, expected) in [
        (1u8, FilterMethod::Nearest),
        (2u8, FilterMethod::Bilinear),
        (3u8, FilterMethod::Trilinear),
    ] {
        let info = mat::load(&material(false, Vec::new(), vec![texture("Linear", (1, 1, 1), code)]))
            .unwrap();
        assert_eq!(info.texture.unwrap().filter, expected);
    }
}
