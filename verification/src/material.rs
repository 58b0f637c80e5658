//! Blinn-Phong materials over fixed-point colors (`SCALE` is one).

use vstd::prelude::*;

use crate::vec4::Vec4;
use crate::SCALE;

verus! {

#[derive(Clone, Copy, PartialEq, Eq, Structural, Debug)]
pub struct Material {
    /// Specular exponent.
    pub ns: u32,
    /// Ambient color.
    pub ka: Vec4,
    /// Diffuse color.
    pub kd: Vec4,
    /// Specular color.
    pub ks: Vec4,
    /// Emissive color; kept for scene data, unused by shading.
    pub ke: Vec4,
    /// Optical density; kept for scene data, unused by shading.
    pub ni: i64,
    /// Dissolve (opacity); kept for scene data, unused by shading.
    pub d: i64,
    /// Illumination model identifier, informational only.
    pub illum: usize,
}

/// Every color channel lies in `[0, b]`.
pub open spec fn color_in_range(v: Vec4, b: int) -> bool {
    &&& 0 <= v.x as int <= b
    &&& 0 <= v.y as int <= b
    &&& 0 <= v.z as int <= b
    &&& 0 <= v.w as int <= b
}

/// Colors lie in `[0, 1]` (that is, `[0, SCALE]` in fixed point) and
/// the specular exponent is moderate.
pub open spec fn material_wf(m: Material) -> bool {
    &&& color_in_range(m.ka, SCALE as int)
    &&& color_in_range(m.kd, SCALE as int)
    &&& color_in_range(m.ks, SCALE as int)
    &&& color_in_range(m.ke, SCALE as int)
    &&& m.ns <= 10000
}

/// The value `Material::default` returns.
pub open spec fn spec_default_material() -> Material {
    Material {
        ns: 40u32,
        ka: Vec4 { x: 10i64, y: 10i64, z: 10i64, w: SCALE },
        kd: Vec4 { x: 800i64, y: 800i64, z: 800i64, w: SCALE },
        ks: Vec4 { x: 500i64, y: 500i64, z: 500i64, w: SCALE },
        ke: Vec4 { x: 0i64, y: 0i64, z: 0i64, w: 0i64 },
        ni: 0i64,
        d: 0i64,
        illum: 2usize,
    }
}

/// Decides `material_wf`.
pub fn material_ok(m: &Material) -> (r: bool)
    ensures
        r == material_wf(*m),
{
    let ka: bool = 0 <= m.ka.x && m.ka.x <= SCALE && 0 <= m.ka.y && m.ka.y <= SCALE && 0 <= m.ka.z
        && m.ka.z <= SCALE && 0 <= m.ka.w && m.ka.w <= SCALE;
    let kd: bool = 0 <= m.kd.x && m.kd.x <= SCALE && 0 <= m.kd.y && m.kd.y <= SCALE && 0 <= m.kd.z
        && m.kd.z <= SCALE && 0 <= m.kd.w && m.kd.w <= SCALE;
    let ks: bool = 0 <= m.ks.x && m.ks.x <= SCALE && 0 <= m.ks.y && m.ks.y <= SCALE && 0 <= m.ks.z
        && m.ks.z <= SCALE && 0 <= m.ks.w && m.ks.w <= SCALE;
    let ke: bool = 0 <= m.ke.x && m.ke.x <= SCALE && 0 <= m.ke.y && m.ke.y <= SCALE && 0 <= m.ke.z
        && m.ke.z <= SCALE && 0 <= m.ke.w && m.ke.w <= SCALE;
    ka && kd && ks && ke && m.ns <= 10000
}

impl Material {
    /// The material used for faces that name no other: a mostly
    /// diffuse light-gray surface with a mild highlight.
    pub fn default() -> (m: Material)
        ensures
            m.ns == 40u32,
            m.ka == (Vec4 { x: 10, y: 10, z: 10, w: SCALE }),
            m.kd == (Vec4 { x: 800, y: 800, z: 800, w: SCALE }),
            m.ks == (Vec4 { x: 500, y: 500, z: 500, w: SCALE }),
            m.ke == (Vec4 { x: 0, y: 0, z: 0, w: 0 }),
            m.ni == 0,
            m.d == 0,
            m.illum == 2,
            m == spec_default_material(),
            material_wf(m),
    {
        Material {
            ns: 40,
            ka: Vec4 { x: 10, y: 10, z: 10, w: SCALE },
            kd: Vec4 { x: 800, y: 800, z: 800, w: SCALE },
            ks: Vec4 { x: 500, y: 500, z: 500, w: SCALE },
            ke: Vec4 { x: 0, y: 0, z: 0, w: 0 },
            ni: 0,
            d: 0,
            illum: 2,
        }
    }
}

} // verus!
