use crate::error::BevyBlenderError;
use vstd::prelude::*;

verus! {

/// The fields of a material record. `T` is the scalar type of its colour
/// and parameters, which the library only moves.
#[derive(Debug)]
pub struct MaterialRecord<T> {
    /// The kind of the record (`"Material"` for a material).
    pub kind: String,
    /// The record's name, kind prefix included (`"MARed"`).
    pub name: String,
    /// Nonzero where the material is described by a node graph.
    pub use_nodes: u8,
    /// Base colour as red, green, blue, alpha.
    pub color: [T; 4],
    pub roughness: T,
    pub metallic: T,
    /// Specular intensity.
    pub specular: T,
}

/// A flat physically based material.
#[derive(Debug)]
pub struct MaterialParams<T> {
    /// Base colour as red, green, blue, alpha.
    pub base_color: [T; 4],
    pub perceptual_roughness: T,
    pub metallic: T,
    pub reflectance: T,
}

/// The record is a flat material.
pub open spec fn material_ok<T>(m: MaterialRecord<T>) -> bool {
    m.kind@ == "Material"@ && m.use_nodes == 0
}

/// The parameters of a flat material record: colour, roughness and metallic
/// as they are, the specular intensity as reflectance.
pub open spec fn params_of<T>(m: MaterialRecord<T>) -> MaterialParams<T> {
    MaterialParams {
        base_color: m.color,
        perceptual_roughness: m.roughness,
        metallic: m.metallic,
        reflectance: m.specular,
    }
}

/// Turns a material record into flat material parameters.
///
/// A record of another kind is refused with `InvalidInstanceType`, and a
/// node-based material with `UnsupportedAsset`. Otherwise colour, roughness
/// and metallic are taken as they are, and the specular intensity becomes
/// the reflectance.
pub fn instance_to_material<T: Copy>(
    m: &MaterialRecord<T>,
    _blend_version: (u8, u8, u8),
) -> (r: Result<MaterialParams<T>, BevyBlenderError>)
    ensures
        match r {
            Ok(p) => material_ok(*m) && p == params_of(*m),
            Err(BevyBlenderError::InvalidInstanceType { expected, found }) => {
                &&& m.kind@ != "Material"@
                &&& expected@ == "Material"@
                &&& found@ == m.kind@
            },
            Err(BevyBlenderError::UnsupportedAsset { asset_type }) => {
                &&& m.kind@ == "Material"@
                &&& m.use_nodes != 0
                &&& asset_type@ == "Nodes based material"@
            },
            Err(_) => false,
        },
{
    let expected = String::from_str("Material");
    if m.kind != expected {
        return Err(BevyBlenderError::InvalidInstanceType { expected, found: m.kind.clone() });
    }
    if m.use_nodes == 0 {
        Ok(
            MaterialParams {
                base_color: m.color,
                perceptual_roughness: m.roughness,
                metallic: m.metallic,
                reflectance: m.specular,
            },
        )
    } else {
        Err(BevyBlenderError::UnsupportedAsset { asset_type: String::from_str("Nodes based material") })
    }
}

} // verus!
