//! Reconstruction of meshes, flat materials and object hierarchies from the
//! records of a `.blend` scene file.
//!
//! The library works on plain values read from the file: face and loop
//! descriptors of a mesh, the fields of a material, the names and parent
//! links of objects. Everything that is computed from them (triangulation,
//! index buffers, attribute maps, material decisions, hierarchy walks and
//! asset labels) is verified here.
use vstd::prelude::*;

pub mod assets;
pub mod error;
pub mod material;
pub mod mesh;
pub mod scene;
pub mod triangulate;
pub mod version;

pub use error::BevyBlenderError;
pub use version::get_blend_version;

verus! {

/// Marker for the plugin that registers the `.blend` asset loader with the
/// host engine.
pub struct BlenderPlugin;

impl BlenderPlugin {
    /// The file extension that the loader answers to.
    pub fn extension(&self) -> (r: &'static str)
        ensures
            r@ == "blend"@,
    {
        "blend"
    }
}

} // verus!
