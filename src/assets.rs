use crate::error::BevyBlenderError;
use crate::material::{instance_to_material, material_ok, params_of, MaterialParams, MaterialRecord};
use crate::mesh::{instance_to_mesh, mesh_error_of, mesh_ok, topology_of, MeshRecord, MeshTopology};
use crate::scene::MISSING_MATERIAL;
use vstd::prelude::*;

verus! {

/// The signature that every scene file starts with.
pub open spec fn magic() -> Seq<u8> {
    seq![0x42u8, 0x4cu8, 0x45u8, 0x4eu8, 0x44u8, 0x45u8, 0x52u8]
}

/// The data starts with the scene-file signature.
pub open spec fn has_magic(bytes: Seq<u8>) -> bool {
    bytes.len() >= 7 && bytes.subrange(0, 7) == magic()
}

/// Accepts data that starts with the scene-file signature `BLENDER`; refuses
/// any other (a compressed or corrupted file) with `InvalidBlendFile`,
/// naming the file.
pub fn check_magic(bytes: &[u8], blend_file: &str) -> (r: Result<(), BevyBlenderError>)
    ensures
        match r {
            Ok(()) => has_magic(bytes@),
            Err(BevyBlenderError::InvalidBlendFile { blend_file: f }) => !has_magic(bytes@)
                && f@ == blend_file@,
            Err(_) => false,
        },
{
    let sig: [u8; 7] = [0x42u8, 0x4cu8, 0x45u8, 0x4eu8, 0x44u8, 0x45u8, 0x52u8];
    let mut ok = bytes.len() >= 7;
    let mut k: usize = 0;
    while ok && k < 7
        invariant
            ok ==> bytes@.len() >= 7,
            k <= 7,
            sig@ == magic(),
            ok ==> forall|j: int| 0 <= j < k ==> bytes@[j] == magic()[j],
            !ok ==> !has_magic(bytes@),
        decreases 7 - k,
    {
        if bytes[k] != sig[k] {
            ok = false;
            proof {
                if has_magic(bytes@) {
                    assert(bytes@.subrange(0, 7)[k as int] == bytes@[k as int]);
                }
            }
        }
        k = k + 1;
    }
    if ok {
        proof {
            assert(bytes@.subrange(0, 7) =~= magic());
        }
        Ok(())
    } else {
        Err(BevyBlenderError::InvalidBlendFile { blend_file: String::from_str(blend_file) })
    }
}

/// `name` starts with the kind code `kind` followed by an underscore.
pub open spec fn hidden(name: Seq<char>, kind: Seq<char>) -> bool {
    let p = kind + "_"@;
    name.len() >= p.len() && name.subrange(0, p.len() as int) == p
}

/// Whether a record named `name` of kind `kind` (`"ME"`, `"MA"`) is kept
/// out of the published assets: its name starts with an underscore after
/// the kind code.
pub fn is_hidden(name: &str, kind: &str) -> (r: bool)
    ensures
        r == hidden(name@, kind@),
{
    let ghost p = kind@ + "_"@;
    proof {
        reveal_strlit("_");
    }
    let n = name.unicode_len();
    let kl = kind.unicode_len();
    assert(p.len() == kl + 1 && p[kl as int] == '_');
    assert(forall|j: int| 0 <= j < kl ==> p[j] == kind@[j]);
    if n <= kl {
        return false;
    }
    for k in 0..kl
        invariant
            n == name@.len(),
            kl == kind@.len(),
            kl < n,
            p.len() == kl + 1,
            p[kl as int] == '_',
            forall|j: int| 0 <= j < kl ==> p[j] == kind@[j],
            forall|j: int| 0 <= j < k ==> name@[j] == p[j],
    {
        if name.get_char(k) != kind.get_char(k) {
            proof {
                assert(name@.subrange(0, p.len() as int)[k as int] != p[k as int]);
            }
            return false;
        }
    }
    if name.get_char(kl) != '_' {
        proof {
            assert(name@.subrange(0, p.len() as int)[kl as int] != p[kl as int]);
        }
        return false;
    }
    proof {
        assert(name@.subrange(0, p.len() as int) =~= p);
    }
    true
}

/// The indices below `n` that satisfy `pred`, in ascending order.
pub open spec fn select(n: int, pred: spec_fn(int) -> bool) -> Seq<int>
    decreases n,
{
    if n <= 0 {
        seq![]
    } else if pred(n - 1) {
        select(n - 1, pred).push(n - 1)
    } else {
        select(n - 1, pred)
    }
}

/// An index is selected exactly when it lies below `n` and satisfies
/// `pred`.
pub proof fn lemma_select(n: int, pred: spec_fn(int) -> bool, j: int)
    ensures
        select(n, pred).contains(j) <==> (0 <= j < n && pred(j)),
    decreases n,
{
    if n > 0 {
        lemma_select(n - 1, pred, j);
        let s = select(n - 1, pred);
        if pred(n - 1) {
            let t = s.push(n - 1);
            assert(s.push(n - 1)[s.len() as int] == n - 1);
            if t.contains(j) && j != n - 1 {
                let w = choose|w: int| 0 <= w < t.len() && t[w] == j;
                assert(s[w] == j);
            }
            if s.contains(j) {
                let w = choose|w: int| 0 <= w < s.len() && s[w] == j;
                assert(s.push(n - 1)[w] == j);
            }
        }
    }
}

/// What a material record is published as.
#[derive(Debug)]
pub enum MaterialAsset<T> {
    /// The record's own parameters.
    Params(MaterialParams<T>),
    /// The stand-in material, for a material that is not supported.
    Fallback,
}

/// A mesh that was reconstructed, under its record's name.
#[derive(Debug)]
pub struct LoadedMesh {
    pub record: usize,
    pub label: String,
    pub topology: MeshTopology,
}

/// A mesh record that could not be reconstructed.
#[derive(Debug)]
pub struct FailedMesh {
    pub record: usize,
    pub error: BevyBlenderError,
}

/// A material published under its record's name.
#[derive(Debug)]
pub struct LoadedMaterial<T> {
    pub record: usize,
    pub label: String,
    pub asset: MaterialAsset<T>,
}

/// Everything a file load publishes or reports.
#[derive(Debug)]
pub struct LoadedAssets<T> {
    /// The label under which the stand-in material is published, once.
    pub fallback_material: String,
    pub meshes: Vec<LoadedMesh>,
    pub failed_meshes: Vec<FailedMesh>,
    pub materials: Vec<LoadedMaterial<T>>,
}

/// Mesh record `j` is published.
pub open spec fn mesh_published(meshes: Seq<MeshRecord>, j: int) -> bool {
    !hidden(meshes[j].name@, "ME"@) && mesh_ok(meshes[j])
}

/// Mesh record `j` is reported as failed.
pub open spec fn mesh_failed(meshes: Seq<MeshRecord>, j: int) -> bool {
    !hidden(meshes[j].name@, "ME"@) && !mesh_ok(meshes[j])
}

/// Material record `j` is published.
pub open spec fn material_published<T>(materials: Seq<MaterialRecord<T>>, j: int) -> bool {
    !hidden(materials[j].name@, "MA"@)
}

/// What material record `m` is published as.
pub open spec fn material_asset_of<T>(m: MaterialRecord<T>) -> MaterialAsset<T> {
    if material_ok(m) {
        MaterialAsset::Params(params_of(m))
    } else {
        MaterialAsset::Fallback
    }
}

/// `r` is what loading the records `meshes` and `materials` of a file of
/// version `version` publishes: the stand-in material under its label; the
/// meshes and materials whose names do not start with an underscore after
/// the kind code, in record order; each such mesh reconstructed, or
/// reported with its error; each such material with its own parameters, or
/// as the stand-in where it is not supported.
pub open spec fn loaded_as<T>(
    version: (u8, u8, u8),
    meshes: Seq<MeshRecord>,
    materials: Seq<MaterialRecord<T>>,
    r: LoadedAssets<T>,
) -> bool {
    &&& r.fallback_material@ == MISSING_MATERIAL@
    &&& r.meshes@.map_values(|l: LoadedMesh| l.record as int) == select(
        meshes.len() as int,
        |j: int| mesh_published(meshes, j),
    )
    &&& forall|k: int|
        0 <= k < r.meshes@.len() ==> {
            let l = #[trigger] r.meshes@[k];
            &&& l.label@ == meshes[l.record as int].name@
            &&& topology_of(meshes[l.record as int], version, l.topology)
        }
    &&& r.failed_meshes@.map_values(|f: FailedMesh| f.record as int) == select(
        meshes.len() as int,
        |j: int| mesh_failed(meshes, j),
    )
    &&& forall|k: int|
        0 <= k < r.failed_meshes@.len() ==> {
            let f = #[trigger] r.failed_meshes@[k];
            mesh_error_of(meshes[f.record as int], f.error)
        }
    &&& r.materials@.map_values(|l: LoadedMaterial<T>| l.record as int) == select(
        materials.len() as int,
        |j: int| material_published(materials, j),
    )
    &&& forall|k: int|
        0 <= k < r.materials@.len() ==> {
            let l = #[trigger] r.materials@[k];
            &&& l.label@ == materials[l.record as int].name@
            &&& l.asset == material_asset_of(materials[l.record as int])
        }
}

/// Turns the file's data and its mesh and material records into published
/// assets.
///
/// Data without the scene-file signature gives `InvalidBlendFile`, naming
/// the file, and nothing is published. Otherwise the stand-in material is
/// published; records whose names start with an underscore after the kind
/// code are skipped; each other mesh is reconstructed, and one that fails is
/// reported while the others are still loaded; each other material is
/// published with its parameters, or as the stand-in where it is not
/// supported.
pub fn load_blend_assets<T: Copy>(
    bytes: &[u8],
    blend_file: &str,
    blend_version: (u8, u8, u8),
    meshes: &Vec<MeshRecord>,
    materials: &Vec<MaterialRecord<T>>,
) -> (r: Result<LoadedAssets<T>, BevyBlenderError>)
    ensures
        match r {
            Ok(a) => has_magic(bytes@) && loaded_as(blend_version, meshes@, materials@, a),
            Err(BevyBlenderError::InvalidBlendFile { blend_file: f }) => !has_magic(bytes@)
                && f@ == blend_file@,
            Err(_) => false,
        },
{
    match check_magic(bytes, blend_file) {
        Ok(()) => Ok(load_records(blend_version, meshes, materials)),
        Err(e) => Err(e),
    }
}

fn load_records<T: Copy>(
    blend_version: (u8, u8, u8),
    meshes: &Vec<MeshRecord>,
    materials: &Vec<MaterialRecord<T>>,
) -> (r: LoadedAssets<T>)
    ensures
        loaded_as(blend_version, meshes@, materials@, r),
{
    let mut loaded: Vec<LoadedMesh> = Vec::new();
    let mut failed: Vec<FailedMesh> = Vec::new();
    let ghost pub_pred = |j: int| mesh_published(meshes@, j);
    let ghost fail_pred = |j: int| mesh_failed(meshes@, j);
    for j in 0..meshes.len()
        invariant
            pub_pred == (|j: int| mesh_published(meshes@, j)),
            fail_pred == (|j: int| mesh_failed(meshes@, j)),
            loaded@.map_values(|l: LoadedMesh| l.record as int) == select(j as int, pub_pred),
            failed@.map_values(|f: FailedMesh| f.record as int) == select(j as int, fail_pred),
            forall|k: int|
                0 <= k < failed@.len() ==> {
                    let f = #[trigger] failed@[k];
                    &&& f.record < meshes@.len()
                    &&& mesh_error_of(meshes@[f.record as int], f.error)
                },
            forall|k: int|
                0 <= k < loaded@.len() ==> {
                    let l = #[trigger] loaded@[k];
                    &&& l.record < meshes@.len()
                    &&& l.label@ == meshes@[l.record as int].name@
                    &&& topology_of(meshes@[l.record as int], blend_version, l.topology)
                },
    {
        let m = &meshes[j];
        proof {
            reveal_strlit("ME");
        }
        if !is_hidden(m.name.as_str(), "ME") {
            match instance_to_mesh(m, blend_version) {
                Ok(topology) => {
                    loaded.push(LoadedMesh { record: j, label: m.name.clone(), topology });
                },
                Err(error) => {
                    failed.push(FailedMesh { record: j, error });
                },
            }
        }
        proof {
            assert(loaded@.map_values(|l: LoadedMesh| l.record as int) =~= select(j + 1, pub_pred));
            assert(failed@.map_values(|f: FailedMesh| f.record as int) =~= select(j + 1, fail_pred));
        }
    }
    let mut published: Vec<LoadedMaterial<T>> = Vec::new();
    let ghost mat_pred = |j: int| material_published(materials@, j);
    for j in 0..materials.len()
        invariant
            mat_pred == (|j: int| material_published(materials@, j)),
            published@.map_values(|l: LoadedMaterial<T>| l.record as int) == select(j as int, mat_pred),
            forall|k: int|
                0 <= k < published@.len() ==> {
                    let l = #[trigger] published@[k];
                    &&& l.record < materials@.len()
                    &&& l.label@ == materials@[l.record as int].name@
                    &&& l.asset == material_asset_of(materials@[l.record as int])
                },
    {
        let m = &materials[j];
        proof {
            reveal_strlit("MA");
        }
        if !is_hidden(m.name.as_str(), "MA") {
            let asset = match instance_to_material(m, blend_version) {
                Ok(p) => MaterialAsset::Params(p),
                Err(_) => MaterialAsset::Fallback,
            };
            published.push(LoadedMaterial { record: j, label: m.name.clone(), asset });
        }
        proof {
            assert(published@.map_values(|l: LoadedMaterial<T>| l.record as int) =~= select(j + 1, mat_pred));
        }
    }
    let fallback_material = String::from_str(MISSING_MATERIAL);
    LoadedAssets { fallback_material, meshes: loaded, failed_meshes: failed, materials: published }
}

/// A mesh whose name starts with an underscore after its kind code is never
/// published; a well-formed mesh whose name does not is.
pub proof fn lemma_underscore_filter(meshes: Seq<MeshRecord>, j: int)
    requires
        0 <= j < meshes.len(),
    ensures
        hidden(meshes[j].name@, "ME"@) ==> !select(
            meshes.len() as int,
            |i: int| mesh_published(meshes, i),
        ).contains(j),
        !hidden(meshes[j].name@, "ME"@) && mesh_ok(meshes[j]) ==> select(
            meshes.len() as int,
            |i: int| mesh_published(meshes, i),
        ).contains(j),
{
    lemma_select(meshes.len() as int, |i: int| mesh_published(meshes, i), j);
}

/// A material whose node flag is set is never turned into parameters: where
/// it is published, it is published as the stand-in.
pub proof fn lemma_unsupported_material<T>(m: MaterialRecord<T>)
    requires
        m.use_nodes != 0,
    ensures
        !material_ok(m),
        material_asset_of(m) == MaterialAsset::<T>::Fallback,
{
}

} // verus!
