use bevy_blender::assets::{check_magic, is_hidden, load_blend_assets, MaterialAsset};
use bevy_blender::scene::MISSING_MATERIAL;
use bevy_blender::material::MaterialRecord;
use bevy_blender::mesh::{FaceRecord, MeshRecord};
use bevy_blender::version::version_triplet;
use bevy_blender::{BevyBlenderError, BlenderPlugin};

const HEADER: &[u8] = b"BLENDER-v310";

fn mesh(name: &str, kind: &str, vertex_count: usize) -> MeshRecord {
    MeshRecord {
        kind: String::from(kind),
        name: String::from(name),
        faces: vec![FaceRecord { loop_start: 0, loop_count: 3 }],
        loop_vertices: vec![0, 1, 2],
        uv_loop_count: 3,
        vertex_count,
    }
}

fn material(name: &str, use_nodes: u8) -> MaterialRecord<f32> {
    MaterialRecord {
        kind: String::from("Material"),
        name: String::from(name),
        use_nodes,
        color: [1.0, 1.0, 1.0, 1.0],
        roughness: 0.5,
        metallic: 0.0,
        specular: 0.5,
    }
}

#[test]
fn signature_is_checked() {
    assert!(check_magic(b"BLENDER-v293REND", "demo.blend").is_ok());
    assert!(check_magic(b"BLENDER", "demo.blend").is_ok());
    match check_magic(b"BLENDEX-v293", "x.blend") {
        Err(BevyBlenderError::InvalidBlendFile { blend_file }) => assert_eq!(blend_file, "x.blend"),
        other => panic!("unexpected {:?}", other),
    }
    assert!(check_magic(b"BLEND", "short.blend").is_err());
    assert!(check_magic(b"", "empty.blend").is_err());
    assert!(check_magic(&[0x1f, 0x8b, 0x08, 0, 0, 0, 0, 0], "zipped.blend").is_err());
}

#[test]
fn underscore_after_the_kind_hides_a_record() {
    assert!(is_hidden("ME_Hidden", "ME"));
    assert!(!is_hidden("MEVisible", "ME"));
    assert!(!is_hidden("ME", "ME"));
    assert!(!is_hidden("MA_Hidden", "ME"));
    assert!(is_hidden("MA_", "MA"));
    assert!(!is_hidden("MEHidden_", "ME"));
}

#[test]
fn hidden_meshes_are_not_published() {
    let meshes = vec![mesh("ME_Hidden", "Mesh", 3), mesh("MEVisible", "Mesh", 3)];
    let out = load_blend_assets::<f32>(HEADER, "demo.blend", (3, 0, 0), &meshes, &Vec::new()).unwrap();
    assert_eq!(out.meshes.len(), 1);
    assert_eq!(out.meshes[0].record, 1);
    assert_eq!(out.meshes[0].label, "MEVisible");
    assert_eq!(out.meshes[0].topology.indices, vec![2, 0, 1, 2, 0, 1]);
    assert!(out.failed_meshes.is_empty());
}

#[test]
fn a_broken_mesh_does_not_stop_the_others() {
    let meshes = vec![mesh("MEBroken", "Mesh", 2), mesh("MEGood", "Mesh", 3), mesh("MEOdd", "Lamp", 3)];
    let out = load_blend_assets::<f32>(HEADER, "demo.blend", (3, 0, 0), &meshes, &Vec::new()).unwrap();
    assert_eq!(out.meshes.iter().map(|m| m.record).collect::<Vec<_>>(), vec![1]);
    assert_eq!(out.failed_meshes.iter().map(|m| m.record).collect::<Vec<_>>(), vec![0, 2]);
    match &out.failed_meshes[0].error {
        BevyBlenderError::MalformedRecord { record, field } => {
            assert_eq!(record, "MEBroken");
            assert_eq!(field, "mloop");
        }
        other => panic!("unexpected {:?}", other),
    }
    match &out.failed_meshes[1].error {
        BevyBlenderError::InvalidInstanceType { expected, found } => {
            assert_eq!(expected, "Mesh");
            assert_eq!(found, "Lamp");
        }
        other => panic!("unexpected {:?}", other),
    }
}

#[test]
fn unsupported_material_gets_the_stand_in() {
    let meshes = vec![mesh("MECube", "Mesh", 3)];
    let materials = vec![material("MANodes", 1), material("MAFlat", 0), material("MA_Skip", 0)];
    let out = load_blend_assets(HEADER, "demo.blend", (3, 0, 0), &meshes, &materials).unwrap();
    assert_eq!(out.meshes.len(), 1);
    assert_eq!(out.materials.len(), 2);
    assert_eq!(out.materials[0].label, "MANodes");
    assert!(matches!(out.materials[0].asset, MaterialAsset::Fallback));
    assert_eq!(out.materials[1].label, "MAFlat");
    match &out.materials[1].asset {
        MaterialAsset::Params(p) => assert_eq!(p.perceptual_roughness, 0.5),
        MaterialAsset::Fallback => panic!("flat material replaced"),
    }
}

#[test]
fn version_digits() {
    assert_eq!(version_triplet(2, 80), (2, 8, 0));
    assert_eq!(version_triplet(3, 1), (3, 0, 1));
    assert_eq!(version_triplet(5, 1), (5, 0, 1));
}

#[test]
fn plugin_answers_to_blend_files() {
    assert_eq!(BlenderPlugin.extension(), "blend");
}

#[test]
fn version_parts_beyond_a_byte_saturate() {
    assert_eq!(version_triplet(300, 9999), (255, 255, 9));
    assert_eq!(version_triplet(0, 0), (0, 0, 0));
}

#[test]
fn load_without_signature_publishes_nothing() {
    let meshes = vec![mesh("MECube", "Mesh", 3)];
    let materials = vec![material("MAFlat", 0)];
    for bytes in [&b"BLENDEX-v310"[..], &b"BLEN"[..], &b""[..]] {
        match load_blend_assets(bytes, "bad.blend", (3, 0, 0), &meshes, &materials) {
            Err(BevyBlenderError::InvalidBlendFile { blend_file }) => assert_eq!(blend_file, "bad.blend"),
            other => panic!("unexpected {:?}", other),
        }
    }
}

#[test]
fn stand_in_material_is_published_once() {
    let out = load_blend_assets::<f32>(HEADER, "demo.blend", (3, 0, 0), &Vec::new(), &Vec::new()).unwrap();
    assert_eq!(out.fallback_material, MISSING_MATERIAL);
    assert!(out.materials.is_empty());
    assert!(out.meshes.is_empty());
}
