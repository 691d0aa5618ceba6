use bevy_blender::material::{instance_to_material, MaterialRecord};
use bevy_blender::BevyBlenderError;

fn red(use_nodes: u8) -> MaterialRecord<f32> {
    MaterialRecord {
        kind: String::from("Material"),
        name: String::from("MARed"),
        use_nodes,
        color: [0.8, 0.1, 0.05, 1.0],
        roughness: 0.4,
        metallic: 0.25,
        specular: 0.5,
    }
}

#[test]
fn flat_material_is_copied() {
    let p = instance_to_material(&red(0), (3, 0, 0)).unwrap();
    assert_eq!(p.base_color, [0.8, 0.1, 0.05, 1.0]);
    assert_eq!(p.perceptual_roughness, 0.4);
    assert_eq!(p.metallic, 0.25);
    assert_eq!(p.reflectance, 0.5);
}

#[test]
fn node_material_is_unsupported() {
    for flag in [1u8, 2, 255] {
        match instance_to_material(&red(flag), (3, 0, 0)) {
            Err(BevyBlenderError::UnsupportedAsset { asset_type }) => {
                assert_eq!(asset_type, "Nodes based material")
            }
            other => panic!("unexpected {:?}", other),
        }
    }
}

#[test]
fn material_of_other_kind_is_refused() {
    let mut m = red(0);
    m.kind = String::from("Mesh");
    match instance_to_material(&m, (3, 0, 0)) {
        Err(BevyBlenderError::InvalidInstanceType { expected, found }) => {
            assert_eq!(expected, "Material");
            assert_eq!(found, "Mesh");
        }
        other => panic!("unexpected {:?}", other),
    }
}
