use bevy_blender::scene::{
    asset_label, get_object_by_name, spawn_blender_object, BlenderObjectBundle, ObjectNode,
    Placement, SceneObject, MISSING_MATERIAL,
};
use bevy_blender::BevyBlenderError;

fn object(name: &str, mesh: &str, material: Option<&str>, parent: Option<&str>) -> SceneObject {
    SceneObject {
        name: format!("OB{}", name),
        mesh_name: format!("ME{}", mesh),
        material_name: material.map(|m| format!("MA{}", m.trim_start_matches('*'))),
        material_uses_nodes: material.map_or(false, |m| m.starts_with('*')),
        parent_name: parent.map(|p| format!("OB{}", p)),
    }
}

fn scene() -> Vec<SceneObject> {
    vec![
        object("Wheel", "Wheel", None, Some("Car")),
        object("Car", "Body", Some("Red"), None),
        object("Hubcap", "Cap", Some("Chrome"), Some("Wheel")),
        object("Lamp", "Lamp", None, None),
        object("Seat", "Seat", Some("Leather"), Some("Car")),
    ]
}

fn shape(nodes: &[ObjectNode<u8>]) -> Vec<(usize, Option<usize>)> {
    nodes.iter().map(|n| (n.object, n.parent)).collect()
}

#[test]
fn labels_join_file_and_name() {
    assert_eq!(asset_label("demo.blend", "MESuzanne"), "demo.blend#MESuzanne");
}

#[test]
fn object_is_found_by_prefixed_name() {
    let objs = scene();
    assert_eq!(get_object_by_name(&objs, &String::from("OBLamp")), Some(3));
    assert_eq!(get_object_by_name(&objs, &String::from("Lamp")), None);
}

#[test]
fn hierarchy_is_resolved_in_pre_order() {
    let objs = scene();
    let nodes = spawn_blender_object::<u8>(&objs, "demo.blend", "Car", true, None).unwrap();
    assert_eq!(shape(&nodes), vec![(1, None), (0, Some(0)), (2, Some(1)), (4, Some(0))]);
    assert!(matches!(nodes[0].bundle.transform, Placement::World { object: 1 }));
    assert!(matches!(nodes[1].bundle.transform, Placement::Local { parent_object: 1 }));
    assert!(matches!(nodes[2].bundle.transform, Placement::Local { parent_object: 0 }));
    assert!(matches!(nodes[3].bundle.transform, Placement::Local { parent_object: 1 }));
    assert_eq!(nodes[0].bundle.mesh, "demo.blend#MEBody");
    assert_eq!(nodes[0].bundle.material, "demo.blend#MARed");
    assert_eq!(nodes[1].bundle.material, format!("demo.blend#{}", MISSING_MATERIAL));
    assert_eq!(nodes[2].bundle.mesh, "demo.blend#MECap");
}

#[test]
fn given_transform_places_only_the_root() {
    let objs = scene();
    let nodes = spawn_blender_object(&objs, "demo.blend", "Car", true, Some(7u8)).unwrap();
    assert!(matches!(nodes[0].bundle.transform, Placement::Given(7)));
    assert!(matches!(nodes[1].bundle.transform, Placement::Local { parent_object: 1 }));
}

#[test]
fn children_are_left_out_on_request() {
    let objs = scene();
    let nodes = spawn_blender_object::<u8>(&objs, "demo.blend", "Car", false, None).unwrap();
    assert_eq!(shape(&nodes), vec![(1, None)]);
}

#[test]
fn missing_root_is_reported_without_nodes() {
    let objs = scene();
    match spawn_blender_object::<u8>(&objs, "demo.blend", "Truck", true, None) {
        Err(BevyBlenderError::MissingAsset { asset_name, blend_file }) => {
            assert_eq!(asset_name, "Truck");
            assert_eq!(blend_file, "demo.blend");
        }
        other => panic!("unexpected {:?}", other),
    }
    assert!(spawn_blender_object::<u8>(&Vec::new(), "demo.blend", "Car", true, None).is_err());
}

#[test]
fn parent_cycle_is_not_followed() {
    let objs = vec![
        object("A", "A", None, Some("B")),
        object("B", "B", None, Some("A")),
        object("C", "C", None, Some("C")),
    ];
    let nodes = spawn_blender_object::<u8>(&objs, "f.blend", "A", true, None).unwrap();
    assert_eq!(shape(&nodes), vec![(0, None), (1, Some(0))]);
    let nodes = spawn_blender_object::<u8>(&objs, "f.blend", "C", true, None).unwrap();
    assert_eq!(shape(&nodes), vec![(2, None)]);
}

#[test]
fn single_bundle_uses_the_world_matrix() {
    let objs = scene();
    let b = BlenderObjectBundle::<u8>::new_from_blend(&objs, "demo.blend", "Seat").unwrap();
    assert_eq!(b.mesh, "demo.blend#MESeat");
    assert_eq!(b.material, "demo.blend#MALeather");
    assert!(matches!(b.transform, Placement::World { object: 4 }));
    assert!(matches!(
        BlenderObjectBundle::<u8>::new_from_blend(&objs, "demo.blend", "Nope"),
        Err(BevyBlenderError::MissingAsset { .. })
    ));
}

#[test]
fn single_bundle_replaces_a_node_material() {
    let objs = vec![object("Statue", "Statue", Some("*Marble"), None), object("Plain", "Plain", None, None)];
    let b = BlenderObjectBundle::<u8>::new_from_blend(&objs, "demo.blend", "Statue").unwrap();
    assert_eq!(b.material, format!("demo.blend#{}", MISSING_MATERIAL));
    assert!(matches!(b.transform, Placement::World { object: 0 }));
    let b = BlenderObjectBundle::<u8>::new_from_blend(&objs, "demo.blend", "Plain").unwrap();
    assert_eq!(b.material, format!("demo.blend#{}", MISSING_MATERIAL));
    let nodes = spawn_blender_object::<u8>(&objs, "demo.blend", "Statue", true, None).unwrap();
    assert_eq!(nodes[0].bundle.material, "demo.blend#MAMarble");
}
