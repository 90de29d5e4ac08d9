//! Models and their instances.
use goud_engine::config::MaterialType;
use goud_engine::models::{MeshObject, ModelRegistry};

fn mesh(buffer: u32, vertex_count: u32, texture_id: u32) -> MeshObject {
    MeshObject { buffer, vertex_count, texture_id }
}

#[test]
fn instance_copies_objects_and_clones_materials() {
    let mut reg: ModelRegistry<MaterialType> = ModelRegistry::new();
    let a = reg.add_object(mesh(100, 36, 3));
    let b = reg.add_object(mesh(101, 12, 0));
    assert_eq!((a, b), (1, 2));
    let mat = reg.create_material(MaterialType::Pbr);
    assert_eq!(mat, 1);
    assert!(reg.set_object_material(a, mat));
    let model = reg.add_model(vec![a, b], vec![mat, 0], false, false).expect("model of known objects");
    assert_eq!(model, 1);

    let inst = reg.instantiate_model(model).expect("instance");
    assert_eq!(inst, 2);
    let record = reg.get_instance(inst).expect("instance record");
    assert_eq!(record.source_model_id, model);
    assert_eq!(record.mesh_object_ids, vec![3, 4]);
    assert_eq!(record.mesh_material_ids, vec![2, 0]);
    assert_eq!(record.source_mesh_indices, vec![0, 1]);
    assert_eq!(reg.get_object(3), Some(mesh(100, 36, 3)));
    assert_eq!(reg.get_object(4), Some(mesh(101, 12, 0)));
    assert_eq!(reg.get_object_material(3), Some(2));
    assert_eq!(reg.get_material(2), Some(&MaterialType::Pbr));
    assert_eq!(reg.get_object_material(4), None);
    // The source keeps its own objects and material.
    assert_eq!(reg.get_object_material(a), Some(mat));
}

#[test]
fn second_instance_gets_fresh_ids() {
    let mut reg: ModelRegistry<MaterialType> = ModelRegistry::new();
    let a = reg.add_object(mesh(7, 3, 0));
    let mat = reg.create_material(MaterialType::Unlit);
    let model = reg.add_model(vec![a], vec![mat], true, false).unwrap();
    let first = reg.instantiate_model(model).unwrap();
    let second = reg.instantiate_model(model).unwrap();
    assert_eq!((first, second), (2, 3));
    assert_eq!(reg.get_instance(second).unwrap().mesh_object_ids, vec![3]);
    assert_eq!(reg.get_instance(second).unwrap().mesh_material_ids, vec![3]);
}

#[test]
fn instantiating_no_model_or_an_empty_one_gives_none() {
    let mut reg: ModelRegistry<MaterialType> = ModelRegistry::new();
    assert_eq!(reg.instantiate_model(42), None);
    let empty = reg.add_model(Vec::new(), Vec::new(), false, false).unwrap();
    assert_eq!(reg.instantiate_model(empty), None);
    assert!(reg.get_instance(empty + 1).is_none());
    assert_eq!(reg.add_object(mesh(1, 1, 1)), 1);
}

#[test]
fn model_of_unknown_objects_is_refused() {
    let mut reg: ModelRegistry<MaterialType> = ModelRegistry::new();
    assert_eq!(reg.add_model(vec![5], Vec::new(), false, false), None);
    let a = reg.add_object(mesh(1, 1, 1));
    assert_eq!(reg.add_model(vec![a], vec![3], false, false), None);
    assert_eq!(reg.add_model(vec![a], Vec::new(), false, false), Some(1));
}

#[test]
fn created_ids_are_fresh() {
    let mut reg: ModelRegistry<MaterialType> = ModelRegistry::new();
    let a = reg.add_object(mesh(1, 3, 0));
    let model = reg.add_model(vec![a], Vec::new(), false, false).unwrap();
    let inst = reg.instantiate_model(model).unwrap();
    assert_ne!(inst, model);
    let copy = reg.get_instance(inst).unwrap().mesh_object_ids[0];
    assert_ne!(copy, a);
    let b = reg.add_object(mesh(2, 3, 0));
    assert!(b != a && b != copy);
}

#[test]
fn cpu_skinned_instances_get_their_own_buffers() {
    let mut reg: ModelRegistry<MaterialType> = ModelRegistry::new();
    let a = reg.add_object(mesh(10, 6, 0));
    let cpu = reg.add_model(vec![a], Vec::new(), true, false).unwrap();
    let gpu = reg.add_model(vec![a], Vec::new(), true, true).unwrap();
    let rigid = reg.add_model(vec![a], Vec::new(), false, false).unwrap();
    assert_eq!(reg.needs_own_buffers(cpu), Some(true));
    assert_eq!(reg.needs_own_buffers(gpu), Some(false));
    assert_eq!(reg.needs_own_buffers(rigid), Some(false));
    assert_eq!(reg.needs_own_buffers(99), None);
    let inst = reg.instantiate_model(cpu).unwrap();
    let copy = reg.get_instance(inst).unwrap().mesh_object_ids[0];
    assert_eq!(reg.get_object(copy), Some(mesh(10, 6, 0)));
    assert!(reg.set_object_buffer(copy, 77));
    assert_eq!(reg.get_object(copy), Some(mesh(77, 6, 0)));
    assert_eq!(reg.get_object(a), Some(mesh(10, 6, 0)));
    assert!(!reg.set_object_buffer(999, 1));
}

#[test]
fn destroying_a_model_removes_it_its_objects_materials_and_instances() {
    let mut reg: ModelRegistry<MaterialType> = ModelRegistry::new();
    let a = reg.add_object(mesh(1, 3, 0));
    let keep = reg.add_object(mesh(2, 3, 0));
    let mat = reg.create_material(MaterialType::Phong);
    assert!(reg.set_object_material(a, mat));
    let model = reg.add_model(vec![a], vec![mat], false, false).unwrap();
    let other = reg.add_model(vec![keep], Vec::new(), false, false).unwrap();
    let inst = reg.instantiate_model(model).unwrap();
    let other_inst = reg.instantiate_model(other).unwrap();
    let copy = reg.get_instance(inst).unwrap().mesh_object_ids[0];
    let copy_mat = reg.get_instance(inst).unwrap().mesh_material_ids[0];
    assert!(reg.destroy_model(model));
    assert!(reg.get_model(model).is_none());
    assert!(reg.get_instance(inst).is_none());
    assert_eq!(reg.get_object(a), None);
    assert_eq!(reg.get_object(copy), None);
    assert_eq!(reg.get_object_material(a), None);
    assert_eq!(reg.get_object_material(copy), None);
    assert_eq!(reg.get_material(mat), None);
    assert_eq!(reg.get_material(copy_mat), None);
    // Everything else stays.
    assert!(reg.get_model(other).is_some());
    assert!(reg.get_instance(other_inst).is_some());
    assert_eq!(reg.get_object(keep), Some(mesh(2, 3, 0)));
    assert!(!reg.destroy_model(model));
}

#[test]
fn destroying_an_instance_by_id_leaves_its_model() {
    let mut reg: ModelRegistry<MaterialType> = ModelRegistry::new();
    let a = reg.add_object(mesh(1, 3, 0));
    let mat = reg.create_material(MaterialType::Unlit);
    let model = reg.add_model(vec![a], vec![mat], false, false).unwrap();
    let inst = reg.instantiate_model(model).unwrap();
    let copy = reg.get_instance(inst).unwrap().mesh_object_ids[0];
    assert!(reg.destroy_model(inst));
    assert!(reg.get_instance(inst).is_none());
    assert_eq!(reg.get_object(copy), None);
    assert!(reg.get_model(model).is_some());
    assert_eq!(reg.get_object(a), Some(mesh(1, 3, 0)));
    assert_eq!(reg.get_material(mat), Some(&MaterialType::Unlit));
    assert!(!reg.destroy_model_instance(inst));
    assert!(!reg.destroy_model(12345));
}
