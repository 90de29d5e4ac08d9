//! Material bookkeeping. The material values here are shading models; the
//! library treats material values as opaque.
use goud_engine::config::MaterialType;
use goud_engine::materials::MaterialLibrary;

#[test]
fn test_material_create_and_retrieve() {
    let mut lib: MaterialLibrary<MaterialType> = MaterialLibrary::new();
    let id = lib.create_material(MaterialType::Pbr);
    assert_ne!(id, 0);
    let retrieved = lib.get_material(id).expect("material should exist");
    assert_eq!(*retrieved, MaterialType::Pbr);
}

#[test]
fn test_material_update_and_remove() {
    let mut lib: MaterialLibrary<MaterialType> = MaterialLibrary::new();
    let id = lib.create_material(MaterialType::Phong);
    assert!(lib.update_material(id, MaterialType::Unlit));
    assert_eq!(lib.get_material(id), Some(&MaterialType::Unlit));
    assert!(!lib.update_material(9999, MaterialType::Phong));
    assert!(lib.remove_material(id));
    assert!(!lib.remove_material(id));
}

#[test]
fn test_object_material_binding() {
    let mut lib: MaterialLibrary<MaterialType> = MaterialLibrary::new();
    let obj_id = 1;
    let mat_id = lib.create_material(MaterialType::Phong);
    assert!(lib.set_object_material(obj_id, mat_id, true));
    assert_eq!(lib.get_object_material(obj_id), Some(mat_id));
    assert!(!lib.set_object_material(9999, mat_id, false));
    assert_eq!(lib.get_object_material(9999), None);
}

#[test]
fn material_ids_increase_from_one() {
    let mut lib: MaterialLibrary<u8> = MaterialLibrary::new();
    assert_eq!(lib.create_material(1), 1);
    assert_eq!(lib.create_material(2), 2);
    assert!(lib.remove_material(1));
    assert_eq!(lib.create_material(3), 3);
    assert_eq!(lib.get_material(1), None);
}

#[test]
fn destroying_objects_and_materials() {
    let mut lib: MaterialLibrary<u8> = MaterialLibrary::new();
    let m1 = lib.create_material(1);
    let m2 = lib.create_material(2);
    lib.set_object_material(10, m1, true);
    lib.set_object_material(11, m2, true);
    lib.unbind_objects(&vec![10, 12]);
    assert_eq!(lib.get_object_material(10), None);
    assert_eq!(lib.get_object_material(11), Some(m2));
    lib.remove_materials(&vec![m1, 99]);
    assert_eq!(lib.get_material(m1), None);
    assert_eq!(lib.get_material(m2), Some(&2));
}
