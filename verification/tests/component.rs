use ecs::component::{same_component_type, ComponentStorage, DenseComponentStorage};
use ecs::components::Name;
use ecs::entity::Entity;

fn entity(id: u32) -> Entity {
    Entity { id, generation: 0 }
}

#[test]
fn new_storage_is_empty() {
    let storage: DenseComponentStorage<u32> = DenseComponentStorage::default();
    assert_eq!(storage.get(entity(0)), None);
}

#[test]
fn storage_returns_what_was_inserted() {
    let mut storage = DenseComponentStorage::default();
    storage.insert(entity(3), 30u32);
    storage.insert(entity(4), 40u32);
    assert_eq!(storage.get(entity(3)), Some(&30));
    assert_eq!(storage.get(entity(4)), Some(&40));
    assert_eq!(storage.get(entity(5)), None);
}

#[test]
fn storage_insert_overwrites() {
    let mut storage = DenseComponentStorage::default();
    storage.insert(entity(3), 30u32);
    storage.insert(entity(3), 31u32);
    assert_eq!(storage.get(entity(3)), Some(&31));
}

#[test]
fn storage_is_keyed_by_id_alone() {
    let mut storage = DenseComponentStorage::default();
    storage.insert(Entity { id: 3, generation: 0 }, 30u32);
    assert_eq!(storage.get(Entity { id: 3, generation: 9 }), Some(&30));
}

#[test]
fn storage_get_mut_changes_in_place() {
    let mut storage = DenseComponentStorage::default();
    storage.insert(entity(3), 30u32);
    storage.insert(entity(4), 40u32);
    if let Some(value) = storage.get_mut(entity(3)) {
        *value += 5;
    }
    assert_eq!(storage.get(entity(3)), Some(&35));
    assert_eq!(storage.get(entity(4)), Some(&40));
}

#[test]
fn storage_get_mut_of_missing_entry_is_none() {
    let mut storage: DenseComponentStorage<u32> = DenseComponentStorage::default();
    storage.insert(entity(3), 30);
    assert!(storage.get_mut(entity(4)).is_none());
    assert_eq!(storage.get(entity(3)), Some(&30));
    assert_eq!(storage.get(entity(4)), None);
}

#[test]
fn storage_remove_deletes_one_entry() {
    let mut storage = DenseComponentStorage::default();
    storage.insert(entity(3), 30u32);
    storage.insert(entity(4), 40u32);
    storage.remove(entity(3));
    assert_eq!(storage.get(entity(3)), None);
    assert_eq!(storage.get(entity(4)), Some(&40));
}

#[test]
fn storage_remove_of_missing_entry_does_nothing() {
    let mut storage = DenseComponentStorage::default();
    storage.insert(entity(3), 30u32);
    storage.remove(entity(9));
    assert_eq!(storage.get(entity(3)), Some(&30));
}

#[test]
fn name_from_str() {
    let name = Name::from("player");
    assert_eq!(name.0, "player");
}

#[test]
fn name_from_string() {
    let name = Name::from(String::from("npc"));
    assert_eq!(name.0, "npc");
}

#[test]
fn name_default_is_new_entity() {
    assert_eq!(Name::default().0, "New Entity");
}

#[test]
fn a_type_is_the_same_as_itself() {
    assert!(same_component_type::<u32, u32>());
    assert!(same_component_type::<Name, Name>());
    assert!(same_component_type::<Box<u32>, Box<u32>>());
}

#[test]
fn different_types_are_told_apart() {
    assert!(!same_component_type::<u32, u64>());
    assert!(!same_component_type::<u32, i32>());
    assert!(!same_component_type::<u32, Box<u32>>());
    assert!(!same_component_type::<Name, String>());
    assert!(!same_component_type::<(), u8>());
}
