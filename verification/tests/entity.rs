use ecs::entity::{Entity, EntityManager};

#[test]
fn fresh_ids_count_up_from_zero() {
    let mut manager = EntityManager::default();
    assert_eq!(manager.create(), Entity { id: 0, generation: 0 });
    assert_eq!(manager.create(), Entity { id: 1, generation: 0 });
    assert_eq!(manager.create(), Entity { id: 2, generation: 0 });
}

#[test]
fn created_entity_is_alive() {
    let mut manager = EntityManager::default();
    let e = manager.create();
    assert!(manager.is_alive(e));
}

#[test]
fn unknown_id_is_not_alive() {
    let mut manager = EntityManager::default();
    manager.create();
    assert!(!manager.is_alive(Entity { id: 1, generation: 0 }));
    assert!(!manager.is_alive(Entity { id: u32::MAX, generation: 0 }));
}

#[test]
fn empty_manager_has_nothing_alive() {
    let manager = EntityManager::default();
    assert!(!manager.is_alive(Entity { id: 0, generation: 0 }));
    assert_eq!(manager.alive_iter(), vec![]);
}

#[test]
fn wrong_generation_is_not_alive() {
    let mut manager = EntityManager::default();
    let e = manager.create();
    assert!(!manager.is_alive(Entity { id: e.id, generation: 1 }));
}

#[test]
fn destroy_kills_the_entity() {
    let mut manager = EntityManager::default();
    let e = manager.create();
    manager.destroy(e);
    assert!(!manager.is_alive(e));
}

#[test]
fn freed_slot_is_dead_even_at_its_new_generation() {
    let mut manager = EntityManager::default();
    let e = manager.create();
    manager.destroy(e);
    // The slot now stands at generation 1, but it waits in the free queue.
    assert!(!manager.is_alive(Entity { id: e.id, generation: 1 }));
}

#[test]
fn recycled_slot_comes_back_one_generation_up() {
    let mut manager = EntityManager::default();
    let e = manager.create();
    manager.destroy(e);
    let again = manager.create();
    assert_eq!(again, Entity { id: 0, generation: 1 });
    manager.destroy(again);
    assert_eq!(manager.create(), Entity { id: 0, generation: 2 });
}

#[test]
fn free_slots_are_reused_oldest_first() {
    let mut manager = EntityManager::default();
    let a = manager.create();
    let b = manager.create();
    let c = manager.create();
    manager.destroy(b);
    manager.destroy(a);
    manager.destroy(c);
    assert_eq!(manager.create(), Entity { id: 1, generation: 1 });
    assert_eq!(manager.create(), Entity { id: 0, generation: 1 });
    assert_eq!(manager.create(), Entity { id: 2, generation: 1 });
    // The queue is empty again: the next id is fresh.
    assert_eq!(manager.create(), Entity { id: 3, generation: 0 });
}

#[test]
fn destroy_of_a_dead_entity_changes_nothing() {
    let mut manager = EntityManager::default();
    let a = manager.create();
    let b = manager.create();
    manager.destroy(a);
    manager.destroy(a);
    // A second destroy must not bump the generation or queue the id twice.
    assert_eq!(manager.create(), Entity { id: 0, generation: 1 });
    assert_eq!(manager.create(), Entity { id: 2, generation: 0 });
    assert!(manager.is_alive(b));
}

#[test]
fn destroy_of_an_unknown_entity_changes_nothing() {
    let mut manager = EntityManager::default();
    let a = manager.create();
    manager.destroy(Entity { id: 7, generation: 0 });
    manager.destroy(Entity { id: 0, generation: 3 });
    assert!(manager.is_alive(a));
    assert_eq!(manager.create(), Entity { id: 1, generation: 0 });
}

#[test]
fn one_slot_never_has_two_generations_alive() {
    let mut manager = EntityManager::default();
    let mut issued: Vec<Entity> = Vec::new();
    for round in 0..5u32 {
        let a = manager.create();
        let b = manager.create();
        issued.push(a);
        issued.push(b);
        if round % 2 == 0 {
            manager.destroy(a);
        } else {
            manager.destroy(b);
            manager.destroy(a);
        }
        for x in &issued {
            for y in &issued {
                if x.id == y.id && x.generation != y.generation {
                    assert!(!(manager.is_alive(*x) && manager.is_alive(*y)));
                }
            }
        }
    }
}

#[test]
fn destroyed_handle_stays_dead_after_reuse() {
    let mut manager = EntityManager::default();
    let old = manager.create();
    manager.destroy(old);
    for _ in 0..4 {
        let reissued = manager.create();
        assert_eq!(reissued.id, old.id);
        assert!(manager.is_alive(reissued));
        assert!(!manager.is_alive(old));
        manager.destroy(reissued);
        assert!(!manager.is_alive(old));
        assert!(!manager.is_alive(reissued));
    }
}

#[test]
fn alive_iter_lists_alive_entities_by_id() {
    let mut manager = EntityManager::default();
    let a = manager.create();
    let b = manager.create();
    let c = manager.create();
    assert_eq!(manager.alive_iter(), vec![a, b, c]);
    manager.destroy(b);
    assert_eq!(manager.alive_iter(), vec![a, c]);
    let d = manager.create();
    assert_eq!(d, Entity { id: 1, generation: 1 });
    assert_eq!(manager.alive_iter(), vec![a, d, c]);
}

#[test]
fn alive_iter_can_be_run_again() {
    let mut manager = EntityManager::default();
    manager.create();
    manager.create();
    assert_eq!(manager.alive_iter(), manager.alive_iter());
}

#[test]
fn entities_compare_by_both_fields() {
    assert_eq!(Entity { id: 1, generation: 2 }, Entity { id: 1, generation: 2 });
    assert_ne!(Entity { id: 1, generation: 2 }, Entity { id: 1, generation: 3 });
    assert_ne!(Entity { id: 1, generation: 2 }, Entity { id: 2, generation: 2 });
    let e = Entity { id: 4, generation: 5 };
    let copy = e;
    assert_eq!(e, copy);
}

#[test]
fn a_manager_far_from_its_limits_can_create_and_destroy() {
    let mut manager = EntityManager::default();
    assert!(manager.can_create());
    let e = manager.create();
    assert!(manager.can_create());
    assert!(manager.can_destroy(e));
    manager.destroy(e);
    assert!(manager.can_create());
}

#[test]
fn destroy_is_always_possible_for_a_dead_entity() {
    let mut manager = EntityManager::default();
    let e = manager.create();
    assert!(manager.can_destroy(Entity { id: e.id, generation: u32::MAX }));
    assert!(manager.can_destroy(Entity { id: 9, generation: u32::MAX }));
}
