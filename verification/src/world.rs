//! The world: the one owner of the entity manager, of every component
//! table and of the label table, and the only way to change any of them.

use crate::component::{
    erase, lemma_recover, lemma_recover_insert, plain, recover, recover_all, type_key, Component,
    Erased, StorageHandle, TypeKey,
};
use crate::entity::{Entity, EntityManager, EntityTable};
use vstd::hash_map::StringHashMap;
use vstd::prelude::*;

verus! {

/// The mathematical state of a [`World`].
///
/// Component tables are kept by the key of their component type, with the
/// type of their values forgotten. [`WorldView::components`] reads one of
/// them back as a table of its type; for a plain type that gives the
/// components that were stored.
pub struct WorldView {
    pub entities: EntityTable,
    pub tables: Map<TypeKey, Map<u32, Erased>>,
    pub labels: Map<Seq<char>, Entity>,
}

impl WorldView {
    /// The world with no entity, no component table and no label.
    pub open spec fn empty() -> WorldView {
        WorldView { entities: EntityTable::empty(), tables: Map::empty(), labels: Map::empty() }
    }

    /// The entries of the table registered under `key`; none where no table
    /// is registered.
    pub open spec fn entries(self, key: TypeKey) -> Map<u32, Erased> {
        if self.tables.contains_key(key) {
            self.tables[key]
        } else {
            Map::empty()
        }
    }

    /// All components of type `T`, by entity id.
    pub open spec fn components<T: Component>(self) -> Map<u32, T> {
        recover_all(self.entries(type_key::<T>()))
    }

    /// The component of type `T` stored for `entity.id`, if there is one.
    pub open spec fn component<T: Component>(self, entity: Entity) -> Option<T> {
        if self.components::<T>().contains_key(entity.id) {
            Some(self.components::<T>()[entity.id])
        } else {
            None
        }
    }

    /// The world after `spawn`.
    pub open spec fn spawn(self) -> WorldView {
        WorldView { entities: self.entities.create(), ..self }
    }

    /// The world after `despawn(entity)`: unchanged unless `entity` is
    /// alive, in which case it is destroyed and every table loses the entry
    /// of its id. Labels stay as they are.
    pub open spec fn despawn(self, entity: Entity) -> WorldView {
        if self.entities.is_alive(entity) {
            WorldView {
                entities: self.entities.destroy(entity),
                tables: self.tables.map_values(
                    |entries: Map<u32, Erased>| entries.remove(entity.id),
                ),
                labels: self.labels,
            }
        } else {
            self
        }
    }

    /// The world after `value` is stored for `id` in the table of `key`,
    /// which is registered if it was not.
    pub open spec fn insert(self, key: TypeKey, id: u32, value: Erased) -> WorldView {
        WorldView { tables: self.tables.insert(key, self.entries(key).insert(id, value)), ..self }
    }

    /// The world after `name` is bound to `entity`.
    pub open spec fn label(self, name: Seq<char>, entity: Entity) -> WorldView {
        WorldView { labels: self.labels.insert(name, entity), ..self }
    }
}

/// No two handles hold the table of one component type.
spec fn distinct_keys(handles: Seq<StorageHandle>) -> bool {
    forall|i: int, j: int|
        0 <= i < handles.len() && 0 <= j < handles.len() && i != j ==> (#[trigger] handles[i].key())
            != (#[trigger] handles[j].key())
}

/// `key` is the key of one of `handles`.
spec fn registered(handles: Seq<StorageHandle>, key: TypeKey) -> bool {
    exists|i: int| 0 <= i < handles.len() && (#[trigger] handles[i].key()) == key
}

/// The place of the handle with `key` among `handles`.
spec fn index_of(handles: Seq<StorageHandle>, key: TypeKey) -> int {
    choose|i: int| 0 <= i < handles.len() && (#[trigger] handles[i].key()) == key
}

/// What `handles` hold, by the key of each.
spec fn tables_of(handles: Seq<StorageHandle>) -> Map<TypeKey, Map<u32, Erased>> {
    Map::new(
        |key: TypeKey| registered(handles, key),
        |key: TypeKey| handles[index_of(handles, key)].entries(),
    )
}

/// The table of a handle is found under the handle's key.
proof fn lemma_tables_at(handles: Seq<StorageHandle>, i: int)
    requires
        distinct_keys(handles),
        0 <= i < handles.len(),
    ensures
        tables_of(handles).contains_key(handles[i].key()),
        tables_of(handles)[handles[i].key()] == handles[i].entries(),
{
    let key = handles[i].key();
    assert(registered(handles, key));
    assert(index_of(handles, key) == i);
}

/// Changing the entries of one handle changes the table under its key and
/// no other.
proof fn lemma_tables_update(handles: Seq<StorageHandle>, i: int, handle: StorageHandle)
    requires
        distinct_keys(handles),
        0 <= i < handles.len(),
        handle.key() == handles[i].key(),
    ensures
        distinct_keys(handles.update(i, handle)),
        tables_of(handles.update(i, handle)) == tables_of(handles).insert(
            handle.key(),
            handle.entries(),
        ),
{
    let updated = handles.update(i, handle);
    assert forall|a: int, b: int|
        0 <= a < updated.len() && 0 <= b < updated.len() && a != b implies (#[trigger] updated[a].key())
        != (#[trigger] updated[b].key()) by {
        assert(updated[a].key() == handles[a].key());
        assert(updated[b].key() == handles[b].key());
    }
    let before = tables_of(handles);
    let after = tables_of(updated);
    let expected = before.insert(handle.key(), handle.entries());
    assert forall|key: TypeKey| after.contains_key(key) <==> expected.contains_key(key) by {
        if registered(updated, key) {
            let k = index_of(updated, key);
            assert(handles[k].key() == key);
        }
        if registered(handles, key) {
            let k = index_of(handles, key);
            assert(updated[k].key() == key);
        }
        if key == handle.key() {
            assert(updated[i].key() == key);
        }
    }
    assert forall|key: TypeKey| after.contains_key(key) implies after[key] == expected[key] by {
        let k = index_of(updated, key);
        lemma_tables_at(updated, k);
        if k != i {
            assert(handles[k].key() == key);
            lemma_tables_at(handles, k);
        }
    }
    assert(after =~= expected);
}

/// A handle with a new key adds its table and leaves the others.
proof fn lemma_tables_push(handles: Seq<StorageHandle>, handle: StorageHandle)
    requires
        distinct_keys(handles),
        !registered(handles, handle.key()),
    ensures
        distinct_keys(handles.push(handle)),
        tables_of(handles.push(handle)) == tables_of(handles).insert(
            handle.key(),
            handle.entries(),
        ),
{
    let pushed = handles.push(handle);
    assert forall|a: int, b: int|
        0 <= a < pushed.len() && 0 <= b < pushed.len() && a != b implies (#[trigger] pushed[a].key())
        != (#[trigger] pushed[b].key()) by {
        if a < handles.len() {
            assert(pushed[a].key() == handles[a].key());
        }
        if b < handles.len() {
            assert(pushed[b].key() == handles[b].key());
        }
    }
    let before = tables_of(handles);
    let after = tables_of(pushed);
    let expected = before.insert(handle.key(), handle.entries());
    assert forall|key: TypeKey| after.contains_key(key) <==> expected.contains_key(key) by {
        if registered(pushed, key) {
            let k = index_of(pushed, key);
            if k < handles.len() {
                assert(handles[k].key() == key);
            }
        }
        if registered(handles, key) {
            let k = index_of(handles, key);
            assert(pushed[k].key() == key);
        }
        if key == handle.key() {
            assert(pushed[handles.len() as int].key() == key);
        }
    }
    assert forall|key: TypeKey| after.contains_key(key) implies after[key] == expected[key] by {
        let k = index_of(pushed, key);
        lemma_tables_at(pushed, k);
        if k < handles.len() {
            assert(handles[k].key() == key);
            lemma_tables_at(handles, k);
        }
    }
    assert(after =~= expected);
}

/// Taking the entry of `id` out of every handle takes it out of every table.
proof fn lemma_tables_swept(before: Seq<StorageHandle>, after: Seq<StorageHandle>, id: u32)
    requires
        distinct_keys(before),
        after.len() == before.len(),
        forall|i: int|
            0 <= i < before.len() ==> (#[trigger] after[i].key()) == before[i].key()
                && after[i].entries() == before[i].entries().remove(id),
    ensures
        distinct_keys(after),
        tables_of(after) == tables_of(before).map_values(
            |entries: Map<u32, Erased>| entries.remove(id),
        ),
{
    assert forall|a: int, b: int|
        0 <= a < after.len() && 0 <= b < after.len() && a != b implies (#[trigger] after[a].key())
        != (#[trigger] after[b].key()) by {
        assert(before[a].key() != before[b].key());
    }
    let expected = tables_of(before).map_values(|entries: Map<u32, Erased>| entries.remove(id));
    assert forall|key: TypeKey| tables_of(after).contains_key(key) <==> expected.contains_key(
        key,
    ) by {
        if registered(after, key) {
            let k = index_of(after, key);
            assert(before[k].key() == key);
        }
        if registered(before, key) {
            let k = index_of(before, key);
            assert(after[k].key() == key);
        }
    }
    assert forall|key: TypeKey| tables_of(after).contains_key(key) implies tables_of(after)[key]
        == expected[key] by {
        let k = index_of(after, key);
        assert(after[k].key() == before[k].key());
        lemma_tables_at(after, k);
        lemma_tables_at(before, k);
    }
    assert(tables_of(after) =~= expected);
}

/// The composition root of the entity-component store.
pub struct World {
    entities: EntityManager,
    storages: Vec<StorageHandle>,
    labels: StringHashMap<Entity>,
}

impl View for World {
    type V = WorldView;

    closed spec fn view(&self) -> WorldView {
        WorldView {
            entities: self.entities@,
            tables: tables_of(self.storages@),
            labels: self.labels@,
        }
    }
}

impl Default for World {
    fn default() -> (world: World)
        ensures
            world.wf(),
            world@ == WorldView::empty(),
    {
        let world = World {
            entities: EntityManager::default(),
            storages: Vec::new(),
            labels: StringHashMap::new(),
        };
        assert(world@.tables =~= Map::empty());
        world
    }
}

impl World {
    /// The invariant of the world: its entity manager is well formed and it
    /// holds at most one table for each component type.
    pub closed spec fn wf(&self) -> bool {
        &&& self.entities.wf()
        &&& distinct_keys(self.storages@)
    }

    /// A well-formed world has a well-formed entity table.
    pub proof fn lemma_wf_entities(&self)
        requires
            self.wf(),
        ensures
            self@.entities.wf(),
    {
    }

    /// The place of the table of `T` among the storages, if it is registered.
    fn find<T: Component>(&self) -> (place: Option<usize>)
        ensures
            match place {
                Some(i) => i < self.storages@.len() && self.storages@[i as int].key()
                    == type_key::<T>(),
                None => !registered(self.storages@, type_key::<T>()),
            },
    {
        let mut i: usize = 0;
        while i < self.storages.len()
            invariant
                i <= self.storages@.len(),
                forall|j: int| 0 <= j < i ==> (#[trigger] self.storages@[j].key()) != type_key::<T>(),
            decreases self.storages@.len() - i,
        {
            if self.storages[i].holds::<T>() {
                return Some(i);
            }
            i += 1;
        }
        None
    }

    /// Issues a new entity. No component table is touched.
    pub fn spawn(&mut self) -> (entity: Entity)
        requires
            old(self).wf(),
            old(self)@.entities.can_create(),
        ensures
            final(self).wf(),
            final(self)@ == old(self)@.spawn(),
            entity == old(self)@.entities.created(),
            final(self)@.entities.is_alive(entity),
    {
        self.entities.create()
    }

    /// Destroys `entity` and takes the entry of its id out of every
    /// component table. Returns `false`, with nothing changed, if `entity`
    /// is not alive.
    pub fn despawn(&mut self, entity: Entity) -> (despawned: bool)
        requires
            old(self).wf(),
            old(self)@.entities.can_destroy(entity),
        ensures
            final(self).wf(),
            despawned == old(self)@.entities.is_alive(entity),
            final(self)@ == old(self)@.despawn(entity),
    {
        if self.entities.is_alive(entity) {
            self.entities.destroy(entity);
            let ghost before = self.storages@;
            let mut i: usize = 0;
            while i < self.storages.len()
                invariant
                    i <= self.storages@.len() == before.len(),
                    self.entities.wf(),
                    self.entities@ == old(self).entities@.destroy(entity),
                    self.labels == old(self).labels,
                    forall|j: int|
                        0 <= j < i ==> (#[trigger] self.storages@[j].key()) == before[j].key()
                            && self.storages@[j].entries() == before[j].entries().remove(entity.id),
                    forall|j: int|
                        i <= j < before.len() ==> (#[trigger] self.storages@[j]) == before[j],
                decreases before.len() - i,
            {
                self.storages[i].remove(entity);
                i += 1;
            }
            proof {
                lemma_tables_swept(before, self.storages@, entity.id);
            }
            true
        } else {
            false
        }
    }

    /// Stores `component` for `entity.id` in the table of `T`, which is
    /// created first if this is the first component of its type. Whether
    /// `entity` is alive is not looked at.
    pub fn insert<T: Component>(&mut self, entity: Entity, component: T)
        requires
            old(self).wf(),
        ensures
            final(self).wf(),
            final(self)@ == old(self)@.insert(type_key::<T>(), entity.id, erase(component)),
            plain::<T>() ==> final(self)@.components::<T>() == old(self)@.components::<T>().insert(
                entity.id,
                component,
            ),
    {
        let place = match self.find::<T>() {
            Some(i) => i,
            None => {
                let handle = StorageHandle::new::<T>();
                proof {
                    lemma_tables_push(self.storages@, handle);
                }
                self.storages.push(handle);
                self.storages.len() - 1
            },
        };
        let ghost registered = self.storages@;
        proof {
            lemma_tables_at(registered, place as int);
        }
        self.storages[place].insert(entity, component);
        proof {
            lemma_tables_update(registered, place as int, self.storages@[place as int]);
            assert(self.storages@ == registered.update(place as int, self.storages@[place as int]));
            assert(self@.tables =~= old(self)@.insert(
                type_key::<T>(),
                entity.id,
                erase(component),
            ).tables);
            if plain::<T>() {
                lemma_insert_reads_back(old(self)@, entity.id, component);
            }
        }
    }

    /// The component of type `T` stored for `entity.id`, if there is one.
    /// Whether `entity` is alive is not looked at.
    pub fn get_component<T: Component>(&self, entity: Entity) -> (component: Option<&T>)
        requires
            self.wf(),
        ensures
            match component {
                Some(value) => {
                    &&& self@.entries(type_key::<T>()).contains_key(entity.id)
                    &&& self@.entries(type_key::<T>())[entity.id] == erase(*value)
                    &&& plain::<T>() ==> self@.component::<T>(entity) == Some(*value)
                },
                None => {
                    &&& !self@.entries(type_key::<T>()).contains_key(entity.id)
                    &&& self@.component::<T>(entity) is None
                },
            },
    {
        match self.find::<T>() {
            Some(i) => {
                proof {
                    lemma_tables_at(self.storages@, i as int);
                }
                let component = self.storages[i].get::<T>(entity);
                proof {
                    if plain::<T>() {
                        if let Some(value) = component {
                            lemma_recover(*value);
                        }
                    }
                }
                component
            },
            None => None,
        }
    }

    /// The component of type `T` stored for `entity.id`, if there is one,
    /// to be changed in place. The world ends up holding whatever the
    /// caller leaves there. Whether `entity` is alive is not looked at.
    pub fn get_component_mut<T: Component>(&mut self, entity: Entity) -> (component: Option<
        &mut T,
    >)
        requires
            old(self).wf(),
        ensures
            final(self).wf(),
            match component {
                Some(value) => {
                    &&& old(self)@.entries(type_key::<T>()).contains_key(entity.id)
                    &&& old(self)@.entries(type_key::<T>())[entity.id] == erase(*value)
                    &&& final(self)@ == old(self)@.insert(
                        type_key::<T>(),
                        entity.id,
                        erase(*final(value)),
                    )
                    &&& plain::<T>() ==> {
                        &&& old(self)@.component::<T>(entity) == Some(*value)
                        &&& final(self)@.components::<T>() == old(self)@.components::<T>().insert(
                            entity.id,
                            *final(value),
                        )
                    }
                },
                None => {
                    &&& !old(self)@.entries(type_key::<T>()).contains_key(entity.id)
                    &&& old(self)@.component::<T>(entity) is None
                    &&& final(self)@ == old(self)@
                },
            },
    {
        match self.find::<T>() {
            Some(i) => {
                proof {
                    let handles = self.storages@;
                    lemma_tables_at(handles, i as int);
                    assert forall|after: StorageHandle|
                        after.key() == handles[i as int].key() implies distinct_keys(
                        #[trigger] handles.update(i as int, after),
                    ) && tables_of(handles.update(i as int, after)) == tables_of(handles).insert(
                        after.key(),
                        after.entries(),
                    ) by {
                        lemma_tables_update(handles, i as int, after);
                    }
                    assert(tables_of(handles).insert(
                        type_key::<T>(),
                        handles[i as int].entries(),
                    ) =~= tables_of(handles));
                    assert forall|value: T| plain::<T>() implies recover::<T>(
                        #[trigger] erase(value),
                    ) == value && self@.insert(
                        type_key::<T>(),
                        entity.id,
                        erase(value),
                    ).components::<T>() == self@.components::<T>().insert(entity.id, value) by {
                        lemma_recover(value);
                        lemma_insert_reads_back(self@, entity.id, value);
                    }
                }
                self.storages[i].get_mut::<T>(entity)
            },
            None => None,
        }
    }

    /// Whether `entity` is alive.
    pub fn is_alive(&self, entity: Entity) -> (alive: bool)
        ensures
            alive == self@.entities.is_alive(entity),
    {
        self.entities.is_alive(entity)
    }

    /// The entity manager, to enumerate the alive entities.
    pub fn entities(&self) -> (manager: &EntityManager)
        ensures
            manager@ == self@.entities,
            self.wf() ==> manager.wf(),
    {
        &self.entities
    }

    /// Binds `name` to `entity`, replacing what the name was bound to.
    pub fn label(&mut self, name: &str, entity: Entity)
        ensures
            final(self).wf() == old(self).wf(),
            final(self)@ == old(self)@.label(name@, entity),
    {
        self.labels.insert(name.to_owned(), entity);
    }

    /// The entity last bound to `name`, alive or not.
    pub fn get_labeled(&self, name: &str) -> (entity: Option<Entity>)
        ensures
            entity == (if self@.labels.contains_key(name@) {
                Some(self@.labels[name@])
            } else {
                None
            }),
    {
        match self.labels.get(name) {
            Some(entity) => Some(*entity),
            None => None,
        }
    }
}

/// After a despawn that took place, the entity has no component of any
/// type, and every other entity has the components it had.
pub proof fn lemma_despawn_sweeps<T: Component>(world: WorldView, entity: Entity)
    requires
        world.entities.is_alive(entity),
    ensures
        world.despawn(entity).component::<T>(entity) is None,
        world.despawn(entity).components::<T>() == world.components::<T>().remove(entity.id),
{
    assert(world.despawn(entity).entries(type_key::<T>()) =~= world.entries(
        type_key::<T>(),
    ).remove(entity.id));
    assert(world.despawn(entity).components::<T>() =~= world.components::<T>().remove(entity.id));
}

/// A second despawn of the same entity finds it dead and changes nothing.
pub proof fn lemma_despawn_twice(world: WorldView, entity: Entity)
    ensures
        !world.despawn(entity).entities.is_alive(entity),
        world.despawn(entity).despawn(entity) == world.despawn(entity),
{
    if world.entities.is_alive(entity) {
        let destroyed = world.entities.destroy(entity);
        assert(destroyed.free[destroyed.free.len() - 1] == entity.id);
    }
}

/// A label is not swept: a name bound to an entity still gives that entity
/// after the entity is despawned, and the entity it gives is dead.
pub proof fn lemma_label_outlives_entity(world: WorldView, name: Seq<char>, entity: Entity)
    ensures
        world.label(name, entity).despawn(entity).labels.contains_key(name),
        world.label(name, entity).despawn(entity).labels[name] == entity,
        !world.label(name, entity).despawn(entity).entities.is_alive(entity),
{
    lemma_despawn_twice(world.label(name, entity), entity);
}

/// A component stored for an entity is the component then read for it, for
/// every plain component type.
pub proof fn lemma_insert_reads_back<T: Component>(world: WorldView, id: u32, component: T)
    requires
        plain::<T>(),
    ensures
        world.insert(type_key::<T>(), id, erase(component)).components::<T>()
            == world.components::<T>().insert(id, component),
{
    lemma_recover_insert(world.entries(type_key::<T>()), id, component);
}

/// Storing a component of one type leaves the components of every other
/// type as they were.
pub proof fn lemma_insert_keeps_other_types<T: Component, U: Component>(
    world: WorldView,
    id: u32,
    component: T,
)
    requires
        type_key::<T>() != type_key::<U>(),
    ensures
        world.insert(type_key::<T>(), id, erase(component)).components::<U>()
            == world.components::<U>(),
{
}

/// Storing a component for one entity leaves the components of that type
/// of every other entity as they were.
pub proof fn lemma_insert_keeps_other_entities<T: Component>(
    world: WorldView,
    id: u32,
    component: T,
    other: Entity,
)
    requires
        other.id != id,
    ensures
        world.insert(type_key::<T>(), id, erase(component)).component::<T>(other)
            == world.component::<T>(other),
{
}

} // verus!
