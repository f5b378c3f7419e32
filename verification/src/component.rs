//! Components and their storage.
//!
//! A component is any plain value attached to an entity. Each component type
//! has one [`DenseComponentStorage`], a table from entity id to value. So
//! that tables of unrelated types can sit in one collection, the world holds
//! each table behind a handle that forgets the component type.
//!
//! The model follows that split. What a handle holds is stated without the
//! component type, for every component type: a [`TypeKey`] and a map from id
//! to [`Erased`] component. What a caller who names the type reads is that
//! map taken back to the type, by [`recover_all`]. Taking a component back
//! gives the component that went in for every type whose values an integer
//! code can tell apart ([`plain`]); that is proved here, in
//! [`lemma_recover`], and claimed of no other type.

use crate::entity::Entity;
use std::any::Any;
use std::collections::hash_map::Entry;
use std::collections::HashMap;
use vstd::prelude::*;
use vstd::relations::injective;
use vstd::std_specs::hash::group_hash_axioms;

verus! {

broadcast use group_hash_axioms;

/// What can be attached to an entity: any value that owns its data and may
/// cross threads.
pub trait Component: 'static + Send + Sync {

}

impl<T: 'static + Send + Sync> Component for T {

}

/// The values of `T` can be told apart by an integer code: some function
/// from `T` to the integers gives no two values the same code.
pub open spec fn plain<T>() -> bool {
    exists|code: spec_fn(T) -> int| injective(code)
}

/// A code that tells the values of `T` apart, where `T` is plain.
pub open spec fn encoding<T>() -> spec_fn(T) -> int {
    choose|code: spec_fn(T) -> int| injective(code)
}

/// What a value still shows once its type is forgotten.
pub trait Coded {
    /// The code of the value under the encoding of its type.
    spec fn code(&self) -> int;
}

/// A value together with its type, as it stands behind an [`Erased`].
pub struct Typed<T> {
    pub value: T,
}

impl<T> Coded for Typed<T> {
    open spec fn code(&self) -> int {
        encoding::<T>()(self.value)
    }
}

/// A component whose type has been forgotten.
pub struct Erased {
    pub value: Box<dyn Coded>,
}

/// The identity of a component type, as a value: a fixed component of the
/// type, with the type forgotten.
pub struct TypeKey {
    pub witness: Erased,
}

/// `value` with its type forgotten.
pub open spec fn erase<T: 'static>(value: T) -> Erased {
    Erased { value: Box::new(Typed { value }) }
}

/// A component of type `T` that `erased` stands for. For a plain type it is
/// the one component that was erased; see [`lemma_recover`].
pub open spec fn recover<T: 'static>(erased: Erased) -> T {
    choose|value: T| erase(value) == erased
}

/// The key under which components of type `T` are stored.
pub open spec fn type_key<T: 'static>() -> TypeKey {
    TypeKey { witness: erase(arbitrary::<T>()) }
}

/// A table of components with the type of its values forgotten.
pub open spec fn erase_all<T: 'static>(values: Map<u32, T>) -> Map<u32, Erased> {
    values.map_values(|value: T| erase(value))
}

/// A type-erased table read as a table of `T`.
pub open spec fn recover_all<T: 'static>(entries: Map<u32, Erased>) -> Map<u32, T> {
    entries.map_values(|erased: Erased| recover::<T>(erased))
}

/// A type is plain as soon as one code is shown to tell its values apart.
pub proof fn lemma_plain<T>(code: spec_fn(T) -> int)
    requires
        injective(code),
    ensures
        plain::<T>(),
{
}

/// Forgetting the type of a component of a plain type loses nothing: taken
/// back, it is the component that went in.
pub proof fn lemma_recover<T: 'static>(value: T)
    requires
        plain::<T>(),
    ensures
        recover::<T>(erase(value)) == value,
{
    let back = recover::<T>(erase(value));
    assert(erase(back) == erase(value));
    assert(erase(back).value.code() == Typed { value: back }.code());
    assert(erase(value).value.code() == Typed { value }.code());
    assert(injective(encoding::<T>()));
}

/// Forgetting the type of a table of a plain type loses nothing.
pub proof fn lemma_recover_all<T: 'static>(values: Map<u32, T>)
    requires
        plain::<T>(),
    ensures
        recover_all::<T>(erase_all(values)) == values,
{
    assert forall|id: u32| values.contains_key(id) implies recover::<T>(
        #[trigger] erase_all(values)[id],
    ) == values[id] by {
        lemma_recover(values[id]);
    }
    assert(recover_all::<T>(erase_all(values)) =~= values);
}

/// Storing a component in a type-erased table of a plain type stores it in
/// the table read as that type.
pub proof fn lemma_recover_insert<T: 'static>(entries: Map<u32, Erased>, id: u32, value: T)
    requires
        plain::<T>(),
    ensures
        recover_all::<T>(entries.insert(id, erase(value))) == recover_all::<T>(entries).insert(
            id,
            value,
        ),
{
    lemma_recover(value);
    assert(recover_all::<T>(entries.insert(id, erase(value))) =~= recover_all::<T>(
        entries,
    ).insert(id, value));
}

/// What a component table holds, said without its component type.
pub struct Table {
    /// The key of the component type.
    pub key: TypeKey,
    /// The entries, by entity id, with their type forgotten.
    pub entries: Map<u32, Erased>,
}

/// A shared reference to a component table whose type is known only at run
/// time.
///
/// Trusted: this stands for std's `&dyn Any`, a type that cannot be named
/// in verified code. What it refers to is named by [`any_table`].
#[verifier::external_body]
pub struct AnyRef<'a> {
    inner: &'a dyn Any,
}

/// An exclusive reference to a component table whose type is known only at
/// run time.
///
/// Trusted: this stands for std's `&mut dyn Any`, a type that cannot be
/// named in verified code. What it refers to is named by [`any_mut_table`],
/// and what it refers to when the borrow ends by [`any_mut_final`].
#[verifier::external_body]
pub struct AnyMut<'a> {
    inner: &'a mut dyn Any,
}

/// The table that `any` refers to.
pub uninterp spec fn any_table(any: AnyRef) -> Table;

/// The table that `any` refers to, as it is when the reference is made.
pub uninterp spec fn any_mut_table(any: AnyMut) -> Table;

/// The table that `any` refers to, as it is when the borrow ends.
pub uninterp spec fn any_mut_final(any: AnyMut) -> Table;

impl<'a> AnyRef<'a> {
    /// Trusted: the coercion of a reference to a table to std's `&dyn Any`.
    /// The result refers to `table`.
    #[verifier::external_body]
    pub(crate) fn new<T: 'static>(table: &'a DenseComponentStorage<T>) -> (any: AnyRef<'a>)
        ensures
            any_table(any) == (Table { key: type_key::<T>(), entries: erase_all(table@) }),
    {
        AnyRef { inner: table }
    }

    /// The table referred to, if it is a table of `T`.
    ///
    /// Trusted: this is std's `<dyn Any>::downcast_ref`. std hands out the
    /// value referred to exactly when its concrete type is the one asked
    /// for, which for a table is when its key is that of `T`. The table
    /// handed out is the one referred to: its components, with their type
    /// forgotten, are the entries referred to.
    #[verifier::external_body]
    pub(crate) fn downcast_ref<T: 'static>(self) -> (table: Option<&'a DenseComponentStorage<T>>)
        ensures
            table is Some <==> any_table(self).key == type_key::<T>(),
            table matches Some(dense) ==> any_table(self).entries == erase_all(dense@),
    {
        self.inner.downcast_ref::<DenseComponentStorage<T>>()
    }
}

impl<'a> AnyMut<'a> {
    /// Trusted: the coercion of an exclusive reference to a table to std's
    /// `&mut dyn Any`. The result refers to `table`, now and when the borrow
    /// ends.
    #[verifier::external_body]
    pub(crate) fn new<T: 'static>(table: &'a mut DenseComponentStorage<T>) -> (any: AnyMut<'a>)
        ensures
            any_mut_table(any) == (Table { key: type_key::<T>(), entries: erase_all(old(table)@) }),
            any_mut_final(any) == (Table { key: type_key::<T>(), entries: erase_all(final(table)@) }),
    {
        AnyMut { inner: table }
    }

    /// The table referred to, if it is a table of `T`, to be changed in
    /// place.
    ///
    /// Trusted: this is std's `<dyn Any>::downcast_mut`. std hands out the
    /// value referred to exactly when its concrete type is the one asked
    /// for, which for a table is when its key is that of `T`; otherwise the
    /// value stays as it is. The table handed out is the one referred to:
    /// when the reference is made and when the borrow ends, the entries
    /// referred to are the table's components with their type forgotten.
    #[verifier::external_body]
    pub(crate) fn downcast_mut<T: 'static>(self) -> (table: Option<
        &'a mut DenseComponentStorage<T>,
    >)
        ensures
            table is Some <==> any_mut_table(self).key == type_key::<T>(),
            match table {
                Some(dense) => {
                    &&& any_mut_table(self).entries == erase_all(dense@)
                    &&& any_mut_final(self).key == any_mut_table(self).key
                    &&& any_mut_final(self).entries == erase_all(final(dense)@)
                },
                None => any_mut_final(self) == any_mut_table(self),
            },
    {
        self.inner.downcast_mut::<DenseComponentStorage<T>>()
    }
}

/// What every component table can do without knowing its component type:
/// drop an entity's entry, and show itself as a value of run-time type.
pub trait ComponentStorage {
    /// The key of the component type that this table holds.
    spec fn key(&self) -> TypeKey;

    /// The entries of this table, by entity id, with their type forgotten.
    spec fn entries(&self) -> Map<u32, Erased>;

    /// Deletes the entry of `entity.id` where there is one.
    fn remove(&mut self, entity: Entity)
        ensures
            final(self).key() == old(self).key(),
            final(self).entries() == old(self).entries().remove(entity.id),
    ;

    /// A reference to this table as a value of run-time type, to be cast
    /// back to its concrete type.
    fn as_any(&self) -> (any: AnyRef<'_>)
        ensures
            any_table(any) == (Table { key: self.key(), entries: self.entries() }),
    ;

    /// An exclusive reference to this table as a value of run-time type, to
    /// be cast back to its concrete type and changed. The table ends up as
    /// what is left behind the reference.
    fn as_any_mut(&mut self) -> (any: AnyMut<'_>)
        ensures
            any_mut_table(any) == (Table { key: old(self).key(), entries: old(self).entries() }),
            any_mut_final(any) == (Table {
                key: final(self).key(),
                entries: final(self).entries(),
            }),
    ;
}

/// The table of all components of type `T`, by entity id.
///
/// The table is keyed by id alone: it does not know which generation of a
/// slot an entry was written for.
pub struct DenseComponentStorage<T> {
    data: HashMap<u32, T>,
}

impl<T> View for DenseComponentStorage<T> {
    type V = Map<u32, T>;

    closed spec fn view(&self) -> Map<u32, T> {
        self.data@
    }
}

impl<T> Default for DenseComponentStorage<T> {
    fn default() -> (storage: Self)
        ensures
            storage@ == Map::<u32, T>::empty(),
    {
        DenseComponentStorage { data: HashMap::new() }
    }
}

impl<T> DenseComponentStorage<T> {
    /// Sets the component of `entity.id`, replacing the one it had.
    pub fn insert(&mut self, entity: Entity, component: T)
        ensures
            final(self)@ == old(self)@.insert(entity.id, component),
    {
        self.data.insert(entity.id, component);
    }

    /// The component of `entity.id`, if it has one.
    pub fn get(&self, entity: Entity) -> (component: Option<&T>)
        ensures
            match component {
                Some(value) => self@.contains_key(entity.id) && *value == self@[entity.id],
                None => !self@.contains_key(entity.id),
            },
    {
        self.data.get(&entity.id)
    }

    /// The component of `entity.id`, if it has one, to be changed in place.
    /// The table ends up holding whatever the caller leaves there.
    pub fn get_mut(&mut self, entity: Entity) -> (component: Option<&mut T>)
        ensures
            match component {
                Some(value) => {
                    &&& old(self)@.contains_key(entity.id)
                    &&& *value == old(self)@[entity.id]
                    &&& final(self)@ == old(self)@.insert(entity.id, *final(value))
                },
                None => !old(self)@.contains_key(entity.id) && final(self)@ == old(self)@,
            },
    {
        match self.data.entry(entity.id) {
            Entry::Occupied(occupied) => Some(occupied.into_mut()),
            Entry::Vacant(_) => None,
        }
    }
}

impl<T: 'static> ComponentStorage for DenseComponentStorage<T> {
    open spec fn key(&self) -> TypeKey {
        type_key::<T>()
    }

    open spec fn entries(&self) -> Map<u32, Erased> {
        erase_all(self@)
    }

    fn remove(&mut self, entity: Entity)
        ensures
            final(self)@ == old(self)@.remove(entity.id),
    {
        self.data.remove(&entity.id);
    }

    fn as_any(&self) -> AnyRef<'_> {
        AnyRef::new(self)
    }

    fn as_any_mut(&mut self) -> AnyMut<'_> {
        AnyMut::new(self)
    }
}

/// An owned component table of a type that the handle does not name.
pub(crate) struct StorageHandle {
    storage: Box<dyn ComponentStorage>,
}

impl StorageHandle {
    /// The key of the component type that the table holds.
    pub(crate) closed spec fn key(&self) -> TypeKey {
        self.storage.key()
    }

    /// The entries of the table, by entity id, with their type forgotten.
    pub(crate) closed spec fn entries(&self) -> Map<u32, Erased> {
        self.storage.entries()
    }

    /// A handle to a new, empty table of `T`.
    pub(crate) fn new<T: Component>() -> (handle: StorageHandle)
        ensures
            handle.key() == type_key::<T>(),
            handle.entries() == Map::<u32, Erased>::empty(),
    {
        StorageHandle { storage: Box::new(DenseComponentStorage::<T>::default()) }
    }

    /// The table behind the handle, if it is a table of `T`.
    fn downcast_ref<T: Component>(&self) -> (table: Option<&DenseComponentStorage<T>>)
        ensures
            table is Some <==> self.key() == type_key::<T>(),
            table matches Some(dense) ==> self.entries() == erase_all(dense@),
    {
        self.storage.as_any().downcast_ref::<T>()
    }

    /// The table behind the handle, if it is a table of `T`, to be changed
    /// in place. The handle ends up holding what is left in the table.
    fn downcast_mut<T: Component>(&mut self) -> (table: Option<&mut DenseComponentStorage<T>>)
        ensures
            table is Some <==> old(self).key() == type_key::<T>(),
            final(self).key() == old(self).key(),
            match table {
                Some(dense) => {
                    &&& old(self).entries() == erase_all(dense@)
                    &&& final(self).entries() == erase_all(final(dense)@)
                },
                None => final(self).entries() == old(self).entries(),
            },
    {
        self.storage.as_any_mut().downcast_mut::<T>()
    }

    /// Whether this is the table of `T`.
    pub(crate) fn holds<T: Component>(&self) -> (holds: bool)
        ensures
            holds == (self.key() == type_key::<T>()),
    {
        self.downcast_ref::<T>().is_some()
    }

    /// Deletes the entry of `entity.id` where there is one, whatever the
    /// component type.
    pub(crate) fn remove(&mut self, entity: Entity)
        ensures
            final(self).key() == old(self).key(),
            final(self).entries() == old(self).entries().remove(entity.id),
    {
        self.storage.remove(entity);
    }

    /// Sets the component of `entity.id` in the table of `T`.
    pub(crate) fn insert<T: Component>(&mut self, entity: Entity, component: T)
        requires
            old(self).key() == type_key::<T>(),
        ensures
            final(self).key() == old(self).key(),
            final(self).entries() == old(self).entries().insert(entity.id, erase(component)),
    {
        match self.downcast_mut::<T>() {
            Some(dense) => {
                dense.insert(entity, component);
            },
            None => {},
        }
    }

    /// The component of `entity.id`, if this is the table of `T` and the id
    /// has an entry.
    pub(crate) fn get<T: Component>(&self, entity: Entity) -> (component: Option<&T>)
        ensures
            match component {
                Some(value) => {
                    &&& self.key() == type_key::<T>()
                    &&& self.entries().contains_key(entity.id)
                    &&& self.entries()[entity.id] == erase(*value)
                },
                None => self.key() == type_key::<T>() ==> !self.entries().contains_key(entity.id),
            },
    {
        match self.downcast_ref::<T>() {
            Some(dense) => dense.get(entity),
            None => None,
        }
    }

    /// The component of `entity.id`, if this is the table of `T` and the id
    /// has an entry, to be changed in place.
    pub(crate) fn get_mut<T: Component>(&mut self, entity: Entity) -> (component: Option<&mut T>)
        ensures
            final(self).key() == old(self).key(),
            match component {
                Some(value) => {
                    &&& old(self).key() == type_key::<T>()
                    &&& old(self).entries().contains_key(entity.id)
                    &&& old(self).entries()[entity.id] == erase(*value)
                    &&& final(self).entries() == old(self).entries().insert(
                        entity.id,
                        erase(*final(value)),
                    )
                },
                None => {
                    &&& final(self).entries() == old(self).entries()
                    &&& old(self).key() == type_key::<T>() ==> !old(self).entries().contains_key(
                        entity.id,
                    )
                },
            },
    {
        match self.downcast_mut::<T>() {
            Some(dense) => dense.get_mut(entity),
            None => None,
        }
    }
}

/// Whether `A` and `B` are one component type, found out at run time.
pub fn same_component_type<A: Component, B: Component>() -> (same: bool)
    ensures
        same == (type_key::<A>() == type_key::<B>()),
{
    StorageHandle::new::<A>().holds::<B>()
}

} // verus!
