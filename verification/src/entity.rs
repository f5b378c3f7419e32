//! Entity handles and the manager that issues, recycles and validates them.
//!
//! An entity is a slot index together with the generation of the slot at
//! the time the handle was issued. Destroying an entity bumps the slot's
//! generation, so every handle issued earlier for that slot goes stale.

use std::collections::VecDeque;
use vstd::prelude::*;

verus! {

/// A handle to a slot of the entity table: the slot's index and the
/// generation of the slot that the handle was issued for.
#[derive(Copy, Clone, Debug, PartialEq, Eq, Hash, Structural)]
pub struct Entity {
    pub id: u32,
    pub generation: u32,
}

/// The mathematical state of an [`EntityManager`]: the generation of every
/// slot, indexed by id, and the queue of ids waiting to be issued again.
pub struct EntityTable {
    pub generations: Seq<u32>,
    pub free: Seq<u32>,
}

impl EntityTable {
    /// The table with no slots.
    pub open spec fn empty() -> EntityTable {
        EntityTable { generations: Seq::empty(), free: Seq::empty() }
    }

    /// Every id fits in a `u32`, every queued id names a slot, and no id is
    /// queued twice.
    pub open spec fn wf(self) -> bool {
        &&& self.generations.len() <= u32::MAX + 1
        &&& self.free.no_duplicates()
        &&& forall|k: int| 0 <= k < self.free.len() ==> (#[trigger] self.free[k]) < self.generations.len()
    }

    /// The slot `id` is queued for reuse.
    pub open spec fn is_free(self, id: u32) -> bool {
        self.free.contains(id)
    }

    /// `entity` names a slot of the table, carries the slot's current
    /// generation, and the slot is not queued for reuse.
    pub open spec fn is_alive(self, entity: Entity) -> bool {
        &&& entity.id < self.generations.len()
        &&& self.generations[entity.id as int] == entity.generation
        &&& !self.is_free(entity.id)
    }

    /// `entity` names a slot whose generation has moved past the handle's.
    pub open spec fn is_stale(self, entity: Entity) -> bool {
        &&& entity.id < self.generations.len()
        &&& self.generations[entity.id as int] > entity.generation
    }

    /// There is an id left to issue: a queued one, or a fresh one that still
    /// fits in a `u32`.
    pub open spec fn can_create(self) -> bool {
        self.free.len() > 0 || self.generations.len() <= u32::MAX
    }

    /// The entity that the next `create` issues: the head of the free queue
    /// with its slot's generation, or a fresh slot at generation 0.
    pub open spec fn created(self) -> Entity {
        if self.free.len() > 0 {
            Entity { id: self.free[0], generation: self.generations[self.free[0] as int] }
        } else {
            Entity { id: self.generations.len() as u32, generation: 0 }
        }
    }

    /// The table after the next `create`.
    pub open spec fn create(self) -> EntityTable {
        if self.free.len() > 0 {
            EntityTable { generations: self.generations, free: self.free.drop_first() }
        } else {
            EntityTable { generations: self.generations.push(0), free: self.free }
        }
    }

    /// Destroying `entity` does not overflow its slot's generation.
    pub open spec fn can_destroy(self, entity: Entity) -> bool {
        self.is_alive(entity) ==> entity.generation < u32::MAX
    }

    /// The table after `destroy(entity)`: unchanged unless `entity` is alive,
    /// in which case its slot's generation goes up by one and its id joins
    /// the back of the free queue.
    pub open spec fn destroy(self, entity: Entity) -> EntityTable {
        if self.is_alive(entity) {
            EntityTable {
                generations: self.generations.update(
                    entity.id as int,
                    (entity.generation + 1) as u32,
                ),
                free: self.free.push(entity.id),
            }
        } else {
            self
        }
    }

    /// The handle that is alive in slot `id`, where there is one.
    pub open spec fn handle(self, id: int) -> Entity {
        Entity { id: id as u32, generation: self.generations[id] }
    }

    /// The alive entities among the first `n` slots, by increasing id.
    pub open spec fn alive_below(self, n: nat) -> Seq<Entity>
        decreases n,
    {
        if n == 0 {
            Seq::empty()
        } else if self.is_free((n - 1) as u32) {
            self.alive_below((n - 1) as nat)
        } else {
            self.alive_below((n - 1) as nat).push(self.handle(n - 1))
        }
    }

    /// All alive entities, by increasing id.
    pub open spec fn alive(self) -> Seq<Entity> {
        self.alive_below(self.generations.len())
    }

    /// `op` can be carried out on this table.
    pub open spec fn admits(self, op: EntityOp) -> bool {
        match op {
            EntityOp::Create => self.can_create(),
            EntityOp::Destroy(entity) => self.can_destroy(entity),
        }
    }

    /// The table after `op`.
    pub open spec fn apply(self, op: EntityOp) -> EntityTable {
        match op {
            EntityOp::Create => self.create(),
            EntityOp::Destroy(entity) => self.destroy(entity),
        }
    }

    /// Every operation of `ops` can be carried out in turn, starting here.
    pub open spec fn admits_all(self, ops: Seq<EntityOp>) -> bool
        decreases ops.len(),
    {
        ops.len() == 0 || (self.admits(ops[0]) && self.apply(ops[0]).admits_all(ops.drop_first()))
    }

    /// The table after carrying out `ops` in turn.
    pub open spec fn apply_all(self, ops: Seq<EntityOp>) -> EntityTable
        decreases ops.len(),
    {
        if ops.len() == 0 {
            self
        } else {
            self.apply(ops[0]).apply_all(ops.drop_first())
        }
    }
}

/// A call on an [`EntityManager`] that changes its table.
pub enum EntityOp {
    Create,
    Destroy(Entity),
}

/// Allocates, recycles and validates entity handles.
pub struct EntityManager {
    generations: Vec<u32>,
    free: VecDeque<u32>,
}

impl View for EntityManager {
    type V = EntityTable;

    closed spec fn view(&self) -> EntityTable {
        EntityTable { generations: self.generations@, free: self.free@ }
    }
}

impl Default for EntityManager {
    fn default() -> (manager: EntityManager)
        ensures
            manager@ == EntityTable::empty(),
            manager.wf(),
    {
        EntityManager { generations: Vec::new(), free: VecDeque::new() }
    }
}

impl EntityManager {
    /// The invariant of the manager; see [`EntityTable::wf`].
    pub open spec fn wf(&self) -> bool {
        self@.wf()
    }

    /// Whether `id` waits in the free queue.
    fn is_free(&self, id: u32) -> (free: bool)
        ensures
            free == self@.is_free(id),
    {
        let mut k: usize = 0;
        while k < self.free.len()
            invariant
                k <= self.free@.len(),
                forall|j: int| 0 <= j < k ==> self.free@[j] != id,
            decreases self.free@.len() - k,
        {
            if self.free[k] == id {
                return true;
            }
            k += 1;
        }
        false
    }

    /// Whether `create` has an id left to issue.
    pub fn can_create(&self) -> (room: bool)
        ensures
            room == self@.can_create(),
    {
        self.free.len() > 0 || self.generations.len() <= u32::MAX as usize
    }

    /// Whether `destroy(entity)` stays within the range of generations.
    pub fn can_destroy(&self, entity: Entity) -> (fits: bool)
        ensures
            fits == self@.can_destroy(entity),
    {
        entity.generation < u32::MAX || !self.is_alive(entity)
    }

    /// Issues an entity: the oldest freed slot at its current generation, or
    /// a fresh slot at generation 0 when none is free.
    pub fn create(&mut self) -> (entity: Entity)
        requires
            old(self).wf(),
            old(self)@.can_create(),
        ensures
            final(self).wf(),
            final(self)@ == old(self)@.create(),
            entity == old(self)@.created(),
            final(self)@.is_alive(entity),
    {
        proof {
            lemma_create(self@);
        }
        match self.free.pop_front() {
            Some(id) => {
                let generation = self.generations[id as usize];
                Entity { id, generation }
            },
            None => {
                let id = self.generations.len() as u32;
                self.generations.push(0);
                Entity { id, generation: 0 }
            },
        }
    }

    /// Retires `entity` if it is alive: bumps its slot's generation and
    /// queues the slot for reuse. Does nothing otherwise.
    pub fn destroy(&mut self, entity: Entity)
        requires
            old(self).wf(),
            old(self)@.can_destroy(entity),
        ensures
            final(self).wf(),
            final(self)@ == old(self)@.destroy(entity),
            !final(self)@.is_alive(entity),
    {
        proof {
            lemma_destroy(self@, entity);
        }
        if self.is_alive(entity) {
            let id = entity.id as usize;
            let generation = self.generations[id];
            self.generations.set(id, generation + 1);
            self.free.push_back(entity.id);
        }
    }

    /// Whether `entity` is the handle currently issued for its slot.
    pub fn is_alive(&self, entity: Entity) -> (alive: bool)
        ensures
            alive == self@.is_alive(entity),
    {
        let id = entity.id as usize;
        if id < self.generations.len() {
            self.generations[id] == entity.generation && !self.is_free(entity.id)
        } else {
            false
        }
    }

    /// The entities alive at the time of the call, by increasing id.
    pub fn alive_iter(&self) -> (alive: Vec<Entity>)
        requires
            self.wf(),
        ensures
            alive@ == self@.alive(),
    {
        let mut alive: Vec<Entity> = Vec::new();
        let mut id: usize = 0;
        while id < self.generations.len()
            invariant
                self.wf(),
                id <= self.generations@.len(),
                alive@ == self@.alive_below(id as nat),
            decreases self.generations@.len() - id,
        {
            if !self.is_free(id as u32) {
                alive.push(Entity { id: id as u32, generation: self.generations[id] });
            }
            id += 1;
        }
        alive
    }
}

/// `create` keeps the table well formed and the entity it issues is alive.
pub proof fn lemma_create(table: EntityTable)
    requires
        table.wf(),
        table.can_create(),
    ensures
        table.create().wf(),
        table.create().is_alive(table.created()),
{
    let next = table.create();
    if table.free.len() > 0 {
        assert forall|k: int| 0 <= k < next.free.len() implies (#[trigger] next.free[k])
            < next.generations.len() by {
            assert(next.free[k] == table.free[k + 1]);
        }
        assert(next.free.no_duplicates()) by {
            assert forall|i: int, j: int|
                0 <= i < next.free.len() && 0 <= j < next.free.len() && i != j implies next.free[i]
                != next.free[j] by {
                assert(next.free[i] == table.free[i + 1]);
                assert(next.free[j] == table.free[j + 1]);
            }
        }
        assert(!next.free.contains(table.free[0])) by {
            if next.free.contains(table.free[0]) {
                let k = choose|k: int| 0 <= k < next.free.len() && next.free[k] == table.free[0];
                assert(table.free[k + 1] == table.free[0]);
            }
        }
    } else {
        assert(table.free =~= Seq::empty());
    }
}

/// `destroy` keeps the table well formed and leaves `entity` dead. Where
/// `entity` was alive, its slot's generation is one more than the handle's
/// and its id is the last of the free queue, queued once.
pub proof fn lemma_destroy(table: EntityTable, entity: Entity)
    requires
        table.wf(),
        table.can_destroy(entity),
    ensures
        table.destroy(entity).wf(),
        !table.destroy(entity).is_alive(entity),
        table.is_alive(entity) ==> {
            &&& table.destroy(entity).generations[entity.id as int] == entity.generation + 1
            &&& table.destroy(entity).free == table.free.push(entity.id)
            &&& table.destroy(entity).free.no_duplicates()
            &&& table.destroy(entity).is_stale(entity)
        },
{
    let next = table.destroy(entity);
    if table.is_alive(entity) {
        assert(next.free.no_duplicates()) by {
            assert forall|i: int, j: int|
                0 <= i < next.free.len() && 0 <= j < next.free.len() && i != j implies next.free[i]
                != next.free[j] by {
                if i < table.free.len() {
                    assert(table.free.contains(table.free[i]));
                }
                if j < table.free.len() {
                    assert(table.free.contains(table.free[j]));
                }
            }
        }
    }
}

/// Two alive handles for one slot are the same handle: a slot never has two
/// generations alive at once.
pub proof fn lemma_one_generation_alive(table: EntityTable, a: Entity, b: Entity)
    requires
        table.is_alive(a),
        table.is_alive(b),
        a.id == b.id,
    ensures
        a == b,
{
}

/// Any history of creations and destructions keeps the table well formed.
pub proof fn lemma_history_wf(table: EntityTable, ops: Seq<EntityOp>)
    requires
        table.wf(),
        table.admits_all(ops),
    ensures
        table.apply_all(ops).wf(),
    decreases ops.len(),
{
    if ops.len() > 0 {
        match ops[0] {
            EntityOp::Create => lemma_create(table),
            EntityOp::Destroy(entity) => lemma_destroy(table, entity),
        }
        lemma_history_wf(table.apply(ops[0]), ops.drop_first());
    }
}

/// A stale handle stays stale, and so dead, whatever is created or destroyed
/// afterwards.
pub proof fn lemma_stale_forever(table: EntityTable, entity: Entity, ops: Seq<EntityOp>)
    requires
        table.is_stale(entity),
        table.admits_all(ops),
    ensures
        table.apply_all(ops).is_stale(entity),
        !table.apply_all(ops).is_alive(entity),
    decreases ops.len(),
{
    if ops.len() > 0 {
        lemma_stale_forever(table.apply(ops[0]), entity, ops.drop_first());
    }
}

/// Once `destroy(entity)` has run on a handle that was alive or already
/// stale, the handle is never alive again, even after its slot is reissued.
pub proof fn lemma_destroyed_never_alive(table: EntityTable, entity: Entity, ops: Seq<EntityOp>)
    requires
        table.is_alive(entity) || table.is_stale(entity),
        table.can_destroy(entity),
        table.destroy(entity).admits_all(ops),
    ensures
        !table.destroy(entity).apply_all(ops).is_alive(entity),
{
    lemma_stale_forever(table.destroy(entity), entity, ops);
}

/// What `alive_below(n)` holds: exactly the alive handles with an id under
/// `n`, each once, by strictly increasing id.
pub proof fn lemma_alive_below(table: EntityTable, n: nat)
    requires
        n <= table.generations.len() <= u32::MAX + 1,
    ensures
        forall|entity: Entity|
            #![trigger table.alive_below(n).contains(entity)]
            #![trigger table.is_alive(entity)]
            table.alive_below(n).contains(entity) <==> (table.is_alive(entity) && entity.id < n),
        forall|i: int, j: int|
            0 <= i < j < table.alive_below(n).len() ==> table.alive_below(n)[i].id
                < table.alive_below(n)[j].id,
    decreases n,
{
    if n > 0 {
        let below = table.alive_below((n - 1) as nat);
        let all = table.alive_below(n);
        lemma_alive_below(table, (n - 1) as nat);
        if table.is_free((n - 1) as u32) {
        } else {
            let last = table.handle(n - 1);
            assert(all == below.push(last));
            assert forall|entity: Entity| all.contains(entity) <==> (table.is_alive(entity)
                && entity.id < n) by {
                if all.contains(entity) {
                    let k = choose|k: int| 0 <= k < all.len() && all[k] == entity;
                    if k < below.len() {
                        assert(below.contains(below[k]));
                    }
                }
                if table.is_alive(entity) && entity.id < n {
                    if entity.id < n - 1 {
                        let k = choose|k: int| 0 <= k < below.len() && below[k] == entity;
                        assert(all[k] == entity);
                    } else {
                        assert(all[below.len() as int] == entity);
                    }
                }
            }
            assert forall|i: int, j: int| 0 <= i < j < all.len() implies all[i].id
                < all[j].id by {
                assert(all[i] == below[i]);
                if j < below.len() {
                    assert(all[j] == below[j]);
                } else {
                    assert(all[j] == last);
                    assert(below.contains(below[i]));
                }
            }
        }
    }
}

/// What `alive()` holds: exactly the alive handles, each once, by strictly
/// increasing id.
pub proof fn lemma_alive(table: EntityTable)
    requires
        table.wf(),
    ensures
        forall|entity: Entity|
            #![trigger table.alive().contains(entity)]
            #![trigger table.is_alive(entity)]
            table.alive().contains(entity) <==> table.is_alive(entity),
        forall|i: int, j: int|
            0 <= i < j < table.alive().len() ==> table.alive()[i].id < table.alive()[j].id,
{
    lemma_alive_below(table, table.generations.len());
}

} // verus!
