use crate::error::EcsError;
use crate::model::WorldView;
use crate::storage::{owned, slot_holds, Component, ComponentStorage};
use crate::system::SystemController;
use std::any::TypeId;
use vstd::prelude::*;

verus! {

/// An entity handle: the index of the entity's slot in every column.
pub type Entity = usize;

/// The entities and their components: one column per registered component
/// type, and the counter that hands out entity handles.
pub struct World<C: Component> {
    storage: Vec<ComponentStorage<C>>,
    entity_counter: usize,
}

impl<C: Component> View for World<C> {
    type V = WorldView<C>;

    closed spec fn view(&self) -> WorldView<C> {
        WorldView {
            entities: self.entity_counter as nat,
            columns: Map::new(
                |key: TypeId| self.registered(key),
                |key: TypeId| self.storage@[self.column_of(key)]@,
            ),
        }
    }
}

impl<C: Component> World<C> {
    spec fn registered(&self, key: TypeId) -> bool {
        exists|i: int| 0 <= i < self.storage@.len() && #[trigger] self.storage@[i].key() == key
    }

    spec fn column_of(&self, key: TypeId) -> int {
        choose|i: int| 0 <= i < self.storage@.len() && #[trigger] self.storage@[i].key() == key
    }

    /// No two columns are registered for the same component type.
    pub closed spec fn keys_distinct(&self) -> bool {
        forall|i: int, j: int|
            0 <= i < j < self.storage@.len() ==> self.storage@[i].key() != self.storage@[j].key()
    }

    /// The invariant of a world: its columns have distinct keys, stay in
    /// lockstep with the entity count, and hold payloads of their own type only.
    pub open spec fn wf(&self) -> bool {
        self.keys_distinct() && self@.wf()
    }

    proof fn lemma_column(&self, i: int)
        requires
            self.keys_distinct(),
            0 <= i < self.storage@.len(),
        ensures
            self.registered(self.storage@[i].key()),
            self.column_of(self.storage@[i].key()) == i,
            self@.columns.dom().contains(self.storage@[i].key()),
            self@.columns[self.storage@[i].key()] == self.storage@[i]@,
    {
    }

    /// A world without entities and without columns.
    pub fn new() -> (world: Self)
        ensures
            world.wf(),
            world@ == WorldView::<C>::empty(),
    {
        let world = Self { storage: Vec::new(), entity_counter: 0 };
        assert(world@.columns =~= Map::<TypeId, Seq<Option<C>>>::empty());
        world
    }

    /// The number of entities created so far.
    pub fn get_entity_count(&self) -> (count: usize)
        ensures
            count == self@.entities,
    {
        self.entity_counter
    }

    fn find_storage(&self, key: TypeId) -> (found: Option<usize>)
        ensures
            match found {
                Some(i) => i < self.storage@.len() && self.storage@[i as int].key() == key,
                None => !self.registered(key),
            },
    {
        let n = self.storage.len();
        let mut i: usize = 0;
        while i < n
            invariant
                i <= n,
                n == self.storage@.len(),
                forall|j: int| 0 <= j < i ==> self.storage@[j].key() != key,
            decreases n - i,
        {
            if self.storage[i].check_type_id(key) {
                return Some(i);
            }
            i += 1;
        }
        None
    }

    /// Whether a column is registered for the component type `key`.
    pub fn check_storage_exists(&self, key: TypeId) -> (exists: bool)
        ensures
            exists == self@.has_storage(key),
    {
        self.find_storage(key).is_some()
    }

    /// Registers a column for the component type `key`, with an empty slot for
    /// every existing entity.
    pub fn init_storage(&mut self, key: TypeId) -> (r: Result<(), EcsError>)
        requires
            old(self).wf(),
        ensures
            final(self).wf(),
            match old(self)@.init_storage(key) {
                Ok(after) => r is Ok && final(self)@ == after,
                Err(e) => r == Err::<(), EcsError>(e) && final(self)@ == old(self)@,
            },
    {
        if self.check_storage_exists(key) {
            return Err(EcsError::DuplicateStorageError);
        }
        let mut storage: ComponentStorage<C> = ComponentStorage::new(key);
        let mut i: usize = 0;
        while i < self.entity_counter
            invariant
                i <= self.entity_counter,
                storage.key() == key,
                storage@ == Seq::new(i as nat, |entity: int| None::<C>),
            decreases self.entity_counter - i,
        {
            storage.init();
            i += 1;
        }
        self.storage.push(storage);
        proof {
            let after = old(self)@.init_storage(key)->Ok_0;
            assert forall|k: TypeId| self.registered(k) <==> (k == key || old(self).registered(k)) by {
                if self.registered(k) {
                    let i = self.column_of(k);
                    if i < old(self).storage@.len() {
                        assert(old(self).storage@[i].key() == k);
                    }
                }
                if old(self).registered(k) {
                    let i = old(self).column_of(k);
                    assert(self.storage@[i].key() == k);
                }
                if k == key {
                    assert(self.storage@[old(self).storage@.len() as int].key() == k);
                }
            }
            assert(self.keys_distinct());
            assert forall|k: TypeId| self.registered(k) implies #[trigger] self@.columns[k]
                == after.columns[k] by {
                let i = self.column_of(k);
                self.lemma_column(i);
                if i < old(self).storage@.len() {
                    old(self).lemma_column(i);
                }
            }
            assert(self@.columns =~= after.columns);
            old(self)@.lemma_init_storage_wf(key);
        }
        Ok(())
    }

    /// Creates an entity: every column grows by an empty slot, and the next
    /// handle is handed out.
    pub fn create_entity(&mut self) -> (entity: Entity)
        requires
            old(self).wf(),
            old(self)@.entities < usize::MAX,
        ensures
            final(self).wf(),
            entity == old(self)@.next_handle(),
            final(self)@ == old(self)@.create_entity(),
    {
        let n = self.storage.len();
        let mut i: usize = 0;
        while i < n
            invariant
                i <= n,
                n == self.storage@.len(),
                n == old(self).storage@.len(),
                self.entity_counter == old(self).entity_counter,
                forall|j: int| 0 <= j < n ==> (#[trigger] self.storage@[j]).key() == old(self).storage@[j].key(),
                forall|j: int| 0 <= j < i ==> (#[trigger] self.storage@[j])@ == old(self).storage@[j]@.push(None),
                forall|j: int| i <= j < n ==> (#[trigger] self.storage@[j])@ == old(self).storage@[j]@,
            decreases n - i,
        {
            self.storage[i].init();
            i += 1;
        }
        let entity = self.entity_counter;
        self.entity_counter += 1;
        proof {
            let after = old(self)@.create_entity();
            assert forall|k: TypeId| self.registered(k) <==> old(self).registered(k) by {
                if self.registered(k) {
                    let i = self.column_of(k);
                    assert(old(self).storage@[i].key() == k);
                }
                if old(self).registered(k) {
                    let i = old(self).column_of(k);
                    assert(self.storage@[i].key() == k);
                }
            }
            assert(self.keys_distinct());
            assert forall|k: TypeId| self.registered(k) implies #[trigger] self@.columns[k]
                == after.columns[k] by {
                let i = self.column_of(k);
                self.lemma_column(i);
                old(self).lemma_column(i);
            }
            assert(self@.columns =~= after.columns);
            old(self)@.lemma_create_entity_wf();
        }
        entity
    }

    /// Creates an entity and attaches `components` to it, first to last.
    pub fn create_entity_with_components(&mut self, components: Vec<C>) -> (entity: Entity)
        requires
            old(self).wf(),
            old(self)@.entities < usize::MAX,
        ensures
            final(self).wf(),
            entity == old(self)@.next_handle(),
            final(self)@ == old(self)@.create_entity().add_components(entity as int, components@),
    {
        let entity = self.create_entity();
        let ghost created = self@;
        for component in iter: components
            invariant
                self.wf(),
                self@.entities == created.entities,
                entity < created.entities,
                iter.seq() == components@,
                self@ == created.add_components(entity as int, components@.take(iter.index() as int)),
        {
            proof {
                let done = components@.take(iter.index() as int);
                let next = components@.take(iter.index() + 1);
                assert(next.drop_last() == done);
                assert(next.last() == component);
                self@.lemma_add_component_wf(entity as int, component);
            }
            let _ = self.add_component(entity, component);
        }
        proof {
            assert(components@.take(components@.len() as int) == components@);
        }
        entity
    }

    /// Whether `entity` holds a component of type `key`.
    pub fn has_component(&self, entity: Entity, key: TypeId) -> (has: bool)
        requires
            self.wf(),
        ensures
            has == self@.has_component(entity as int, key),
    {
        let n = self.storage.len();
        let mut i: usize = 0;
        while i < n
            invariant
                i <= n,
                n == self.storage@.len(),
                self.wf(),
                forall|j: int| 0 <= j < i ==> !slot_holds((#[trigger] self.storage@[j])@, entity as int, key),
            decreases n - i,
        {
            if self.storage[i].has(entity, key) {
                proof {
                    self.lemma_column(i as int);
                }
                return true;
            }
            i += 1;
        }
        proof {
            if self@.has_component(entity as int, key) {
                let c = self.column_of(key);
                self.lemma_column(c);
                assert(slot_holds(self.storage@[c]@, entity as int, key));
            }
        }
        false
    }

    /// Attaches `component` to `entity`. Where no column is registered for the
    /// component's type, one is registered first.
    pub fn add_component(&mut self, entity: Entity, component: C) -> (r: Result<(), EcsError>)
        requires
            old(self).wf(),
        ensures
            final(self).wf(),
            match old(self)@.add_component(entity as int, component) {
                Ok(after) => r is Ok && final(self)@ == after,
                Err(e) => r == Err::<(), EcsError>(e) && final(self)@ == old(self)@,
            },
    {
        if entity >= self.entity_counter {
            return Err(EcsError::OutOfRangeEntity);
        }
        let key = component.get_type_id();
        if !self.check_storage_exists(key) {
            match self.init_storage(key) {
                Ok(()) => {},
                Err(e) => {
                    return Err(e);
                },
            }
        }
        self.set_component(entity, component)
    }

    /// Reads the component of type `key` that `entity` holds. An entity
    /// without such a component yields `None`, which is no error.
    pub fn get_component(&self, entity: Entity, key: TypeId) -> (r: Result<Option<&C>, EcsError>)
        requires
            self.wf(),
        ensures
            owned(r) == self@.get_component(entity as int, key),
    {
        match self.find_storage(key) {
            None => Err(EcsError::MissingStorageError),
            Some(i) => {
                proof {
                    self.lemma_column(i as int);
                }
                self.storage[i].get(entity, key)
            },
        }
    }

    /// Hands out, for writing, the component of type `key` that `entity`
    /// holds. What the caller leaves behind the reference is what the entity
    /// holds afterwards; the world stays well-formed if that is still a
    /// payload of type `key`.
    pub fn get_component_mut(&mut self, entity: Entity, key: TypeId) -> (r: Result<
        Option<&mut C>,
        EcsError,
    >)
        requires
            old(self).wf(),
        ensures
            match r {
                Ok(Some(c)) => old(self)@.get_component(entity as int, key) == Ok::<Option<C>, EcsError>(Some(*c))
                    && final(self)@ == old(self)@.replace_slot(entity as int, key, *final(c))
                    && (final(c).type_key() == key ==> final(self).wf()),
                Ok(None) => old(self)@.get_component(entity as int, key) == Ok::<Option<C>, EcsError>(None)
                    && final(self)@ == old(self)@ && final(self).wf(),
                Err(e) => old(self)@.get_component(entity as int, key) == Err::<Option<C>, EcsError>(e)
                    && final(self)@ == old(self)@ && final(self).wf(),
            },
    {
        match self.find_storage(key) {
            None => Err(EcsError::MissingStorageError),
            Some(i) => {
                proof {
                    self.lemma_column(i as int);
                }
                let r = self.storage[i].get_mut(entity, key);
                proof {
                    let after = after_borrow(*self);
                    after.lemma_rewritten(*old(self), i as int);
                    let written = *final(r->Ok_0->0);
                    old(self)@.lemma_replace_slot_wf(entity as int, key, written);
                    assert(r matches Ok(Some(c)) ==> after@.columns =~= old(self)@.replace_slot(
                        entity as int,
                        key,
                        written,
                    ).columns);
                    assert(!(r matches Ok(Some(c))) ==> after@.columns =~= old(self)@.columns);
                }
                r
            },
        }
    }

    /// Overwrites the component of `component`'s type that `entity` holds.
    pub fn set_component(&mut self, entity: Entity, component: C) -> (r: Result<(), EcsError>)
        requires
            old(self).wf(),
        ensures
            final(self).wf(),
            match old(self)@.set_component(entity as int, component) {
                Ok(after) => r is Ok && final(self)@ == after,
                Err(e) => r == Err::<(), EcsError>(e) && final(self)@ == old(self)@,
            },
    {
        let key = component.get_type_id();
        match self.find_storage(key) {
            None => Err(EcsError::MissingStorageError),
            Some(i) => {
                proof {
                    self.lemma_column(i as int);
                }
                let r = self.storage[i].set(entity, component);
                proof {
                    if r is Ok {
                        let after = old(self)@.set_component(entity as int, component)->Ok_0;
                        self.lemma_rewritten(*old(self), i as int);
                        assert(self@.columns =~= after.columns);
                        old(self)@.lemma_set_component_wf(entity as int, component);
                    } else {
                        self.lemma_rewritten(*old(self), i as int);
                        assert(self@.columns =~= old(self)@.columns);
                    }
                }
                r
            },
        }
    }

    /// One tick: every system registered with `systems` runs once against
    /// this world, in the order of registration.
    pub fn update(&mut self, systems: &mut SystemController<C>)
        requires
            old(self).wf(),
            old(systems).wf(),
        ensures
            final(self).wf(),
            final(systems).wf(),
            final(systems)@ == old(systems)@,
            old(systems).ticks(old(self)@, final(self)@),
    {
        systems.update(self);
    }

    proof fn lemma_rewritten(&self, before: Self, i: int)
        requires
            before.keys_distinct(),
            0 <= i < before.storage@.len(),
            self.storage@.len() == before.storage@.len(),
            self.entity_counter == before.entity_counter,
            forall|j: int| 0 <= j < self.storage@.len() ==> (#[trigger] self.storage@[j]).key() == before.storage@[j].key(),
            forall|j: int| 0 <= j < self.storage@.len() && j != i ==> (#[trigger] self.storage@[j])@ == before.storage@[j]@,
        ensures
            self.keys_distinct(),
            self@.entities == before@.entities,
            self@.columns == before@.columns.insert(before.storage@[i].key(), self.storage@[i]@),
    {
        assert forall|k: TypeId| self.registered(k) <==> before.registered(k) by {
            if self.registered(k) {
                let c = self.column_of(k);
                assert(before.storage@[c].key() == k);
            }
            if before.registered(k) {
                let c = before.column_of(k);
                assert(self.storage@[c].key() == k);
            }
        }
        assert(self.keys_distinct());
        let target = before@.columns.insert(before.storage@[i].key(), self.storage@[i]@);
        before.lemma_column(i);
        assert forall|k: TypeId| self.registered(k) implies #[trigger] self@.columns[k] == target[k] by {
            let c = self.column_of(k);
            self.lemma_column(c);
            before.lemma_column(c);
        }
        assert(self@.columns =~= target);
    }
}

} // verus!
