use crate::error::EcsError;
use crate::storage::{read_slot, Component};
use std::any::TypeId;
use vstd::prelude::*;

verus! {

/// The mathematical content of a world: how many entities exist, and for every
/// registered component type the column of its slots.
pub struct WorldView<C> {
    /// The number of entities created so far. The valid handles are `0 .. entities`.
    pub entities: nat,
    /// The columns, by the key of the component type each is registered for.
    pub columns: Map<TypeId, Seq<Option<C>>>,
}

impl<C: Component> WorldView<C> {
    /// The world without entities and without columns.
    pub open spec fn empty() -> Self {
        WorldView { entities: 0, columns: Map::empty() }
    }

    /// Every column has exactly one slot per entity.
    pub open spec fn in_lockstep(self) -> bool {
        forall|key: TypeId|
            self.columns.dom().contains(key) ==> (#[trigger] self.columns[key]).len() == self.entities
    }

    /// Every payload sits in the column of its own type.
    pub open spec fn well_typed(self) -> bool {
        forall|key: TypeId, entity: int|
            self.columns.dom().contains(key) && 0 <= entity < self.columns[key].len() ==> (
            #[trigger] self.columns[key][entity] matches Some(c) ==> c.type_key() == key)
    }

    /// The invariant of a world.
    pub open spec fn wf(self) -> bool {
        self.in_lockstep() && self.well_typed()
    }

    /// Whether `entity` is the handle of an existing entity.
    pub open spec fn valid_entity(self, entity: int) -> bool {
        0 <= entity < self.entities
    }

    /// The handle that the next creation of an entity hands out.
    pub open spec fn next_handle(self) -> nat {
        self.entities
    }

    /// Whether a column is registered for the component type `key`.
    pub open spec fn has_storage(self, key: TypeId) -> bool {
        self.columns.dom().contains(key)
    }

    /// Whether `entity` holds a component of type `key`.
    pub open spec fn has_component(self, entity: int, key: TypeId) -> bool {
        &&& self.has_storage(key)
        &&& 0 <= entity < self.columns[key].len()
        &&& self.columns[key][entity] is Some
    }

    /// The world after one more entity has been created: every column has
    /// grown by an empty slot. The new entity's handle is `next_handle()`.
    pub open spec fn create_entity(self) -> Self {
        WorldView {
            entities: self.entities + 1,
            columns: Map::new(
                |key: TypeId| self.columns.dom().contains(key),
                |key: TypeId| self.columns[key].push(None),
            ),
        }
    }

    /// Registering a column for `key`: refused where one exists, else the new
    /// column holds an empty slot for every existing entity.
    pub open spec fn init_storage(self, key: TypeId) -> Result<Self, EcsError> {
        if self.has_storage(key) {
            Err(EcsError::DuplicateStorageError)
        } else {
            Ok(
                WorldView {
                    entities: self.entities,
                    columns: self.columns.insert(
                        key,
                        Seq::new(self.entities, |entity: int| None::<C>),
                    ),
                },
            )
        }
    }

    /// The world in which slot `entity` of the column `key` holds `component`
    /// and everything else is as before.
    pub open spec fn replace_slot(self, entity: int, key: TypeId, component: C) -> Self {
        WorldView {
            entities: self.entities,
            columns: self.columns.insert(key, self.columns[key].update(entity, Some(component))),
        }
    }

    /// Overwriting the slot of `entity` in the column of `component`'s type.
    pub open spec fn set_component(self, entity: int, component: C) -> Result<Self, EcsError> {
        let key = component.type_key();
        if !self.has_storage(key) {
            Err(EcsError::MissingStorageError)
        } else if !self.valid_entity(entity) {
            Err(EcsError::OutOfRangeEntity)
        } else {
            Ok(self.replace_slot(entity, key, component))
        }
    }

    /// Attaching `component` to `entity`: the column of its type is registered
    /// first where it is missing. An invalid handle changes nothing.
    pub open spec fn add_component(self, entity: int, component: C) -> Result<Self, EcsError> {
        if !self.valid_entity(entity) {
            Err(EcsError::OutOfRangeEntity)
        } else {
            match self.init_storage(component.type_key()) {
                Ok(registered) => registered.set_component(entity, component),
                Err(_) => self.set_component(entity, component),
            }
        }
    }

    /// Attaching `components` to `entity` one after the other, first to last.
    pub open spec fn add_components(self, entity: int, components: Seq<C>) -> Self
        decreases components.len(),
    {
        if components.len() == 0 {
            self
        } else {
            match self.add_components(entity, components.drop_last()).add_component(
                entity,
                components.last(),
            ) {
                Ok(attached) => attached,
                Err(_) => self,
            }
        }
    }

    /// Reading the component of type `key` that `entity` holds, if any.
    pub open spec fn get_component(self, entity: int, key: TypeId) -> Result<Option<C>, EcsError> {
        if !self.has_storage(key) {
            Err(EcsError::MissingStorageError)
        } else if !self.valid_entity(entity) {
            Err(EcsError::OutOfRangeEntity)
        } else {
            Ok(self.columns[key][entity])
        }
    }

    /// Whether `entity` holds a component of every type in `required`.
    pub open spec fn has_all(self, entity: int, required: Seq<TypeId>) -> bool {
        forall|i: int| 0 <= i < required.len() ==> self.has_component(entity, #[trigger] required[i])
    }

    /// The handles below `bound` of the entities that hold a component of
    /// every type in `required`, in ascending order.
    pub open spec fn matching_below(self, required: Seq<TypeId>, bound: nat) -> Seq<usize>
        decreases bound,
    {
        if bound == 0 {
            Seq::empty()
        } else {
            let rest = self.matching_below(required, (bound - 1) as nat);
            if self.has_all(bound - 1, required) {
                rest.push((bound - 1) as usize)
            } else {
                rest
            }
        }
    }

    /// The entities that hold a component of every type in `required`, in
    /// ascending order.
    pub open spec fn matching(self, required: Seq<TypeId>) -> Seq<usize> {
        self.matching_below(required, self.entities)
    }

    /// Creating an entity keeps every column in lockstep with the entity count.
    pub proof fn lemma_create_entity_wf(self)
        requires
            self.wf(),
        ensures
            self.create_entity().wf(),
            self.create_entity().entities == self.entities + 1,
            forall|key: TypeId| #[trigger]
                self.create_entity().has_storage(key) <==> self.has_storage(key),
            forall|key: TypeId|
                self.create_entity().has_storage(key) ==> (#[trigger] self.create_entity().columns[key]).len()
                    == self.create_entity().entities,
    {
    }

    /// Registering a column keeps the invariant.
    pub proof fn lemma_init_storage_wf(self, key: TypeId)
        requires
            self.wf(),
        ensures
            self.init_storage(key) matches Ok(after) ==> after.wf(),
    {
    }

    /// Replacing a payload by one of the column's own type keeps the invariant.
    pub proof fn lemma_replace_slot_wf(self, entity: int, key: TypeId, component: C)
        requires
            self.wf(),
        ensures
            self.has_storage(key) && self.valid_entity(entity) && component.type_key() == key
                ==> self.replace_slot(entity, key, component).wf(),
    {
    }

    /// Overwriting a slot keeps the invariant.
    pub proof fn lemma_set_component_wf(self, entity: int, component: C)
        requires
            self.wf(),
        ensures
            self.set_component(entity, component) matches Ok(after) ==> after.wf(),
    {
    }

    /// Attaching a component succeeds on every valid handle and keeps the invariant.
    pub proof fn lemma_add_component_wf(self, entity: int, component: C)
        requires
            self.wf(),
        ensures
            self.valid_entity(entity) <==> self.add_component(entity, component) is Ok,
            self.add_component(entity, component) matches Ok(after) ==> after.wf()
                && after.entities == self.entities,
    {
        self.lemma_init_storage_wf(component.type_key());
        match self.init_storage(component.type_key()) {
            Ok(registered) => registered.lemma_set_component_wf(entity, component),
            Err(_) => self.lemma_set_component_wf(entity, component),
        }
    }

    /// The world after `n` more entities have been created, one after the other.
    pub open spec fn create_entities(self, n: nat) -> Self
        decreases n,
    {
        if n == 0 {
            self
        } else {
            self.create_entities((n - 1) as nat).create_entity()
        }
    }

    /// Successive creations hand out ascending handles, each once: the
    /// creation that follows `n` others returns the first handle plus `n`.
    /// In a world that starts empty, that is `n` itself.
    pub proof fn lemma_handles_ascend(self, n: nat)
        ensures
            self.create_entities(n).next_handle() == self.next_handle() + n,
            Self::empty().create_entities(n).next_handle() == n,
            forall|m: nat|
                m < n ==> (#[trigger] self.create_entities(m)).next_handle() < self.create_entities(
                    n,
                ).next_handle(),
    {
        Self::empty().lemma_entities_after(n);
        self.lemma_entities_after(n);
        assert forall|m: nat| m < n implies (#[trigger] self.create_entities(m)).next_handle()
            < self.create_entities(n).next_handle() by {
            self.lemma_entities_after(m);
        }
    }

    proof fn lemma_entities_after(self, n: nat)
        ensures
            self.create_entities(n).entities == self.entities + n,
        decreases n,
    {
        if n > 0 {
            self.lemma_entities_after((n - 1) as nat);
        }
    }

    /// Only creating an entity moves the next handle: registering a column
    /// and attaching or overwriting a component leave it as it is.
    pub proof fn lemma_handles_stay(self, entity: int, key: TypeId, component: C)
        ensures
            self.init_storage(key) matches Ok(after) ==> after.next_handle() == self.next_handle(),
            self.set_component(entity, component) matches Ok(after) ==> after.next_handle()
                == self.next_handle(),
            self.add_component(entity, component) matches Ok(after) ==> after.next_handle()
                == self.next_handle(),
    {
    }

    /// A component that was attached to an entity is what reading that
    /// entity's component of the same type yields.
    pub proof fn lemma_add_then_get(self, entity: int, component: C)
        requires
            self.wf(),
            self.valid_entity(entity),
        ensures
            self.add_component(entity, component) matches Ok(after) && after.get_component(
                entity,
                component.type_key(),
            ) == Ok::<Option<C>, EcsError>(Some(component)),
    {
    }

    /// Attaching or overwriting a component changes what one entity holds of
    /// one type: reading any other entity, or any other registered type,
    /// yields what it yielded before.
    pub proof fn lemma_add_leaves_others(
        self,
        entity: int,
        component: C,
        other: int,
        key: TypeId,
    )
        requires
            self.wf(),
            self.has_storage(key),
            other != entity || key != component.type_key(),
        ensures
            self.add_component(entity, component) matches Ok(after) ==> after.get_component(
                other,
                key,
            ) == self.get_component(other, key),
            self.set_component(entity, component) matches Ok(after) ==> after.get_component(
                other,
                key,
            ) == self.get_component(other, key),
    {
    }

    /// Creating an entity and registering a column change nothing that an
    /// existing entity holds.
    pub proof fn lemma_growth_keeps_components(self, entity: int, key: TypeId, new_key: TypeId)
        requires
            self.wf(),
            self.valid_entity(entity),
            self.has_storage(key),
        ensures
            self.create_entity().get_component(entity, key) == self.get_component(entity, key),
            self.init_storage(new_key) matches Ok(after) ==> after.get_component(entity, key)
                == self.get_component(entity, key),
    {
    }

    /// In a well-formed world a read never meets a payload of another type:
    /// reading a slot of the column registered for `key` as a payload of type
    /// `key` yields what reading the component yields, and that is never
    /// `ComponentTypeMismatch`.
    pub proof fn lemma_reads_never_mismatch(self, entity: int, key: TypeId)
        requires
            self.wf(),
        ensures
            self.has_storage(key) ==> read_slot(self.columns[key], entity, key)
                == self.get_component(entity, key),
            self.get_component(entity, key) != Err::<Option<C>, EcsError>(
                EcsError::ComponentTypeMismatch,
            ),
    {
    }

    /// An entity holds a component of a type exactly when reading it yields
    /// a payload.
    pub proof fn lemma_has_is_get_some(self, entity: int, key: TypeId)
        requires
            self.wf(),
        ensures
            self.has_component(entity, key) <==> (self.get_component(entity, key) matches Ok(
                Some(_),
            )),
    {
    }

    /// An entity that was given no component of a registered type holds
    /// none: reading it yields `None`, not an error. This holds of a newly
    /// created entity and of every entity in a newly registered column.
    pub proof fn lemma_never_given_is_absent(self, entity: int, key: TypeId)
        requires
            self.wf(),
        ensures
            self.has_storage(key) ==> self.create_entity().get_component(self.entities as int, key)
                == Ok::<Option<C>, EcsError>(None),
            self.valid_entity(entity) ==> (self.init_storage(key) matches Ok(after)
                ==> after.get_component(entity, key) == Ok::<Option<C>, EcsError>(None)),
    {
    }

    /// Registering a column for the same type twice fails the second time
    /// with `DuplicateStorageError`.
    pub proof fn lemma_init_storage_twice(self, key: TypeId)
        ensures
            self.init_storage(key) matches Ok(after) ==> after.init_storage(key) == Err::<
                Self,
                EcsError,
            >(EcsError::DuplicateStorageError),
            self.has_storage(key) ==> self.init_storage(key) == Err::<Self, EcsError>(
                EcsError::DuplicateStorageError,
            ),
    {
    }

    /// Reading or overwriting a component of a type for which no column is
    /// registered fails with `MissingStorageError`, whatever the entity.
    pub proof fn lemma_unregistered_is_missing(self, entity: int, component: C)
        requires
            !self.has_storage(component.type_key()),
        ensures
            self.get_component(entity, component.type_key()) == Err::<Option<C>, EcsError>(
                EcsError::MissingStorageError,
            ),
            self.set_component(entity, component) == Err::<Self, EcsError>(
                EcsError::MissingStorageError,
            ),
    {
    }

    /// The matches below a bound are ascending, and they are exactly the
    /// handles below the bound that hold every required type.
    pub proof fn lemma_matching_below(self, required: Seq<TypeId>, bound: nat)
        requires
            bound <= usize::MAX,
        ensures
            forall|i: int, j: int|
                0 <= i < j < self.matching_below(required, bound).len() ==> self.matching_below(
                    required,
                    bound,
                )[i] < self.matching_below(required, bound)[j],
            forall|e: usize|
                #[trigger] self.matching_below(required, bound).contains(e) <==> e < bound
                    && self.has_all(e as int, required),
        decreases bound,
    {
        if bound > 0 {
            let rest = self.matching_below(required, (bound - 1) as nat);
            let all = self.matching_below(required, bound);
            self.lemma_matching_below(required, (bound - 1) as nat);
            assert forall|i: int| 0 <= i < rest.len() implies #[trigger] rest[i] < bound - 1 by {
                assert(rest.contains(rest[i]));
            }
            assert forall|e: usize| #[trigger] all.contains(e) <==> e < bound && self.has_all(
                e as int,
                required,
            ) by {
                if all.contains(e) {
                    let i = choose|i: int| 0 <= i < all.len() && all[i] == e;
                    if i < rest.len() {
                        assert(rest.contains(rest[i]));
                    }
                }
                if e < bound && self.has_all(e as int, required) {
                    if e < bound - 1 {
                        assert(rest.contains(e));
                        let i = choose|i: int| 0 <= i < rest.len() && rest[i] == e;
                        assert(all[i] == e);
                    } else {
                        assert(all[all.len() - 1] == e);
                    }
                }
            }
        }
    }

    /// A query yields exactly the entities that hold every required type,
    /// each once, in ascending order.
    pub proof fn lemma_matching_exact(self, required: Seq<TypeId>)
        requires
            self.entities <= usize::MAX,
        ensures
            forall|i: int, j: int|
                0 <= i < j < self.matching(required).len() ==> self.matching(required)[i]
                    < self.matching(required)[j],
            forall|e: usize|
                #[trigger] self.matching(required).contains(e) <==> self.valid_entity(e as int)
                    && self.has_all(e as int, required),
    {
        self.lemma_matching_below(required, self.entities);
    }

    /// Requiring more types yields fewer entities: every match of a query is
    /// a match of each query that requires a subset of its types.
    pub proof fn lemma_matching_narrows(self, fewer: Seq<TypeId>, more: Seq<TypeId>)
        requires
            self.entities <= usize::MAX,
            forall|key: TypeId| fewer.contains(key) ==> more.contains(key),
        ensures
            forall|e: usize| #[trigger]
                self.matching(more).contains(e) ==> self.matching(fewer).contains(e),
    {
        self.lemma_matching_exact(fewer);
        self.lemma_matching_exact(more);
        assert forall|e: usize| self.matching(more).contains(e) implies self.matching(
            fewer,
        ).contains(e) by {
            assert forall|i: int| 0 <= i < fewer.len() implies self.has_component(
                e as int,
                #[trigger] fewer[i],
            ) by {
                assert(fewer.contains(fewer[i]));
                let j = choose|j: int| 0 <= j < more.len() && more[j] == fewer[i];
                assert(self.has_component(e as int, more[j]));
            }
        }
    }

    /// The order in which the required types were added does not matter:
    /// two queries that require the same types yield the same entities.
    pub proof fn lemma_matching_ignores_order(self, one: Seq<TypeId>, other: Seq<TypeId>)
        requires
            forall|key: TypeId| one.contains(key) <==> other.contains(key),
        ensures
            self.matching(one) == self.matching(other),
    {
        self.lemma_same_types_below(one, other, self.entities);
    }

    proof fn lemma_same_types_below(self, one: Seq<TypeId>, other: Seq<TypeId>, bound: nat)
        requires
            forall|key: TypeId| one.contains(key) <==> other.contains(key),
        ensures
            self.matching_below(one, bound) == self.matching_below(other, bound),
        decreases bound,
    {
        if bound > 0 {
            self.lemma_same_types_below(one, other, (bound - 1) as nat);
            let e = bound - 1;
            if self.has_all(e, one) {
                assert forall|i: int| 0 <= i < other.len() implies self.has_component(
                    e,
                    #[trigger] other[i],
                ) by {
                    assert(other.contains(other[i]));
                    let j = choose|j: int| 0 <= j < one.len() && one[j] == other[i];
                    assert(self.has_component(e, one[j]));
                }
            }
            if self.has_all(e, other) {
                assert forall|i: int| 0 <= i < one.len() implies self.has_component(
                    e,
                    #[trigger] one[i],
                ) by {
                    assert(one.contains(one[i]));
                    let j = choose|j: int| 0 <= j < other.len() && other[j] == one[i];
                    assert(self.has_component(e, other[j]));
                }
            }
        }
    }
}

} // verus!
