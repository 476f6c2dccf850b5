use crate::error::EcsError;
use crate::type_key::same_key;
use crate::world::Entity;
use std::any::TypeId;
use vstd::prelude::*;

verus! {

/// A component payload. The only thing the runtime asks of a payload is the
/// key of the concrete type it carries.
///
/// One payload type serves a whole world. A world of a single component type
/// takes that type itself; a world of several takes an enum of them, or a box
/// of any type, with one key for each.
pub trait Component: Send + Sync {
    /// The type key of this payload: what `get_type_id` reports. An
    /// implementation in code that is not verified gives it the body of
    /// `get_type_id`.
    spec fn type_key(&self) -> TypeId;

    /// Reports the type key of this payload. The key depends on the payload
    /// alone: asked again, the same payload reports the same key.
    fn get_type_id(&self) -> (id: TypeId)
        ensures
            id == self.type_key(),
    ;
}

/// A result that lends a payload, as a result that holds it.
pub open spec fn owned<C>(lent: Result<Option<&C>, EcsError>) -> Result<Option<C>, EcsError> {
    match lent {
        Ok(Some(c)) => Ok(Some(*c)),
        Ok(None) => Ok(None),
        Err(e) => Err(e),
    }
}

/// What reading slot `index` of `slots` as a payload of type `key` yields:
/// the payload, nothing where the slot is empty, or the reason the read fails.
pub open spec fn read_slot<C: Component>(slots: Seq<Option<C>>, index: int, key: TypeId) -> Result<
    Option<C>,
    EcsError,
> {
    if !(0 <= index < slots.len()) {
        Err(EcsError::OutOfRangeEntity)
    } else {
        match slots[index] {
            None => Ok(None),
            Some(c) => if c.type_key() == key {
                Ok(Some(c))
            } else {
                Err(EcsError::ComponentTypeMismatch)
            },
        }
    }
}

/// Whether slot `index` of `slots` exists and holds a payload of type `key`.
pub open spec fn slot_holds<C: Component>(slots: Seq<Option<C>>, index: int, key: TypeId) -> bool {
    0 <= index < slots.len() && slots[index] is Some && slots[index]->0.type_key() == key
}

/// One column: a slot per entity, each empty or holding a payload, and the key
/// of the component type the column is registered for.
pub struct ComponentStorage<C: Component> {
    components: Vec<Option<C>>,
    pub type_id: TypeId,
}

impl<C: Component> View for ComponentStorage<C> {
    type V = Seq<Option<C>>;

    /// The slots, indexed by entity handle.
    closed spec fn view(&self) -> Seq<Option<C>> {
        self.components@
    }
}

impl<C: Component> ComponentStorage<C> {
    /// The type key the column is registered for.
    pub closed spec fn key(&self) -> TypeId {
        self.type_id
    }

    /// An empty column for the component type `type_id`.
    pub fn new(type_id: TypeId) -> (column: Self)
        ensures
            column@ == Seq::<Option<C>>::empty(),
            column.key() == type_id,
    {
        Self { components: Vec::new(), type_id }
    }

    /// Appends one empty slot.
    pub fn init(&mut self)
        ensures
            final(self)@ == old(self)@.push(None),
            final(self).key() == old(self).key(),
    {
        self.components.push(None);
    }

    /// Registers the column for another component type. The slots stay as they are.
    pub fn set_type_id(&mut self, type_id: TypeId)
        ensures
            final(self).key() == type_id,
            final(self)@ == old(self)@,
    {
        self.type_id = type_id;
    }

    /// Whether the column is registered for the component type `type_id`.
    pub fn check_type_id(&self, type_id: TypeId) -> (r: bool)
        ensures
            r == (self.key() == type_id),
    {
        same_key(self.type_id, type_id)
    }

    /// Reads the payload of entity `index` as a component of type `type_id`.
    pub fn get(&self, index: Entity, type_id: TypeId) -> (r: Result<Option<&C>, EcsError>)
        ensures
            owned(r) == read_slot(self@, index as int, type_id),
    {
        if index >= self.components.len() {
            return Err(EcsError::OutOfRangeEntity);
        }
        match &self.components[index] {
            None => Ok(None),
            Some(c) => {
                if same_key(c.get_type_id(), type_id) {
                    Ok(Some(c))
                } else {
                    Err(EcsError::ComponentTypeMismatch)
                }
            },
        }
    }

    /// Hands out the payload of entity `index`, read as a component of type
    /// `type_id`, for writing. What the caller leaves behind the reference is
    /// what the slot holds afterwards.
    pub fn get_mut(&mut self, index: Entity, type_id: TypeId) -> (r: Result<Option<&mut C>, EcsError>)
        ensures
            match r {
                Ok(Some(c)) => read_slot(old(self)@, index as int, type_id) == Ok::<Option<C>, EcsError>(Some(*c))
                    && final(self)@ == old(self)@.update(index as int, Some(*final(c))),
                Ok(None) => read_slot(old(self)@, index as int, type_id) == Ok::<Option<C>, EcsError>(None)
                    && final(self)@ == old(self)@,
                Err(e) => read_slot(old(self)@, index as int, type_id) == Err::<Option<C>, EcsError>(e)
                    && final(self)@ == old(self)@,
            },
            final(self).key() == old(self).key(),
    {
        if index >= self.components.len() {
            return Err(EcsError::OutOfRangeEntity);
        }
        let readable = match &self.components[index] {
            None => true,
            Some(c) => same_key(c.get_type_id(), type_id),
        };
        if !readable {
            return Err(EcsError::ComponentTypeMismatch);
        }
        Ok(self.components[index].as_mut())
    }

    /// Overwrites the slot of entity `index` with `component`.
    pub fn set(&mut self, index: Entity, component: C) -> (r: Result<(), EcsError>)
        ensures
            final(self).key() == old(self).key(),
            index < old(self)@.len() ==> r is Ok && final(self)@ == old(self)@.update(
                index as int,
                Some(component),
            ),
            index >= old(self)@.len() ==> r == Err::<(), EcsError>(EcsError::OutOfRangeEntity)
                && final(self)@ == old(self)@,
    {
        if index >= self.components.len() {
            return Err(EcsError::OutOfRangeEntity);
        }
        self.components[index] = Some(component);
        Ok(())
    }

    /// Whether entity `index` has a slot here that holds a payload of type `component`.
    pub fn has(&self, index: Entity, component: TypeId) -> (r: bool)
        ensures
            r == slot_holds(self@, index as int, component),
    {
        if index >= self.components.len() {
            return false;
        }
        match &self.components[index] {
            None => false,
            Some(c) => same_key(c.get_type_id(), component),
        }
    }
}

} // verus!
