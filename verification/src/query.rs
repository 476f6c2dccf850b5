use crate::storage::Component;
use crate::world::{Entity, World};
use std::any::TypeId;
use vstd::prelude::*;

verus! {

/// A query finds the entities that hold a component of each of a list of
/// component types.
pub struct Query {
    /// The keys of the required component types, in the order they were added.
    pub components: Vec<TypeId>,
    /// The matches a caller keeps with the query; the query itself never fills it.
    pub entities: Vec<Entity>,
}

impl Query {
    /// A query that requires nothing, and so matches every entity.
    pub fn new() -> (query: Self)
        ensures
            query.components@ == Seq::<TypeId>::empty(),
            query.entities@ == Seq::<Entity>::empty(),
    {
        Self { components: Vec::new(), entities: Vec::new() }
    }

    /// Requires the component type `key` as well.
    pub fn add(&mut self, key: TypeId)
        ensures
            final(self).components@ == old(self).components@.push(key),
            final(self).entities@ == old(self).entities@,
    {
        self.components.push(key);
    }

    /// The entities of `world` that hold a component of every required type,
    /// in ascending order.
    pub fn get<C: Component>(&self, world: &World<C>) -> (entities: Vec<Entity>)
        requires
            world.wf(),
        ensures
            entities@ == world@.matching(self.components@),
    {
        let mut entities: Vec<Entity> = Vec::new();
        let count = world.get_entity_count();
        let required = self.components.len();
        let mut entity: usize = 0;
        while entity < count
            invariant
                entity <= count,
                count == world@.entities,
                required == self.components@.len(),
                world.wf(),
                entities@ == world@.matching_below(self.components@, entity as nat),
            decreases count - entity,
        {
            let mut has_components = true;
            let mut i: usize = 0;
            while i < required && has_components
                invariant
                    i <= required,
                    required == self.components@.len(),
                    world.wf(),
                    has_components ==> forall|j: int|
                        0 <= j < i ==> world@.has_component(entity as int, #[trigger] self.components@[j]),
                    !has_components ==> !world@.has_all(entity as int, self.components@),
                decreases required - i + if has_components { 1int } else { 0int },
            {
                if !world.has_component(entity, self.components[i]) {
                    has_components = false;
                } else {
                    i += 1;
                }
            }
            if has_components {
                entities.push(entity);
            }
            entity += 1;
        }
        entities
    }
}

} // verus!
