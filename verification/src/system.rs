use crate::error::EcsError;
use crate::model::WorldView;
use crate::storage::Component;
use crate::type_key::same_key;
use crate::world::World;
use std::any::TypeId;
use vstd::prelude::*;

verus! {

/// A unit of per-tick logic. A system is handed the world for the whole of
/// its update, so nothing else reads or writes the world meanwhile.
pub trait System<C: Component>: Send + Sync {
    /// The key under which the system is registered: what `get_type_id`
    /// reports. An implementation in code that is not verified gives it the
    /// body of `get_type_id`.
    spec fn type_key(&self) -> TypeId;

    /// What one update of this system may make of a world: `after` is a
    /// world that an update begun on `before` may leave behind. A system
    /// that says nothing of itself may leave any world.
    open spec fn effect(&self, before: WorldView<C>, after: WorldView<C>) -> bool {
        true
    }

    /// Runs the system once against `world`.
    fn update(&mut self, world: &mut World<C>)
        requires
            old(world).wf(),
        ensures
            final(world).wf(),
            old(self).effect(old(world)@, final(world)@),
    ;

    /// Reports the key under which the system is registered.
    fn get_type_id(&self) -> (id: TypeId)
        ensures
            id == self.type_key(),
    ;
}

/// The system `system` as the scheduler holds it.
pub open spec fn boxed<C: Component, T: System<C> + 'static>(system: T) -> Box<dyn System<C>> {
    Box::new(system)
}

/// Registering a system under `key`: refused where a system is registered
/// under that key, else the key joins the end of the list.
pub open spec fn register(keys: Seq<TypeId>, key: TypeId) -> Result<Seq<TypeId>, EcsError> {
    if keys.contains(key) {
        Err(EcsError::DuplicateSystemError)
    } else {
        Ok(keys.push(key))
    }
}

/// Removing the system registered under `key`: refused where there is none,
/// else the key leaves the list and the others keep their order.
pub open spec fn unregister(keys: Seq<TypeId>, key: TypeId) -> Result<Seq<TypeId>, EcsError> {
    if !keys.contains(key) {
        Err(EcsError::MissingSystemError)
    } else {
        Ok(keys.remove(keys.index_of(key)))
    }
}

/// Registering a system twice fails the second time with
/// `DuplicateSystemError`, and the list is as the first registration left it.
pub proof fn lemma_register_twice(keys: Seq<TypeId>, key: TypeId)
    ensures
        register(keys, key) matches Ok(registered) ==> register(registered, key) == Err::<
            Seq<TypeId>,
            EcsError,
        >(EcsError::DuplicateSystemError),
        keys.contains(key) ==> register(keys, key) == Err::<Seq<TypeId>, EcsError>(
            EcsError::DuplicateSystemError,
        ),
{
    if register(keys, key) is Ok {
        assert(keys.push(key)[keys.len() as int] == key);
    }
}

/// Removing a system that is not registered fails with `MissingSystemError`.
/// That holds of a key that never was registered and of one that has just
/// been removed.
pub proof fn lemma_unregister_missing(keys: Seq<TypeId>, key: TypeId)
    requires
        keys.no_duplicates(),
    ensures
        !keys.contains(key) ==> unregister(keys, key) == Err::<Seq<TypeId>, EcsError>(
            EcsError::MissingSystemError,
        ),
        unregister(keys, key) matches Ok(removed) ==> unregister(removed, key) == Err::<
            Seq<TypeId>,
            EcsError,
        >(EcsError::MissingSystemError),
{
    if keys.contains(key) {
        let at = keys.index_of(key);
        let removed = keys.remove(at);
        if removed.contains(key) {
            let i = choose|i: int| 0 <= i < removed.len() && removed[i] == key;
            assert(keys[origin(at, i)] == key);
        }
    }
}

/// A system that was registered and then removed leaves the list as it was.
pub proof fn lemma_register_then_unregister(keys: Seq<TypeId>, key: TypeId)
    requires
        keys.no_duplicates(),
        !keys.contains(key),
    ensures
        register(keys, key) matches Ok(registered) && unregister(registered, key) == Ok::<
            Seq<TypeId>,
            EcsError,
        >(keys),
{
    let registered = keys.push(key);
    assert(registered[keys.len() as int] == key);
    let at = registered.index_of(key);
    assert(registered[at] == key);
    assert(at == keys.len()) by {
        if at < keys.len() {
            assert(keys[at] == key);
        }
    }
    assert(registered.remove(at) =~= keys);
}

/// The position that the entry now at `index` had before the entry at
/// `removed` left the list.
pub open spec fn origin(removed: int, index: int) -> int {
    if index < removed {
        index
    } else {
        index + 1
    }
}

#[verifier::reject_recursive_types(C)]
struct Registered<C: Component> {
    key: TypeId,
    system: Box<dyn System<C>>,
}

/// The scheduler: the registered systems in the order of their registration.
#[verifier::reject_recursive_types(C)]
pub struct SystemController<C: Component> {
    systems: Vec<Registered<C>>,
}

impl<C: Component> View for SystemController<C> {
    type V = Seq<TypeId>;

    /// The keys of the registered systems, in the order of their registration.
    closed spec fn view(&self) -> Seq<TypeId> {
        Seq::new(self.systems@.len(), |i: int| self.systems@[i].key)
    }
}

impl<C: Component> SystemController<C> {
    /// What one update of the system at position `index` may make of a
    /// world: the system's own `effect`.
    pub closed spec fn effect_at(&self, index: int, before: WorldView<C>, after: WorldView<C>) -> bool {
        self.systems@[index].system.effect(before, after)
    }

    /// The system at position `index` here does to a world what the system
    /// at position `other_index` of `other` does.
    pub open spec fn same_system(&self, index: int, other: &Self, other_index: int) -> bool {
        forall|before: WorldView<C>, after: WorldView<C>| #[trigger]
            self.effect_at(index, before, after) == other.effect_at(other_index, before, after)
    }

    /// The invariant of a scheduler: no two systems share a key.
    pub open spec fn wf(&self) -> bool {
        self@.no_duplicates()
    }

    /// A tick begun on `before` may leave `after`: every registered system
    /// runs once, in the order of registration, and each starts on the world
    /// that its predecessor left, the first on `before`. So the world that a
    /// system finds is the world before the tick or the work of systems that
    /// have finished, and it is well-formed.
    pub open spec fn ticks(&self, before: WorldView<C>, after: WorldView<C>) -> bool {
        exists|trace: Seq<WorldView<C>>|
            {
                &&& #[trigger] trace.len() == self@.len() + 1
                &&& trace[0] == before
                &&& trace[self@.len() as int] == after
                &&& forall|i: int| 0 <= i <= self@.len() ==> (#[trigger] trace[i]).wf()
                &&& forall|i: int|
                    0 <= i < self@.len() ==> #[trigger] self.effect_at(i, trace[i], trace[i + 1])
            }
    }

    /// A scheduler without systems.
    pub fn new() -> (controller: Self)
        ensures
            controller.wf(),
            controller@ == Seq::<TypeId>::empty(),
    {
        let controller = Self { systems: Vec::new() };
        assert(controller@ =~= Seq::<TypeId>::empty());
        controller
    }

    /// The number of registered systems.
    pub fn len(&self) -> (count: usize)
        ensures
            count == self@.len(),
    {
        self.systems.len()
    }

    /// Whether a system is registered under `key`.
    pub fn has_system(&self, key: TypeId) -> (has: bool)
        ensures
            has == self@.contains(key),
    {
        self.find_system(key).is_some()
    }

    fn find_system(&self, key: TypeId) -> (found: Option<usize>)
        ensures
            match found {
                Some(i) => i < self@.len() && self@[i as int] == key,
                None => !self@.contains(key),
            },
    {
        let n = self.systems.len();
        let mut i: usize = 0;
        while i < n
            invariant
                i <= n,
                n == self.systems@.len(),
                forall|j: int| 0 <= j < i ==> self@[j] != key,
            decreases n - i,
        {
            if same_key(self.systems[i].key, key) {
                return Some(i);
            }
            i += 1;
        }
        None
    }

    fn push_entry(&mut self, entry: Registered<C>)
        ensures
            final(self)@ == old(self)@.push(entry.key),
            forall|i: int| 0 <= i < old(self)@.len() ==> final(self).same_system(i, old(self), i),
            forall|before: WorldView<C>, after: WorldView<C>| #[trigger]
                final(self).effect_at(old(self)@.len() as int, before, after) == entry.system.effect(
                    before,
                    after,
                ),
    {
        self.systems.push(entry);
        proof {
            assert(self@ =~= old(self)@.push(entry.key));
            assert(self.systems@[old(self).systems@.len() as int] == entry);
        }
    }

    /// Registers `system` under the key it reports, behind the systems
    /// registered so far.
    pub fn add_system<T: System<C> + 'static>(&mut self, system: T) -> (r: Result<(), EcsError>)
        requires
            old(self).wf(),
        ensures
            final(self).wf(),
            forall|i: int| 0 <= i < old(self)@.len() ==> final(self).same_system(i, old(self), i),
            match register(old(self)@, system.type_key()) {
                Ok(keys) => {
                    &&& r is Ok
                    &&& final(self)@ == keys
                    &&& forall|before: WorldView<C>, after: WorldView<C>| #[trigger]
                        final(self).effect_at(old(self)@.len() as int, before, after) == boxed(
                            system,
                        ).effect(before, after)
                },
                Err(e) => r == Err::<(), EcsError>(e) && final(self)@ == old(self)@,
            },
    {
        let key = system.get_type_id();
        if self.has_system(key) {
            return Err(EcsError::DuplicateSystemError);
        }
        let system: Box<dyn System<C>> = Box::new(system);
        let entry = Registered { key, system };
        self.push_entry(entry);
        Ok(())
    }

    /// Removes the system registered under `key`. The others keep their order.
    pub fn remove_system(&mut self, key: TypeId) -> (r: Result<(), EcsError>)
        requires
            old(self).wf(),
        ensures
            final(self).wf(),
            match unregister(old(self)@, key) {
                Ok(keys) => {
                    &&& r is Ok
                    &&& final(self)@ == keys
                    &&& forall|i: int|
                        0 <= i < keys.len() ==> #[trigger] final(self).same_system(
                            i,
                            old(self),
                            origin(old(self)@.index_of(key), i),
                        )
                },
                Err(e) => {
                    &&& r == Err::<(), EcsError>(e)
                    &&& final(self)@ == old(self)@
                    &&& forall|i: int|
                        0 <= i < old(self)@.len() ==> final(self).same_system(i, old(self), i)
                },
            },
    {
        match self.find_system(key) {
            None => Err(EcsError::MissingSystemError),
            Some(i) => {
                let _ = self.systems.remove(i);
                proof {
                    let at = old(self)@.index_of(key);
                    assert(old(self)@[i as int] == key);
                    assert(old(self)@[at] == key);
                    assert(self@ =~= old(self)@.remove(at));
                }
                Ok(())
            },
        }
    }

    /// Runs the system at position `index` once against `world`.
    pub fn run_system(&mut self, index: usize, world: &mut World<C>)
        requires
            old(self).wf(),
            old(world).wf(),
            index < old(self)@.len(),
        ensures
            final(self).wf(),
            final(world).wf(),
            final(self)@ == old(self)@,
            forall|i: int|
                0 <= i < old(self)@.len() && i != index ==> final(self).same_system(i, old(self), i),
            old(self).effect_at(index as int, old(world)@, final(world)@),
    {
        self.systems[index].system.update(world);
        proof {
            assert(self@ =~= old(self)@);
        }
    }

    /// One tick: every registered system runs once against `world`, in the
    /// order of registration, each on the world its predecessor left.
    pub fn update(&mut self, world: &mut World<C>)
        requires
            old(self).wf(),
            old(world).wf(),
        ensures
            final(self).wf(),
            final(world).wf(),
            final(self)@ == old(self)@,
            old(self).ticks(old(world)@, final(world)@),
    {
        let n = self.systems.len();
        let mut i: usize = 0;
        let ghost mut trace: Seq<WorldView<C>> = seq![world@];
        while i < n
            invariant
                i <= n,
                n == old(self)@.len(),
                self.wf(),
                world.wf(),
                self@ == old(self)@,
                forall|j: int| i <= j < n ==> self.same_system(j, old(self), j),
                trace.len() == i + 1,
                trace[0] == old(world)@,
                trace[i as int] == world@,
                forall|j: int| 0 <= j <= i ==> (#[trigger] trace[j]).wf(),
                forall|j: int|
                    0 <= j < i ==> #[trigger] old(self).effect_at(j, trace[j], trace[j + 1]),
            decreases n - i,
        {
            let ghost before = *self;
            let ghost started = world@;
            self.run_system(i, world);
            proof {
                assert(before.same_system(i as int, old(self), i as int));
                assert(before.effect_at(i as int, started, world@));
                assert forall|j: int| i < j < n implies self.same_system(j, old(self), j) by {
                    assert(self.same_system(j, &before, j));
                    assert(before.same_system(j, old(self), j));
                }
                trace = trace.push(world@);
            }
            i += 1;
        }
        proof {
            assert(trace.len() == old(self)@.len() + 1);
        }
    }
}

} // verus!
