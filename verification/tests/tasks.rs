use ecs::query::Query;
use ecs::storage::Component;
use ecs::system::{System, SystemController};
use ecs::world::World;
use std::any::TypeId;
use std::sync::{Arc, Mutex};

struct CounterKey;

#[derive(Debug, Clone, PartialEq)]
struct Counter(u64);

impl Component for Counter {
    fn type_key(&self) -> TypeId {
        TypeId::of::<CounterKey>()
    }

    fn get_type_id(&self) -> TypeId {
        TypeId::of::<CounterKey>()
    }
}

fn for_each_counter(world: &mut World<Counter>, change: fn(u64) -> u64) {
    let mut query = Query::new();
    query.add(TypeId::of::<CounterKey>());
    for entity in query.get(world) {
        if let Ok(Some(counter)) = world.get_component_mut(entity, TypeId::of::<CounterKey>()) {
            counter.0 = change(counter.0);
        }
    }
}

/// Adds one to every counter.
struct Increment;

impl System<Counter> for Increment {
    fn type_key(&self) -> TypeId {
        TypeId::of::<Increment>()
    }

    fn update(&mut self, world: &mut World<Counter>) {
        for_each_counter(world, |n| n + 1);
    }

    fn get_type_id(&self) -> TypeId {
        TypeId::of::<Increment>()
    }
}

/// Doubles every counter.
struct Double;

impl System<Counter> for Double {
    fn type_key(&self) -> TypeId {
        TypeId::of::<Double>()
    }

    fn update(&mut self, world: &mut World<Counter>) {
        for_each_counter(world, |n| n * 2);
    }

    fn get_type_id(&self) -> TypeId {
        TypeId::of::<Double>()
    }
}

/// One tick with a task per system: each task waits for the lock, runs its
/// system and lets go; the tick ends when all tasks have finished.
fn tick_in_tasks(systems: &mut SystemController<Counter>, world: &mut World<Counter>) {
    let count = systems.len();
    let shared = Arc::new(Mutex::new((systems, world)));
    crossbeam::thread::scope(|scope| {
        let mut handles = Vec::new();
        for index in 0..count {
            let shared = shared.clone();
            handles.push(scope.spawn(move |_| {
                let mut guard = shared.lock().unwrap();
                let (systems, world) = &mut *guard;
                systems.run_system(index, world);
            }));
        }
        for handle in handles {
            handle.join().unwrap();
        }
    })
    .unwrap();
}

fn counters(world: &World<Counter>) -> Vec<u64> {
    let mut found = Vec::new();
    for entity in 0..world.get_entity_count() {
        if let Ok(Some(counter)) = world.get_component(entity, TypeId::of::<CounterKey>()) {
            found.push(counter.0);
        }
    }
    found
}

#[test]
fn tasks_of_one_tick_never_interleave() {
    for _ in 0..200 {
        let mut world: World<Counter> = World::new();
        for value in 0..50u64 {
            world.create_entity_with_components(vec![Counter(value)]);
        }
        let mut systems: SystemController<Counter> = SystemController::new();
        assert_eq!(systems.add_system(Increment), Ok(()));
        assert_eq!(systems.add_system(Double), Ok(()));
        tick_in_tasks(&mut systems, &mut world);
        let after = counters(&world);
        let increment_first: Vec<u64> = (0..50u64).map(|n| (n + 1) * 2).collect();
        let double_first: Vec<u64> = (0..50u64).map(|n| n * 2 + 1).collect();
        assert!(after == increment_first || after == double_first);
    }
}

#[test]
fn tick_in_tasks_runs_every_system_once() {
    let mut world: World<Counter> = World::new();
    world.create_entity_with_components(vec![Counter(0)]);
    let mut systems: SystemController<Counter> = SystemController::new();
    assert_eq!(systems.add_system(Increment), Ok(()));
    for tick in 1..=20u64 {
        tick_in_tasks(&mut systems, &mut world);
        assert_eq!(counters(&world), vec![tick]);
    }
    assert_eq!(systems.len(), 1);
}
