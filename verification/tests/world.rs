use ecs::error::EcsError;
use ecs::storage::Component;
use ecs::world::{Entity, World};
use std::any::TypeId;

struct PositionKey;

struct CounterKey;

struct NameKey;

#[derive(Debug, Clone, PartialEq)]
enum Payload {
    Position { x: i32, y: i32 },
    Counter { n: u32 },
    Name(String),
}

impl Component for Payload {
    fn type_key(&self) -> TypeId {
        self.get_type_id()
    }

    fn get_type_id(&self) -> TypeId {
        match self {
            Payload::Position { .. } => TypeId::of::<PositionKey>(),
            Payload::Counter { .. } => TypeId::of::<CounterKey>(),
            Payload::Name(_) => TypeId::of::<NameKey>(),
        }
    }
}

fn position() -> TypeId {
    TypeId::of::<PositionKey>()
}

fn counter() -> TypeId {
    TypeId::of::<CounterKey>()
}

fn name() -> TypeId {
    TypeId::of::<NameKey>()
}

#[test]
fn new_world_is_empty() {
    let world: World<Payload> = World::new();
    assert_eq!(world.get_entity_count(), 0);
    assert!(!world.check_storage_exists(position()));
    assert!(!world.has_component(0, position()));
}

#[test]
fn handles_start_at_zero_and_ascend() {
    let mut world: World<Payload> = World::new();
    let mut handles: Vec<Entity> = Vec::new();
    for expected in 0..25usize {
        assert_eq!(world.get_entity_count(), expected);
        let handle = world.create_entity();
        assert_eq!(handle, expected);
        handles.push(handle);
    }
    assert_eq!(world.get_entity_count(), 25);
    for pair in handles.windows(2) {
        assert!(pair[0] < pair[1]);
    }
}

#[test]
fn handles_ascend_across_other_operations() {
    let mut world: World<Payload> = World::new();
    assert_eq!(world.create_entity(), 0);
    assert_eq!(world.init_storage(position()), Ok(()));
    assert_eq!(world.create_entity(), 1);
    assert_eq!(world.add_component(0, Payload::Counter { n: 1 }), Ok(()));
    assert_eq!(world.set_component(1, Payload::Position { x: 0, y: 0 }), Ok(()));
    assert_eq!(world.get_entity_count(), 2);
    assert_eq!(world.create_entity_with_components(vec![Payload::Name("c".to_string())]), 2);
    assert_eq!(world.create_entity(), 3);
    assert_eq!(world.get_entity_count(), 4);
}

#[test]
fn columns_stay_in_lockstep_with_the_entity_count() {
    let mut world: World<Payload> = World::new();
    assert_eq!(world.init_storage(position()), Ok(()));
    assert_eq!(world.init_storage(counter()), Ok(()));
    for created in 1..=20usize {
        let entity = world.create_entity();
        for key in [position(), counter()] {
            assert_eq!(world.get_component(entity, key), Ok(None));
            assert_eq!(world.get_component(created, key), Err(EcsError::OutOfRangeEntity));
        }
        if created == 7 {
            assert_eq!(world.init_storage(name()), Ok(()));
        }
        if created >= 7 {
            assert_eq!(world.get_component(0, name()), Ok(None));
            assert_eq!(world.get_component(entity, name()), Ok(None));
            assert_eq!(world.get_component(created, name()), Err(EcsError::OutOfRangeEntity));
        }
    }
}

#[test]
fn added_component_is_read_back() {
    let mut world: World<Payload> = World::new();
    let e = world.create_entity();
    assert_eq!(world.add_component(e, Payload::Position { x: 1, y: 2 }), Ok(()));
    assert_eq!(world.get_component(e, position()), Ok(Some(&Payload::Position { x: 1, y: 2 })));
    assert!(world.has_component(e, position()));
}

#[test]
fn entity_never_given_a_component_reads_absent() {
    let mut world: World<Payload> = World::new();
    let given = world.create_entity();
    let bare = world.create_entity();
    assert_eq!(world.add_component(given, Payload::Counter { n: 3 }), Ok(()));
    assert_eq!(world.get_component(bare, counter()), Ok(None));
    assert!(!world.has_component(bare, counter()));
    let later = world.create_entity();
    assert_eq!(world.get_component(later, counter()), Ok(None));
    assert_eq!(world.get_component(given, counter()), Ok(Some(&Payload::Counter { n: 3 })));
}

#[test]
fn add_component_registers_a_missing_column_for_all_entities() {
    let mut world: World<Payload> = World::new();
    for _ in 0..5 {
        world.create_entity();
    }
    assert!(!world.check_storage_exists(name()));
    assert_eq!(world.add_component(3, Payload::Name("three".to_string())), Ok(()));
    assert!(world.check_storage_exists(name()));
    for entity in 0..5usize {
        let expected = if entity == 3 { Some(Payload::Name("three".to_string())) } else { None };
        assert_eq!(world.get_component(entity, name()), Ok(expected.as_ref()));
    }
    assert_eq!(world.get_component(5, name()), Err(EcsError::OutOfRangeEntity));
}

#[test]
fn adding_again_overwrites() {
    let mut world: World<Payload> = World::new();
    let e = world.create_entity();
    assert_eq!(world.add_component(e, Payload::Counter { n: 1 }), Ok(()));
    assert_eq!(world.add_component(e, Payload::Counter { n: 2 }), Ok(()));
    assert_eq!(world.get_component(e, counter()), Ok(Some(&Payload::Counter { n: 2 })));
    assert_eq!(world.init_storage(counter()), Err(EcsError::DuplicateStorageError));
}

#[test]
fn add_component_leaves_other_entities_and_types_alone() {
    let mut world: World<Payload> = World::new();
    let a = world.create_entity();
    let b = world.create_entity();
    assert_eq!(world.add_component(a, Payload::Counter { n: 1 }), Ok(()));
    assert_eq!(world.add_component(a, Payload::Position { x: 5, y: 6 }), Ok(()));
    assert_eq!(world.add_component(b, Payload::Counter { n: 9 }), Ok(()));
    assert_eq!(world.get_component(a, counter()), Ok(Some(&Payload::Counter { n: 1 })));
    assert_eq!(world.get_component(a, position()), Ok(Some(&Payload::Position { x: 5, y: 6 })));
    assert_eq!(world.get_component(b, counter()), Ok(Some(&Payload::Counter { n: 9 })));
    assert_eq!(world.get_component(b, position()), Ok(None));
}

#[test]
fn add_component_on_an_invalid_handle_changes_nothing() {
    let mut world: World<Payload> = World::new();
    assert_eq!(world.add_component(0, Payload::Counter { n: 1 }), Err(EcsError::OutOfRangeEntity));
    assert!(!world.check_storage_exists(counter()));
    let e = world.create_entity();
    assert_eq!(world.add_component(e + 1, Payload::Counter { n: 1 }), Err(EcsError::OutOfRangeEntity));
    assert!(!world.check_storage_exists(counter()));
    assert_eq!(world.get_entity_count(), 1);
}

#[test]
fn init_storage_twice_is_a_duplicate() {
    let mut world: World<Payload> = World::new();
    assert_eq!(world.init_storage(position()), Ok(()));
    assert_eq!(world.init_storage(position()), Err(EcsError::DuplicateStorageError));
    assert_eq!(world.init_storage(counter()), Ok(()));
    assert_eq!(world.init_storage(position()), Err(EcsError::DuplicateStorageError));
    assert_eq!(world.init_storage(counter()), Err(EcsError::DuplicateStorageError));
}

#[test]
fn init_storage_after_lazy_registration_is_a_duplicate() {
    let mut world: World<Payload> = World::new();
    let e = world.create_entity();
    assert_eq!(world.add_component(e, Payload::Position { x: 0, y: 0 }), Ok(()));
    assert_eq!(world.init_storage(position()), Err(EcsError::DuplicateStorageError));
    assert_eq!(world.get_component(e, position()), Ok(Some(&Payload::Position { x: 0, y: 0 })));
}

#[test]
fn unregistered_type_is_missing_storage() {
    let mut world: World<Payload> = World::new();
    assert_eq!(world.get_component(0, position()), Err(EcsError::MissingStorageError));
    let e = world.create_entity();
    assert_eq!(world.get_component(e, position()), Err(EcsError::MissingStorageError));
    assert_eq!(world.get_component_mut(e, position()).err(), Some(EcsError::MissingStorageError));
    assert_eq!(
        world.set_component(e, Payload::Position { x: 0, y: 0 }),
        Err(EcsError::MissingStorageError)
    );
    assert!(!world.has_component(e, position()));
    assert_eq!(world.init_storage(counter()), Ok(()));
    assert_eq!(world.get_component(e, position()), Err(EcsError::MissingStorageError));
    assert_eq!(world.get_component(e, counter()), Ok(None));
}

#[test]
fn missing_storage_comes_before_out_of_range() {
    let mut world: World<Payload> = World::new();
    assert_eq!(world.get_component(9, position()), Err(EcsError::MissingStorageError));
    assert_eq!(
        world.set_component(9, Payload::Position { x: 0, y: 0 }),
        Err(EcsError::MissingStorageError)
    );
    assert_eq!(world.init_storage(position()), Ok(()));
    assert_eq!(world.get_component(9, position()), Err(EcsError::OutOfRangeEntity));
    assert_eq!(
        world.set_component(9, Payload::Position { x: 0, y: 0 }),
        Err(EcsError::OutOfRangeEntity)
    );
    assert_eq!(world.get_component_mut(9, position()).err(), Some(EcsError::OutOfRangeEntity));
}

#[test]
fn set_component_overwrites_in_a_registered_column() {
    let mut world: World<Payload> = World::new();
    assert_eq!(world.init_storage(counter()), Ok(()));
    let e = world.create_entity();
    assert_eq!(world.set_component(e, Payload::Counter { n: 4 }), Ok(()));
    assert_eq!(world.get_component(e, counter()), Ok(Some(&Payload::Counter { n: 4 })));
    assert_eq!(world.set_component(e, Payload::Counter { n: 5 }), Ok(()));
    assert_eq!(world.get_component(e, counter()), Ok(Some(&Payload::Counter { n: 5 })));
}

#[test]
fn get_component_mut_writes_through() {
    let mut world: World<Payload> = World::new();
    let a = world.create_entity();
    let b = world.create_entity();
    assert_eq!(world.add_component(a, Payload::Counter { n: 10 }), Ok(()));
    match world.get_component_mut(a, counter()) {
        Ok(Some(Payload::Counter { n })) => *n += 5,
        _ => panic!("the entity holds a counter"),
    }
    assert_eq!(world.get_component(a, counter()), Ok(Some(&Payload::Counter { n: 15 })));
    assert_eq!(world.get_component_mut(b, counter()), Ok(None));
    assert_eq!(world.get_component(b, counter()), Ok(None));
}

#[test]
fn has_component_needs_the_entity_and_the_type() {
    let mut world: World<Payload> = World::new();
    let a = world.create_entity();
    let b = world.create_entity();
    assert_eq!(world.add_component(a, Payload::Position { x: 1, y: 1 }), Ok(()));
    assert_eq!(world.add_component(b, Payload::Counter { n: 0 }), Ok(()));
    assert!(world.has_component(a, position()));
    assert!(!world.has_component(a, counter()));
    assert!(!world.has_component(b, position()));
    assert!(world.has_component(b, counter()));
    assert!(!world.has_component(a, name()));
    assert!(!world.has_component(2, position()));
    assert!(!world.has_component(usize::MAX, counter()));
}

#[test]
fn create_entity_with_components_attaches_first_to_last() {
    let mut world: World<Payload> = World::new();
    world.create_entity();
    let e = world.create_entity_with_components(vec![
        Payload::Counter { n: 1 },
        Payload::Position { x: 2, y: 3 },
        Payload::Counter { n: 4 },
    ]);
    assert_eq!(e, 1);
    assert_eq!(world.get_entity_count(), 2);
    assert_eq!(world.get_component(e, counter()), Ok(Some(&Payload::Counter { n: 4 })));
    assert_eq!(world.get_component(e, position()), Ok(Some(&Payload::Position { x: 2, y: 3 })));
    assert_eq!(world.get_component(0, counter()), Ok(None));
    assert_eq!(world.get_component(0, position()), Ok(None));
}

#[test]
fn create_entity_with_no_components_is_create_entity() {
    let mut world: World<Payload> = World::new();
    assert_eq!(world.init_storage(counter()), Ok(()));
    assert_eq!(world.create_entity_with_components(Vec::new()), 0);
    assert_eq!(world.get_entity_count(), 1);
    assert_eq!(world.get_component(0, counter()), Ok(None));
    assert!(!world.check_storage_exists(position()));
}

#[test]
fn check_storage_exists_follows_registration() {
    let mut world: World<Payload> = World::new();
    assert!(!world.check_storage_exists(position()));
    assert_eq!(world.init_storage(position()), Ok(()));
    assert!(world.check_storage_exists(position()));
    assert!(!world.check_storage_exists(counter()));
    world.create_entity();
    assert!(world.check_storage_exists(position()));
}
