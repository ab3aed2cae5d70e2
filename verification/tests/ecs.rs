use panarchy::ecs::{Component, ComponentStorage, EntityAllocator, TypedComponentStorage};

#[derive(Debug, PartialEq)]
struct Position {
    x: f32,
    y: f32,
}
impl Component for Position {}

#[derive(Debug, PartialEq)]
struct Velocity {
    dx: f32,
    dy: f32,
}
impl Component for Velocity {}

#[test]
fn test_component_storage() {
    let mut storage = TypedComponentStorage::<Position>::new();

    storage.insert(1, Position { x: 1.0, y: 2.0 });
    storage.insert(2, Position { x: 3.0, y: 4.0 });

    assert_eq!(storage.len(), 2);
    assert!(storage.has(1));
    assert!(storage.has(2));
    assert!(!storage.has(3));

    let pos = storage.get(1).unwrap();
    assert_eq!(pos.x, 1.0);
    assert_eq!(pos.y, 2.0);

    storage.remove(1);
    assert!(!storage.has(1));
    assert_eq!(storage.len(), 1);
}

#[test]
fn test_component_iteration() {
    let mut storage = TypedComponentStorage::<Position>::new();

    storage.insert(1, Position { x: 1.0, y: 2.0 });
    storage.insert(2, Position { x: 3.0, y: 4.0 });

    let count = storage.iter().len();
    assert_eq!(count, 2);

    for entry in storage.iter_mut() {
        entry.1.x += 1.0;
    }

    let pos = storage.get(1).unwrap();
    assert_eq!(pos.x, 2.0);
}

#[test]
fn test_entity_allocation() {
    let mut allocator = EntityAllocator::new();

    let e1 = allocator.allocate();
    assert_eq!(e1.id, 0);
    assert!(allocator.is_alive(e1));

    let e2 = allocator.allocate();
    assert_eq!(e2.id, 1);
    assert!(allocator.is_alive(e2));

    assert_eq!(allocator.count(), 2);
}

#[test]
fn test_entity_deallocation() {
    let mut allocator = EntityAllocator::new();

    let e1 = allocator.allocate();
    let e2 = allocator.allocate();

    allocator.deallocate(e1);
    assert!(!allocator.is_alive(e1));
    assert!(allocator.is_alive(e2));
    assert_eq!(allocator.count(), 1);

    // Should reuse the deallocated ID
    let e3 = allocator.allocate();
    assert_eq!(e3.id, 0);
}

#[test]
fn component_replaced_on_reinsert() {
    let mut storage = TypedComponentStorage::<Velocity>::new();
    storage.insert(7, Velocity { dx: 0.5, dy: 0.5 });
    storage.insert(7, Velocity { dx: 1.5, dy: 2.5 });
    assert_eq!(storage.len(), 1);
    assert_eq!(storage.get(7).unwrap().dx, 1.5);
}

#[test]
fn component_mutation_through_get_mut() {
    let mut storage = TypedComponentStorage::<Velocity>::new();
    storage.insert(3, Velocity { dx: 0.5, dy: 0.5 });
    if let Some(vel) = storage.get_mut(3) {
        vel.dx = 1.0;
    }
    assert_eq!(storage.get(3).unwrap().dx, 1.0);
    assert!(storage.get_mut(4).is_none());
}

#[test]
fn storage_keys_and_clear() {
    let mut storage = TypedComponentStorage::<Position>::new();
    storage.insert(4, Position { x: 0.0, y: 0.0 });
    storage.insert(9, Position { x: 1.0, y: 1.0 });
    assert_eq!(storage.keys(), vec![4, 9]);
    assert!(!storage.is_empty());
    storage.clear();
    assert!(storage.is_empty());
    assert_eq!(storage.len(), 0);
}
