use entity_world::World;

#[test]
fn test_name() {
    let mut world = World::new();
    let id = world.insert("Hello World".to_string());

    let t = world.get_mut::<String>(&id).unwrap();
    t.push_str(" My dear!");

    assert_eq!(
        Some("Hello World My dear!".to_string()),
        world.get::<String>(&id).cloned()
    );

    assert_eq!(
        Some("Hello World My dear!".to_string()),
        world.remove::<String>(&id)
    );

    assert_eq!(2, world.insert("Goodbye World.".to_string()));
    assert_eq!(None, world.get::<String>(&id).cloned());
}

#[test]
fn entity_ids_increase_from_one() {
    let mut world = World::new();
    assert_eq!(1, world.insert(7u64));
    assert_eq!(2, world.insert("a".to_string()));
    assert_eq!(3, world.insert(true));
    assert_eq!(Some(7u64), world.remove::<u64>(&1));
    assert_eq!(4, world.insert(-5i64));
}

#[test]
fn composite_ids_are_independent_of_entity_ids() {
    let mut world = World::new();
    world.insert(1u64);
    world.insert(2u64);
    assert_eq!(1, world.insert_composite("x".to_string(), 9u64));
    assert_eq!(2, world.insert_composite(false, true));
    assert_eq!(Some(7), world.insert_to_component(2, 5i64));
}

#[test]
fn get_after_insert_returns_value() {
    let mut world = World::new();
    let a = world.insert(42u64);
    let b = world.insert(-42i64);
    let c = world.insert("text".to_string());
    assert_eq!(Some(&42u64), world.get::<u64>(&a));
    assert_eq!(Some(&-42i64), world.get::<i64>(&b));
    assert_eq!(Some(&"text".to_string()), world.get::<String>(&c));
}

#[test]
fn get_mut_then_get_reads_the_write() {
    let mut world = World::new();
    let id = world.insert(10u64);
    *world.get_mut::<u64>(&id).unwrap() += 5;
    assert_eq!(Some(&15u64), world.get::<u64>(&id));
}

#[test]
fn remove_twice_returns_value_once() {
    let mut world = World::new();
    let id = world.insert(true);
    assert_eq!(Some(true), world.remove::<bool>(&id));
    assert_eq!(None, world.remove::<bool>(&id));
    assert_eq!(None, world.get::<bool>(&id));
}

#[test]
fn composite_members_refer_back() {
    let mut world = World::new();
    let c = world.insert_composite("left".to_string(), 3u64);
    assert_eq!(1, c);
    assert_eq!(Some(&"left".to_string()), world.get::<String>(&1));
    assert_eq!(Some(&3u64), world.get::<u64>(&2));
    let first = world.get_entity::<String>(&1).unwrap();
    assert_eq!(Some(&"left".to_string()), first.as_ref());
    assert_eq!(Some(3), world.insert_to_component(c, 8i64));
}

#[test]
fn insert_to_unknown_component_changes_nothing() {
    let mut world = World::new();
    assert_eq!(None, world.insert_to_component(1, 5u64));
    assert_eq!(None, world.get::<u64>(&1));
    assert_eq!(1, world.insert(5u64));
    assert_eq!(1, world.insert_composite(1u64, 2u64));
}

#[test]
fn removing_members_cascades_to_the_composite() {
    let mut world = World::new();
    let c = world.insert_composite(1u64, "b".to_string());
    assert_eq!(Some(1u64), world.remove::<u64>(&1));
    assert_eq!(Some(3), world.insert_to_component(c, 2i64));
    assert_eq!(Some(2i64), world.remove::<i64>(&3));
    assert_eq!(Some("b".to_string()), world.remove::<String>(&2));
    assert_eq!(None, world.insert_to_component(c, 3u64));
    assert_eq!(4, world.insert(0u64));
}

#[test]
fn lookup_with_another_type_finds_nothing() {
    let mut world = World::new();
    let id = world.insert("s".to_string());
    assert_eq!(None, world.get::<u64>(&id));
    assert!(world.get_mut::<bool>(&id).is_none());
    assert_eq!(None, world.remove::<i64>(&id));
    assert_eq!(Some(&"s".to_string()), world.get::<String>(&id));
}

#[test]
fn typed_entity_accessors() {
    let mut world = World::new();
    let id = world.insert(1i64);
    let te = world.get_entity_mut::<i64>(&id).unwrap();
    *te.as_mut().unwrap() = 9;
    assert_eq!(Some(&9i64), world.get::<i64>(&id));
    let owned = world.remove_entity::<i64>(&id).unwrap();
    assert_eq!(Some(9i64), owned.inner());
    assert!(world.get_entity::<i64>(&id).is_none());
    assert!(world.get_entity_mut::<i64>(&id).is_none());
}
