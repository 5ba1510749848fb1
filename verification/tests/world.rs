use seishin::world::{EntityId, ResolvedEntity, World, WorldError};

#[test]
fn spawn_allocates_monotonic_entity_ids() {
    let mut world: World<&str> = World::default();

    let first = world.spawn("a");
    let second = world.spawn("b");

    assert_eq!(first.raw(), 1);
    assert_eq!(second.raw(), 2);
    assert!(first < second);
}

#[test]
fn insert_with_explicit_id_preserves_scene_id_and_advances_allocator() {
    let mut world = World::default();
    let explicit = EntityId::new(42);

    world.insert(explicit, "Player").expect("insert explicit entity");
    let next = world.spawn("next");

    assert_eq!(world.entity(explicit), Some(&"Player"));
    assert_eq!(next.raw(), 43);
}

#[test]
fn duplicate_explicit_id_is_rejected() {
    let mut world = World::default();
    let entity = EntityId::new(3);

    world.insert(entity, ()).expect("first insert");
    let error = world.insert(entity, ()).expect_err("duplicate id must fail");

    assert_eq!(error, WorldError::DuplicateEntityId(entity));
}

#[test]
fn max_explicit_id_is_rejected_to_preserve_allocator() {
    let mut world = World::default();
    let entity = EntityId::new(u64::MAX);

    let error = world.insert(entity, "Max").expect_err("max entity id cannot advance allocator");
    let next = world.spawn("First");

    assert_eq!(error, WorldError::EntityIdOverflow(entity));
    assert_eq!(world.entity(entity), None);
    assert_eq!(next.raw(), 1);
    assert_eq!(world.entity(next), Some(&"First"));
}

#[test]
fn allocator_wraps_before_reserved_max_entity_id() {
    let mut world = World::default();
    let high = EntityId::new(u64::MAX - 1);

    world.insert(high, "High").expect("high insert");
    let wrapped = world.spawn("Wrapped");

    assert_eq!(world.entity(high), Some(&"High"));
    assert_eq!(wrapped, EntityId::new(1));
    assert_eq!(world.entity(wrapped), Some(&"Wrapped"));
}

#[test]
fn entities_iterate_in_entity_id_order() {
    let mut world = World::default();
    let high = EntityId::new(9);
    let low = EntityId::new(2);
    let middle = EntityId::new(5);

    world.insert(high, ()).expect("high insert");
    world.insert(low, ()).expect("low insert");
    world.insert(middle, ()).expect("middle insert");

    assert_eq!(world.entity_ids(), vec![low, middle, high]);
    assert_eq!(world.len(), 3);
}

#[test]
fn spawn_skips_ids_in_use() {
    let mut world = World::default();
    world.insert(EntityId::new(1), "one").unwrap();
    world.insert(EntityId::new(3), "three").unwrap();
    let mut other = World::default();
    other.insert(EntityId::new(2), "two").unwrap();
    other.insert(EntityId::new(1), "one").unwrap();
    assert_eq!(other.spawn("next"), EntityId::new(3));
    assert_eq!(world.spawn("four"), EntityId::new(4));
}

fn resolved(id: Option<u64>, record: &'static str) -> ResolvedEntity<&'static str> {
    ResolvedEntity { id: id.map(EntityId::new), prefab: None, record }
}

#[test]
fn load_resolved_entities_preserves_explicit_ids() {
    let mut world = World::default();
    let loaded = world
        .load_resolved(vec![resolved(Some(10), "a"), resolved(None, "b"), resolved(Some(4), "c")])
        .unwrap();
    assert_eq!(loaded, vec![EntityId::new(10), EntityId::new(11), EntityId::new(4)]);
    assert_eq!(world.entity(EntityId::new(11)), Some(&"b"));
    assert_eq!(world.spawn("d"), EntityId::new(12));
}

#[test]
fn load_resolved_duplicate_explicit_ids_return_error_without_committing() {
    let mut world = World::default();
    world.insert(EntityId::new(1), "existing").unwrap();
    let error = world
        .load_resolved(vec![resolved(Some(2), "a"), resolved(Some(2), "b")])
        .unwrap_err();
    assert_eq!(error, WorldError::DuplicateEntityId(EntityId::new(2)));
    assert_eq!(world.entity(EntityId::new(2)), None);
    assert_eq!(world.len(), 1);
    let error = world
        .load_resolved(vec![resolved(None, "a"), resolved(Some(u64::MAX), "b")])
        .unwrap_err();
    assert_eq!(error, WorldError::EntityIdOverflow(EntityId::new(u64::MAX)));
    assert_eq!(world.len(), 1);
    assert_eq!(world.spawn("next"), EntityId::new(2));
}

#[test]
fn records_can_be_replaced_and_removed() {
    let mut world = World::default();
    let id = world.spawn(1u32);
    assert_eq!(world.replace_record(id, 2), Ok(1));
    assert_eq!(world.entity(id), Some(&2));
    assert_eq!(
        world.replace_record(EntityId::new(99), 3),
        Err(WorldError::MissingEntity(EntityId::new(99)))
    );
    assert_eq!(world.remove(id), Some(2));
    assert!(!world.contains(id));
    assert_eq!(world.remove(id), None);
}

#[derive(Debug, Clone, PartialEq)]
struct Record {
    name: &'static str,
    source: Option<(String, EntityId)>,
}

fn named(id: Option<u64>, name: &'static str) -> ResolvedEntity<Record> {
    ResolvedEntity { id: id.map(EntityId::new), prefab: None, record: Record { name, source: None } }
}

fn link(scene: &'static str) -> impl Fn(Record, EntityId) -> Record {
    move |record, source| Record { source: Some((scene.to_string(), source)), ..record }
}

#[test]
fn instantiate_resolved_entities_allocates_fresh_ids_and_source_links() {
    let mut world = World::default();
    world.insert(EntityId::new(1), Record { name: "Existing", source: None }).expect("insert existing");

    let instance = world
        .instantiate_resolved(vec![named(Some(1), "RoomPlayer")], link("res://scenes/room.scene.toml"))
        .expect("instantiate");
    let spawned = instance.entity_for_source(EntityId::new(1)).expect("source map");

    assert_ne!(spawned, EntityId::new(1));
    assert_eq!(spawned.raw(), 2);
    assert_eq!(
        world.entity(spawned).and_then(|record| record.source.clone()),
        Some(("res://scenes/room.scene.toml".to_string(), EntityId::new(1)))
    );
}

#[test]
fn instantiate_resolved_entities_never_reuses_source_id_in_empty_world() {
    let mut world = World::default();
    let instance = world
        .instantiate_resolved(vec![named(Some(1), "RoomPlayer")], link("room"))
        .expect("instantiate");
    let spawned = instance.entity_for_source(EntityId::new(1)).expect("source map");

    assert_ne!(spawned, EntityId::new(1));
    assert_eq!(spawned.raw(), 2);
    assert_eq!(world.entity(spawned).map(|record| record.name), Some("RoomPlayer"));
}

#[test]
fn instantiate_resolved_idless_entities_have_deterministic_source_links() {
    let mut world = World::default();
    let instance = world
        .instantiate_resolved(vec![named(None, "GeneratedOne"), named(None, "GeneratedTwo")], link("room"))
        .expect("instantiate");

    let first = instance.entity_for_source(EntityId::new(1)).unwrap();
    let second = instance.entity_for_source(EntityId::new(2)).unwrap();
    assert_eq!(first.raw(), 3);
    assert_eq!(second.raw(), 4);
    assert_eq!(world.entity(first).unwrap().name, "GeneratedOne");
    assert_eq!(world.entity(first).unwrap().source, Some(("room".to_string(), EntityId::new(1))));
    assert_eq!(instance.entity_for_source(EntityId::new(1)), Some(first));
    assert_eq!(world.entity(second).unwrap().source, Some(("room".to_string(), EntityId::new(2))));
}

#[test]
fn instantiate_resolved_duplicate_source_ids_error_without_mutating_world() {
    let mut world = World::default();
    let existing = EntityId::new(9);
    world.insert(existing, Record { name: "Existing", source: None }).expect("insert existing");

    let error = world
        .instantiate_resolved(vec![named(Some(1), "First"), named(Some(1), "Second")], link("room"))
        .expect_err("duplicate source id must fail");

    assert_eq!(error, WorldError::DuplicateEntityId(EntityId::new(1)));
    assert_eq!(world.len(), 1);
    assert_eq!(world.entity_ids(), vec![existing]);
}

fn first_named(world: &World<Record>, name: &'static str) -> Option<EntityId> {
    world.entities_matching(|record: &Record| record.name == name).first().copied()
}

#[test]
fn load_resolved_duplicate_explicit_ids_return_error() {
    let mut world = World::default();
    let existing = EntityId::new(99);
    let duplicate = EntityId::new(7);
    world.insert(existing, Record { name: "Existing", source: None }).expect("insert existing");

    let error = world
        .load_resolved(vec![named(Some(7), "First"), named(Some(7), "Second")])
        .expect_err("duplicate explicit id must fail");

    assert_eq!(error, WorldError::DuplicateEntityId(duplicate));
    assert_eq!(world.len(), 1);
    assert_eq!(first_named(&world, "Existing"), Some(existing));
    assert_eq!(first_named(&world, "First"), None);
    assert_eq!(first_named(&world, "Second"), None);
}

#[test]
fn load_resolved_overflow_error_does_not_commit_earlier_records() {
    let mut world: World<Record> = World::default();
    let too_high = EntityId::new(u64::MAX);

    let error = world
        .load_resolved(vec![named(None, "GeneratedBeforeFailure"), named(Some(u64::MAX), "TooHigh")])
        .expect_err("overflow explicit id must fail");

    assert_eq!(error, WorldError::EntityIdOverflow(too_high));
    assert_eq!(world.len(), 0);
    assert_eq!(first_named(&world, "GeneratedBeforeFailure"), None);
    let next = world.spawn(Record { name: "AfterFailure", source: None });
    assert_eq!(next, EntityId::new(1));
}

#[test]
fn load_resolved_max_explicit_id_returns_overflow_error() {
    let mut world: World<Record> = World::default();
    let entity = EntityId::new(u64::MAX);

    let error = world
        .load_resolved(vec![named(Some(u64::MAX), "TooHigh")])
        .expect_err("max entity id cannot advance allocator");

    assert_eq!(error, WorldError::EntityIdOverflow(entity));
    assert_eq!(world.len(), 0);
}

#[derive(Debug, Clone, PartialEq)]
struct Tagged {
    name: &'static str,
    tags: Vec<&'static str>,
}

#[test]
fn name_and_tag_queries_are_deterministic() {
    let mut world = World::default();
    let high = EntityId::new(9);
    let low = EntityId::new(2);
    world.insert(high, Tagged { name: "Duplicate", tags: vec!["npc"] }).expect("high insert");
    world.insert(low, Tagged { name: "Duplicate", tags: vec!["npc"] }).expect("low insert");

    let by_name = world.entities_matching(|record: &Tagged| record.name == "Duplicate");
    let by_tag = world.entities_matching(|record: &Tagged| record.tags.contains(&"npc"));

    assert_eq!(by_name.first().copied(), Some(low));
    assert_eq!(by_tag, vec![low, high]);
}

#[test]
fn transform_mutation_returns_missing_entity_error() {
    let mut world: World<Record> = World::default();
    let missing = EntityId::new(99);

    assert_eq!(
        world.replace_record(missing, Record { name: "Moved", source: None }),
        Err(WorldError::MissingEntity(missing))
    );
    assert_eq!(world.len(), 0);
}

#[test]
fn scene_document_builder_preserves_order_for_implicit_id_allocation() {
    let mut world: World<Record> = World::default();

    let loaded = world
        .load_resolved(vec![named(None, "Implicit"), named(Some(100), "Explicit")])
        .expect("load generated scene");

    assert_eq!(loaded, vec![EntityId::new(1), EntityId::new(100)]);
    assert_eq!(world.entity(EntityId::new(1)).map(|record| record.name), Some("Implicit"));
    assert_eq!(world.entity(EntityId::new(100)).map(|record| record.name), Some("Explicit"));
}

#[test]
fn entity_by_name_returns_lowest_entity_id_for_duplicate_names() {
    let mut world: World<Record> = World::default();
    let first = world.spawn(Record { name: "Duplicate", source: None });
    let second = world.spawn(Record { name: "Duplicate", source: None });

    assert!(first < second);
    assert_eq!(first_named(&world, "Duplicate"), Some(first));
}

#[test]
fn world_errors_say_which_id() {
    assert_eq!(WorldError::DuplicateEntityId(EntityId::new(7)).message(), "duplicate entity id 7");
    assert_eq!(
        WorldError::EntityIdOverflow(EntityId::new(u64::MAX)).message(),
        "entity id 18446744073709551615 cannot advance allocator"
    );
    assert_eq!(WorldError::MissingEntity(EntityId::new(3)).message(), "missing entity 3");
}

#[test]
fn scene_entity_planning_rejects_max_explicit_id_without_mutating_world() {
    let mut world = World::default();
    let existing = world.spawn("Existing");
    let error = world
        .load_resolved(vec![resolved(Some(7), "First"), resolved(Some(u64::MAX), "Overflow")])
        .expect_err("max entity id cannot advance allocator");

    assert_eq!(error, WorldError::EntityIdOverflow(EntityId::new(u64::MAX)));
    assert_eq!(world.len(), 1);
    assert_eq!(world.entities_matching(|record| *record == "Existing"), vec![existing]);
    assert!(world.entities_matching(|record| *record == "First").is_empty());
    assert!(world.entities_matching(|record| *record == "Overflow").is_empty());
}
