use seishin::scenes::LoadedScene;
use seishin::world::{EntityId, ResolvedEntity, World, WorldError};

fn named(id: Option<u64>, name: &str) -> ResolvedEntity<String> {
    ResolvedEntity {
        id: id.map(EntityId::new),
        prefab: None,
        record: name.to_string(),
    }
}

fn entity_by_name(world: &World<String>, name: &str) -> Option<EntityId> {
    world.entities_matching(|record| record == name).first().copied()
}

#[test]
fn loaded_scene_handles_replace_and_unload_only_tracked_entities() {
    let mut world: World<String> = World::default();
    let external = world.spawn("External".to_string());

    let loaded = world
        .load_scene_resolved(
            "res://scenes/room.scene.toml",
            vec![named(Some(10), "OldExplicit"), named(None, "OldGenerated")],
        )
        .expect("load scene");

    assert_eq!(loaded.source(), "res://scenes/room.scene.toml");
    assert_eq!(loaded.entities(), &[EntityId::new(10), EntityId::new(11)]);
    assert_eq!(entity_by_name(&world, "External"), Some(external));

    let replaced = world
        .replace_scene_resolved(&loaded, vec![named(Some(20), "NewExplicit")])
        .expect("replace scene");

    assert_eq!(replaced.source(), loaded.source());
    assert_eq!(replaced.entities(), &[EntityId::new(20)]);
    assert_eq!(entity_by_name(&world, "OldExplicit"), None);
    assert_eq!(entity_by_name(&world, "OldGenerated"), None);
    assert_eq!(entity_by_name(&world, "NewExplicit"), Some(EntityId::new(20)));
    assert_eq!(entity_by_name(&world, "External"), Some(external));

    let removed = world.unload_scene(&replaced).expect("unload scene");

    assert_eq!(removed, vec![EntityId::new(20)]);
    assert_eq!(entity_by_name(&world, "NewExplicit"), None);
    assert_eq!(entity_by_name(&world, "External"), Some(external));
}

#[test]
fn failed_replacement_keeps_the_old_scene() {
    let mut world: World<String> = World::default();
    let other = world.spawn("Other".to_string());
    let loaded = world
        .load_scene_resolved("res://a.scene.toml", vec![named(Some(5), "Old")])
        .expect("load scene");

    let error = world
        .replace_scene_resolved(&loaded, vec![named(Some(other.raw()), "Clash")])
        .expect_err("the new entity's id is taken");

    assert_eq!(error, WorldError::DuplicateEntityId(other));
    assert_eq!(entity_by_name(&world, "Old"), Some(EntityId::new(5)));
    assert_eq!(world.len(), 2);
}

#[test]
fn unloading_a_scene_whose_entity_is_gone_changes_nothing() {
    let mut world: World<String> = World::default();
    let loaded = world
        .load_scene_resolved("res://a.scene.toml", vec![named(Some(3), "A"), named(Some(4), "B")])
        .expect("load scene");
    world.remove(EntityId::new(3));

    assert_eq!(
        world.unload_scene(&loaded),
        Err(WorldError::MissingEntity(EntityId::new(3)))
    );
    assert!(world.contains(EntityId::new(4)));
}

#[test]
fn loaded_scenes_list_their_entities_by_id() {
    let scene = LoadedScene::new(
        "res://b.scene.toml",
        vec![EntityId::new(9), EntityId::new(2), EntityId::new(5)],
    );
    assert_eq!(
        scene.entities(),
        &[EntityId::new(2), EntityId::new(5), EntityId::new(9)]
    );
}

#[test]
fn entities_matching_lists_ids_in_order() {
    let mut world: World<String> = World::default();
    world.insert(EntityId::new(7), "enemy".to_string()).expect("insert");
    world.insert(EntityId::new(2), "enemy".to_string()).expect("insert");
    world.insert(EntityId::new(4), "player".to_string()).expect("insert");

    assert_eq!(
        world.entities_matching(|record| record == "enemy"),
        vec![EntityId::new(2), EntityId::new(7)]
    );
    assert!(world.entities_matching(|record| record == "boss").is_empty());
}
