use seishin::main_scene::{MainSceneAction, MainSceneEvent, MainSceneLoad};
use seishin::world::{EntityId, ResolvedEntity, World, WorldError};

fn entity(id: Option<u64>, name: &'static str) -> ResolvedEntity<&'static str> {
    ResolvedEntity { id: id.map(EntityId::new), prefab: None, record: name }
}

#[test]
fn main_scene_loads_each_entity_then_commits() {
    let (load, action) = MainSceneLoad::begin(Ok(vec![EntityId::new(7), EntityId::new(8)]));
    assert!(matches!(action, MainSceneAction::LoadAssets { index: 0, entity } if entity == EntityId::new(7)));
    let (load, action) = load.step(MainSceneEvent::AssetsLoaded);
    assert!(matches!(action, MainSceneAction::LoadAssets { index: 1, entity } if entity == EntityId::new(8)));
    let (_, action) = load.step(MainSceneEvent::AssetsLoaded);
    assert!(matches!(action, MainSceneAction::Commit));

    let (_, action) = MainSceneLoad::begin(Ok(Vec::new()));
    assert!(matches!(action, MainSceneAction::Commit));
}

#[test]
fn refused_plan_or_failed_assets_abort_before_commit() {
    let (_, action) = MainSceneLoad::begin(Err(WorldError::DuplicateEntityId(EntityId::new(7))));
    assert!(matches!(action, MainSceneAction::Abort));

    let (load, _) = MainSceneLoad::begin(Ok(vec![EntityId::new(1), EntityId::new(2)]));
    let (_, action) = load.step(MainSceneEvent::AssetsFailed);
    assert!(matches!(action, MainSceneAction::Abort));
}

#[test]
fn duplicate_scene_ids_leave_the_world_untouched_until_fixed() {
    let mut world: World<&str> = World::default();
    let plan = world.plan_resolved(&vec![entity(Some(7), "First"), entity(Some(7), "Second")]);
    let error = plan.clone().unwrap_err();
    assert_eq!(error, WorldError::DuplicateEntityId(EntityId::new(7)));
    assert_eq!(error.message(), "duplicate entity id 7");
    let (_, action) = MainSceneLoad::begin(plan);
    assert!(matches!(action, MainSceneAction::Abort));
    assert_eq!(world.len(), 0);

    let fixed = vec![entity(Some(7), "First")];
    let (load, action) = MainSceneLoad::begin(world.plan_resolved(&fixed));
    assert!(matches!(action, MainSceneAction::LoadAssets { index: 0, entity } if entity == EntityId::new(7)));
    let (_, action) = load.step(MainSceneEvent::AssetsLoaded);
    assert!(matches!(action, MainSceneAction::Commit));
    assert_eq!(world.load_resolved(fixed), Ok(vec![EntityId::new(7)]));
    assert_eq!(world.entities_matching(|record| *record == "First"), vec![EntityId::new(7)]);
}
