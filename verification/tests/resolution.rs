use seishin::records::{ResolveError, SceneAudioDocument};
use seishin::resolution::{
    prefab_blueprint, prefab_section_kind, resolve_scene_entity, PrefabComponent, PrefabSectionKind,
    SceneEntityParts,
};
use seishin::world::EntityId;

type Section = PrefabComponent<&'static str, &'static str, &'static str, u32>;

fn parts(id: Option<u64>) -> SceneEntityParts<&'static str, &'static str, &'static str, u32> {
    SceneEntityParts {
        id,
        prefab: Some("res://prefabs/enemy.prefab.toml".to_string()),
        name: None,
        tags: None,
        data: None,
        transform: None,
        sprite: None,
        audio: None,
        ui: None,
        instance: None,
        components: Vec::new(),
    }
}

#[test]
fn prefab_keys_name_their_section_kinds() {
    assert_eq!(prefab_section_kind("name"), PrefabSectionKind::Name);
    assert_eq!(prefab_section_kind("tags"), PrefabSectionKind::Tags);
    assert_eq!(prefab_section_kind("transform"), PrefabSectionKind::Transform);
    assert_eq!(prefab_section_kind("sprite"), PrefabSectionKind::Sprite);
    assert_eq!(prefab_section_kind("audio"), PrefabSectionKind::Audio);
    assert_eq!(prefab_section_kind("ui"), PrefabSectionKind::Ui);
    assert_eq!(prefab_section_kind("brain"), PrefabSectionKind::Custom);
}

#[test]
fn scene_values_override_the_prefab_and_patches_follow_it() {
    let sections: Vec<(String, Section)> = vec![
        ("name".to_string(), PrefabComponent::Name(Some("Goblin".to_string()))),
        ("tags".to_string(), PrefabComponent::Tags(vec!["enemy".to_string()])),
        ("transform".to_string(), PrefabComponent::Transform("prefab transform")),
        ("audio".to_string(), PrefabComponent::Audio(SceneAudioDocument { sound: Some("asset://a.wav".to_string()) })),
        ("brain".to_string(), PrefabComponent::Custom(Some(("EnemyBrain".to_string(), 1)))),
        ("note".to_string(), PrefabComponent::Custom(None)),
    ];
    let blueprint = prefab_blueprint(sections).expect("valid prefab");
    let mut entity = parts(Some(7));
    entity.name = Some("Boss".to_string());
    entity.transform = Some("scene transform");
    entity.components = vec![("EnemyBrain".to_string(), 2), ("Patrol".to_string(), 3)];
    entity.data = Some(vec![("character".to_string(), "res://c.toml".to_string())]);

    let resolved = resolve_scene_entity(entity, Some(blueprint));

    assert_eq!(resolved.id, Some(EntityId::new(7)));
    assert_eq!(resolved.prefab.as_deref(), Some("res://prefabs/enemy.prefab.toml"));
    let record = resolved.record;
    assert_eq!(record.name.as_deref(), Some("Boss"));
    assert_eq!(record.tags, vec!["enemy".to_string()]);
    assert_eq!(record.audio.map(|audio| audio.sound), Some("asset://a.wav".to_string()));
    assert_eq!(record.transforms, vec!["prefab transform", "scene transform"]);
    assert_eq!(
        record.components,
        vec![("EnemyBrain".to_string(), 2), ("Patrol".to_string(), 3)]
    );
    assert_eq!(record.data_refs, vec![("character".to_string(), "res://c.toml".to_string())]);
    assert!(record.sprites.is_empty());
}

#[test]
fn a_malformed_prefab_section_is_refused_under_its_key() {
    let sections: Vec<(String, Section)> = vec![
        ("name".to_string(), PrefabComponent::Name(None)),
        ("sprite".to_string(), PrefabComponent::Malformed),
        ("ui".to_string(), PrefabComponent::Malformed),
    ];
    assert!(matches!(
        prefab_blueprint(sections),
        Err(ResolveError::InvalidPrefabComponent(key)) if key == "sprite"
    ));
}
