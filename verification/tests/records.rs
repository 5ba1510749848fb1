use seishin::records::{
    finalize_ui_image, finalize_ui_interaction, merge_audio, merge_ui_image, merge_ui_interaction,
    override_component, AudioRef, InstanceSource, ResolveError, SceneAudioDocument,
    SceneInstanceDocument, SceneUiImageDocument, SceneUiInteractionDocument, UiAnchor,
};
use seishin::world::EntityId;

#[test]
fn scene_custom_component_overrides_prefab_component_by_type_name() {
    let mut components: Vec<(String, Vec<(String, f64)>)> = vec![(
        "PlayerController".to_string(),
        vec![("speed".to_string(), 100.0)],
    )];

    override_component(
        &mut components,
        "PlayerController".to_string(),
        vec![("speed".to_string(), 180.0)],
    );

    let matching: Vec<_> = components
        .iter()
        .filter(|(name, _)| name == "PlayerController")
        .collect();
    assert_eq!(matching.len(), 1);
    assert_eq!(matching[0].1, vec![("speed".to_string(), 180.0)]);
}

#[test]
fn override_component_keeps_other_types_in_order() {
    let mut components = vec![
        ("A".to_string(), 1),
        ("B".to_string(), 2),
        ("A".to_string(), 3),
        ("C".to_string(), 4),
    ];

    override_component(&mut components, "A".to_string(), 5);

    assert_eq!(
        components,
        vec![
            ("B".to_string(), 2),
            ("C".to_string(), 4),
            ("A".to_string(), 5)
        ]
    );
}

#[test]
fn scene_audio_overrides_prefab_audio() {
    let base = Some(AudioRef {
        sound: "asset://audio/base.wav".to_string(),
    });

    let merged = merge_audio(
        base.clone(),
        SceneAudioDocument {
            sound: Some("asset://audio/scene.wav".to_string()),
        },
    );
    assert_eq!(merged.map(|a| a.sound), Some("asset://audio/scene.wav".to_string()));

    let kept = merge_audio(base, SceneAudioDocument::default());
    assert_eq!(kept.map(|a| a.sound), Some("asset://audio/base.wav".to_string()));

    assert_eq!(merge_audio(None, SceneAudioDocument::default()), None);
}

#[test]
fn ui_image_fields_merge_one_by_one() {
    let base = Some(SceneUiImageDocument {
        texture: Some("asset://ui/base.png".to_string()),
        tint: Some("#ff0000".to_string()),
    });
    let merged = merge_ui_image(
        base.clone(),
        Some(SceneUiImageDocument {
            texture: None,
            tint: Some("#00ff00".to_string()),
        }),
    )
    .expect("merged image");

    assert_eq!(merged.texture.as_deref(), Some("asset://ui/base.png"));
    assert_eq!(merged.tint.as_deref(), Some("#00ff00"));
    assert_eq!(merge_ui_image(base.clone(), None), base);
    assert_eq!(merge_ui_image(None, Some(SceneUiImageDocument::default())), None);

    let image = finalize_ui_image(merged).expect("textured image");
    assert_eq!(image.texture, "asset://ui/base.png");
    assert_eq!(finalize_ui_image(SceneUiImageDocument::default()), None);
}

#[test]
fn ui_interaction_defaults_to_enabled() {
    let merged = merge_ui_interaction(
        Some(SceneUiInteractionDocument {
            action: Some("start_game".to_string()),
            enabled: None,
        }),
        Some(SceneUiInteractionDocument::default()),
    )
    .expect("merged interaction");

    let interaction = finalize_ui_interaction(merged).expect("interaction with an action");
    assert_eq!(interaction.action, "start_game");
    assert!(interaction.enabled);

    let disabled = finalize_ui_interaction(SceneUiInteractionDocument {
        action: Some("quit".to_string()),
        enabled: Some(false),
    })
    .expect("interaction");
    assert!(!disabled.enabled);
    assert_eq!(finalize_ui_interaction(SceneUiInteractionDocument::default()), None);
}

#[test]
fn instance_links_round_trip_through_documents() {
    let source = InstanceSource {
        scene: "res://scenes/room.scene.toml".to_string(),
        source_entity: EntityId::new(12),
    };
    let document = source.to_document();

    assert_eq!(
        document,
        SceneInstanceDocument {
            scene: "res://scenes/room.scene.toml".to_string(),
            source_entity: 12,
        }
    );
    assert_eq!(InstanceSource::from_document(&document), source);
}

#[test]
fn resolve_error_names_the_component() {
    let error = ResolveError::InvalidPrefabComponent("sprite".to_string());
    assert_eq!(error.message(), "invalid prefab component 'sprite'");
    assert_eq!(UiAnchor::default(), UiAnchor::TopLeft);
}
