use seishin::components::ComponentRegistry;

#[test]
fn component_registration_refuses_blank_names() {
    let mut registry: ComponentRegistry<&'static str> = ComponentRegistry::new();

    let error = registry.register("   ", "ignored").unwrap_err();

    assert_eq!(error, "component registration name must not be empty");
    assert_eq!(registry.len(), 0);
    assert!(!registry.contains("   "));
}

#[test]
fn registering_a_name_again_replaces_its_registration() {
    let mut registry: ComponentRegistry<&'static str> = ComponentRegistry::new();
    registry.register("EnemyBrain", "first").unwrap();
    registry.register("Health", "health").unwrap();
    registry.register("EnemyBrain", "second").unwrap();

    assert_eq!(registry.len(), 2);
    assert_eq!(registry.registration("EnemyBrain"), Some(&"second"));
    assert_eq!(registry.registration("Health"), Some(&"health"));
    assert_eq!(registry.registration("Missing"), None);
}

#[test]
fn instantiating_uses_the_registration_or_names_the_unknown_type() {
    let mut registry: ComponentRegistry<u32> = ComponentRegistry::new();
    registry.register("Counter", 3).unwrap();

    assert_eq!(registry.instantiate("Counter", |start: &u32| *start + 1), Ok(4));
    assert_eq!(
        registry.instantiate("Spinner", |start: &u32| *start + 1),
        Err("unknown component type 'Spinner'".to_string())
    );
}

#[test]
fn entity_components_must_be_registered() {
    let mut registry: ComponentRegistry<()> = ComponentRegistry::new();
    registry.register("EnemyBrain", ()).unwrap();
    let used = vec!["EnemyBrain".to_string(), "Patrol".to_string(), "Ghost".to_string()];

    assert_eq!(
        registry.validate_components(Some("Guard"), &used).unwrap_err(),
        "unknown component type 'Patrol' while loading entity 'Guard'; register it with ctx.components().register::<T>(\"Patrol\") before ctx.load_main_scene()"
    );
    assert_eq!(
        registry.validate_components(None, &vec!["Ghost".to_string()]).unwrap_err(),
        "unknown component type 'Ghost' while loading entity '<unnamed>'; register it with ctx.components().register::<T>(\"Ghost\") before ctx.load_main_scene()"
    );
    assert_eq!(registry.validate_components(None, &vec!["EnemyBrain".to_string()]), Ok(()));
}

#[test]
fn unknown_scene_component_reports_clear_error() {
    let registry: ComponentRegistry<()> = ComponentRegistry::new();

    let error = registry
        .validate_components(Some("Player"), &vec!["PlayerController".to_string()])
        .expect_err("unregistered PlayerController must fail");

    assert!(error.contains("unknown component type 'PlayerController'"));
}
