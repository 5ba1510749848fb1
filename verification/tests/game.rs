use seishin::app_config::{
    default_dialogue_ref, interaction_step, parse_clear_color, AppSettings, ClearColorChoice,
    GameConfig, InteractionStep, ProjectConfig, RootConfig, WindowProjectConfig,
};
use seishin::game::{CharacterData, CharacterDialogueData, DialogueData, DialogueState, LogLevel};
use seishin::input::{InputActionConfig, InputConfig};

fn dialogue() -> DialogueData {
    DialogueData { id: "hello".to_string(), text: "Hello there".to_string() }
}

#[test]
fn dialogue_opens_and_closes() {
    let mut state = DialogueState::default();
    assert!(!state.is_active());
    state.open("Guide", dialogue());
    assert!(state.is_active());
    let active = state.active().unwrap();
    assert_eq!(active.speaker, "Guide");
    assert_eq!(active.dialogue.text, "Hello there");
    state.advance_or_close();
    assert!(!state.is_active());
    state.close();
    assert!(state.active().is_none());
}

#[test]
fn log_levels_name_their_filters() {
    assert_eq!(LogLevel::Error.as_filter(), "error");
    assert_eq!(LogLevel::Warn.as_filter(), "warn");
    assert_eq!(LogLevel::Info.as_filter(), "info");
    assert_eq!(LogLevel::Debug.as_filter(), "debug");
    assert_eq!(LogLevel::Trace.as_filter(), "trace");
}

fn empty_project() -> ProjectConfig {
    ProjectConfig {
        game: None,
        window: None,
        resources: None,
        assets: None,
        user: None,
        logging: None,
        input: None,
    }
}

#[test]
fn project_config_defaults_fill_what_is_left_out() {
    let settings = AppSettings::from_project_config(empty_project(), "/game");
    assert_eq!(settings.title, "seishin");
    assert_eq!((settings.width, settings.height, settings.target_fps), (1280, 720, 60));
    assert_eq!(settings.asset_root, "/game/assets");
    assert_eq!(settings.resource_root, "/game/resources");
    assert_eq!(settings.user_root, "/game/user");
    assert_eq!(settings.clear_color, ClearColorChoice::Black);
    assert!(settings.logging_enabled);
    assert_eq!(settings.logging_filter, "info");
    assert_eq!(settings.main_scene, None);
}

#[test]
fn project_config_values_override_defaults() {
    let mut project = empty_project();
    project.game = Some(GameConfig {
        name: Some("Mini RPG".to_string()),
        main_scene: Some("res://scenes/main.scene.toml".to_string()),
    });
    project.window = Some(WindowProjectConfig {
        width: Some(800),
        height: None,
        target_fps: Some(30),
        clear_color: Some("CornflowerBlue".to_string()),
    });
    project.assets = Some(RootConfig { root: Some("art".to_string()) });
    project.input = Some(InputConfig {
        actions: vec![(
            "interact".to_string(),
            InputActionConfig::Button { keys: vec!["Space".to_string()] },
        )],
    });
    let settings = AppSettings::from_project_config(project, "proj/");
    assert_eq!(settings.title, "Mini RPG");
    assert_eq!((settings.width, settings.height, settings.target_fps), (800, 720, 30));
    assert_eq!(settings.clear_color, ClearColorChoice::Cornflower);
    assert_eq!(settings.asset_root, "proj/art");
    assert_eq!(settings.main_scene.as_deref(), Some("res://scenes/main.scene.toml"));
}

#[test]
fn clear_color_names_ignore_case() {
    assert_eq!(parse_clear_color("BLACK"), Some(ClearColorChoice::Black));
    assert_eq!(parse_clear_color("cornflower"), Some(ClearColorChoice::Cornflower));
    assert_eq!(parse_clear_color("teal"), None);
}

#[test]
fn dialogue_interaction_decisions() {
    assert_eq!(interaction_step(false, true, Some("x".into())), InteractionStep::Idle);
    assert_eq!(interaction_step(true, true, None), InteractionStep::AdvanceDialogue);
    assert_eq!(interaction_step(true, false, None), InteractionStep::NoTarget);
    assert_eq!(
        interaction_step(true, false, Some("res://data/guide.toml".into())),
        InteractionStep::LoadCharacter("res://data/guide.toml".to_string())
    );
    let character = CharacterData {
        id: "guide".to_string(),
        display_name: "Guide".to_string(),
        sprite: None,
        dialogue: Some(CharacterDialogueData { default: "res://data/hello.toml".to_string() }),
    };
    assert_eq!(default_dialogue_ref(&character), Some("res://data/hello.toml".to_string()));
}
