use seishin::input::{
    action_axis, axis, parse_key_code, parse_key_list, InputActionConfig, InputActions, InputConfig,
    InputState, KeyCode,
};

type Input = InputState<(f32, f32)>;

#[test]
fn first_press_sets_pressed_and_just_pressed() {
    let mut input = Input::default();

    input.press(KeyCode::ArrowRight);

    assert!(input.pressed(KeyCode::ArrowRight));
    assert!(input.just_pressed(KeyCode::ArrowRight));
    assert!(!input.just_released(KeyCode::ArrowRight));
}

#[test]
fn repeated_press_does_not_repeat_just_pressed_while_held() {
    let mut input = Input::default();

    input.press(KeyCode::ArrowRight);
    input.end_frame();

    input.press(KeyCode::ArrowRight);

    assert!(input.pressed(KeyCode::ArrowRight));
    assert!(!input.just_pressed(KeyCode::ArrowRight));
    assert!(!input.just_released(KeyCode::ArrowRight));
}

#[test]
fn release_sets_just_released_once_and_clears_pressed() {
    let mut input = Input::default();

    input.press(KeyCode::ArrowRight);
    input.end_frame();

    input.release(KeyCode::ArrowRight);

    assert!(!input.pressed(KeyCode::ArrowRight));
    assert!(!input.just_pressed(KeyCode::ArrowRight));
    assert!(input.just_released(KeyCode::ArrowRight));

    input.end_frame();

    assert!(!input.pressed(KeyCode::ArrowRight));
    assert!(!input.just_pressed(KeyCode::ArrowRight));
    assert!(!input.just_released(KeyCode::ArrowRight));
}

#[test]
fn end_of_frame_clears_transition_flags_but_keeps_held_keys() {
    let mut input = Input::default();

    input.press(KeyCode::ArrowLeft);
    input.end_frame();

    assert!(input.pressed(KeyCode::ArrowLeft));
    assert!(!input.just_pressed(KeyCode::ArrowLeft));
    assert!(!input.just_released(KeyCode::ArrowLeft));
}

#[test]
fn multiple_keys_remain_independent() {
    let mut input = Input::default();

    input.press(KeyCode::ArrowLeft);
    input.press(KeyCode::ArrowRight);
    input.end_frame();
    input.release(KeyCode::ArrowLeft);

    assert!(!input.pressed(KeyCode::ArrowLeft));
    assert!(input.just_released(KeyCode::ArrowLeft));
    assert!(input.pressed(KeyCode::ArrowRight));
    assert!(!input.just_pressed(KeyCode::ArrowRight));
    assert!(!input.just_released(KeyCode::ArrowRight));
}

#[test]
fn touch_lifecycle_tracks_active_and_transition_state() {
    let mut input = Input::default();

    input.touch_start(7, (12.0, 34.0));

    assert!(input.touch_pressed(7));
    assert!(input.touch_just_pressed(7));
    assert!(!input.touch_just_released(7));
    assert_eq!(input.touch(7).map(|touch| touch.position), Some((12.0, 34.0)));

    input.end_frame();
    input.touch_move(7, (56.0, 78.0));

    assert!(input.touch_pressed(7));
    assert!(!input.touch_just_pressed(7));
    assert_eq!(input.touch(7).map(|touch| touch.position), Some((56.0, 78.0)));

    input.touch_end(7);

    assert!(!input.touch_pressed(7));
    assert!(input.touch_just_released(7));
}

#[test]
fn releasing_a_key_that_is_up_changes_nothing() {
    let mut input = Input::default();
    input.release(KeyCode::Space);
    assert!(!input.just_released(KeyCode::Space));
    assert!(!input.is_key_down(KeyCode::Space));
}

#[test]
fn touches_are_listed_once_and_unknown_touches_are_ignored() {
    let mut input = Input::new();
    input.touch_start(1, (0.0, 0.0));
    input.touch_start(2, (1.0, 1.0));
    input.touch_start(1, (5.0, 5.0));
    input.touch_move(9, (3.0, 3.0));
    input.touch_cancel(9);
    let mut ids: Vec<u64> = input.touches().iter().map(|touch| touch.id).collect();
    ids.sort();
    assert_eq!(ids, vec![1, 2]);
    assert_eq!(input.touch(1).map(|touch| touch.position), Some((5.0, 5.0)));
    input.touch_cancel(2);
    assert!(input.touch_just_released(2));
    assert_eq!(input.clone().touches().len(), 1);
}

fn names(keys: &[&str]) -> Vec<String> {
    keys.iter().map(|key| key.to_string()).collect()
}

#[test]
fn input_actions_map_axis2d_from_named_keys() {
    let config = InputConfig {
        actions: vec![(
            "move".to_string(),
            InputActionConfig::Axis2d {
                left: names(&["ArrowLeft", "KeyA"]),
                right: names(&["ArrowRight", "KeyD"]),
                up: names(&["ArrowUp", "KeyW"]),
                down: names(&["ArrowDown", "KeyS"]),
            },
        )],
    };
    let actions = InputActions::from_config(config);
    let mut input = Input::default();

    input.press(KeyCode::KeyD);
    input.press(KeyCode::KeyW);

    assert_eq!(actions.axis2d(&input, "move"), (1, -1));
    assert_eq!(actions.axis2d(&input, "missing"), (0, 0));
}

#[test]
fn input_actions_map_button_just_pressed_from_named_keys() {
    let config = InputConfig {
        actions: vec![(
            "interact".to_string(),
            InputActionConfig::Button { keys: names(&["Space", "Enter"]) },
        )],
    };
    let actions = InputActions::from_config(config);
    let mut input = Input::default();

    input.press(KeyCode::Enter);

    assert!(actions.button_pressed(&input, "interact"));
    assert!(actions.button_just_pressed(&input, "interact"));
    assert!(!actions.button_just_released(&input, "interact"));
    assert!(!actions.button_pressed(&input, "missing"));
}

#[test]
fn key_names_and_axes() {
    assert_eq!(parse_key_code("W"), Some(KeyCode::KeyW));
    assert_eq!(parse_key_code("KeyW"), Some(KeyCode::KeyW));
    assert_eq!(parse_key_code("Escape"), Some(KeyCode::Escape));
    assert_eq!(parse_key_code("F1"), None);
    assert_eq!(
        parse_key_list(names(&["Space", "Nope", "Enter"])),
        vec![KeyCode::Space, KeyCode::Enter]
    );
    let mut input = Input::default();
    input.press(KeyCode::ArrowLeft);
    assert_eq!(axis(&input, KeyCode::ArrowLeft, KeyCode::ArrowRight), -1);
    input.press(KeyCode::ArrowRight);
    assert_eq!(axis(&input, KeyCode::ArrowLeft, KeyCode::ArrowRight), 0);
    assert_eq!(action_axis(&input, &vec![KeyCode::KeyA], &vec![KeyCode::ArrowRight]), 1);
}

#[test]
fn transition_flags_always_agree_with_held_keys_and_touches() {
    let mut input: InputState<(i32, i32)> = InputState::new();
    input.press(KeyCode::Space);
    input.release(KeyCode::Space);
    assert!(!input.pressed(KeyCode::Space));
    assert!(!input.just_pressed(KeyCode::Space));
    assert!(input.just_released(KeyCode::Space));

    input.press(KeyCode::Space);
    assert!(input.pressed(KeyCode::Space));
    assert!(input.just_pressed(KeyCode::Space));
    assert!(!input.just_released(KeyCode::Space));

    input.touch_start(4, (1, 2));
    input.touch_end(4);
    assert!(!input.touch_pressed(4));
    assert!(!input.touch_just_pressed(4));
    assert!(input.touch_just_released(4));
}
