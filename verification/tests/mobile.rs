use seishin::mobile::{
    MobileLifecycleEvent, MobileRunConfig, MobileRuntime, MobileRuntimeState, MobileTouchEvent,
    MobileTouchPhase,
};

#[derive(Debug, Clone, Copy, PartialEq)]
struct Surface {
    width: u32,
    height: u32,
}

type Event = MobileLifecycleEvent<Surface, (f32, f32)>;

#[test]
fn mobile_run_config_keeps_timestep_and_user_data_root() {
    let config = MobileRunConfig::new(60u32);
    assert_eq!(config.timestep(), 60);
    assert_eq!(config.user_data_root(), None);

    let config = config.with_user_data_root("/data/user/0/game");
    assert_eq!(config.timestep(), 60);
    assert_eq!(config.user_data_root(), Some("/data/user/0/game"));
}

#[test]
fn mobile_runtime_starts_paused_and_resumes() {
    let mut runtime: MobileRuntime<Surface, (f32, f32)> = MobileRuntime::new();
    assert_eq!(runtime.state(), MobileRuntimeState::Paused);
    assert!(!runtime.frame_due());

    runtime.handle_event(Event::Resumed);
    assert_eq!(runtime.state(), MobileRuntimeState::Running);
    assert!(runtime.frame_due());

    runtime.handle_event(Event::Paused);
    assert_eq!(runtime.state(), MobileRuntimeState::Paused);
}

#[test]
fn mobile_runtime_stays_stopped_after_shutdown() {
    let mut runtime: MobileRuntime<Surface, (f32, f32)> = MobileRuntime::new();
    runtime.handle_event(Event::Resumed);

    assert!(runtime.game_shutdown_due());
    runtime.mark_stopped();
    assert!(!runtime.game_shutdown_due());
    assert_eq!(runtime.state(), MobileRuntimeState::Stopped);

    runtime.handle_event(Event::Resumed);
    assert_eq!(runtime.state(), MobileRuntimeState::Stopped);
    runtime.handle_event(Event::Paused);
    assert_eq!(runtime.state(), MobileRuntimeState::Stopped);
    assert!(!runtime.frame_due());
}

#[test]
fn mobile_runtime_tracks_surface_and_audio() {
    let mut runtime: MobileRuntime<Surface, (f32, f32)> = MobileRuntime::new();
    let surface = Surface {
        width: 1080,
        height: 2400,
    };

    runtime.handle_event(Event::SurfaceAvailable(surface));
    assert_eq!(runtime.surface(), Some(&surface));
    runtime.handle_event(Event::SurfaceLost);
    assert_eq!(runtime.surface(), None);

    runtime.handle_event(Event::AudioInterrupted);
    assert!(runtime.audio_interrupted());
    runtime.handle_event(Event::AudioResumed);
    assert!(!runtime.audio_interrupted());
}

#[test]
fn mobile_runtime_routes_touches_to_input() {
    let mut runtime: MobileRuntime<Surface, (f32, f32)> = MobileRuntime::new();

    runtime.handle_event(Event::Touch(MobileTouchEvent::new(
        7,
        MobileTouchPhase::Started,
        (10.0, 20.0),
    )));
    assert!(runtime.input_state().touch_pressed(7));
    assert!(runtime.input_state().touch_just_pressed(7));

    runtime.handle_event(Event::Touch(MobileTouchEvent::new(
        7,
        MobileTouchPhase::Moved,
        (15.0, 25.0),
    )));
    let touch = runtime.input_state().touch(7).expect("active touch");
    assert_eq!(touch.position, (15.0, 25.0));

    runtime.finish_frame();
    assert!(!runtime.input_state().touch_just_pressed(7));
    assert!(runtime.input_state().touch_pressed(7));

    runtime.handle_event(Event::Touch(MobileTouchEvent::new(
        7,
        MobileTouchPhase::Cancelled,
        (15.0, 25.0),
    )));
    assert!(!runtime.input_state().touch_pressed(7));
    assert!(runtime.input_state().touch_just_released(7));
}
