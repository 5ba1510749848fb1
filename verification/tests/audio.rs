use seishin::audio_system::{AudioSystem, PlaybackInfo};
use seishin::audio_types::{AssetHandle, AudioSkipReason, PlaybackControlResult, PlaybackHandle, PlaybackState, SoundAsset};

#[derive(Debug, Clone, Copy, PartialEq)]
struct Settings {
    volume: f32,
    looping: bool,
}

const DEFAULT_SETTINGS: Settings = Settings {
    volume: 1.0,
    looping: false,
};

#[test]
fn unloaded_sound_playback_is_skipped() {
    let mut audio: AudioSystem<Settings> = AudioSystem::without_backend("test backend disabled");
    let sound: AssetHandle<SoundAsset> = AssetHandle::from_id(99);

    assert_eq!(
        audio.begin_play(sound),
        Err(AudioSkipReason::SoundNotLoaded(sound))
    );
}

#[test]
fn missing_playback_controls_are_safe() {
    let audio: AudioSystem<Settings> = AudioSystem::without_backend("test backend disabled");
    let playback = PlaybackHandle::from_id(77);

    assert_eq!(
        audio.check_control(playback),
        Some(PlaybackControlResult::Missing(playback))
    );
}

#[test]
fn disabled_backend_skips_controlled_playback_without_allocating_handles() {
    let mut audio: AudioSystem<Settings> = AudioSystem::without_backend("test backend disabled");
    let sound = audio.reserve_sound_id();
    audio.mark_loaded(sound);

    assert_eq!(sound.id(), 1);
    assert!(!audio.is_backend_available());
    assert_eq!(audio.backend_error(), Some("test backend disabled"));
    assert_eq!(
        audio.begin_play(sound),
        Err(AudioSkipReason::BackendUnavailable(
            "test backend disabled".to_string()
        ))
    );
    assert_eq!(audio.active_playback_count(), 0);
}

#[test]
fn playbacks_are_tracked_through_pause_resume_and_stop() {
    let mut audio: AudioSystem<Settings> = AudioSystem::with_backend();
    let sound = audio.reserve_sound_id();
    audio.mark_loaded(sound);
    assert!(audio.is_loaded(sound));
    assert_eq!(audio.backend_error(), None);

    let playback = audio.begin_play(sound).expect("backend present");
    assert_eq!(playback.id(), 1);
    audio.record_started(playback, sound, DEFAULT_SETTINGS);
    assert_eq!(audio.active_playback_count(), 1);
    assert_eq!(
        audio.playback(playback),
        Some(PlaybackInfo {
            sound,
            settings: DEFAULT_SETTINGS,
            state: PlaybackState::Playing,
        })
    );
    assert_eq!(audio.check_control(playback), None);

    audio.record_paused(playback);
    assert_eq!(
        audio.playback(playback).map(|info| info.state),
        Some(PlaybackState::Paused)
    );
    audio.record_resumed(playback);
    assert_eq!(
        audio.playback(playback).map(|info| info.state),
        Some(PlaybackState::Playing)
    );

    let quieter = Settings {
        volume: 0.25,
        looping: true,
    };
    audio.record_settings(playback, quieter);
    assert_eq!(audio.playback(playback).map(|info| info.settings), Some(quieter));

    let second = audio.begin_play(sound).expect("second playback");
    assert_eq!(second.id(), 2);

    audio.record_stopped(playback);
    assert_eq!(audio.active_playback_count(), 0);
    assert_eq!(audio.playback(playback), None);
    assert_eq!(
        audio.check_control(playback),
        Some(PlaybackControlResult::Missing(playback))
    );
}

#[test]
fn control_without_backend_reports_the_reason() {
    let mut audio: AudioSystem<Settings> = AudioSystem::with_backend();
    let sound = audio.reserve_sound_id();
    audio.mark_loaded(sound);
    let playback = audio.begin_play(sound).expect("backend present");
    audio.record_started(playback, sound, DEFAULT_SETTINGS);

    let disabled: AudioSystem<Settings> = AudioSystem::without_backend("no audio device");
    assert_eq!(
        disabled.check_control(playback),
        Some(PlaybackControlResult::Missing(playback))
    );
    assert_eq!(audio.check_control(playback), None);
}
