//! The bookkeeping of the audio layer: which sounds are loaded, which
//! playbacks run and in what state, and which ids come next. The device
//! backend is driven by the caller, which asks this state what to do and
//! reports back what the backend did.
use std::collections::{HashMap, HashSet};
use vstd::prelude::*;

use crate::audio_types::{AssetHandle, AudioSkipReason, PlaybackControlResult, PlaybackHandle, PlaybackState, SoundAsset};

verus! {

broadcast use vstd::std_specs::hash::group_hash_axioms;

/// A running playback: its sound, its settings and whether it is paused.
#[derive(Debug, Clone, Copy, PartialEq)]
pub struct PlaybackInfo<S> {
    pub sound: AssetHandle<SoundAsset>,
    pub settings: S,
    pub state: PlaybackState,
}

/// The audio state as plain values.
pub struct AudioSystemView<S> {
    pub backend_available: bool,
    pub backend_error: Option<Seq<char>>,
    pub next_sound_id: u64,
    pub next_playback_id: u64,
    pub loaded: Set<u64>,
    pub playbacks: Map<u64, PlaybackInfo<S>>,
}

/// The audio state: whether a backend is there (and why not), the next sound
/// and playback ids, the loaded sounds and the running playbacks by id.
pub struct AudioSystem<S: Copy> {
    backend_available: bool,
    backend_error: Option<String>,
    next_sound_id: u64,
    next_playback_id: u64,
    loaded_sounds: HashSet<u64>,
    active_playbacks: HashMap<u64, PlaybackInfo<S>>,
}

/// What a refusal for want of a backend says: the reason the backend is
/// missing, or a general sentence.
pub open spec fn spec_unavailable_text(error: Option<Seq<char>>) -> Seq<char> {
    match error {
        Some(reason) => reason,
        None => "audio backend is unavailable"@,
    }
}

impl<S: Copy> View for AudioSystem<S> {
    type V = AudioSystemView<S>;

    closed spec fn view(&self) -> AudioSystemView<S> {
        AudioSystemView {
            backend_available: self.backend_available,
            backend_error: match &self.backend_error {
                Some(reason) => Some(reason@),
                None => None,
            },
            next_sound_id: self.next_sound_id,
            next_playback_id: self.next_playback_id,
            loaded: self.loaded_sounds@,
            playbacks: self.active_playbacks@,
        }
    }
}

/// Whether the audio state is consistent: ids are handed out from 1 up,
/// every loaded sound and running playback has an id already handed out,
/// and every playback plays a loaded sound.
pub open spec fn audio_consistent<S>(audio: AudioSystemView<S>) -> bool {
    &&& 1 <= audio.next_sound_id
    &&& 1 <= audio.next_playback_id
    &&& forall|id: u64| #[trigger] audio.loaded.contains(id) ==> 1 <= id < audio.next_sound_id
    &&& forall|id: u64| #[trigger] audio.playbacks.contains_key(id) ==> 1 <= id < audio.next_playback_id
    &&& forall|id: u64| #[trigger] audio.playbacks.contains_key(id) ==> audio.loaded.contains(audio.playbacks[id].sound.spec_id())
}

impl<S: Copy> AudioSystem<S> {
    #[verifier::type_invariant]
    spec fn consistent(&self) -> bool {
        audio_consistent(self@)
    }

    /// Audio with a working backend, nothing loaded and nothing playing.
    pub fn with_backend() -> (audio: AudioSystem<S>)
        ensures
            audio@.backend_available,
            audio@.backend_error == None::<Seq<char>>,
            audio@.next_sound_id == 1,
            audio@.next_playback_id == 1,
            audio@.loaded == Set::<u64>::empty(),
            audio@.playbacks == Map::<u64, PlaybackInfo<S>>::empty(),
    {
        AudioSystem {
            backend_available: true,
            backend_error: None,
            next_sound_id: 1,
            next_playback_id: 1,
            loaded_sounds: HashSet::new(),
            active_playbacks: HashMap::new(),
        }
    }

    /// Audio without a backend, for the given reason; sounds can still be
    /// registered but nothing plays.
    pub fn without_backend(reason: &str) -> (audio: AudioSystem<S>)
        ensures
            !audio@.backend_available,
            audio@.backend_error == Some(reason@),
            audio@.next_sound_id == 1,
            audio@.next_playback_id == 1,
            audio@.loaded == Set::<u64>::empty(),
            audio@.playbacks == Map::<u64, PlaybackInfo<S>>::empty(),
    {
        AudioSystem {
            backend_available: false,
            backend_error: Some(reason.to_owned()),
            next_sound_id: 1,
            next_playback_id: 1,
            loaded_sounds: HashSet::new(),
            active_playbacks: HashMap::new(),
        }
    }

    pub fn is_backend_available(&self) -> (available: bool)
        ensures
            available == self@.backend_available,
    {
        self.backend_available
    }

    pub fn backend_error(&self) -> (error: Option<&str>)
        ensures
            match error {
                Some(text) => self@.backend_error == Some(text@),
                None => self@.backend_error is None,
            },
    {
        match &self.backend_error {
            Some(reason) => Some(reason.as_str()),
            None => None,
        }
    }

    /// The id the next reserved sound gets.
    pub fn next_sound_id(&self) -> (id: u64)
        ensures
            id == self@.next_sound_id,
    {
        self.next_sound_id
    }

    /// The id the next started playback gets.
    pub fn next_playback_id(&self) -> (id: u64)
        ensures
            id == self@.next_playback_id,
    {
        self.next_playback_id
    }

    /// Hands out the next sound id; the sound counts as loaded only once
    /// `mark_loaded` is called with it.
    pub fn reserve_sound_id(&mut self) -> (sound: AssetHandle<SoundAsset>)
        requires
            old(self)@.next_sound_id < u64::MAX,
        ensures
            sound.spec_id() == old(self)@.next_sound_id,
            final(self)@ == (AudioSystemView { next_sound_id: (old(self)@.next_sound_id + 1) as u64, ..old(self)@ }),
    {
        proof {
            use_type_invariant(&*self);
        }
        let id = self.next_sound_id;
        self.next_sound_id = id + 1;
        AssetHandle::from_id(id)
    }

    /// Records that a sound whose id was handed out is loaded.
    pub fn mark_loaded(&mut self, sound: AssetHandle<SoundAsset>)
        requires
            1 <= sound.spec_id() < old(self)@.next_sound_id,
        ensures
            final(self)@ == (AudioSystemView { loaded: old(self)@.loaded.insert(sound.spec_id()), ..old(self)@ }),
    {
        proof {
            use_type_invariant(&*self);
        }
        let mut current = AudioSystem::with_backend();
        std::mem::swap(&mut current, self);
        proof {
            use_type_invariant(&current);
        }
        let AudioSystem {
            backend_available,
            backend_error,
            next_sound_id,
            next_playback_id,
            mut loaded_sounds,
            active_playbacks,
        } = current;
        loaded_sounds.insert(sound.id());
        *self = AudioSystem {
            backend_available,
            backend_error,
            next_sound_id,
            next_playback_id,
            loaded_sounds,
            active_playbacks,
        };
    }

    /// Whether the sound is loaded.
    pub fn is_loaded(&self, sound: AssetHandle<SoundAsset>) -> (loaded: bool)
        ensures
            loaded == self@.loaded.contains(sound.spec_id()),
    {
        self.loaded_sounds.contains(&sound.id())
    }

    /// Decides whether a sound can be played. A sound that is not loaded is
    /// skipped, and so is any sound without a backend; otherwise the next
    /// playback handle is handed out for the backend to start.
    pub fn begin_play(&mut self, sound: AssetHandle<SoundAsset>) -> (result: Result<PlaybackHandle, AudioSkipReason>)
        requires
            old(self)@.loaded.contains(sound.spec_id()) && old(self)@.backend_available ==> old(self)@.next_playback_id
                < u64::MAX,
        ensures
            !old(self)@.loaded.contains(sound.spec_id()) ==> (result matches Err(AudioSkipReason::SoundNotLoaded(s))
                && s.spec_id() == sound.spec_id() && final(self)@ == old(self)@),
            old(self)@.loaded.contains(sound.spec_id()) && !old(self)@.backend_available ==> (result matches Err(
                AudioSkipReason::BackendUnavailable(text),
            ) && text@ == spec_unavailable_text(old(self)@.backend_error) && final(self)@ == old(self)@),
            old(self)@.loaded.contains(sound.spec_id()) && old(self)@.backend_available ==> (result matches Ok(playback)
                && playback@ == old(self)@.next_playback_id && !old(self)@.playbacks.contains_key(playback@)
                && final(self)@ == (AudioSystemView {
                next_playback_id: (old(self)@.next_playback_id + 1) as u64,
                ..old(self)@
            })),
    {
        proof {
            use_type_invariant(&*self);
        }
        if !self.loaded_sounds.contains(&sound.id()) {
            return Err(AudioSkipReason::SoundNotLoaded(sound));
        }
        if !self.backend_available {
            return Err(AudioSkipReason::BackendUnavailable(self.unavailable_text()));
        }
        let id = self.next_playback_id;
        self.next_playback_id = id + 1;
        Ok(PlaybackHandle::from_id(id))
    }

    /// Records that the backend started a playback handed out by
    /// `begin_play` for a loaded sound.
    pub fn record_started(&mut self, playback: PlaybackHandle, sound: AssetHandle<SoundAsset>, settings: S)
        requires
            1 <= playback@ < old(self)@.next_playback_id,
            old(self)@.loaded.contains(sound.spec_id()),
        ensures
            final(self)@ == (AudioSystemView {
                playbacks: old(self)@.playbacks.insert(
                    playback@,
                    PlaybackInfo { sound, settings, state: PlaybackState::Playing },
                ),
                ..old(self)@
            }),
    {
        proof {
            use_type_invariant(&*self);
        }
        let mut playbacks = HashMap::new();
        std::mem::swap(&mut playbacks, &mut self.active_playbacks);
        playbacks.insert(playback.id(), PlaybackInfo { sound, settings, state: PlaybackState::Playing });
        self.active_playbacks = playbacks;
    }

    fn unavailable_text(&self) -> (text: String)
        ensures
            text@ == spec_unavailable_text(self@.backend_error),
    {
        match &self.backend_error {
            Some(reason) => reason.clone(),
            None => "audio backend is unavailable".to_owned(),
        }
    }

    /// Decides whether a control request goes to the backend: a playback
    /// that is not running is missing, and without a backend nothing can be
    /// controlled; `None` means the backend is to be asked.
    pub fn check_control(&self, playback: PlaybackHandle) -> (verdict: Option<PlaybackControlResult>)
        ensures
            !self@.playbacks.contains_key(playback@) ==> (verdict matches Some(PlaybackControlResult::Missing(p))
                && p@ == playback@),
            self@.playbacks.contains_key(playback@) && !self@.backend_available ==> (verdict matches Some(
                PlaybackControlResult::BackendUnavailable(text),
            ) && text@ == spec_unavailable_text(self@.backend_error)),
            self@.playbacks.contains_key(playback@) && self@.backend_available ==> verdict is None,
    {
        if !self.active_playbacks.contains_key(&playback.id()) {
            return Some(PlaybackControlResult::Missing(playback));
        }
        if !self.backend_available {
            return Some(PlaybackControlResult::BackendUnavailable(self.unavailable_text()));
        }
        None
    }

    fn set_state(&mut self, playback: PlaybackHandle, state: PlaybackState)
        ensures
            final(self)@ == (AudioSystemView {
                playbacks: if old(self)@.playbacks.contains_key(playback@) {
                    old(self)@.playbacks.insert(playback@, PlaybackInfo { state, ..old(self)@.playbacks[playback@] })
                } else {
                    old(self)@.playbacks
                },
                ..old(self)@
            }),
    {
        proof {
            use_type_invariant(&*self);
        }
        let current = match self.active_playbacks.get(&playback.id()) {
            Some(info) => *info,
            None => return,
        };
        let mut playbacks = HashMap::new();
        std::mem::swap(&mut playbacks, &mut self.active_playbacks);
        playbacks.insert(playback.id(), PlaybackInfo { state, ..current });
        self.active_playbacks = playbacks;
    }

    /// Records that the backend paused the playback.
    pub fn record_paused(&mut self, playback: PlaybackHandle)
        ensures
            final(self)@ == (AudioSystemView {
                playbacks: if old(self)@.playbacks.contains_key(playback@) {
                    old(self)@.playbacks.insert(
                        playback@,
                        PlaybackInfo { state: PlaybackState::Paused, ..old(self)@.playbacks[playback@] },
                    )
                } else {
                    old(self)@.playbacks
                },
                ..old(self)@
            }),
    {
        self.set_state(playback, PlaybackState::Paused);
    }

    /// Records that the backend resumed the playback.
    pub fn record_resumed(&mut self, playback: PlaybackHandle)
        ensures
            final(self)@ == (AudioSystemView {
                playbacks: if old(self)@.playbacks.contains_key(playback@) {
                    old(self)@.playbacks.insert(
                        playback@,
                        PlaybackInfo { state: PlaybackState::Playing, ..old(self)@.playbacks[playback@] },
                    )
                } else {
                    old(self)@.playbacks
                },
                ..old(self)@
            }),
    {
        self.set_state(playback, PlaybackState::Playing);
    }

    /// Records that the backend stopped the playback; it is no longer
    /// running.
    pub fn record_stopped(&mut self, playback: PlaybackHandle)
        ensures
            final(self)@ == (AudioSystemView { playbacks: old(self)@.playbacks.remove(playback@), ..old(self)@ }),
    {
        proof {
            use_type_invariant(&*self);
        }
        let mut playbacks = HashMap::new();
        std::mem::swap(&mut playbacks, &mut self.active_playbacks);
        let _ = playbacks.remove(&playback.id());
        self.active_playbacks = playbacks;
    }

    /// Records the playback's new settings once the backend applied them.
    pub fn record_settings(&mut self, playback: PlaybackHandle, settings: S)
        ensures
            final(self)@ == (AudioSystemView {
                playbacks: if old(self)@.playbacks.contains_key(playback@) {
                    old(self)@.playbacks.insert(playback@, PlaybackInfo { settings, ..old(self)@.playbacks[playback@] })
                } else {
                    old(self)@.playbacks
                },
                ..old(self)@
            }),
    {
        proof {
            use_type_invariant(&*self);
        }
        let current = match self.active_playbacks.get(&playback.id()) {
            Some(info) => *info,
            None => return,
        };
        let mut playbacks = HashMap::new();
        std::mem::swap(&mut playbacks, &mut self.active_playbacks);
        playbacks.insert(playback.id(), PlaybackInfo { settings, ..current });
        self.active_playbacks = playbacks;
    }

    /// The number of running playbacks.
    pub fn active_playback_count(&self) -> (count: usize)
        ensures
            count == self@.playbacks.len(),
    {
        self.active_playbacks.len()
    }

    /// The running playback, if it runs.
    pub fn playback(&self, playback: PlaybackHandle) -> (info: Option<PlaybackInfo<S>>)
        ensures
            match info {
                Some(i) => self@.playbacks.contains_key(playback@) && self@.playbacks[playback@] == i,
                None => !self@.playbacks.contains_key(playback@),
            },
    {
        match self.active_playbacks.get(&playback.id()) {
            Some(info) => Some(*info),
            None => None,
        }
    }
}

} // verus!
