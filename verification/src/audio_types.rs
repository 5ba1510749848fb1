//! Handles and outcome types of the audio layer.
use vstd::prelude::*;

use std::marker::PhantomData;

verus! {

/// A typed handle to a loaded asset, identified by a number.
#[derive(Debug)]
pub struct AssetHandle<T> {
    id: u64,
    asset: PhantomData<T>,
}

impl<T> Clone for AssetHandle<T> {
    fn clone(&self) -> (copy: Self)
        ensures
            copy.spec_id() == self.spec_id(),
    {
        AssetHandle { id: self.id, asset: PhantomData }
    }
}

impl<T> Copy for AssetHandle<T> {
}

impl<T> PartialEq for AssetHandle<T> {
    fn eq(&self, other: &Self) -> (same: bool) {
        self.id == other.id
    }
}

impl<T> vstd::std_specs::cmp::PartialEqSpecImpl for AssetHandle<T> {
    open spec fn obeys_eq_spec() -> bool {
        true
    }

    open spec fn eq_spec(&self, other: &Self) -> bool {
        self.spec_id() == other.spec_id()
    }
}

impl<T> Eq for AssetHandle<T> {
}

impl<T> AssetHandle<T> {
    pub closed spec fn spec_id(&self) -> u64 {
        self.id
    }

    pub fn from_id(id: u64) -> (handle: Self)
        ensures
            handle.spec_id() == id,
    {
        AssetHandle { id, asset: PhantomData }
    }

    #[verifier::when_used_as_spec(spec_id)]
    pub fn id(&self) -> (id: u64)
        ensures
            id == self.spec_id(),
    {
        self.id
    }
}

/// The asset kind of a decoded sound.
#[derive(Debug, Clone, Copy, PartialEq, Eq)]
pub struct SoundAsset;

/// A running playback, identified by a number.
#[derive(Debug, Clone, Copy, PartialEq, Eq, Hash, Structural)]
pub struct PlaybackHandle(u64);

impl View for PlaybackHandle {
    type V = u64;

    closed spec fn view(&self) -> u64 {
        self.0
    }
}

impl PlaybackHandle {
    pub fn from_id(id: u64) -> (handle: Self)
        ensures
            handle@ == id,
    {
        PlaybackHandle(id)
    }

    pub fn id(self) -> (id: u64)
        ensures
            id == self@,
    {
        self.0
    }
}

/// A playback handle is its id: two handles with the same id are the same
/// handle, so handles made from one id compare equal.
pub proof fn lemma_playback_handle_is_its_id(a: PlaybackHandle, b: PlaybackHandle)
    ensures
        a@ == b@ <==> a == b,
{
}

/// Whether a playback is audible.
#[derive(Debug, Clone, Copy, PartialEq, Eq)]
pub enum PlaybackState {
    Playing,
    Paused,
}

/// The outcome of a request to play a sound.
#[derive(Debug, Clone, PartialEq, Eq)]
pub enum PlaybackResult {
    Started(PlaybackHandle),
    Skipped(AudioSkipReason),
}

/// The outcome of a request to control a playback.
#[derive(Debug, Clone, PartialEq, Eq)]
pub enum PlaybackControlResult {
    Applied,
    Missing(PlaybackHandle),
    BackendUnavailable(String),
    PlaybackFailed(String),
}

/// Why a sound was not played.
#[derive(Debug, Clone, PartialEq, Eq)]
pub enum AudioSkipReason {
    BackendUnavailable(String),
    SoundNotLoaded(AssetHandle<SoundAsset>),
    PlaybackFailed(String),
}

} // verus!
