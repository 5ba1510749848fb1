//! The lifecycle of a game on a mobile device: whether it runs, its drawing
//! surface, audio interruptions and touches. The engine and the game it
//! drives are held by the caller, which asks this state whether to tick and
//! whether the game still has to be shut down.
use vstd::prelude::*;

use crate::input::{InputState, InputStateView, KeyCode};

verus! {

/// How a mobile game runs: its fixed timestep and, where one is set, the
/// root of its writable user data.
#[derive(Debug, Clone, PartialEq)]
pub struct MobileRunConfig<T> {
    timestep: T,
    user_data_root: Option<String>,
}

/// A string option by its characters.
pub open spec fn text_option(text: Option<&str>) -> Option<Seq<char>> {
    match text {
        Some(t) => Some(t@),
        None => None,
    }
}

impl<T: Copy> MobileRunConfig<T> {
    pub closed spec fn spec_timestep(&self) -> T {
        self.timestep
    }

    pub closed spec fn spec_user_data_root(&self) -> Option<Seq<char>> {
        match &self.user_data_root {
            Some(root) => Some(root@),
            None => None,
        }
    }

    /// A configuration with the timestep and no user data root.
    pub fn new(timestep: T) -> (config: MobileRunConfig<T>)
        ensures
            config.spec_timestep() == timestep,
            config.spec_user_data_root() == None::<Seq<char>>,
    {
        MobileRunConfig { timestep, user_data_root: None }
    }

    /// The configuration with its user data kept under `path`.
    pub fn with_user_data_root(self, path: &str) -> (config: MobileRunConfig<T>)
        ensures
            config.spec_timestep() == self.spec_timestep(),
            config.spec_user_data_root() == Some(path@),
    {
        MobileRunConfig { timestep: self.timestep, user_data_root: Some(path.to_owned()) }
    }

    pub fn timestep(&self) -> (timestep: T)
        ensures
            timestep == self.spec_timestep(),
    {
        self.timestep
    }

    pub fn user_data_root(&self) -> (root: Option<&str>)
        ensures
            text_option(root) == self.spec_user_data_root(),
    {
        match &self.user_data_root {
            Some(root) => Some(root.as_str()),
            None => None,
        }
    }
}

/// Whether a mobile game runs.
#[derive(Debug, Clone, Copy, PartialEq, Eq, Structural)]
pub enum MobileRuntimeState {
    Paused,
    Running,
    Stopped,
}

/// What happened to a touch.
#[derive(Debug, Clone, Copy, PartialEq, Eq, Structural)]
pub enum MobileTouchPhase {
    Started,
    Moved,
    Ended,
    Cancelled,
}

/// A touch on the screen: its id, what happened to it, and where.
#[derive(Debug, Clone, Copy, PartialEq)]
pub struct MobileTouchEvent<P> {
    pub id: u64,
    pub phase: MobileTouchPhase,
    pub position: P,
}

impl<P> MobileTouchEvent<P> {
    pub fn new(id: u64, phase: MobileTouchPhase, position: P) -> (event: MobileTouchEvent<P>)
        ensures
            event.id == id,
            event.phase == phase,
            event.position == position,
    {
        MobileTouchEvent { id, phase, position }
    }
}

/// What the device tells a running game; `S` describes a drawing surface
/// and `P` a touch position.
#[derive(Debug, Clone, Copy, PartialEq)]
pub enum MobileLifecycleEvent<S, P> {
    Resumed,
    Paused,
    SurfaceAvailable(S),
    SurfaceLost,
    Touch(MobileTouchEvent<P>),
    AudioInterrupted,
    AudioResumed,
}

/// The lifecycle state of a mobile game.
pub struct MobileRuntime<S, P: Copy> {
    input: InputState<P>,
    state: MobileRuntimeState,
    surface: Option<S>,
    audio_interrupted: bool,
    shutdown: bool,
}

/// The lifecycle state as plain values: the input, whether the game runs,
/// its surface, whether audio is interrupted and whether the game was shut
/// down.
pub struct MobileRuntimeView<S, P> {
    pub input: InputStateView<P>,
    pub state: MobileRuntimeState,
    pub surface: Option<S>,
    pub audio_interrupted: bool,
    pub shutdown: bool,
}

impl<S, P: Copy> View for MobileRuntime<S, P> {
    type V = MobileRuntimeView<S, P>;

    closed spec fn view(&self) -> MobileRuntimeView<S, P> {
        MobileRuntimeView {
            input: self.input@,
            state: self.state,
            surface: self.surface,
            audio_interrupted: self.audio_interrupted,
            shutdown: self.shutdown,
        }
    }
}

/// Input with no key held and no touch active.
pub open spec fn fresh_input<P>() -> InputStateView<P> {
    InputStateView {
        pressed: Set::<KeyCode>::empty(),
        just_pressed: Set::<KeyCode>::empty(),
        just_released: Set::<KeyCode>::empty(),
        touches: Map::<u64, P>::empty(),
        touches_started: Set::<u64>::empty(),
        touches_ended: Set::<u64>::empty(),
    }
}

/// The input after a touch: a started touch becomes active at its position,
/// a moved active touch moves, and an ended or cancelled active touch ends.
/// A move or end of an unknown touch changes nothing.
pub open spec fn spec_touch<P>(input: InputStateView<P>, touch: MobileTouchEvent<P>) -> InputStateView<P> {
    let id = touch.id;
    match touch.phase {
        MobileTouchPhase::Started => InputStateView {
            touches: input.touches.insert(id, touch.position),
            touches_started: input.touches_started.insert(id),
            touches_ended: input.touches_ended.remove(id),
            ..input
        },
        MobileTouchPhase::Moved => if input.touches.contains_key(id) {
            InputStateView { touches: input.touches.insert(id, touch.position), ..input }
        } else {
            input
        },
        _ => if input.touches.contains_key(id) {
            InputStateView {
                touches: input.touches.remove(id),
                touches_ended: input.touches_ended.insert(id),
                touches_started: input.touches_started.remove(id),
                ..input
            }
        } else {
            input
        },
    }
}

/// The lifecycle state after an event. Resuming runs the game and pausing
/// pauses it, unless it was stopped; a surface is kept until it is lost;
/// touches go to the input; audio interruptions are recorded.
pub open spec fn spec_handle<S, P>(runtime: MobileRuntimeView<S, P>, event: MobileLifecycleEvent<S, P>) -> MobileRuntimeView<
    S,
    P,
> {
    match event {
        MobileLifecycleEvent::Resumed => if runtime.state != MobileRuntimeState::Stopped {
            MobileRuntimeView { state: MobileRuntimeState::Running, ..runtime }
        } else {
            runtime
        },
        MobileLifecycleEvent::Paused => if runtime.state != MobileRuntimeState::Stopped {
            MobileRuntimeView { state: MobileRuntimeState::Paused, ..runtime }
        } else {
            runtime
        },
        MobileLifecycleEvent::SurfaceAvailable(surface) => MobileRuntimeView { surface: Some(surface), ..runtime },
        MobileLifecycleEvent::SurfaceLost => MobileRuntimeView { surface: None, ..runtime },
        MobileLifecycleEvent::Touch(touch) => MobileRuntimeView { input: spec_touch(runtime.input, touch), ..runtime },
        MobileLifecycleEvent::AudioInterrupted => MobileRuntimeView { audio_interrupted: true, ..runtime },
        MobileLifecycleEvent::AudioResumed => MobileRuntimeView { audio_interrupted: false, ..runtime },
    }
}

impl<S, P: Copy> MobileRuntime<S, P> {
    /// A paused game with no surface, no input and audio not interrupted.
    pub fn new() -> (runtime: MobileRuntime<S, P>)
        ensures
            runtime@ == (MobileRuntimeView::<S, P> {
                input: fresh_input(),
                state: MobileRuntimeState::Paused,
                surface: None,
                audio_interrupted: false,
                shutdown: false,
            }),
    {
        let runtime = MobileRuntime {
            input: InputState::new(),
            state: MobileRuntimeState::Paused,
            surface: None,
            audio_interrupted: false,
            shutdown: false,
        };
        assert(runtime@.input == fresh_input::<P>());
        runtime
    }

    /// Takes in what the device reports.
    pub fn handle_event(&mut self, event: MobileLifecycleEvent<S, P>)
        ensures
            final(self)@ == spec_handle(old(self)@, event),
    {
        match event {
            MobileLifecycleEvent::Resumed => {
                if self.state != MobileRuntimeState::Stopped {
                    self.state = MobileRuntimeState::Running;
                }
            },
            MobileLifecycleEvent::Paused => {
                if self.state != MobileRuntimeState::Stopped {
                    self.state = MobileRuntimeState::Paused;
                }
            },
            MobileLifecycleEvent::SurfaceAvailable(surface) => {
                self.surface = Some(surface);
            },
            MobileLifecycleEvent::SurfaceLost => {
                self.surface = None;
            },
            MobileLifecycleEvent::Touch(touch) => self.apply_touch(touch),
            MobileLifecycleEvent::AudioInterrupted => {
                self.audio_interrupted = true;
            },
            MobileLifecycleEvent::AudioResumed => {
                self.audio_interrupted = false;
            },
        }
    }

    fn apply_touch(&mut self, touch: MobileTouchEvent<P>)
        ensures
            final(self)@ == (MobileRuntimeView { input: spec_touch(old(self)@.input, touch), ..old(self)@ }),
    {
        match touch.phase {
            MobileTouchPhase::Started => self.input.touch_start(touch.id, touch.position),
            MobileTouchPhase::Moved => self.input.touch_move(touch.id, touch.position),
            MobileTouchPhase::Ended => self.input.touch_end(touch.id),
            MobileTouchPhase::Cancelled => self.input.touch_cancel(touch.id),
        }
    }

    /// Whether a frame is due: only a running game is updated.
    pub fn frame_due(&self) -> (due: bool)
        ensures
            due == (self@.state == MobileRuntimeState::Running),
    {
        self.state == MobileRuntimeState::Running
    }

    /// Ends an updated frame: what went down or up is forgotten.
    pub fn finish_frame(&mut self)
        ensures
            final(self)@ == (MobileRuntimeView {
                input: InputStateView {
                    just_pressed: Set::<KeyCode>::empty(),
                    just_released: Set::<KeyCode>::empty(),
                    touches_started: Set::<u64>::empty(),
                    touches_ended: Set::<u64>::empty(),
                    ..old(self)@.input
                },
                ..old(self)@
            }),
    {
        self.input.end_frame();
    }

    /// Whether the game still has to be shut down: it is shut down once.
    pub fn game_shutdown_due(&self) -> (due: bool)
        ensures
            due == !self@.shutdown,
    {
        !self.shutdown
    }

    /// Stops the game, once it has been shut down.
    pub fn mark_stopped(&mut self)
        ensures
            final(self)@ == (MobileRuntimeView {
                state: MobileRuntimeState::Stopped,
                shutdown: true,
                ..old(self)@
            }),
    {
        self.shutdown = true;
        self.state = MobileRuntimeState::Stopped;
    }

    pub fn input_state(&self) -> (input: &InputState<P>)
        ensures
            input@ == self@.input,
    {
        &self.input
    }

    pub fn state(&self) -> (state: MobileRuntimeState)
        ensures
            state == self@.state,
    {
        self.state
    }

    pub fn surface(&self) -> (surface: Option<&S>)
        ensures
            match surface {
                Some(s) => self@.surface == Some(*s),
                None => self@.surface is None,
            },
    {
        self.surface.as_ref()
    }

    pub fn audio_interrupted(&self) -> (interrupted: bool)
        ensures
            interrupted == self@.audio_interrupted,
    {
        self.audio_interrupted
    }
}

/// Once stopped, a game stays stopped whatever the device reports.
pub proof fn lemma_stopped_is_final<S, P>(runtime: MobileRuntimeView<S, P>, event: MobileLifecycleEvent<S, P>)
    requires
        runtime.state == MobileRuntimeState::Stopped,
    ensures
        spec_handle(runtime, event).state == MobileRuntimeState::Stopped,
{
}

/// Only resuming and pausing change whether the game runs, and a touch
/// changes nothing but the input.
pub proof fn lemma_events_touch_their_own_part<S, P>(runtime: MobileRuntimeView<S, P>, event: MobileLifecycleEvent<S, P>)
    ensures
        !(event is Resumed) && !(event is Paused) ==> spec_handle(runtime, event).state == runtime.state,
        event is Touch ==> spec_handle(runtime, event).surface == runtime.surface && spec_handle(runtime, event).state
            == runtime.state && spec_handle(runtime, event).audio_interrupted == runtime.audio_interrupted,
        spec_handle(runtime, event).shutdown == runtime.shutdown,
{
}

} // verus!
