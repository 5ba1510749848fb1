//! Game-facing data: character and dialogue records, the dialogue box state,
//! log levels and schedule phases.
use vstd::prelude::*;

verus! {

/// A character record loaded from a resource file.
#[derive(Debug, Clone)]
pub struct CharacterData {
    pub id: String,
    pub display_name: String,
    pub sprite: Option<String>,
    pub dialogue: Option<CharacterDialogueData>,
}

/// The dialogue a character opens by default.
#[derive(Debug, Clone)]
pub struct CharacterDialogueData {
    pub default: String,
}

/// A line of dialogue loaded from a resource file.
#[derive(Debug, Clone)]
pub struct DialogueData {
    pub id: String,
    pub text: String,
}

/// The dialogue shown on screen, with who speaks it.
#[derive(Debug, Clone)]
pub struct ActiveDialogue {
    pub speaker: String,
    pub dialogue: DialogueData,
}

/// Whether a dialogue box is open, and which.
#[derive(Debug, Clone)]
pub struct DialogueState {
    active: Option<ActiveDialogue>,
}

impl DialogueState {
    /// The dialogue on screen, if any.
    pub closed spec fn spec_active(&self) -> Option<ActiveDialogue> {
        self.active
    }

    /// No dialogue open.
    pub fn new() -> (state: DialogueState)
        ensures
            state.spec_active() is None,
    {
        DialogueState { active: None }
    }

    /// Opens `dialogue` spoken by `speaker`, replacing any open dialogue.
    pub fn open(&mut self, speaker: &str, dialogue: DialogueData)
        ensures
            final(self).spec_active() matches Some(active) && active.speaker@ == speaker@
                && active.dialogue == dialogue,
    {
        self.active = Some(ActiveDialogue { speaker: speaker.to_owned(), dialogue });
    }

    /// Closes the open dialogue, if any.
    pub fn close(&mut self)
        ensures
            final(self).spec_active() is None,
    {
        self.active = None;
    }

    /// Moves on from the open dialogue; a dialogue has a single line, so this
    /// closes it.
    pub fn advance_or_close(&mut self)
        ensures
            final(self).spec_active() is None,
    {
        self.close();
    }

    /// Whether a dialogue is open.
    pub fn is_active(&self) -> (open: bool)
        ensures
            open == self.spec_active() is Some,
    {
        self.active.is_some()
    }

    /// The open dialogue, if any.
    pub fn active(&self) -> (active: Option<&ActiveDialogue>)
        ensures
            match active {
                Some(a) => self.spec_active() == Some(*a),
                None => self.spec_active() is None,
            },
    {
        match &self.active {
            Some(active) => Some(active),
            None => None,
        }
    }
}

impl Default for DialogueState {
    fn default() -> (state: DialogueState)
        ensures
            state.spec_active() is None,
    {
        DialogueState::new()
    }
}

/// The least severe level of log records that are kept.
#[derive(Debug, Clone, Copy, PartialEq, Eq, Structural)]
pub enum LogLevel {
    Error,
    Warn,
    Info,
    Debug,
    Trace,
}

impl LogLevel {
    /// The name of the level in a log filter.
    pub open spec fn spec_filter(self) -> Seq<char> {
        match self {
            LogLevel::Error => "error"@,
            LogLevel::Warn => "warn"@,
            LogLevel::Info => "info"@,
            LogLevel::Debug => "debug"@,
            LogLevel::Trace => "trace"@,
        }
    }

    /// The name of the level in a log filter.
    pub fn as_filter(self) -> (filter: &'static str)
        ensures
            filter@ == self.spec_filter(),
    {
        match self {
            LogLevel::Error => "error",
            LogLevel::Warn => "warn",
            LogLevel::Info => "info",
            LogLevel::Debug => "debug",
            LogLevel::Trace => "trace",
        }
    }
}

/// When in a frame a scheduled system runs.
#[derive(Debug, Clone, Copy, PartialEq, Eq, Hash, Structural)]
pub enum SchedulePhase {
    /// Once, before the first update.
    Startup,
    /// Every frame, before the game's own update.
    Update,
    /// Every frame, after the game's own update.
    PostUpdate,
}

} // verus!
