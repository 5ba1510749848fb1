//! Application settings read from a project configuration, and the decisions
//! of the built-in dialogue interaction.
use vstd::prelude::*;

use crate::game::CharacterData;
use crate::input::{names_distinct, InputActions, InputActionView, InputConfig, spec_config_actions};
use crate::paths::spec_join;
use crate::text::{chars_equal, chars_of};

verus! {

/// The named clear colors a project configuration may choose.
#[derive(Debug, Clone, Copy, PartialEq, Eq, Structural)]
pub enum ClearColorChoice {
    Black,
    Cornflower,
}

/// The character with ASCII upper-case letters made lower-case.
pub open spec fn ascii_lower(c: char) -> char {
    if 0x41 <= (c as u32) <= 0x5a {
        ((c as u32) + 0x20) as char
    } else {
        c
    }
}

/// The text with ASCII upper-case letters made lower-case.
pub open spec fn spec_ascii_lowercase(s: Seq<char>) -> Seq<char> {
    s.map_values(|c: char| ascii_lower(c))
}

/// The clear color that a configuration names, ignoring ASCII case.
pub open spec fn spec_clear_color(value: Seq<char>) -> Option<ClearColorChoice> {
    let lower = spec_ascii_lowercase(value);
    if lower == "black"@ {
        Some(ClearColorChoice::Black)
    } else if lower == "cornflower"@ || lower == "cornflowerblue"@ {
        Some(ClearColorChoice::Cornflower)
    } else {
        None
    }
}

fn lower_char(c: char) -> (lower: char)
    ensures
        lower == ascii_lower(c),
{
    let u = c as u32;
    if 0x41 <= u && u <= 0x5a {
        let shifted: u8 = (u + 0x20) as u8;
        shifted as char
    } else {
        c
    }
}

/// Reads a clear color name, ignoring ASCII case.
pub fn parse_clear_color(value: &str) -> (color: Option<ClearColorChoice>)
    ensures
        color == spec_clear_color(value@),
{
    let chars = chars_of(value);
    let mut lower: Vec<char> = Vec::new();
    let mut i: usize = 0;
    while i < chars.len()
        invariant
            i <= chars@.len(),
            lower@ == spec_ascii_lowercase(chars@.take(i as int)),
        decreases chars@.len() - i,
    {
        lower.push(lower_char(chars[i]));
        assert(lower@ =~= spec_ascii_lowercase(chars@.take(i + 1)));
        i = i + 1;
    }
    assert(chars@.take(i as int) =~= chars@);
    let black = chars_of("black");
    let cornflower = chars_of("cornflower");
    let cornflower_blue = chars_of("cornflowerblue");
    if chars_equal(lower.as_slice(), black.as_slice()) {
        Some(ClearColorChoice::Black)
    } else if chars_equal(lower.as_slice(), cornflower.as_slice()) || chars_equal(
        lower.as_slice(),
        cornflower_blue.as_slice(),
    ) {
        Some(ClearColorChoice::Cornflower)
    } else {
        None
    }
}

/// The `[game]` section of a project configuration.
#[derive(Debug, Clone, Default)]
pub struct GameConfig {
    pub name: Option<String>,
    pub main_scene: Option<String>,
}

/// The `[window]` section of a project configuration.
#[derive(Debug, Clone, Default)]
pub struct WindowProjectConfig {
    pub width: Option<u32>,
    pub height: Option<u32>,
    pub target_fps: Option<u32>,
    pub clear_color: Option<String>,
}

/// A section that only names a root directory.
#[derive(Debug, Clone, Default)]
pub struct RootConfig {
    pub root: Option<String>,
}

/// The `[logging]` section of a project configuration.
#[derive(Debug, Clone, Default)]
pub struct LoggingProjectConfig {
    pub default_filter: Option<String>,
}

/// A project configuration (`Seishin.toml`).
#[derive(Debug, Clone)]
pub struct ProjectConfig {
    pub game: Option<GameConfig>,
    pub window: Option<WindowProjectConfig>,
    pub resources: Option<RootConfig>,
    pub assets: Option<RootConfig>,
    pub user: Option<RootConfig>,
    pub logging: Option<LoggingProjectConfig>,
    pub input: Option<InputConfig>,
}

/// What an application runs with.
#[derive(Debug, Clone)]
pub struct AppSettings {
    pub title: String,
    pub width: u32,
    pub height: u32,
    pub target_fps: u32,
    pub asset_root: String,
    pub resource_root: String,
    pub user_root: String,
    pub main_scene: Option<String>,
    pub clear_color: ClearColorChoice,
    pub logging_enabled: bool,
    pub logging_filter: String,
    pub input_actions: InputActions,
}

/// The text of an optional string, or the default.
pub open spec fn text_or(value: Option<String>, default: Seq<char>) -> Seq<char> {
    match value {
        Some(text) => text@,
        None => default,
    }
}

/// The root that a section names, or the default, joined to the project
/// directory.
pub open spec fn spec_root(project_dir: Seq<char>, section: Option<RootConfig>, default: Seq<char>) -> Seq<
    char,
> {
    spec_join(
        project_dir,
        match section {
            Some(config) => text_or(config.root, default),
            None => default,
        },
    )
}

/// The names of the configured input actions are distinct.
pub open spec fn input_names_distinct(project: ProjectConfig) -> bool {
    match project.input {
        Some(input) => names_distinct(input.actions@),
        None => true,
    }
}

/// The input actions that a project configures.
pub open spec fn spec_project_actions(project: ProjectConfig) -> Map<Seq<char>, InputActionView> {
    match project.input {
        Some(input) => spec_config_actions(input.actions@),
        None => Map::empty(),
    }
}

fn string_or(value: Option<String>, default: &str) -> (text: String)
    ensures
        text@ == text_or(value, default@),
{
    match value {
        Some(text) => text,
        None => default.to_owned(),
    }
}

fn root_of(project_dir: &str, section: Option<RootConfig>, default: &str) -> (root: String)
    ensures
        root@ == spec_root(project_dir@, section, default@),
{
    let name = match section {
        Some(config) => string_or(config.root, default),
        None => default.to_owned(),
    };
    crate::paths::join(project_dir, name.as_str())
}

impl AppSettings {
    /// The settings that a project configuration gives, with the engine's
    /// defaults for what it leaves out: title `seishin`, a 1280x720 window at
    /// 60 frames per second, a black clear color, the roots `assets`,
    /// `resources` and `user` under the project directory, and logging on at
    /// `info`.
    pub fn from_project_config(project: ProjectConfig, project_dir: &str) -> (settings: AppSettings)
        requires
            input_names_distinct(project),
        ensures
            settings.title@ == match project.game {
                Some(game) => text_or(game.name, "seishin"@),
                None => "seishin"@,
            },
            settings.main_scene == match project.game {
                Some(game) => game.main_scene,
                None => None,
            },
            settings.width == match project.window {
                Some(window) => match window.width {
                    Some(width) => width,
                    None => 1280u32,
                },
                None => 1280u32,
            },
            settings.height == match project.window {
                Some(window) => match window.height {
                    Some(height) => height,
                    None => 720u32,
                },
                None => 720u32,
            },
            settings.target_fps == match project.window {
                Some(window) => match window.target_fps {
                    Some(fps) => fps,
                    None => 60u32,
                },
                None => 60u32,
            },
            settings.clear_color == match project.window {
                Some(window) => match window.clear_color {
                    Some(name) => match spec_clear_color(name@) {
                        Some(color) => color,
                        None => ClearColorChoice::Black,
                    },
                    None => ClearColorChoice::Black,
                },
                None => ClearColorChoice::Black,
            },
            settings.asset_root@ == spec_root(project_dir@, project.assets, "assets"@),
            settings.resource_root@ == spec_root(project_dir@, project.resources, "resources"@),
            settings.user_root@ == spec_root(project_dir@, project.user, "user"@),
            settings.logging_enabled,
            settings.logging_filter@ == match project.logging {
                Some(logging) => text_or(logging.default_filter, "info"@),
                None => "info"@,
            },
            settings.input_actions@ == spec_project_actions(project),
    {
        let ghost original = project;
        let (title, main_scene) = match project.game {
            Some(game) => (string_or(game.name, "seishin"), game.main_scene),
            None => ("seishin".to_owned(), None),
        };
        let (width, height, target_fps, clear_color) = match project.window {
            Some(window) => {
                let color = match window.clear_color {
                    Some(name) => match parse_clear_color(name.as_str()) {
                        Some(color) => color,
                        None => ClearColorChoice::Black,
                    },
                    None => ClearColorChoice::Black,
                };
                (
                    match window.width {
                        Some(width) => width,
                        None => 1280,
                    },
                    match window.height {
                        Some(height) => height,
                        None => 720,
                    },
                    match window.target_fps {
                        Some(fps) => fps,
                        None => 60,
                    },
                    color,
                )
            },
            None => (1280, 720, 60, ClearColorChoice::Black),
        };
        let logging_filter = match project.logging {
            Some(logging) => string_or(logging.default_filter, "info"),
            None => "info".to_owned(),
        };
        let input_actions = match project.input {
            Some(input) => InputActions::from_config(input),
            None => InputActions::new(),
        };
        AppSettings {
            title,
            width,
            height,
            target_fps,
            asset_root: root_of(project_dir, project.assets, "assets"),
            resource_root: root_of(project_dir, project.resources, "resources"),
            user_root: root_of(project_dir, project.user, "user"),
            main_scene,
            clear_color,
            logging_enabled: true,
            logging_filter,
            input_actions,
        }
    }
}

/// What the built-in dialogue interaction does on a frame.
#[derive(Debug, Clone, PartialEq, Eq)]
pub enum InteractionStep {
    /// The interact action was not pressed this frame.
    Idle,
    /// A dialogue is open: move on from it.
    AdvanceDialogue,
    /// No interactable entity names a character to talk to.
    NoTarget,
    /// Load the named character resource and open its default dialogue.
    LoadCharacter(String),
}

/// Decides the built-in dialogue interaction for a frame: nothing unless the
/// interact action was just pressed; an open dialogue moves on; otherwise the
/// character that the first interactable entity refers to is loaded.
pub fn interaction_step(
    interact_just_pressed: bool,
    dialogue_active: bool,
    character_ref: Option<String>,
) -> (step: InteractionStep)
    ensures
        !interact_just_pressed ==> step == InteractionStep::Idle,
        interact_just_pressed && dialogue_active ==> step == InteractionStep::AdvanceDialogue,
        interact_just_pressed && !dialogue_active && character_ref is None ==> step
            == InteractionStep::NoTarget,
        interact_just_pressed && !dialogue_active && character_ref is Some ==> (step matches InteractionStep::LoadCharacter(
            reference,
        ) && Some(reference) == character_ref),
{
    if !interact_just_pressed {
        return InteractionStep::Idle;
    }
    if dialogue_active {
        return InteractionStep::AdvanceDialogue;
    }
    match character_ref {
        Some(reference) => InteractionStep::LoadCharacter(reference),
        None => InteractionStep::NoTarget,
    }
}

/// The dialogue resource a character opens by default, if it has one.
pub fn default_dialogue_ref(character: &CharacterData) -> (reference: Option<String>)
    ensures
        match character.dialogue {
            Some(dialogue) => reference matches Some(r) && r@ == dialogue.default@,
            None => reference is None,
        },
{
    match &character.dialogue {
        Some(dialogue) => Some(dialogue.default.clone()),
        None => None,
    }
}

} // verus!
