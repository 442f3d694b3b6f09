//! Game configuration: the settings schema, its defaults, and the mapping
//! from settings to window-creation parameters.
//!
//! The settings text comes from a `settings.toml` file that the program
//! shell reads; an absent file is handed in as `None`.  A text that does not
//! parse, or parses to something other than a `window` table with a string
//! `mode` and a boolean `vsync`, falls back to the defaults.

use vstd::prelude::*;

verus! {

/// The configuration root, as the settings file declares it.
#[derive(Clone, Debug, PartialEq, Eq)]
pub struct GameSettings {
    pub window: WindowSettings,
}

/// The `window` table of the settings file.
#[derive(Clone, Debug, PartialEq, Eq)]
pub struct WindowSettings {
    /// The display-mode name as written in the file; unrecognized names fall
    /// back to borderless fullscreen when the window is configured.
    pub mode: String,
    pub vsync: bool,
}

/// A display mode the window can be created in.
#[derive(Clone, Copy, PartialEq, Eq, Structural, Debug)]
pub enum WindowMode {
    BorderlessFullscreen,
    Fullscreen,
    Windowed,
}

/// The vertical-sync policy handed to the window.
#[derive(Clone, Copy, PartialEq, Eq, Structural, Debug)]
pub enum PresentMode {
    AutoVsync,
    AutoNoVsync,
}

/// The color theme requested for the window chrome.
#[derive(Clone, Copy, PartialEq, Eq, Structural, Debug)]
pub enum WindowTheme {
    Dark,
    Light,
}

/// The complete window-creation parameter set derived from the settings.
#[derive(Clone, Debug)]
pub struct WindowConfig {
    pub mode: WindowMode,
    pub present_mode: PresentMode,
    pub title: String,
    pub resizable: bool,
    pub theme: WindowTheme,
}

/// The settings used when the file is absent or malformed.
pub open spec fn is_default_settings(s: GameSettings) -> bool {
    s.window.mode@ == "BorderlessFullscreen"@ && s.window.vsync == false
}

impl Default for GameSettings {
    /// Borderless fullscreen with vsync off.
    fn default() -> (r: GameSettings)
        ensures
            is_default_settings(r),
    {
        GameSettings {
            window: WindowSettings { mode: "BorderlessFullscreen".to_owned(), vsync: false },
        }
    }
}

/// What the settings text parses to: `None` when the text is not a TOML
/// document carrying a `window` table with a string `mode` and a boolean
/// `vsync`; otherwise those two fields.
pub uninterp spec fn window_table_of(s: Seq<char>) -> Option<(Seq<char>, bool)>;

/// Relies on toml's document parser (`str::parse::<toml::Table>` and the
/// `Table`/`Value` accessors): what a given text parses to depends on the
/// text alone.
#[verifier::external_body]
fn parse_window_table(s: &str) -> (r: Option<(String, bool)>)
    ensures
        match r {
            Some(p) => window_table_of(s@) == Some((p.0@, p.1)),
            None => window_table_of(s@) is None,
        },
{
    let table: toml::Table = match s.parse() {
        Ok(t) => t,
        Err(_) => return None,
    };
    let window = table.get("window")?;
    let mode = window.get("mode")?.as_str()?;
    let vsync = window.get("vsync")?.as_bool()?;
    Some((mode.to_owned(), vsync))
}

/// Turns the outcome of parsing the settings text into settings: a missing
/// or malformed window table falls back to the defaults, a parsed one is
/// taken as it stands.
pub fn settings_from_parse(parsed: Option<(String, bool)>) -> (r: GameSettings)
    ensures
        parsed is None ==> is_default_settings(r),
        parsed matches Some(p) ==> r.window.mode@ == p.0@ && r.window.vsync == p.1,
{
    match parsed {
        None => GameSettings::default(),
        Some((mode, vsync)) => GameSettings { window: WindowSettings { mode, vsync } },
    }
}

/// Resolves the settings from the text of `settings.toml`, or from `None`
/// when the file is absent.  Any absent or unparsable settings text yields
/// exactly the default settings.
pub fn load_settings(contents: Option<&str>) -> (r: GameSettings)
    ensures
        contents is None ==> is_default_settings(r),
        contents matches Some(s) ==> match window_table_of(s@) {
            None => is_default_settings(r),
            Some(w) => r.window.mode@ == w.0 && r.window.vsync == w.1,
        },
{
    match contents {
        None => GameSettings::default(),
        Some(s) => settings_from_parse(parse_window_table(s)),
    }
}

/// The display mode a mode name resolves to: the two recognized alternate
/// names select themselves, anything else is borderless fullscreen.
pub open spec fn spec_mode_of(m: Seq<char>) -> WindowMode {
    if m == "Fullscreen"@ {
        WindowMode::Fullscreen
    } else if m == "Windowed"@ {
        WindowMode::Windowed
    } else {
        WindowMode::BorderlessFullscreen
    }
}

/// Derives the window-creation parameters from the settings: the display
/// mode named by the settings (borderless fullscreen when unrecognized),
/// auto-vsync exactly when `vsync` is set, a fixed title, resizable, dark
/// theme.
pub fn apply_window_settings(settings: GameSettings) -> (r: WindowConfig)
    ensures
        r.mode == spec_mode_of(settings.window.mode@),
        r.present_mode == (if settings.window.vsync {
            PresentMode::AutoVsync
        } else {
            PresentMode::AutoNoVsync
        }),
        r.title@ == "Mommy's Little Monsters"@,
        r.resizable == true,
        r.theme == WindowTheme::Dark,
{
    let mode: WindowMode = if settings.window.mode == "Fullscreen".to_owned() {
        WindowMode::Fullscreen
    } else if settings.window.mode == "Windowed".to_owned() {
        WindowMode::Windowed
    } else {
        WindowMode::BorderlessFullscreen
    };
    let present_mode: PresentMode = if settings.window.vsync {
        PresentMode::AutoVsync
    } else {
        PresentMode::AutoNoVsync
    };
    WindowConfig {
        mode,
        present_mode,
        title: "Mommy's Little Monsters".to_owned(),
        resizable: true,
        theme: WindowTheme::Dark,
    }
}

} // verus!
