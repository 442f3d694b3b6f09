use lira::settings::GameSettings;
use lira::settings::PresentMode;
use lira::settings::WindowMode;
use lira::settings::WindowSettings;
use lira::settings::WindowTheme;
use lira::settings::apply_window_settings;
use lira::settings::load_settings;
use lira::settings::settings_from_parse;

#[test]
fn absent_file_yields_defaults() {
    let s = load_settings(None);
    assert_eq!(s.window.mode, "BorderlessFullscreen");
    assert!(!s.window.vsync);
}

#[test]
fn unparsable_text_yields_defaults() {
    let s = load_settings(Some("this is [ not : toml"));
    assert_eq!(s.window.mode, "BorderlessFullscreen");
    assert!(!s.window.vsync);
}

#[test]
fn missing_window_table_yields_defaults() {
    let s = load_settings(Some("[audio]\nvolume = 3\n"));
    assert_eq!(s.window.mode, "BorderlessFullscreen");
    assert!(!s.window.vsync);
}

#[test]
fn missing_vsync_yields_defaults() {
    let s = load_settings(Some("[window]\nmode = \"Windowed\"\n"));
    assert_eq!(s.window.mode, "BorderlessFullscreen");
    assert!(!s.window.vsync);
}

#[test]
fn wrongly_typed_mode_yields_defaults() {
    let s = load_settings(Some("[window]\nmode = 3\nvsync = true\n"));
    assert_eq!(s.window.mode, "BorderlessFullscreen");
    assert!(!s.window.vsync);
}

#[test]
fn well_formed_file_parses() {
    let s = load_settings(Some("[window]\nmode = \"Windowed\"\nvsync = true\n"));
    assert_eq!(s.window.mode, "Windowed");
    assert!(s.window.vsync);
}

#[test]
fn unknown_mode_string_is_kept_until_applied() {
    let s = load_settings(Some("[window]\nmode = \"Sideways\"\nvsync = false\n"));
    assert_eq!(s.window.mode, "Sideways");
    let c = apply_window_settings(s);
    assert_eq!(c.mode, WindowMode::BorderlessFullscreen);
}

#[test]
fn well_formed_file_drives_the_window() {
    let s = load_settings(Some("[window]\nmode = \"Windowed\"\nvsync = true\n"));
    let c = apply_window_settings(s);
    assert_eq!(c.mode, WindowMode::Windowed);
    assert_eq!(c.present_mode, PresentMode::AutoVsync);
}

#[test]
fn windowed_vsync_window_config() {
    let s = GameSettings {
        window: WindowSettings { mode: "Windowed".to_string(), vsync: true },
    };
    let c = apply_window_settings(s);
    assert_eq!(c.mode, WindowMode::Windowed);
    assert_eq!(c.present_mode, PresentMode::AutoVsync);
    assert_eq!(c.title, "Mommy's Little Monsters");
    assert!(c.resizable);
    assert_eq!(c.theme, WindowTheme::Dark);
}

#[test]
fn fullscreen_no_vsync_window_config() {
    let s = GameSettings {
        window: WindowSettings { mode: "Fullscreen".to_string(), vsync: false },
    };
    let c = apply_window_settings(s);
    assert_eq!(c.mode, WindowMode::Fullscreen);
    assert_eq!(c.present_mode, PresentMode::AutoNoVsync);
}

#[test]
fn parse_outcome_drives_settings() {
    let s = settings_from_parse(Some(("Fullscreen".to_string(), true)));
    assert_eq!(s.window.mode, "Fullscreen");
    assert!(s.window.vsync);
    let d = settings_from_parse(None);
    assert_eq!(d.window.mode, "BorderlessFullscreen");
    assert!(!d.window.vsync);
}

#[test]
fn default_settings_are_borderless_no_vsync() {
    let d = GameSettings::default();
    assert_eq!(d.window.mode, "BorderlessFullscreen");
    assert!(!d.window.vsync);
}
