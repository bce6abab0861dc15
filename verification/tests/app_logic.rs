use vigil_tui::app::{config_source, error_title, key_action, too_small, ConfigSource, KeyAction};

#[test]
fn keys_quit_reload_or_nothing() {
    assert_eq!(key_action(true, Some('q'), false), KeyAction::Quit);
    assert_eq!(key_action(true, Some('q'), true), KeyAction::Quit);
    assert_eq!(key_action(true, Some('c'), true), KeyAction::Quit);
    assert_eq!(key_action(true, Some('c'), false), KeyAction::Nothing);
    assert_eq!(key_action(true, Some('r'), false), KeyAction::Reload);
    assert_eq!(key_action(true, Some('x'), false), KeyAction::Nothing);
    assert_eq!(key_action(true, None, true), KeyAction::Nothing);
    assert_eq!(key_action(false, Some('q'), false), KeyAction::Nothing);
}

#[test]
fn too_small_screen_text() {
    let s = too_small(30, 40, 40, 20);
    assert_eq!(s.width, "30");
    assert!(!s.width_ok);
    assert_eq!(s.height, "40");
    assert!(s.height_ok);
    assert_eq!(s.required, "Required: 40 x 20");
    let s = too_small(0, 65535, 65535, 0);
    assert_eq!(s.required, "Required: 65535 x 0");
    assert_eq!(s.width, "0");
}

#[test]
fn config_source_order() {
    assert_eq!(config_source(true, false, None, None), Some(ConfigSource::CommandLine));
    assert_eq!(config_source(false, false, None, None), Some(ConfigSource::NoConfigDir));
    assert_eq!(config_source(false, true, None, None), None);
    assert_eq!(config_source(false, true, Some(true), None), Some(ConfigSource::ConfigDir));
    assert_eq!(config_source(false, true, Some(false), None), None);
    assert_eq!(config_source(false, true, Some(false), Some(true)), Some(ConfigSource::WorkingDir));
    assert_eq!(config_source(false, true, Some(false), Some(false)), Some(ConfigSource::CreateDefault));
}

#[test]
fn error_title_frames_the_zone_id() {
    assert_eq!(error_title("weather"), " weather [error] ");
    assert_eq!(error_title(""), "  [error] ");
}
