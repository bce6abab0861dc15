use vigil_tui::config::{CustomTheme, ThemeConfig};
use vigil_tui::theme::{
    hex_slicing_fits, hex_to_color, preset, resolve_theme, theme_config_fits, BorderStyle, Color, Theme,
};

fn custom(fg: Option<&str>, bg: Option<&str>, accent: Option<&str>, dim: Option<&str>, border: Option<&str>) -> ThemeConfig {
    ThemeConfig::Custom(CustomTheme {
        fg: fg.map(String::from),
        bg: bg.map(String::from),
        accent: accent.map(String::from),
        dim: dim.map(String::from),
        border: border.map(String::from),
    })
}

#[test]
fn default_theme_uses_terminal_colours() {
    let t = Theme::default();
    assert_eq!(t.fg, Color::Reset);
    assert_eq!(t.bg, Color::Reset);
    assert_eq!(t.accent, Color::Reset);
    assert_eq!(t.dim, Color::DarkGray);
    assert_eq!(t.border, BorderStyle::Rounded);
}

#[test]
fn hex_colours_are_read() {
    assert_eq!(hex_to_color("#ff8000"), Some(Color::Rgb(255, 128, 0)));
    assert_eq!(hex_to_color("1e1E2e"), Some(Color::Rgb(0x1e, 0x1e, 0x2e)));
    assert_eq!(hex_to_color("###0a0B0c"), Some(Color::Rgb(10, 11, 12)));
}

#[test]
fn bad_hex_colours_are_refused() {
    assert_eq!(hex_to_color("#fff"), None);
    assert_eq!(hex_to_color("#ff80001"), None);
    assert_eq!(hex_to_color("#gg8000"), None);
    assert_eq!(hex_to_color(""), None);
    assert_eq!(hex_to_color("#-10000"), None);
}

#[test]
fn hex_pair_accepts_a_plus_sign_as_radix_parsing_does() {
    assert_eq!(u8::from_str_radix("+f", 16).ok(), Some(15));
    assert_eq!(hex_to_color("+f+0+1"), Some(Color::Rgb(15, 0, 1)));
}

#[test]
fn hex_text_with_wide_characters() {
    // six bytes, but the first pair would cut "é" in two
    assert!(!hex_slicing_fits("aé123"));
    // an unreadable first pair is never cut further
    assert!(hex_slicing_fits("zzé12"));
    assert_eq!(hex_to_color("zzé12"), None);
    // wrong length: nothing is cut
    assert!(hex_slicing_fits("é"));
    assert_eq!(hex_to_color("é"), None);
    assert!(hex_slicing_fits("#ff8000"));
}

#[test]
fn hex_round_trip() {
    for (r, g, b) in [(0u8, 0u8, 0u8), (255, 255, 255), (0x12, 0xab, 0x7f), (1, 160, 15)] {
        let text = format!("#{:02x}{:02x}{:02x}", r, g, b);
        assert!(hex_slicing_fits(&text));
        assert_eq!(hex_to_color(&text), Some(Color::Rgb(r, g, b)));
    }
}

#[test]
fn presets_by_name() {
    let g = preset("gruvbox").unwrap();
    assert_eq!(g.fg, Color::Rgb(0xeb, 0xdb, 0xb2));
    assert_eq!(g.bg, Color::Rgb(0x28, 0x28, 0x28));
    assert_eq!(g.accent, Color::Rgb(0xfe, 0x80, 0x19));
    assert_eq!(g.dim, Color::Rgb(0x66, 0x5c, 0x54));
    assert_eq!(g.border, BorderStyle::Rounded);
    let n = preset("nord").unwrap();
    assert_eq!(n.bg, Color::Rgb(0x2e, 0x34, 0x40));
    let d = preset("dracula").unwrap();
    assert_eq!(d.accent, Color::Rgb(0xbd, 0x93, 0xf9));
    let s = preset("solarized-dark").unwrap();
    assert_eq!(s.bg, Color::Rgb(0x00, 0x2b, 0x36));
    for name in ["catppuccin-mocha", "catppuccin-latte", "tokyo-night"] {
        assert!(preset(name).is_some());
    }
    assert!(preset("Gruvbox").is_none());
    assert!(preset("").is_none());
}

#[test]
fn resolve_theme_cases() {
    assert_eq!(resolve_theme(&None), Theme::default());
    let p = Some(ThemeConfig::Preset("tokyo-night".to_string()));
    assert_eq!(resolve_theme(&p), preset("tokyo-night").unwrap());
    let unknown = Some(ThemeConfig::Preset("solarized-light".to_string()));
    assert_eq!(resolve_theme(&unknown), Theme::default());
}

#[test]
fn custom_theme_keeps_defaults_for_missing_or_bad_colours() {
    let cfg = Some(custom(Some("#102030"), None, Some("nonsense"), Some("#ffffff"), Some("double")));
    assert!(theme_config_fits(&cfg));
    let t = resolve_theme(&cfg);
    assert_eq!(t.fg, Color::Rgb(0x10, 0x20, 0x30));
    assert_eq!(t.bg, Color::Reset);
    assert_eq!(t.accent, Color::Reset);
    assert_eq!(t.dim, Color::Rgb(255, 255, 255));
    assert_eq!(t.border, BorderStyle::Double);
}

#[test]
fn custom_border_names() {
    let plain = resolve_theme(&Some(custom(None, None, None, None, Some("plain"))));
    assert_eq!(plain.border, BorderStyle::Plain);
    let other = resolve_theme(&Some(custom(None, None, None, None, Some("thick"))));
    assert_eq!(other.border, BorderStyle::Rounded);
    let none = resolve_theme(&Some(custom(None, None, None, None, None)));
    assert_eq!(none, Theme::default());
}

#[test]
fn theme_config_fits_checks_every_colour() {
    assert!(theme_config_fits(&None));
    assert!(theme_config_fits(&Some(ThemeConfig::Preset("aé123".to_string()))));
    assert!(!theme_config_fits(&Some(custom(None, None, None, Some("aé123"), None))));
}
