use vigil_tui::config::{AppConfig, ConfigError, LayoutMode, ZoneConfig};

fn zone(id: &str, x: u16, y: u16, w: u16, h: u16) -> ZoneConfig {
    ZoneConfig {
        id: id.to_string(),
        widget: "clock".to_string(),
        x,
        y,
        width: w,
        height: h,
        row: None,
        col: None,
        min_width: None,
        min_height: None,
        config: None,
    }
}

fn app(layout: LayoutMode, zones: Vec<ZoneConfig>) -> AppConfig {
    AppConfig { layout, theme: None, icons: None, zones }
}

fn in_row(mut z: ZoneConfig, row: u16) -> ZoneConfig {
    z.row = Some(row);
    z
}

#[test]
fn layout_mode_defaults_to_absolute() {
    assert_eq!(LayoutMode::default(), LayoutMode::Absolute);
}

#[test]
fn absolute_zones_within_bounds_pass() {
    let cfg = app(LayoutMode::Absolute, vec![zone("a", 0, 0, 50, 100), zone("b", 50, 0, 50, 100)]);
    assert!(cfg.sums_fit());
    assert!(cfg.validate().is_ok());
}

#[test]
fn absolute_zero_size_is_refused() {
    let cfg = app(LayoutMode::Absolute, vec![zone("a", 0, 0, 50, 50), zone("clock", 10, 10, 0, 20)]);
    assert!(cfg.sums_fit());
    let err = cfg.validate().unwrap_err();
    match &err {
        ConfigError::ZeroSize { zone } => assert_eq!(zone, "clock"),
        _ => panic!("expected ZeroSize"),
    }
    assert_eq!(err.message(), "Zone 'clock' has zero width or height");
}

#[test]
fn absolute_out_of_bounds_is_refused() {
    let cfg = app(LayoutMode::Absolute, vec![zone("wide", 60, 30, 50, 71)]);
    let err = cfg.validate().unwrap_err();
    match &err {
        ConfigError::OutOfBounds { zone, right, bottom } => {
            assert_eq!(zone, "wide");
            assert_eq!((*right, *bottom), (110, 101));
        }
        _ => panic!("expected OutOfBounds"),
    }
    assert_eq!(err.message(), "Zone 'wide' exceeds 100% bounds (x+w=110, y+h=101)");
}

#[test]
fn absolute_reports_first_offending_zone() {
    let cfg = app(
        LayoutMode::Absolute,
        vec![zone("ok", 0, 0, 10, 10), zone("far", 95, 0, 10, 10), zone("empty", 0, 0, 0, 0)],
    );
    match cfg.validate().unwrap_err() {
        ConfigError::OutOfBounds { zone, .. } => assert_eq!(zone, "far"),
        _ => panic!("expected OutOfBounds"),
    }
}

#[test]
fn rows_mode_ignores_absolute_fields() {
    let cfg = app(LayoutMode::Rows, vec![zone("a", 0, 0, 0, 0), zone("b", 90, 90, 100, 0)]);
    assert!(cfg.sums_fit());
    assert!(cfg.validate().is_ok());
}

#[test]
fn rows_mode_row_wider_than_full_is_refused() {
    let cfg = app(
        LayoutMode::Rows,
        vec![in_row(zone("a", 0, 0, 60, 0), 3), in_row(zone("b", 0, 0, 50, 0), 3)],
    );
    assert!(cfg.sums_fit());
    let err = cfg.validate().unwrap_err();
    match &err {
        ConfigError::RowTooWide { row, total } => assert_eq!((*row, *total), (3, 110)),
        _ => panic!("expected RowTooWide"),
    }
    assert_eq!(err.message(), "Row 3 column widths sum to 110%, must be <= 100%");
}

#[test]
fn rows_mode_single_zone_row_may_be_wide() {
    let cfg = app(LayoutMode::Rows, vec![in_row(zone("a", 0, 0, 250, 0), 1)]);
    assert!(cfg.validate().is_ok());
}

#[test]
fn rows_mode_unnumbered_zones_count_one_two_three() {
    // the zones without a row are checked in rows 1 and 2; zone "c" joins row 2
    let cfg = app(
        LayoutMode::Rows,
        vec![zone("a", 0, 0, 80, 0), zone("b", 0, 0, 70, 0), in_row(zone("c", 0, 0, 40, 0), 2)],
    );
    match cfg.validate().unwrap_err() {
        ConfigError::RowTooWide { row, total } => assert_eq!((row, total), (2, 110)),
        _ => panic!("expected RowTooWide"),
    }
}

#[test]
fn sums_fit_detects_overflow() {
    let cfg = app(LayoutMode::Absolute, vec![zone("a", 65000, 0, 1000, 10)]);
    assert!(!cfg.sums_fit());
    let cfg = app(
        LayoutMode::Rows,
        vec![in_row(zone("a", 0, 0, 40000, 0), 1), in_row(zone("b", 0, 0, 40000, 0), 1)],
    );
    assert!(!cfg.sums_fit());
    let cfg = app(
        LayoutMode::Rows,
        vec![in_row(zone("a", 0, 0, 30000, 0), 1), in_row(zone("b", 0, 0, 30000, 0), 1)],
    );
    assert!(cfg.sums_fit());
    match cfg.validate().unwrap_err() {
        ConfigError::RowTooWide { row, total } => assert_eq!((row, total), (1, 60000)),
        _ => panic!("expected RowTooWide"),
    }
}

#[test]
fn icons_default_to_shown() {
    let mut cfg = app(LayoutMode::Absolute, vec![]);
    assert!(cfg.use_icons());
    cfg.icons = Some(false);
    assert!(!cfg.use_icons());
    cfg.icons = Some(true);
    assert!(cfg.use_icons());
}
