use vigil_tui::config::ZoneConfig;
use vigil_tui::layout::rows::{build_rows, rows_layout_fits};
use vigil_tui::layout::{build_absolute, check_terminal_size, size_check_within_range, ComputedRect, ZoneLayout};

fn zone(id: &str, x: u16, y: u16, w: u16, h: u16) -> ZoneConfig {
    ZoneConfig {
        id: id.to_string(),
        widget: "text".to_string(),
        x,
        y,
        width: w,
        height: h,
        row: None,
        col: None,
        min_width: None,
        min_height: None,
        config: None,
    }
}

fn fixed(layout: &ZoneLayout) -> (u16, u16, u16, u16) {
    match layout.rect {
        ComputedRect::Fixed { x, y, w, h } => (x, y, w, h),
        _ => panic!("expected Fixed rect"),
    }
}

#[test]
fn build_absolute_positioning() {
    let zones = vec![zone("a", 10, 20, 30, 40)];
    let layouts = build_absolute(&zones, &[(12, 5)]);

    assert_eq!(layouts.len(), 1);
    assert_eq!(layouts[0].id, "a");
    match &layouts[0].rect {
        ComputedRect::Percent { pct_x, pct_y, pct_w, pct_h } => {
            assert_eq!(*pct_x, 10);
            assert_eq!(*pct_y, 20);
            assert_eq!(*pct_w, 30);
            assert_eq!(*pct_h, 40);
        }
        _ => panic!("expected Percent rect"),
    }
}

#[test]
fn build_rows_single_zone() {
    let mut z = zone("a", 0, 0, 100, 0);
    z.row = Some(1);
    let layouts = build_rows(&[z], &[(12, 10)], 40);

    assert_eq!(layouts.len(), 1);
    match &layouts[0].rect {
        ComputedRect::Fixed { x, w, .. } => {
            assert_eq!(*x, 0);
            assert_eq!(*w, 100);
        }
        _ => panic!("expected Fixed rect"),
    }
}

#[test]
fn build_rows_two_columns() {
    let mut z1 = zone("a", 0, 0, 60, 10);
    z1.row = Some(1);
    z1.col = Some(1);
    let mut z2 = zone("b", 0, 0, 40, 10);
    z2.row = Some(1);
    z2.col = Some(2);
    let layouts = build_rows(&[z1, z2], &[(12, 5), (12, 5)], 40);

    assert_eq!(layouts.len(), 2);
    match &layouts[0].rect {
        ComputedRect::Fixed { x, w, .. } => {
            assert_eq!(*x, 0);
            assert_eq!(*w, 60);
        }
        _ => panic!("expected Fixed rect"),
    }
    match &layouts[1].rect {
        ComputedRect::Fixed { x, w, .. } => {
            assert_eq!(*x, 60);
            assert_eq!(*w, 40);
        }
        _ => panic!("expected Fixed rect"),
    }
}

#[test]
fn build_rows_col_stacking() {
    let mut z1 = zone("a", 0, 0, 100, 5);
    z1.row = Some(1);
    z1.col = Some(1);
    let mut z2 = zone("b", 0, 0, 100, 5);
    z2.row = Some(1);
    z2.col = Some(1);
    let layouts = build_rows(&[z1, z2], &[(12, 5), (12, 5)], 40);

    assert_eq!(layouts.len(), 2);
    // Second zone should be stacked below first
    let y0 = match &layouts[0].rect { ComputedRect::Fixed { y, .. } => *y, _ => panic!() };
    let y1 = match &layouts[1].rect { ComputedRect::Fixed { y, .. } => *y, _ => panic!() };
    assert!(y1 > y0, "stacked zone should be below first");
}

#[test]
fn to_rect_clamping() {
    let layout = ZoneLayout {
        id: "a".to_string(),
        rect: ComputedRect::Percent { pct_x: 90, pct_y: 90, pct_w: 50, pct_h: 50 },
        min_w: 0,
        min_h: 0,
        row_y: None,
    };
    let rect = layout.to_rect(100, 100);
    // x=90, w=50 -> clamped to 100-90=10
    assert!(rect.x + rect.width <= 100);
    assert!(rect.y + rect.height <= 100);
}

#[test]
fn check_terminal_size_sufficient() {
    let layout = ZoneLayout {
        id: "a".to_string(),
        rect: ComputedRect::Percent { pct_x: 0, pct_y: 0, pct_w: 50, pct_h: 50 },
        min_w: 20,
        min_h: 10,
        row_y: None,
    };
    // min_w=20 at 50% -> need 40 cols. min_h=10 at 50% -> need 20 rows.
    assert!(check_terminal_size(&[&layout], 80, 40).is_none());
}

#[test]
fn check_terminal_size_too_small() {
    let layout = ZoneLayout {
        id: "a".to_string(),
        rect: ComputedRect::Percent { pct_x: 0, pct_y: 0, pct_w: 50, pct_h: 50 },
        min_w: 20,
        min_h: 10,
        row_y: None,
    };
    // need 40 cols, only have 30
    let result = check_terminal_size(&[&layout], 30, 40);
    assert!(result.is_some());
    let (req_w, _) = result.unwrap();
    assert_eq!(req_w, 40);
}

#[test]
fn check_terminal_size_fixed_layout() {
    let layout = ZoneLayout {
        id: "a".to_string(),
        rect: ComputedRect::Fixed { x: 0, y: 0, w: 100, h: 20 },
        min_w: 40,
        min_h: 10,
        row_y: Some(0),
    };
    // Fixed zones: required_h = y + h = 20
    let result = check_terminal_size(&[&layout], 50, 15);
    assert!(result.is_some());
}

#[test]
fn to_rect_scales_percentages_and_clamps() {
    let layout = ZoneLayout {
        id: "a".to_string(),
        rect: ComputedRect::Percent { pct_x: 90, pct_y: 90, pct_w: 50, pct_h: 50 },
        min_w: 0,
        min_h: 0,
        row_y: None,
    };
    let rect = layout.to_rect(100, 100);
    assert_eq!((rect.x, rect.y, rect.width, rect.height), (90, 90, 10, 10));
    let rect = layout.to_rect(81, 33);
    // 90% of 81 = 72.9 -> 72; 50% of 81 = 40.5 -> 40, clamped to 9
    assert_eq!((rect.x, rect.y, rect.width, rect.height), (72, 29, 9, 4));
}

#[test]
fn to_rect_fixed_keeps_rows() {
    let layout = ZoneLayout {
        id: "a".to_string(),
        rect: ComputedRect::Fixed { x: 25, y: 7, w: 50, h: 30 },
        min_w: 0,
        min_h: 0,
        row_y: Some(7),
    };
    let rect = layout.to_rect(120, 20);
    assert_eq!((rect.x, rect.y, rect.width, rect.height), (30, 7, 60, 13));
    let rect = layout.to_rect(120, 5);
    assert_eq!((rect.y, rect.height), (7, 0));
}

#[test]
fn build_absolute_takes_zone_minimums_first() {
    let mut z = zone("b", 0, 0, 50, 50);
    z.min_width = Some(30);
    let zones = vec![z, zone("c", 50, 50, 50, 50), zone("d", 0, 0, 1, 1)];
    let layouts = build_absolute(&zones, &[(12, 5), (35, 11)]);
    // one layout per zone that has a widget size
    assert_eq!(layouts.len(), 2);
    assert_eq!((layouts[0].min_w, layouts[0].min_h), (30, 5));
    assert_eq!((layouts[1].min_w, layouts[1].min_h), (35, 11));
    assert_eq!(layouts[1].id, "c");
    assert_eq!(layouts[0].row_y, None);
}

#[test]
fn from_config_matches_build_absolute() {
    let z = zone("e", 5, 6, 7, 8);
    let one = ZoneLayout::from_config(&z, (20, 9));
    assert_eq!(one.id, "e");
    assert_eq!(one.rect, ComputedRect::Percent { pct_x: 5, pct_y: 6, pct_w: 7, pct_h: 8 });
    assert_eq!((one.min_w, one.min_h), (20, 9));
}

#[test]
fn rows_without_row_number_each_get_a_row() {
    let zones = vec![zone("a", 0, 0, 0, 0), zone("b", 0, 0, 50, 0), zone("c", 0, 0, 100, 4)];
    let layouts = build_rows(&zones, &[(12, 5), (12, 5), (12, 5)], 30);
    let a = fixed(&layouts[0]);
    let b = fixed(&layouts[1]);
    let c = fixed(&layouts[2]);
    // rows 1 and 2 ask for the widgets' 5 rows each, row 3 for 4
    assert_eq!(a, (0, 0, 100, 5));
    assert_eq!(b, (0, 5, 50, 5));
    assert_eq!(c, (0, 10, 100, 4));
    assert_eq!(layouts[2].row_y, Some(10));
}

#[test]
fn rows_stack_in_order_of_first_appearance() {
    let mut z1 = zone("a", 0, 0, 50, 6);
    z1.row = Some(7);
    let mut z2 = zone("b", 0, 0, 50, 3);
    z2.row = Some(2);
    let mut z3 = zone("c", 0, 0, 50, 9);
    z3.row = Some(7);
    let layouts = build_rows(&[z1, z2, z3], &[(1, 1), (1, 1), (1, 1)], 40);
    let a = fixed(&layouts[0]);
    let b = fixed(&layouts[1]);
    let c = fixed(&layouts[2]);
    // row 7 comes first: its tallest column is 9; row 2 follows below it
    assert_eq!((a.1, a.3), (0, 9));
    assert_eq!((c.0, c.1, c.3), (50, 0, 9));
    assert_eq!((b.1, b.3), (9, 3));
    assert!(a.1 + a.3 <= b.1);
}

#[test]
fn columns_sit_side_by_side_in_order() {
    let mut zs = Vec::new();
    for (id, col, w) in [("a", 5u16, 20u16), ("b", 1, 30), ("c", 5, 99), ("d", 3, 0)] {
        let mut z = zone(id, 0, 0, w, 2);
        z.row = Some(1);
        z.col = Some(col);
        zs.push(z);
    }
    let layouts = build_rows(&zs, &[(1, 1), (1, 1), (1, 1), (1, 1)], 40);
    let a = fixed(&layouts[0]);
    let b = fixed(&layouts[1]);
    let c = fixed(&layouts[2]);
    let d = fixed(&layouts[3]);
    // column 5 first (width of its first zone), then column 1, then column 3 (width 0 = 100)
    assert_eq!((a.0, a.2), (0, 20));
    assert_eq!((b.0, b.2), (20, 30));
    assert_eq!((c.0, c.2), (0, 20));
    assert_eq!((d.0, d.2), (50, 100));
    assert!(a.0 + a.2 <= b.0 && b.0 + b.2 <= d.0);
}

#[test]
fn stacked_zones_tile_their_row() {
    let mut zs = Vec::new();
    for (id, h) in [("a", 1u16), ("b", 2), ("c", 4)] {
        let mut z = zone(id, 0, 0, 100, h);
        z.row = Some(1);
        z.col = Some(1);
        zs.push(z);
    }
    let mut other = zone("d", 0, 0, 100, 10);
    other.row = Some(1);
    other.col = Some(2);
    zs.push(other);
    let layouts = build_rows(&zs, &[(1, 1), (1, 1), (1, 1), (1, 1)], 40);
    let a = fixed(&layouts[0]);
    let b = fixed(&layouts[1]);
    let c = fixed(&layouts[2]);
    // the row is 10 tall (column 2); column 1 asks for 7 and is stretched to 10
    assert_eq!((a.1, a.3), (0, 1));
    assert_eq!((b.1, b.3), (1, 2));
    assert_eq!((c.1, c.3), (3, 7));
    assert_eq!(a.1 + a.3, b.1);
    assert_eq!(b.1 + b.3, c.1);
    assert_eq!(c.1 + c.3, 10);
}

#[test]
fn rows_without_height_share_what_is_left() {
    let mut fixed_row = zone("a", 0, 0, 100, 10);
    fixed_row.row = Some(1);
    let mut fill1 = zone("b", 0, 0, 100, 0);
    fill1.row = Some(2);
    let mut fill2 = zone("c", 0, 0, 100, 0);
    fill2.row = Some(3);
    let layouts = build_rows(&[fixed_row, fill1, fill2], &[(1, 1), (1, 0), (1, 0)], 31);
    let b = fixed(&layouts[1]);
    let c = fixed(&layouts[2]);
    // 31 - 10 = 21 left, 10 each (rounded down)
    assert_eq!((b.1, b.3), (10, 10));
    assert_eq!((c.1, c.3), (20, 10));
    // all rows end within the terminal, less than one row per filling row short of it
    let bottom = c.1 + c.3;
    assert!(bottom <= 31 && 31 - bottom < 2);
}

#[test]
fn required_size_passes_and_larger_terminals_pass() {
    let l1 = ZoneLayout {
        id: "a".to_string(),
        rect: ComputedRect::Percent { pct_x: 0, pct_y: 0, pct_w: 30, pct_h: 40 },
        min_w: 35,
        min_h: 11,
        row_y: None,
    };
    let l2 = ZoneLayout {
        id: "b".to_string(),
        rect: ComputedRect::Fixed { x: 0, y: 3, w: 50, h: 9 },
        min_w: 60,
        min_h: 3,
        row_y: Some(3),
    };
    let l3 = ZoneLayout {
        id: "c".to_string(),
        rect: ComputedRect::Fixed { x: 50, y: 3, w: 50, h: 9 },
        min_w: 70,
        min_h: 3,
        row_y: Some(3),
    };
    let zones = [&l1, &l2, &l3];
    assert!(size_check_within_range(&zones));
    // 35 * 100 / 30 = 116, 11 * 100 / 40 = 27; fixed row needs 60 + 70 = 130, bottom 12
    let (rw, rh) = check_terminal_size(&zones, 10, 10).unwrap();
    assert_eq!((rw, rh), (130, 27));
    assert!(check_terminal_size(&zones, rw, rh).is_none());
    assert!(check_terminal_size(&zones, rw + 5, rh + 40).is_none());
    assert!(check_terminal_size(&zones, rw - 1, rh).is_some());
}

#[test]
fn stacked_fixed_zones_count_once_per_column() {
    let l1 = ZoneLayout {
        id: "a".to_string(),
        rect: ComputedRect::Fixed { x: 0, y: 0, w: 50, h: 5 },
        min_w: 30,
        min_h: 3,
        row_y: Some(0),
    };
    let l2 = ZoneLayout {
        id: "b".to_string(),
        rect: ComputedRect::Fixed { x: 0, y: 5, w: 50, h: 5 },
        min_w: 45,
        min_h: 3,
        row_y: Some(0),
    };
    let zones = [&l1, &l2];
    assert_eq!(check_terminal_size(&zones, 1, 1), Some((45, 10)));
}

#[test]
fn size_check_range_refuses_overflowing_bottom() {
    let l = ZoneLayout {
        id: "a".to_string(),
        rect: ComputedRect::Fixed { x: 0, y: 65000, w: 50, h: 1000 },
        min_w: 3,
        min_h: 3,
        row_y: Some(65000),
    };
    assert!(!size_check_within_range(&[&l]));
}

#[test]
fn rows_layout_fits_checks_sixteen_bits() {
    let mut a = zone("a", 0, 0, 100, 40000);
    a.row = Some(1);
    let mut b = zone("b", 0, 0, 100, 40000);
    b.row = Some(2);
    // two fixed rows of 40000 need 80000 rows in all
    assert!(!rows_layout_fits(&[a, b], &[(1, 1), (1, 1)], 10));
    let mut c = zone("c", 0, 0, 100, 30000);
    c.row = Some(1);
    let mut d = zone("d", 0, 0, 100, 30000);
    d.row = Some(2);
    assert!(rows_layout_fits(&[c, d], &[(1, 1), (1, 1)], 10));
    // a widget size for every zone
    assert!(!rows_layout_fits(&[zone("e", 0, 0, 1, 1)], &[], 10));
    // at most 65 zones without a row (the 66th would be row 66000)
    let many: Vec<ZoneConfig> = (0..66).map(|i| zone(&format!("z{i}"), 0, 0, 1, 1)).collect();
    let sizes = vec![(1u16, 1u16); 66];
    assert!(!rows_layout_fits(&many, &sizes, 10));
    assert!(rows_layout_fits(&many[..65], &sizes[..65], 10));
    // the columns of one row wider than 16 bits together
    let mut w1 = zone("w1", 0, 0, 40000, 1);
    w1.row = Some(1);
    let mut w2 = zone("w2", 0, 0, 40000, 1);
    w2.row = Some(1);
    assert!(!rows_layout_fits(&[w1, w2], &[(1, 1), (1, 1)], 10));
}

#[test]
fn rows_that_ask_for_height_ignore_terminal_height() {
    let mut zs = Vec::new();
    for (id, row, col, h) in [("a", 1u16, 1u16, 3u16), ("b", 1, 1, 0), ("c", 1, 2, 5), ("d", 2, 1, 0)] {
        let mut z = zone(id, 0, 0, 50, h);
        z.row = Some(row);
        z.col = Some(col);
        zs.push(z);
    }
    let sizes = [(10, 2), (10, 4), (10, 1), (10, 6)];
    let short = build_rows(&zs, &sizes, 5);
    let tall = build_rows(&zs, &sizes, 500);
    for (s, t) in short.iter().zip(tall.iter()) {
        assert_eq!(s.rect, t.rect);
        assert_eq!(s.row_y, t.row_y);
        assert_eq!((s.min_w, s.min_h), (t.min_w, t.min_h));
    }
    // a row that asks for no height takes what the terminal leaves
    let mut e = zone("e", 0, 0, 100, 0);
    e.row = Some(3);
    zs.push(e);
    let sizes = [(10, 2), (10, 4), (10, 1), (10, 6), (10, 0)];
    let short = build_rows(&zs, &sizes, 20);
    let tall = build_rows(&zs, &sizes, 40);
    assert_ne!(short[4].rect, tall[4].rect);
}

#[test]
fn reported_size_does_not_depend_on_terminal() {
    let l = ZoneLayout {
        id: "a".to_string(),
        rect: ComputedRect::Percent { pct_x: 0, pct_y: 0, pct_w: 50, pct_h: 50 },
        min_w: 20,
        min_h: 10,
        row_y: None,
    };
    let zones = [&l];
    for (w, h) in [(0u16, 0u16), (39, 100), (100, 19), (10, 10)] {
        assert_eq!(check_terminal_size(&zones, w, h), Some((40, 20)));
    }
    assert_eq!(check_terminal_size(&zones, 40, 20), None);
}
