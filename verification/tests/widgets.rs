use chrono::Timelike;
use vigil_tui::digits::render_big_text;
use vigil_tui::widget::clock::{clock_face, hour12, ClockWidget};
use vigil_tui::widget::date::DateWidget;
use vigil_tui::widget::system::{bar_cells, busiest, format_bytes, process_name_cell, GB, MB};
use vigil_tui::widget::text::{content_lines, TextAlign, TextWidget};
use vigil_tui::widget::weather::{display_units, request_units, units_celsius, weather_description, weather_icon};
use vigil_tui::widget::{min_size, text_setting, text_setting_or, vertical_padding, widget_kind, WidgetKind};

fn table(entries: &[(&str, toml::Value)]) -> toml::Value {
    let mut t = toml::Table::new();
    for (k, v) in entries {
        t.insert(k.to_string(), v.clone());
    }
    toml::Value::Table(t)
}

fn text(s: &str) -> toml::Value {
    toml::Value::String(s.to_string())
}

#[test]
fn settings_are_read_from_a_table() {
    let v = table(&[("title", text("Notes")), ("size", toml::Value::Integer(3))]);
    assert_eq!(text_setting(Some(&v), "title"), Some("Notes".to_string()));
    // not a string, missing, no table, no settings
    assert_eq!(text_setting(Some(&v), "size"), None);
    assert_eq!(text_setting(Some(&v), "other"), None);
    assert_eq!(text_setting(Some(&text("title")), "title"), None);
    assert_eq!(text_setting(None, "title"), None);
    assert_eq!(text_setting_or(Some(&v), "other", "fallback"), "fallback");
    assert_eq!(text_setting_or(Some(&v), "title", "fallback"), "Notes");
}

#[test]
fn clock_format_setting() {
    let v = table(&[("format", text("12hr"))]);
    let c = ClockWidget::new(Some(&v));
    assert_eq!(c.format, "12hr");
    assert!(c.is_twelve_hour());
    let d = ClockWidget::new(None);
    assert_eq!(d.format, "24hr");
    assert!(!d.is_twelve_hour());
    let odd = ClockWidget::new(Some(&table(&[("format", text("12h"))])));
    assert!(!odd.is_twelve_hour());
}

#[test]
fn date_format_setting() {
    assert_eq!(DateWidget::new(None).format, "%A, %B %d, %Y");
    let v = table(&[("format", text("%Y-%m-%d"))]);
    assert_eq!(DateWidget::new(Some(&v)).format, "%Y-%m-%d");
}

#[test]
fn hour12_agrees_with_chrono() {
    for h in 0..24u32 {
        let t = chrono::NaiveTime::from_hms_opt(h, 0, 0).unwrap();
        assert_eq!(hour12(h), t.hour12());
    }
    assert_eq!(hour12(0), (false, 12));
    assert_eq!(hour12(12), (true, 12));
    assert_eq!(hour12(23), (true, 11));
}

#[test]
fn clock_face_twenty_four_hours() {
    let f = clock_face(9, 5, 7, false);
    assert_eq!(f.big_lines, render_big_text(&format!("{:>2}:{:02}", 9, 5)));
    assert_eq!(f.big_lines, render_big_text(" 9:05"));
    assert_eq!(f.detail, ":07");
    let f = clock_face(23, 59, 59, false);
    assert_eq!(f.big_lines, render_big_text("23:59"));
    assert_eq!(f.detail, ":59");
}

#[test]
fn clock_face_twelve_hours() {
    let f = clock_face(0, 30, 0, true);
    assert_eq!(f.big_lines, render_big_text("12:30"));
    assert_eq!(f.detail, ":00 AM");
    let f = clock_face(13, 4, 45, true);
    assert_eq!(f.big_lines, render_big_text(" 1:04"));
    assert_eq!(f.detail, ":45 PM");
}

#[test]
fn text_widget_settings() {
    let v = table(&[("content", text("a\nb")), ("title", text("Hi")), ("align", text("right"))]);
    let w = TextWidget::new(Some(&v));
    assert_eq!(w.content, "a\nb");
    assert_eq!(w.title.as_deref(), Some("Hi"));
    assert_eq!(w.align, TextAlign::Right);
    assert_eq!(w.block_title(), " Hi ");
    let d = TextWidget::new(None);
    assert_eq!(d.content, "");
    assert_eq!(d.title, None);
    assert_eq!(d.align, TextAlign::Center);
    assert_eq!(d.block_title(), " Text ");
    let l = TextWidget::new(Some(&table(&[("align", text("left"))])));
    assert_eq!(l.align, TextAlign::Left);
    let c = TextWidget::new(Some(&table(&[("align", text("justify"))])));
    assert_eq!(c.align, TextAlign::Center);
}

#[test]
fn content_lines_agree_with_str_lines() {
    let samples = [
        "",
        "one",
        "one\n",
        "one\ntwo",
        "one\r\ntwo\r\n",
        "\n",
        "\n\n",
        "a\r",
        "a\rb\n",
        "a\r\r\nb",
        "\r\n",
        "x\n\ny",
        "héllo\nwörld\r\n!",
    ];
    for s in samples {
        let expected: Vec<String> = s.lines().map(String::from).collect();
        assert_eq!(content_lines(s), expected, "lines of {:?}", s);
    }
}

#[test]
fn final_line_ending_adds_no_line() {
    for s in ["a", "a\nb", "x\r\ny z"] {
        assert_eq!(content_lines(&format!("{s}\n")), content_lines(s));
        assert_eq!(content_lines(&format!("{s}\r\n")), content_lines(s));
    }
}

#[test]
fn text_layout_centres_lines() {
    let w = TextWidget { content: "a\nb\nc".to_string(), title: None, align: TextAlign::Center };
    let (pad, lines) = w.layout(12);
    // 10 inner rows, 3 lines: (10 - 3) / 2 = 3
    assert_eq!(pad, 3);
    assert_eq!(lines, vec!["a", "b", "c"]);
    let (pad, _) = w.layout(4);
    assert_eq!(pad, 0);
}

#[test]
fn vertical_padding_values() {
    assert_eq!(vertical_padding(11, 7), 1);
    assert_eq!(vertical_padding(20, 7), 5);
    assert_eq!(vertical_padding(1, 0), 0);
    assert_eq!(vertical_padding(2, 0), 0);
    assert_eq!(vertical_padding(5, 10), 0);
}

fn float_format(bytes: u64) -> String {
    if bytes >= GB {
        format!("{:.1} GB", bytes as f64 / GB as f64)
    } else {
        format!("{:.0} MB", bytes as f64 / MB as f64)
    }
}

#[test]
fn format_bytes_agrees_with_float_formatting() {
    let mut samples: Vec<u64> = vec![
        0,
        1,
        524_287,
        524_288,
        524_289,
        1_048_575,
        1_048_576,
        1_572_864,
        2_621_440,
        GB - 1,
        GB,
        GB + 1,
        5 << 28,
        7 << 28,
        3 << 28,
        (5 << 28) + 1,
        (5 << 28) - 1,
        8_589_934_592,
        16_000_000_000,
        (1 << 53) + 1,
        (1 << 53) + 3,
        (1 << 60) + 12345,
        u64::MAX / 3,
        u64::MAX - 1,
        u64::MAX,
    ];
    for k in 0..200u64 {
        samples.push((2 * k + 1) << 19);
        samples.push((2 * k + 1) << 28);
        samples.push(k * 987_654_321);
        samples.push(k.wrapping_mul(0x9E37_79B9_7F4A_7C15));
    }
    for b in samples {
        assert_eq!(format_bytes(b), float_format(b), "bytes {}", b);
    }
}

#[test]
fn format_bytes_examples() {
    assert_eq!(format_bytes(0), "0 MB");
    assert_eq!(format_bytes(3 * MB), "3 MB");
    assert_eq!(format_bytes(GB), "1.0 GB");
    assert_eq!(format_bytes(8 * GB + GB / 2), "8.5 GB");
}

#[test]
fn process_names_fill_twelve_columns() {
    for name in ["systemd", "", "ñandú", "exactly12chr", "averyveryverylongname", "kworker/u16:3-events"] {
        let expected: String = if name.len() > 12 {
            name[..12].to_string()
        } else {
            format!("{:<width$}", name, width = 12)
        };
        assert_eq!(process_name_cell(name), expected);
    }
    assert_eq!(process_name_cell("systemd"), "systemd     ");
    assert_eq!(process_name_cell("averyveryverylongname"), "averyveryver");
}

#[test]
fn widget_kinds_and_sizes() {
    assert_eq!(widget_kind("clock"), Some(WidgetKind::Clock));
    assert_eq!(widget_kind("weather"), Some(WidgetKind::Weather));
    assert_eq!(widget_kind("date"), Some(WidgetKind::Date));
    assert_eq!(widget_kind("system"), Some(WidgetKind::System));
    assert_eq!(widget_kind("text"), Some(WidgetKind::Text));
    assert_eq!(widget_kind("Clock"), None);
    assert_eq!(min_size(WidgetKind::Clock), (35, 11));
    assert_eq!(min_size(WidgetKind::Date), (22, 3));
    assert_eq!(min_size(WidgetKind::System), (20, 9));
    assert_eq!(min_size(WidgetKind::Weather), (12, 5));
    assert_eq!(min_size(WidgetKind::Text), (12, 5));
}

#[test]
fn weather_pictures_and_descriptions() {
    assert_eq!(weather_icon(0), "\u{2600}");
    assert_eq!(weather_icon(2), "\u{26C5}");
    assert_eq!(weather_icon(3), "\u{2601}");
    assert_eq!(weather_icon(48), "\u{1F32B}");
    assert_eq!(weather_icon(67), "\u{1F327}");
    assert_eq!(weather_icon(77), "\u{2744}");
    assert_eq!(weather_icon(99), "\u{26C8}");
    assert_eq!(weather_icon(200), "\u{2601}");
    assert_eq!(weather_description(0), "Clear sky");
    assert_eq!(weather_description(48), "Depositing rime fog");
    assert_eq!(weather_description(82), "Violent rain showers");
    assert_eq!(weather_description(96), "Thunderstorm, slight hail");
    assert_eq!(weather_description(4), "Unknown");
}

#[test]
fn weather_units() {
    assert!(units_celsius(None));
    assert!(!units_celsius(Some(&table(&[("units", text("fahrenheit"))]))));
    assert!(units_celsius(Some(&table(&[("units", text("kelvin"))]))));
    assert_eq!(request_units(true), ("celsius", "kmh"));
    assert_eq!(request_units(false), ("fahrenheit", "mph"));
    assert_eq!(display_units(true, true), ("\u{00B0}C", "km/h"));
    assert_eq!(display_units(false, false), ("\u{00B0}F", "mph"));
}

#[test]
fn busiest_matches_a_stable_sort() {
    let mut seed: u64 = 12345;
    for round in 0..300u64 {
        let len = (round % 9) as usize;
        let mut keys = Vec::new();
        for _ in 0..len {
            seed = seed.wrapping_mul(6364136223846793005).wrapping_add(1442695040888963407);
            keys.push(((seed >> 33) % 5) as u32);
        }
        let mut order: Vec<usize> = (0..len).collect();
        order.sort_by(|a, b| keys[*b].cmp(&keys[*a]));
        for count in 0..5usize {
            let expected: Vec<usize> = order.iter().copied().take(count).collect();
            assert_eq!(busiest(&keys, count), expected, "keys {:?} count {}", keys, count);
        }
    }
}

#[test]
fn busiest_examples() {
    assert_eq!(busiest(&[5, 9, 1, 9, 7], 3), vec![1, 3, 4]);
    assert_eq!(busiest(&[2, 2, 2], 3), vec![0, 1, 2]);
    assert_eq!(busiest(&[4], 3), vec![0]);
    assert_eq!(busiest(&[], 3), Vec::<usize>::new());
}

#[test]
fn usage_bar_cells() {
    assert_eq!(bar_cells(3, 5), ("███".to_string(), "░░".to_string()));
    assert_eq!(bar_cells(0, 2), (String::new(), "░░".to_string()));
    assert_eq!(bar_cells(7, 4), ("███████".to_string(), String::new()));
}
