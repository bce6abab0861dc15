use vigil_tui::digits::{digit_lines, render_big_text};

#[test]
fn digit_lines_returns_5_lines() {
    for ch in "0123456789: ".chars() {
        let lines = digit_lines(ch);
        assert_eq!(lines.len(), 5, "char '{}' should have 5 lines", ch);
    }
}

#[test]
fn digit_lines_consistent_widths() {
    for ch in "0123456789".chars() {
        let lines = digit_lines(ch);
        let width = lines[0].chars().count();
        for (i, line) in lines.iter().enumerate() {
            assert_eq!(
                line.chars().count(),
                width,
                "char '{}' line {} has inconsistent width",
                ch,
                i
            );
        }
    }
}

#[test]
fn render_big_text_produces_5_lines() {
    let output = render_big_text("12:34");
    assert_eq!(output.len(), 5);
}

#[test]
fn render_big_text_single_char() {
    let output = render_big_text("0");
    assert_eq!(output.len(), 5);
    assert_eq!(output[0], digit_lines('0')[0]);
}

#[test]
fn unknown_char_returns_blank() {
    let lines = digit_lines('?');
    for line in &lines {
        assert!(line.trim().is_empty(), "unknown char should be blank");
    }
}

#[test]
fn banner_is_six_columns_per_character_less_one() {
    for text in ["7", "42", "12:34", " 9:05", "0123456789", "a?"] {
        let rows = render_big_text(text);
        for row in &rows {
            assert_eq!(row.chars().count(), 6 * text.chars().count() - 1);
        }
    }
}

#[test]
fn banner_joins_pictures_with_one_space() {
    let rows = render_big_text("1:");
    assert_eq!(rows[0], "   █       ");
    assert_eq!(rows[1], "  ██    █  ");
    assert_eq!(rows[4], "   █       ");
}

#[test]
fn every_picture_line_is_five_wide() {
    for ch in "0123456789: ?x".chars() {
        for line in digit_lines(ch) {
            assert_eq!(line.chars().count(), 5, "char '{}'", ch);
        }
    }
    assert_eq!(digit_lines(':'), ["     ", "  █  ", "     ", "  █  ", "     "]);
    assert_eq!(digit_lines(' '), ["     "; 5]);
}

#[test]
fn empty_text_renders_five_empty_rows() {
    let rows = render_big_text("");
    assert_eq!(rows.len(), 5);
    assert!(rows.iter().all(|r| r.is_empty()));
}
