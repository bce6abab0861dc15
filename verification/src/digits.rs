use vstd::prelude::*;

verus! {

/// Row `row` (0 to 4) of the picture of `ch`.
pub open spec fn glyph_row(ch: char, row: int) -> Seq<char> {
    let rows: Seq<&str> = match ch {
        '0' => seq!["█████", "█   █", "█   █", "█   █", "█████"],
        '1' => seq!["   █ ", "  ██ ", "   █ ", "   █ ", "   █ "],
        '2' => seq!["█████", "    █", "█████", "█    ", "█████"],
        '3' => seq!["█████", "    █", "█████", "    █", "█████"],
        '4' => seq!["█   █", "█   █", "█████", "    █", "    █"],
        '5' => seq!["█████", "█    ", "█████", "    █", "█████"],
        '6' => seq!["█████", "█    ", "█████", "█   █", "█████"],
        '7' => seq!["█████", "    █", "   █ ", "  █  ", "  █  "],
        '8' => seq!["█████", "█   █", "█████", "█   █", "█████"],
        '9' => seq!["█████", "█   █", "█████", "    █", "█████"],
        ':' => seq!["     ", "  █  ", "     ", "  █  ", "     "],
        ' ' => seq!["     ", "     ", "     ", "     ", "     "],
        _ => seq!["     ", "     ", "     ", "     ", "     "],
    };
    rows[row]@
}

/// Returns a 5-line ASCII art representation of a character.
/// Each line is exactly 5 characters wide; a character without a picture of
/// its own is blank.
pub fn digit_lines(ch: char) -> (r: [&'static str; 5])
    ensures
        forall|k: int| 0 <= k < 5 ==> (#[trigger] r@[k])@ == glyph_row(ch, k),
{
    match ch {
        '0' => ["█████", "█   █", "█   █", "█   █", "█████"],
        '1' => ["   █ ", "  ██ ", "   █ ", "   █ ", "   █ "],
        '2' => ["█████", "    █", "█████", "█    ", "█████"],
        '3' => ["█████", "    █", "█████", "    █", "█████"],
        '4' => ["█   █", "█   █", "█████", "    █", "    █"],
        '5' => ["█████", "█    ", "█████", "    █", "█████"],
        '6' => ["█████", "█    ", "█████", "█   █", "█████"],
        '7' => ["█████", "    █", "   █ ", "  █  ", "  █  "],
        '8' => ["█████", "█   █", "█████", "█   █", "█████"],
        '9' => ["█████", "█   █", "█████", "    █", "█████"],
        ':' => ["     ", "  █  ", "     ", "  █  ", "     "],
        ' ' => ["     ", "     ", "     ", "     ", "     "],
        _ => ["     ", "     ", "     ", "     ", "     "],
    }
}

pub open spec fn is_digit(ch: char) -> bool {
    '0' <= ch && ch <= '9'
}

/// Every picture is five lines of blocks and spaces, each exactly five
/// characters wide; a character other than a digit or ':' is blank.
pub proof fn law_glyph_shape(ch: char, row: int)
    requires
        0 <= row < 5,
    ensures
        glyph_row(ch, row).len() == 5,
        !(is_digit(ch) || ch == ':') ==> glyph_row(ch, row) == seq![' ', ' ', ' ', ' ', ' '],
        forall|i: int|
            0 <= i < glyph_row(ch, row).len() ==> #[trigger] glyph_row(ch, row)[i] == ' ' || glyph_row(ch, row)[i]
                == '█',
{
    reveal_strlit("█████");
    reveal_strlit("█   █");
    reveal_strlit("   █ ");
    reveal_strlit("  ██ ");
    reveal_strlit("    █");
    reveal_strlit("█    ");
    reveal_strlit("  █  ");
    reveal_strlit("     ");
    assert(seq![' ', ' ', ' ', ' ', ' '] =~= "     "@);
}

/// The characters of `text`, row `row` of their pictures, side by side with a
/// space between neighbours.
pub open spec fn banner_row(text: Seq<char>, row: int) -> Seq<char>
    decreases text.len(),
{
    if text.len() == 0 {
        Seq::empty()
    } else if text.len() == 1 {
        glyph_row(text[0], row)
    } else {
        banner_row(text.drop_last(), row) + seq![' '] + glyph_row(text.last(), row)
    }
}

/// Compose a string of characters into 5 lines of ASCII art.
/// A single space gap is inserted between each character for readability.
pub fn render_big_text(text: &str) -> (r: Vec<String>)
    ensures
        r@.len() == 5,
        forall|k: int| 0 <= k < 5 ==> (#[trigger] r@[k])@ == banner_row(text@, k),
{
    let n = text.unicode_len();
    let mut out: Vec<String> = Vec::new();
    for row in 0..5usize
        invariant
            n == text@.len(),
            out@.len() == row,
            forall|k: int| 0 <= k < row ==> (#[trigger] out@[k])@ == banner_row(text@, k),
    {
        let mut line = String::new();
        for i in 0..n
            invariant
                n == text@.len(),
                row < 5,
                line@ == banner_row(text@.take(i as int), row as int),
        {
            let ch = text.get_char(i);
            let pic = digit_lines(ch);
            proof {
                assert(text@.take(i + 1).drop_last() =~= text@.take(i as int));
                assert(text@.take(i + 1).last() == ch);
            }
            if i > 0 {
                line.append(" ");
                proof {
                    reveal_strlit(" ");
                }
            }
            line.append(pic[row]);
        }
        proof {
            assert(text@.take(n as int) =~= text@);
        }
        out.push(line);
    }
    out
}

/// A row of large text is six columns per character, less the one space
/// that would follow the last: five-wide pictures with one space between
/// neighbours.
pub proof fn law_banner_width(text: Seq<char>, row: int)
    requires
        0 <= row < 5,
        text.len() >= 1,
    ensures
        banner_row(text, row).len() == 6 * text.len() - 1,
    decreases text.len(),
{
    law_glyph_shape(text.last(), row);
    if text.len() == 1 {
        law_glyph_shape(text[0], row);
    } else {
        law_banner_width(text.drop_last(), row);
    }
}

} // verus!
