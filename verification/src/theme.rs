use vstd::prelude::*;

use crate::config::ThemeConfig;
use crate::strs::str_eq;
use vstd::utf8::{
    encode_utf8, encode_utf8_valid_utf8, is_char_boundary,
    is_char_boundary_iff_not_is_continuation_byte, is_ascii_chars, is_ascii_chars_encode_utf8,
};

verus! {

/// A terminal colour.
#[derive(Debug, Clone, Copy, PartialEq, Eq, Structural)]
pub enum Color {
    /// The terminal's own colour.
    Reset,
    DarkGray,
    Rgb(u8, u8, u8),
}

#[derive(Debug, Clone, Copy, PartialEq, Eq, Structural)]
pub enum BorderStyle {
    Rounded,
    Plain,
    Double,
}

/// The colours and border style of the dashboard.
#[derive(Debug, Clone, Copy, PartialEq, Eq, Structural)]
pub struct Theme {
    pub fg: Color,
    pub bg: Color,
    pub accent: Color,
    pub dim: Color,
    pub border: BorderStyle,
}

/// The terminal's own colours, a dark grey for dimmed text, rounded borders.
pub open spec fn default_theme() -> Theme {
    Theme {
        fg: Color::Reset,
        bg: Color::Reset,
        accent: Color::Reset,
        dim: Color::DarkGray,
        border: BorderStyle::Rounded,
    }
}

impl Default for Theme {
    fn default() -> (r: Self)
        ensures
            r == default_theme(),
    {
        Theme {
            fg: Color::Reset,
            bg: Color::Reset,
            accent: Color::Reset,
            dim: Color::DarkGray,
            border: BorderStyle::Rounded,
        }
    }
}

pub open spec fn rgb_theme(fg: (u8, u8, u8), bg: (u8, u8, u8), accent: (u8, u8, u8), dim: (u8, u8, u8)) -> Theme {
    Theme {
        fg: Color::Rgb(fg.0, fg.1, fg.2),
        bg: Color::Rgb(bg.0, bg.1, bg.2),
        accent: Color::Rgb(accent.0, accent.1, accent.2),
        dim: Color::Rgb(dim.0, dim.1, dim.2),
        border: BorderStyle::Rounded,
    }
}

/// The named themes; any other name has none.
pub open spec fn spec_preset(name: Seq<char>) -> Option<Theme> {
    if name == "gruvbox"@ {
        Some(rgb_theme((0xeb, 0xdb, 0xb2), (0x28, 0x28, 0x28), (0xfe, 0x80, 0x19), (0x66, 0x5c, 0x54)))
    } else if name == "catppuccin-mocha"@ {
        Some(rgb_theme((0xcd, 0xd6, 0xf4), (0x1e, 0x1e, 0x2e), (0x89, 0xb4, 0xfa), (0x58, 0x5b, 0x70)))
    } else if name == "catppuccin-latte"@ {
        Some(rgb_theme((0x4c, 0x4f, 0x69), (0xef, 0xf1, 0xf5), (0x1e, 0x66, 0xf5), (0x9c, 0xa0, 0xb0)))
    } else if name == "nord"@ {
        Some(rgb_theme((0xec, 0xef, 0xf4), (0x2e, 0x34, 0x40), (0x88, 0xc0, 0xd0), (0x4c, 0x56, 0x6a)))
    } else if name == "tokyo-night"@ {
        Some(rgb_theme((0xc0, 0xca, 0xf5), (0x1a, 0x1b, 0x26), (0x7a, 0xa2, 0xf7), (0x56, 0x5f, 0x89)))
    } else if name == "dracula"@ {
        Some(rgb_theme((0xf8, 0xf8, 0xf2), (0x28, 0x2a, 0x36), (0xbd, 0x93, 0xf9), (0x62, 0x72, 0xa4)))
    } else if name == "solarized-dark"@ {
        Some(rgb_theme((0x83, 0x94, 0x96), (0x00, 0x2b, 0x36), (0x26, 0x8b, 0xd2), (0x58, 0x6e, 0x75)))
    } else {
        None
    }
}

fn rgb(r: u8, g: u8, b: u8) -> (c: Color)
    ensures
        c == Color::Rgb(r, g, b),
{
    Color::Rgb(r, g, b)
}

/// The theme of the given name, or `None` for a name that is not a preset.
pub fn preset(name: &str) -> (r: Option<Theme>)
    ensures
        r == spec_preset(name@),
{
    let colors = if str_eq(name, "gruvbox") {
        [rgb(0xeb, 0xdb, 0xb2), rgb(0x28, 0x28, 0x28), rgb(0xfe, 0x80, 0x19), rgb(0x66, 0x5c, 0x54)]
    } else if str_eq(name, "catppuccin-mocha") {
        [rgb(0xcd, 0xd6, 0xf4), rgb(0x1e, 0x1e, 0x2e), rgb(0x89, 0xb4, 0xfa), rgb(0x58, 0x5b, 0x70)]
    } else if str_eq(name, "catppuccin-latte") {
        [rgb(0x4c, 0x4f, 0x69), rgb(0xef, 0xf1, 0xf5), rgb(0x1e, 0x66, 0xf5), rgb(0x9c, 0xa0, 0xb0)]
    } else if str_eq(name, "nord") {
        [rgb(0xec, 0xef, 0xf4), rgb(0x2e, 0x34, 0x40), rgb(0x88, 0xc0, 0xd0), rgb(0x4c, 0x56, 0x6a)]
    } else if str_eq(name, "tokyo-night") {
        [rgb(0xc0, 0xca, 0xf5), rgb(0x1a, 0x1b, 0x26), rgb(0x7a, 0xa2, 0xf7), rgb(0x56, 0x5f, 0x89)]
    } else if str_eq(name, "dracula") {
        [rgb(0xf8, 0xf8, 0xf2), rgb(0x28, 0x2a, 0x36), rgb(0xbd, 0x93, 0xf9), rgb(0x62, 0x72, 0xa4)]
    } else if str_eq(name, "solarized-dark") {
        [rgb(0x83, 0x94, 0x96), rgb(0x00, 0x2b, 0x36), rgb(0x26, 0x8b, 0xd2), rgb(0x58, 0x6e, 0x75)]
    } else {
        return None;
    };
    Some(Theme { fg: colors[0], bg: colors[1], accent: colors[2], dim: colors[3], border: BorderStyle::Rounded })
}

/// The value of an ASCII hexadecimal digit.
pub open spec fn hex_digit(b: u8) -> Option<u8> {
    if 0x30 <= b <= 0x39 {
        Some((b - 0x30) as u8)
    } else if 0x61 <= b <= 0x66 {
        Some((b - 0x61 + 10) as u8)
    } else if 0x41 <= b <= 0x46 {
        Some((b - 0x41 + 10) as u8)
    } else {
        None
    }
}

/// A byte read from two characters of base 16, as `u8::from_str_radix` reads
/// them: two hexadecimal digits, or a `+` sign and one digit.
pub open spec fn hex_pair(a: u8, b: u8) -> Option<u8> {
    if a == 0x2b {
        hex_digit(b)
    } else {
        match (hex_digit(a), hex_digit(b)) {
            (Some(x), Some(y)) => Some((x * 16 + y) as u8),
            _ => None,
        }
    }
}

/// How many `#` bytes `bytes` begins with.
pub open spec fn hash_prefix_len(bytes: Seq<u8>) -> int
    decreases bytes.len(),
{
    if bytes.len() > 0 && bytes[0] == 0x23 {
        1 + hash_prefix_len(bytes.drop_first())
    } else {
        0
    }
}

/// The colour written as `#rrggbb` (any number of leading `#`, including
/// none): six more bytes, read as three bytes of base 16.
pub open spec fn hex_value(s: Seq<char>) -> Option<Color> {
    let b = encode_utf8(s);
    let k = hash_prefix_len(b);
    let t = b.skip(k);
    if t.len() != 6 {
        None
    } else {
        match (hex_pair(t[0], t[1]), hex_pair(t[2], t[3]), hex_pair(t[4], t[5])) {
            (Some(r), Some(g), Some(bl)) => Some(Color::Rgb(r, g, bl)),
            _ => None,
        }
    }
}

/// The colour text can be cut into its three two-byte parts at character
/// boundaries, as far as reading it gets.
pub open spec fn hex_slicing_ok(s: Seq<char>) -> bool {
    let b = encode_utf8(s);
    let k = hash_prefix_len(b);
    b.len() - k == 6 ==> {
        &&& is_char_boundary(b, k + 2)
        &&& hex_pair(b[k], b[k + 1]) is Some ==> is_char_boundary(b, k + 4)
    }
}

proof fn lemma_hash_prefix_step(b: Seq<u8>, k: int)
    requires
        0 <= k < b.len(),
        b[k] == 0x23,
    ensures
        hash_prefix_len(b.skip(k)) == 1 + hash_prefix_len(b.skip(k + 1)),
{
    assert(b.skip(k).drop_first() =~= b.skip(k + 1));
}

fn parse_hex_digit(b: u8) -> (r: Option<u8>)
    ensures
        r == hex_digit(b),
{
    if 0x30 <= b && b <= 0x39 {
        Some(b - 0x30)
    } else if 0x61 <= b && b <= 0x66 {
        Some(b - 0x61 + 10)
    } else if 0x41 <= b && b <= 0x46 {
        Some(b - 0x41 + 10)
    } else {
        None
    }
}

fn parse_hex_pair(a: u8, b: u8) -> (r: Option<u8>)
    ensures
        r == hex_pair(a, b),
{
    if a == 0x2b {
        parse_hex_digit(b)
    } else {
        match (parse_hex_digit(a), parse_hex_digit(b)) {
            (Some(x), Some(y)) => Some(x * 16 + y),
            _ => None,
        }
    }
}

/// Where the colour text begins after its leading `#` bytes.
fn hash_prefix(bytes: &[u8]) -> (k: usize)
    ensures
        k as int == hash_prefix_len(bytes@),
        k <= bytes@.len(),
{
    let n = bytes.len();
    let mut k: usize = 0;
    assert(bytes@.skip(0) =~= bytes@);
    while k < n && bytes[k] == 0x23
        invariant
            k <= n,
            n == bytes@.len(),
            k + hash_prefix_len(bytes@.skip(k as int)) == hash_prefix_len(bytes@),
        decreases n - k,
    {
        proof {
            lemma_hash_prefix_step(bytes@, k as int);
        }
        k = k + 1;
    }
    assert(hash_prefix_len(bytes@.skip(k as int)) == 0);
    k
}

/// Reads a colour written as `#rrggbb`.
pub fn hex_to_color(hex: &str) -> (r: Option<Color>)
    requires
        hex_slicing_ok(hex@),
    ensures
        r == hex_value(hex@),
{
    let bytes = hex.as_bytes();
    let k = hash_prefix(bytes);
    if bytes.len() - k != 6 {
        return None;
    }
    let ghost t = bytes@.skip(k as int);
    let r = parse_hex_pair(bytes[k], bytes[k + 1]);
    let g = parse_hex_pair(bytes[k + 2], bytes[k + 3]);
    let b = parse_hex_pair(bytes[k + 4], bytes[k + 5]);
    assert(t[0] == bytes@[k as int] && t[1] == bytes@[k + 1] && t[2] == bytes@[k + 2]);
    assert(t[3] == bytes@[k + 3] && t[4] == bytes@[k + 4] && t[5] == bytes@[k + 5]);
    match (r, g, b) {
        (Some(r), Some(g), Some(b)) => Some(Color::Rgb(r, g, b)),
        _ => None,
    }
}

/// Whether `hex_to_color` can read `hex` (as far as it gets) without cutting
/// a character in two.
pub fn hex_slicing_fits(hex: &str) -> (ok: bool)
    ensures
        ok == hex_slicing_ok(hex@),
{
    let bytes = hex.as_bytes();
    let k = hash_prefix(bytes);
    if bytes.len() - k != 6 {
        return true;
    }
    if !hex.is_char_boundary(k + 2) {
        return false;
    }
    if parse_hex_pair(bytes[k], bytes[k + 1]).is_some() {
        hex.is_char_boundary(k + 4)
    } else {
        true
    }
}

/// A colour of a custom theme: the one written, when it can be read, or else `base`.
pub open spec fn custom_color(c: Option<String>, base: Color) -> Color {
    match c {
        Some(s) => match hex_value(s@) {
            Some(v) => v,
            None => base,
        },
        None => base,
    }
}

/// The border style named `plain` or `double`; rounded for any other name or none.
pub open spec fn border_named(b: Option<String>) -> BorderStyle {
    match b {
        Some(s) => if s@ == "plain"@ {
            BorderStyle::Plain
        } else if s@ == "double"@ {
            BorderStyle::Double
        } else {
            BorderStyle::Rounded
        },
        None => BorderStyle::Rounded,
    }
}

/// The colour text of a custom theme can be read without cutting a character in two.
pub open spec fn color_text_ok(c: Option<String>) -> bool {
    match c {
        Some(s) => hex_slicing_ok(s@),
        None => true,
    }
}

pub open spec fn theme_config_ok(config: Option<ThemeConfig>) -> bool {
    match config {
        Some(ThemeConfig::Custom(c)) => {
            &&& color_text_ok(c.fg)
            &&& color_text_ok(c.bg)
            &&& color_text_ok(c.accent)
            &&& color_text_ok(c.dim)
        },
        _ => true,
    }
}

/// The theme a configuration asks for: the default when it names none, a
/// preset by name (the default for an unknown name), or the default with the
/// colours and border style that a custom theme gives.
pub open spec fn spec_resolve_theme(config: Option<ThemeConfig>) -> Theme {
    match config {
        None => default_theme(),
        Some(ThemeConfig::Preset(name)) => match spec_preset(name@) {
            Some(t) => t,
            None => default_theme(),
        },
        Some(ThemeConfig::Custom(c)) => {
            let base = default_theme();
            Theme {
                fg: custom_color(c.fg, base.fg),
                bg: custom_color(c.bg, base.bg),
                accent: custom_color(c.accent, base.accent),
                dim: custom_color(c.dim, base.dim),
                border: border_named(c.border),
            }
        },
    }
}

fn read_color(c: &Option<String>, base: Color) -> (r: Color)
    requires
        color_text_ok(*c),
    ensures
        r == custom_color(*c, base),
{
    match c {
        Some(s) => match hex_to_color(s.as_str()) {
            Some(v) => v,
            None => base,
        },
        None => base,
    }
}

fn read_border(b: &Option<String>) -> (r: BorderStyle)
    ensures
        r == border_named(*b),
{
    match b {
        Some(s) => {
            if str_eq(s.as_str(), "plain") {
                BorderStyle::Plain
            } else if str_eq(s.as_str(), "double") {
                BorderStyle::Double
            } else {
                BorderStyle::Rounded
            }
        },
        None => BorderStyle::Rounded,
    }
}

/// The theme the configuration asks for.
pub fn resolve_theme(config: &Option<ThemeConfig>) -> (t: Theme)
    requires
        theme_config_ok(*config),
    ensures
        t == spec_resolve_theme(*config),
{
    match config {
        None => Theme::default(),
        Some(ThemeConfig::Preset(name)) => match preset(name.as_str()) {
            Some(t) => t,
            None => Theme::default(),
        },
        Some(ThemeConfig::Custom(custom)) => {
            let base = Theme::default();
            Theme {
                fg: read_color(&custom.fg, base.fg),
                bg: read_color(&custom.bg, base.bg),
                accent: read_color(&custom.accent, base.accent),
                dim: read_color(&custom.dim, base.dim),
                border: read_border(&custom.border),
            }
        },
    }
}

/// Whether `resolve_theme` can read every colour of the configuration without
/// cutting a character in two.
pub fn theme_config_fits(config: &Option<ThemeConfig>) -> (ok: bool)
    ensures
        ok == theme_config_ok(*config),
{
    match config {
        Some(ThemeConfig::Custom(c)) => {
            color_fits(&c.fg) && color_fits(&c.bg) && color_fits(&c.accent) && color_fits(&c.dim)
        },
        _ => true,
    }
}

fn color_fits(c: &Option<String>) -> (ok: bool)
    ensures
        ok == color_text_ok(*c),
{
    match c {
        Some(s) => hex_slicing_fits(s.as_str()),
        None => true,
    }
}

/// The lower-case hexadecimal digit for `d` (0 to 15).
pub open spec fn hex_char(d: int) -> char {
    if d < 10 {
        (('0' as int) + d) as char
    } else {
        (('a' as int) + d - 10) as char
    }
}

/// A colour written as `#rrggbb` in lower-case hexadecimal.
pub open spec fn hex_code(r: u8, g: u8, b: u8) -> Seq<char> {
    seq![
        '#',
        hex_char(r as int / 16),
        hex_char(r as int % 16),
        hex_char(g as int / 16),
        hex_char(g as int % 16),
        hex_char(b as int / 16),
        hex_char(b as int % 16),
    ]
}

proof fn lemma_hex_char_reads(d: int)
    requires
        0 <= d < 16,
    ensures
        hex_digit(hex_char(d) as u8) == Some(d as u8),
        hex_char(d) as u8 != 0x2b,
        hex_char(d) as u8 != 0x23,
        '\0' <= hex_char(d) <= '\u{7f}',
{
}

/// Writing a colour as `#rrggbb` and reading it back gives the colour.
pub proof fn law_hex_round_trip(r: u8, g: u8, b: u8)
    ensures
        hex_value(hex_code(r, g, b)) == Some(Color::Rgb(r, g, b)),
        hex_slicing_ok(hex_code(r, g, b)),
{
    let s = hex_code(r, g, b);
    lemma_hex_char_reads(r as int / 16);
    lemma_hex_char_reads(r as int % 16);
    lemma_hex_char_reads(g as int / 16);
    lemma_hex_char_reads(g as int % 16);
    lemma_hex_char_reads(b as int / 16);
    lemma_hex_char_reads(b as int % 16);
    assert(is_ascii_chars(s));
    is_ascii_chars_encode_utf8(s);
    let bytes = encode_utf8(s);
    assert(bytes[0] == 0x23);
    assert(bytes.drop_first()[0] == bytes[1]);
    assert(hash_prefix_len(bytes.drop_first()) == 0);
    assert(hash_prefix_len(bytes) == 1);
    let t = bytes.skip(1);
    assert(t[0] == bytes[1] && t[1] == bytes[2] && t[2] == bytes[3]);
    assert(t[3] == bytes[4] && t[4] == bytes[5] && t[5] == bytes[6]);
    assert((r / 16) * 16 + r % 16 == r);
    assert((g / 16) * 16 + g % 16 == g);
    assert((b / 16) * 16 + b % 16 == b);
    encode_utf8_valid_utf8(s);
    is_char_boundary_iff_not_is_continuation_byte(bytes, 3);
    is_char_boundary_iff_not_is_continuation_byte(bytes, 5);
}

/// How light a colour is: its red, green and blue added up (0 for a colour
/// that is not given as RGB).
pub open spec fn lightness(c: Color) -> int {
    match c {
        Color::Rgb(r, g, b) => r as int + g as int + b as int,
        _ => 0,
    }
}

/// The presets are the seven named palettes; each gives its own theme, with
/// every colour as RGB and rounded borders; all are dark (text lighter than
/// the background) except `catppuccin-latte`, the light one.
pub proof fn law_presets_distinct(a: Seq<char>, b: Seq<char>)
    ensures
        spec_preset(a) is Some <==> (a == "gruvbox"@ || a == "catppuccin-mocha"@ || a == "catppuccin-latte"@ || a
            == "nord"@ || a == "tokyo-night"@ || a == "dracula"@ || a == "solarized-dark"@),
        spec_preset(a) is Some && spec_preset(a) == spec_preset(b) ==> a == b,
        spec_preset(a) matches Some(t) ==> {
            &&& t.fg is Rgb && t.bg is Rgb && t.accent is Rgb && t.dim is Rgb
            &&& t.border == BorderStyle::Rounded
            &&& (lightness(t.bg) > lightness(t.fg) <==> a == "catppuccin-latte"@)
        },
{
    reveal_strlit("gruvbox");
    reveal_strlit("catppuccin-mocha");
    reveal_strlit("catppuccin-latte");
    reveal_strlit("nord");
    reveal_strlit("tokyo-night");
    reveal_strlit("dracula");
    reveal_strlit("solarized-dark");
    let latte = "catppuccin-latte"@;
    assert("gruvbox"@.len() != latte.len());
    assert("catppuccin-mocha"@[11] != latte[11]);
    assert("nord"@.len() != latte.len());
    assert("tokyo-night"@.len() != latte.len());
    assert("dracula"@.len() != latte.len());
    assert("solarized-dark"@.len() != latte.len());
}

} // verus!
