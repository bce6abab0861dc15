use vstd::prelude::*;

use crate::strs::str_eq;

pub mod clock;
pub mod date;
pub mod system;
pub mod text;
pub mod weather;

verus! {

/// Names the string-valued entries of a TOML table (none for a TOML value that is not a table).
pub uninterp spec fn toml_text_entries(value: toml::Value) -> Map<Seq<char>, Seq<char>>;

/// Calls `toml::Value::get` with a string key and then `toml::Value::as_str`:
/// the result is the string stored under `key` when `value` is a table that
/// holds a string there, and `None` otherwise.
#[verifier::external_body]
fn toml_text(value: &toml::Value, key: &str) -> (r: Option<String>)
    ensures
        r is Some <==> toml_text_entries(*value).contains_key(key@),
        r matches Some(s) ==> s@ == toml_text_entries(*value)[key@],
{
    value.get(key).and_then(toml::Value::as_str).map(String::from)
}

/// The text that a widget's settings hold under `key`.
pub open spec fn setting(config: Option<&toml::Value>, key: Seq<char>) -> Option<Seq<char>> {
    match config {
        Some(v) => if toml_text_entries(*v).contains_key(key) {
            Some(toml_text_entries(*v)[key])
        } else {
            None
        },
        None => None,
    }
}

pub open spec fn opt_string_view(s: Option<String>) -> Option<Seq<char>> {
    match s {
        Some(t) => Some(t@),
        None => None,
    }
}

/// Reads the text that a widget's settings hold under `key`.
pub fn text_setting(config: Option<&toml::Value>, key: &str) -> (r: Option<String>)
    ensures
        opt_string_view(r) == setting(config, key@),
{
    match config {
        Some(v) => toml_text(v, key),
        None => None,
    }
}

/// The text that a widget's settings hold under `key`, or `default`.
pub open spec fn setting_or(config: Option<&toml::Value>, key: Seq<char>, default: Seq<char>) -> Seq<char> {
    match setting(config, key) {
        Some(s) => s,
        None => default,
    }
}

/// Reads the text that a widget's settings hold under `key`, or `default`.
pub fn text_setting_or(config: Option<&toml::Value>, key: &str, default: &str) -> (r: String)
    ensures
        r@ == setting_or(config, key@, default@),
{
    match text_setting(config, key) {
        Some(s) => s,
        None => String::from_str(default),
    }
}

/// The kinds of widget a zone can show.
#[derive(Debug, Clone, Copy, PartialEq, Eq, Structural)]
pub enum WidgetKind {
    Clock,
    Weather,
    Date,
    System,
    Text,
}

pub open spec fn spec_widget_kind(name: Seq<char>) -> Option<WidgetKind> {
    if name == "clock"@ {
        Some(WidgetKind::Clock)
    } else if name == "weather"@ {
        Some(WidgetKind::Weather)
    } else if name == "date"@ {
        Some(WidgetKind::Date)
    } else if name == "system"@ {
        Some(WidgetKind::System)
    } else if name == "text"@ {
        Some(WidgetKind::Text)
    } else {
        None
    }
}

/// The kind of widget a zone names, or `None` for an unknown widget type.
pub fn widget_kind(name: &str) -> (r: Option<WidgetKind>)
    ensures
        r == spec_widget_kind(name@),
{
    if str_eq(name, "clock") {
        Some(WidgetKind::Clock)
    } else if str_eq(name, "weather") {
        Some(WidgetKind::Weather)
    } else if str_eq(name, "date") {
        Some(WidgetKind::Date)
    } else if str_eq(name, "system") {
        Some(WidgetKind::System)
    } else if str_eq(name, "text") {
        Some(WidgetKind::Text)
    } else {
        None
    }
}

/// Minimum (width, height) in characters a widget needs to render usefully,
/// borders (2 characters on each axis) included.
pub open spec fn spec_min_size(kind: WidgetKind) -> (u16, u16) {
    match kind {
        WidgetKind::Clock => (35, 11),
        WidgetKind::Date => (22, 3),
        WidgetKind::System => (20, 9),
        WidgetKind::Weather => (12, 5),
        WidgetKind::Text => (12, 5),
    }
}

/// Minimum (width, height) in characters a widget of this kind needs.
pub fn min_size(kind: WidgetKind) -> (r: (u16, u16))
    ensures
        r == spec_min_size(kind),
{
    match kind {
        WidgetKind::Clock => (35, 11),
        WidgetKind::Date => (22, 3),
        WidgetKind::System => (20, 9),
        WidgetKind::Weather => (12, 5),
        WidgetKind::Text => (12, 5),
    }
}

/// Blank lines above content of `content_height` lines that centre it inside
/// a bordered area `area_height` rows tall (rounded down; none when it does not fit).
pub open spec fn spec_vertical_padding(area_height: u16, content_height: u16) -> int {
    let inner = if area_height >= 2 { area_height - 2 } else { 0 };
    (if inner >= content_height { inner - content_height } else { 0 }) / 2
}

/// Blank lines that centre content vertically inside a bordered area.
pub fn vertical_padding(area_height: u16, content_height: u16) -> (r: u16)
    ensures
        r as int == spec_vertical_padding(area_height, content_height),
{
    let inner = area_height.saturating_sub(2);
    inner.saturating_sub(content_height) / 2
}

} // verus!
