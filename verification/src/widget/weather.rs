use vstd::prelude::*;

use crate::widget::{setting, text_setting};
use crate::strs::str_eq;

verus! {

/// The picture for a WMO weather code.
pub open spec fn spec_weather_icon(code: u8) -> Seq<char> {
    if code == 0 || code == 1 {
        "\u{2600}"@
    } else if code == 2 {
        "\u{26C5}"@
    } else if code == 45 || code == 48 {
        "\u{1F32B}"@
    } else if code == 51 || code == 53 || code == 55 || code == 61 || code == 63 || code == 65 || code == 66
        || code == 67 || code == 80 || code == 81 || code == 82 {
        "\u{1F327}"@
    } else if code == 71 || code == 73 || code == 75 || code == 77 || code == 85 || code == 86 {
        "\u{2744}"@
    } else if code == 95 || code == 96 || code == 99 {
        "\u{26C8}"@
    } else {
        "\u{2601}"@
    }
}

/// The picture for a WMO weather code (a cloud for unknown codes).
pub fn weather_icon(code: u8) -> (r: &'static str)
    ensures
        r@ == spec_weather_icon(code),
{
    match code {
        0 => "\u{2600}",  // Clear: sun
        1 => "\u{2600}",  // Mainly clear
        2 => "\u{26C5}",  // Partly cloudy
        3 => "\u{2601}",  // Overcast
        45 | 48 => "\u{1F32B}",  // Fog
        51 | 53 | 55 => "\u{1F327}",  // Drizzle
        61 | 63 | 65 => "\u{1F327}",  // Rain
        66 | 67 => "\u{1F327}",  // Freezing rain
        71 | 73 | 75 => "\u{2744}",  // Snow
        77 => "\u{2744}",  // Snow grains
        80 | 81 | 82 => "\u{1F327}",  // Rain showers
        85 | 86 => "\u{2744}",  // Snow showers
        95 => "\u{26C8}",  // Thunderstorm
        96 | 99 => "\u{26C8}",  // Thunderstorm + hail
        _ => "\u{2601}",  // Default to cloud
    }
}

/// The words for a WMO weather code.
pub open spec fn spec_weather_description(code: u8) -> Seq<char> {
    match code {
        0 => "Clear sky"@,
        1 => "Mainly clear"@,
        2 => "Partly cloudy"@,
        3 => "Overcast"@,
        45 => "Fog"@,
        48 => "Depositing rime fog"@,
        51 => "Light drizzle"@,
        53 => "Moderate drizzle"@,
        55 => "Dense drizzle"@,
        61 => "Slight rain"@,
        63 => "Moderate rain"@,
        65 => "Heavy rain"@,
        66 => "Light freezing rain"@,
        67 => "Heavy freezing rain"@,
        71 => "Slight snow"@,
        73 => "Moderate snow"@,
        75 => "Heavy snow"@,
        77 => "Snow grains"@,
        80 => "Slight rain showers"@,
        81 => "Moderate rain showers"@,
        82 => "Violent rain showers"@,
        85 => "Slight snow showers"@,
        86 => "Heavy snow showers"@,
        95 => "Thunderstorm"@,
        96 => "Thunderstorm, slight hail"@,
        99 => "Thunderstorm, heavy hail"@,
        _ => "Unknown"@,
    }
}

/// The words for a WMO weather code (`Unknown` for unknown codes).
pub fn weather_description(code: u8) -> (r: &'static str)
    ensures
        r@ == spec_weather_description(code),
{
    match code {
        0 => "Clear sky",
        1 => "Mainly clear",
        2 => "Partly cloudy",
        3 => "Overcast",
        45 => "Fog",
        48 => "Depositing rime fog",
        51 => "Light drizzle",
        53 => "Moderate drizzle",
        55 => "Dense drizzle",
        61 => "Slight rain",
        63 => "Moderate rain",
        65 => "Heavy rain",
        66 => "Light freezing rain",
        67 => "Heavy freezing rain",
        71 => "Slight snow",
        73 => "Moderate snow",
        75 => "Heavy snow",
        77 => "Snow grains",
        80 => "Slight rain showers",
        81 => "Moderate rain showers",
        82 => "Violent rain showers",
        85 => "Slight snow showers",
        86 => "Heavy snow showers",
        95 => "Thunderstorm",
        96 => "Thunderstorm, slight hail",
        99 => "Thunderstorm, heavy hail",
        _ => "Unknown",
    }
}

/// Temperatures are in Celsius (and wind in km/h) unless the settings ask for
/// `fahrenheit` units.
pub open spec fn spec_units_celsius(config: Option<&toml::Value>) -> bool {
    match setting(config, "units"@) {
        Some(u) => u != "fahrenheit"@,
        None => true,
    }
}

/// Whether the weather widget that a zone's settings describe shows Celsius.
pub fn units_celsius(config: Option<&toml::Value>) -> (r: bool)
    ensures
        r == spec_units_celsius(config),
{
    match text_setting(config, "units") {
        Some(u) => !str_eq(u.as_str(), "fahrenheit"),
        None => true,
    }
}

/// The units the forecast service is asked for: temperature, then wind speed.
pub fn request_units(celsius: bool) -> (r: (&'static str, &'static str))
    ensures
        r.0@ == (if celsius { "celsius"@ } else { "fahrenheit"@ }),
        r.1@ == (if celsius { "kmh"@ } else { "mph"@ }),
{
    if celsius {
        ("celsius", "kmh")
    } else {
        ("fahrenheit", "mph")
    }
}

/// The units shown beside the readings: temperature, then wind speed.
pub fn display_units(celsius: bool, wind_kmh: bool) -> (r: (&'static str, &'static str))
    ensures
        r.0@ == (if celsius { "\u{00B0}C"@ } else { "\u{00B0}F"@ }),
        r.1@ == (if wind_kmh { "km/h"@ } else { "mph"@ }),
{
    (if celsius { "\u{00B0}C" } else { "\u{00B0}F" }, if wind_kmh { "km/h" } else { "mph" })
}

} // verus!
