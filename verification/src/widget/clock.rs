use vstd::prelude::*;

use crate::digits::{banner_row, render_big_text};
use crate::strs::{decimal, push_decimal, push_repeat, repeat, str_eq};
use crate::widget::{setting_or, text_setting_or};

verus! {

/// The clock: the time in large digits, seconds (and AM/PM) below.
pub struct ClockWidget {
    /// `12hr` for a twelve-hour clock; anything else shows 24 hours.
    pub format: String,
}

impl ClockWidget {
    /// The clock that a zone's settings describe (`format`, by default `24hr`).
    pub fn new(config: Option<&toml::Value>) -> (r: Self)
        ensures
            r.format@ == setting_or(config, "format"@, "24hr"@),
    {
        ClockWidget { format: text_setting_or(config, "format", "24hr") }
    }

    /// Whether the clock shows twelve hours.
    pub fn is_twelve_hour(&self) -> (r: bool)
        ensures
            r == (self.format@ == "12hr"@),
    {
        str_eq(self.format.as_str(), "12hr")
    }
}

/// The hour on a twelve-hour dial and whether it is afternoon.
pub open spec fn spec_hour12(hour: u32) -> (bool, u32) {
    let h = hour % 12;
    (hour >= 12, if h == 0 { 12 } else { h })
}

pub fn hour12(hour: u32) -> (r: (bool, u32))
    ensures
        r == spec_hour12(hour),
{
    let h = hour % 12;
    (hour >= 12, if h == 0 { 12 } else { h })
}

/// `s` preceded by enough copies of `c` to be `width` characters wide.
pub open spec fn pad_left(s: Seq<char>, width: int, c: char) -> Seq<char> {
    repeat(c, width - s.len()) + s
}

/// The digits shown in large type: hours right-aligned in two columns, a
/// colon, minutes in two digits.
pub open spec fn time_text(hour: u32, minute: u32) -> Seq<char> {
    pad_left(decimal(hour as nat), 2, ' ') + ":"@ + pad_left(decimal(minute as nat), 2, '0')
}

/// The line below the digits: a colon, seconds in two digits, and `AM` or
/// `PM` on a twelve-hour clock.
pub open spec fn detail_text(second: u32, suffix: Seq<char>) -> Seq<char> {
    if suffix.len() == 0 {
        ":"@ + pad_left(decimal(second as nat), 2, '0')
    } else {
        ":"@ + pad_left(decimal(second as nat), 2, '0') + " "@ + suffix
    }
}

/// What the clock shows at a time of day.
pub struct ClockFace {
    /// The five lines of large digits.
    pub big_lines: Vec<String>,
    /// The seconds line.
    pub detail: String,
}

pub open spec fn face_hour(hour: u32, twelve_hour: bool) -> u32 {
    if twelve_hour {
        spec_hour12(hour).1
    } else {
        hour
    }
}

pub open spec fn face_suffix(hour: u32, twelve_hour: bool) -> Seq<char> {
    if !twelve_hour {
        Seq::empty()
    } else if spec_hour12(hour).0 {
        "PM"@
    } else {
        "AM"@
    }
}

fn push_padded_decimal(s: &mut String, n: u32, c: char)
    ensures
        final(s)@ == old(s)@ + pad_left(decimal(n as nat), 2, c),
{
    if n < 10 {
        push_repeat(s, c, 1);
        assert(decimal(n as nat).len() == 1);
    }
    push_decimal(s, n as u64);
    proof {
        if n < 10 {
            assert(old(s)@ + pad_left(decimal(n as nat), 2, c) =~= old(s)@ + repeat(c, 1) + decimal(n as nat));
        } else {
            lemma_decimal_len_ge_two(n as nat);
            assert(repeat(c, 2 - decimal(n as nat).len()) =~= Seq::<char>::empty());
            assert(old(s)@ + pad_left(decimal(n as nat), 2, c) =~= old(s)@ + decimal(n as nat));
        }
    }
}

proof fn lemma_decimal_len_ge_two(n: nat)
    requires
        n >= 10,
    ensures
        decimal(n).len() >= 2,
    decreases n,
{
    if n / 10 >= 10 {
        lemma_decimal_len_ge_two(n / 10);
    } else {
        reveal_with_fuel(decimal, 2);
    }
}

/// What the clock shows at `hour:minute:second`.
pub fn clock_face(hour: u32, minute: u32, second: u32, twelve_hour: bool) -> (f: ClockFace)
    ensures
        f.big_lines@.len() == 5,
        forall|k: int|
            0 <= k < 5 ==> (#[trigger] f.big_lines@[k])@ == banner_row(time_text(face_hour(hour, twelve_hour), minute), k),
        f.detail@ == detail_text(second, face_suffix(hour, twelve_hour)),
{
    let (is_pm, h12) = hour12(hour);
    let shown = if twelve_hour { h12 } else { hour };
    let mut time = String::new();
    push_padded_decimal(&mut time, shown, ' ');
    time.append(":");
    push_padded_decimal(&mut time, minute, '0');
    assert(time@ =~= time_text(shown, minute));
    let big_lines = render_big_text(time.as_str());
    let mut detail = String::from_str(":");
    push_padded_decimal(&mut detail, second, '0');
    if twelve_hour {
        detail.append(" ");
        if is_pm {
            detail.append("PM");
        } else {
            detail.append("AM");
        }
    }
    proof {
        reveal_strlit("PM");
        reveal_strlit("AM");
    }
    assert(detail@ =~= detail_text(second, face_suffix(hour, twelve_hour)));
    ClockFace { big_lines, detail }
}

/// A twelve-hour reading of an hour of the day is between 1 and 12, is
/// afternoon exactly from hour 12 on, and gives the hour back.
pub proof fn law_hour12_round_trip(hour: u32)
    requires
        hour < 24,
    ensures
        1 <= spec_hour12(hour).1 <= 12,
        spec_hour12(hour).0 == (hour >= 12),
        spec_hour12(hour).1 % 12 + (if spec_hour12(hour).0 { 12int } else { 0int }) == hour,
{
}

} // verus!
