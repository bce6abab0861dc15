use vstd::prelude::*;

use crate::strs::{decimal, push_decimal, to_decimal};

verus! {

/// What a key press asks of the dashboard.
#[derive(Debug, Clone, Copy, PartialEq, Eq, Structural)]
pub enum KeyAction {
    Quit,
    Reload,
    Nothing,
}

/// The action for a key event: `q`, or `c` with Control alone, quits; `r`
/// reloads the configuration; anything else, and any key release or repeat,
/// does nothing. `ch` is the character of a character key, `control_only`
/// tells whether Control is the only modifier held.
pub open spec fn spec_key_action(is_press: bool, ch: Option<char>, control_only: bool) -> KeyAction {
    if !is_press {
        KeyAction::Nothing
    } else if ch == Some('q') || (ch == Some('c') && control_only) {
        KeyAction::Quit
    } else if ch == Some('r') {
        KeyAction::Reload
    } else {
        KeyAction::Nothing
    }
}

pub fn key_action(is_press: bool, ch: Option<char>, control_only: bool) -> (r: KeyAction)
    ensures
        r == spec_key_action(is_press, ch, control_only),
{
    if !is_press {
        return KeyAction::Nothing;
    }
    match ch {
        Some('q') => KeyAction::Quit,
        Some('c') if control_only => KeyAction::Quit,
        Some('r') => KeyAction::Reload,
        _ => KeyAction::Nothing,
    }
}

/// What the "terminal too small" screen says.
pub struct TooSmall {
    /// The current width, and whether it is enough.
    pub width: String,
    pub width_ok: bool,
    /// The current height, and whether it is enough.
    pub height: String,
    pub height_ok: bool,
    /// `Required: W x H`.
    pub required: String,
}

/// The "terminal too small" screen for a terminal of `width` by `height`
/// cells that needs `req_w` by `req_h`.
pub fn too_small(width: u16, height: u16, req_w: u16, req_h: u16) -> (r: TooSmall)
    ensures
        r.width@ == decimal(width as nat),
        r.height@ == decimal(height as nat),
        r.width_ok == (width >= req_w),
        r.height_ok == (height >= req_h),
        r.required@ == "Required: "@ + decimal(req_w as nat) + " x "@ + decimal(req_h as nat),
{
    let mut required = String::from_str("Required: ");
    push_decimal(&mut required, req_w as u64);
    required.append(" x ");
    push_decimal(&mut required, req_h as u64);
    TooSmall {
        width: to_decimal(width as u64),
        width_ok: width >= req_w,
        height: to_decimal(height as u64),
        height_ok: height >= req_h,
        required,
    }
}

/// The border title of a zone whose widget reports an error: ` {id} [error] `.
pub fn error_title(id: &str) -> (r: String)
    ensures
        r@ == " "@ + id@ + " [error] "@,
{
    let mut s = String::from_str(" ");
    s.append(id);
    s.append(" [error] ");
    s
}

/// Where the configuration file is taken from.
#[derive(Debug, Clone, Copy, PartialEq, Eq, Structural)]
pub enum ConfigSource {
    /// The path given on the command line.
    CommandLine,
    /// No platform configuration directory could be found: an error.
    NoConfigDir,
    /// `config.toml` in the platform configuration directory.
    ConfigDir,
    /// `config.toml` in the working directory.
    WorkingDir,
    /// A default configuration written to the platform configuration directory.
    CreateDefault,
}

/// The configuration path is resolved in order: an explicit command-line
/// argument, then an existing file in the platform configuration directory,
/// then `./config.toml`, and on first run a default file written to the
/// platform directory. Each question is asked only when the earlier ones
/// were answered no; `None` stands for a question not needed.
pub open spec fn spec_config_source(
    cli_arg: bool,
    config_dir: bool,
    in_config_dir: Option<bool>,
    in_working_dir: Option<bool>,
) -> Option<ConfigSource> {
    if cli_arg {
        Some(ConfigSource::CommandLine)
    } else if !config_dir {
        Some(ConfigSource::NoConfigDir)
    } else {
        match in_config_dir {
            None => None,
            Some(true) => Some(ConfigSource::ConfigDir),
            Some(false) => match in_working_dir {
                None => None,
                Some(true) => Some(ConfigSource::WorkingDir),
                Some(false) => Some(ConfigSource::CreateDefault),
            },
        }
    }
}

/// Decides where the configuration comes from, given the answers so far; `None`
/// means that the next question (is there a file in the configuration
/// directory, then in the working directory) must be answered first.
pub fn config_source(
    cli_arg: bool,
    config_dir: bool,
    in_config_dir: Option<bool>,
    in_working_dir: Option<bool>,
) -> (r: Option<ConfigSource>)
    ensures
        r == spec_config_source(cli_arg, config_dir, in_config_dir, in_working_dir),
{
    if cli_arg {
        Some(ConfigSource::CommandLine)
    } else if !config_dir {
        Some(ConfigSource::NoConfigDir)
    } else {
        match in_config_dir {
            None => None,
            Some(true) => Some(ConfigSource::ConfigDir),
            Some(false) => match in_working_dir {
                None => None,
                Some(true) => Some(ConfigSource::WorkingDir),
                Some(false) => Some(ConfigSource::CreateDefault),
            },
        }
    }
}

} // verus!
