use vstd::prelude::*;

use crate::widget::{setting_or, text_setting_or};

verus! {

/// Today's date, written with a `chrono` format string.
pub struct DateWidget {
    pub format: String,
}

impl DateWidget {
    /// The date widget that a zone's settings describe (`format`, by default
    /// `%A, %B %d, %Y`).
    pub fn new(config: Option<&toml::Value>) -> (r: Self)
        ensures
            r.format@ == setting_or(config, "format"@, "%A, %B %d, %Y"@),
    {
        DateWidget { format: text_setting_or(config, "format", "%A, %B %d, %Y") }
    }
}

} // verus!
