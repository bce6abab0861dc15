use vstd::prelude::*;

use crate::layout::rows::{auto_rows, auto_row_term};
use crate::tally::{
    sum_below, lemma_sum_below_mono, lemma_sum_below_ext, lemma_sum_below_two, lemma_sum_below_single,
};
use crate::strs::{decimal, push_decimal};

verus! {

/// Declares `toml::Value` so that a zone can carry its widget settings.
#[verifier::external_type_specification]
#[verifier::external_body]
pub struct ExTomlValue(toml::Value);

/// How zones are placed on screen.
#[derive(Debug, Clone, Copy, PartialEq, Eq, Structural)]
pub enum LayoutMode {
    Absolute,
    Rows,
}

impl Default for LayoutMode {
    fn default() -> (r: Self)
        ensures
            r == LayoutMode::Absolute,
    {
        LayoutMode::Absolute
    }
}

/// One zone of the dashboard as written in the configuration file.
pub struct ZoneConfig {
    pub id: String,
    pub widget: String,
    pub x: u16,
    pub y: u16,
    pub width: u16,
    pub height: u16,
    pub row: Option<u16>,
    pub col: Option<u16>,
    pub min_width: Option<u16>,
    pub min_height: Option<u16>,
    pub config: Option<toml::Value>,
}

/// A theme given by name.
pub enum ThemeConfig {
    Preset(String),
    Custom(CustomTheme),
}

/// A theme given colour by colour, each as `#rrggbb`; missing ones keep the default.
pub struct CustomTheme {
    pub fg: Option<String>,
    pub bg: Option<String>,
    pub accent: Option<String>,
    pub dim: Option<String>,
    pub border: Option<String>,
}

/// The whole configuration file.
pub struct AppConfig {
    pub layout: LayoutMode,
    pub theme: Option<ThemeConfig>,
    pub icons: Option<bool>,
    pub zones: Vec<ZoneConfig>,
}

/// Why a configuration is refused.
pub enum ConfigError {
    /// A zone of absolute mode has zero width or height.
    ZeroSize { zone: String },
    /// A zone of absolute mode reaches past 100% (its right and bottom edges).
    OutOfBounds { zone: String, right: u16, bottom: u16 },
    /// The columns of a row of rows mode are wider than 100% together.
    RowTooWide { row: u16, total: u16 },
}

/// A `ConfigError` with the zone id taken by its characters.
pub enum ConfigErrorView {
    ZeroSize { zone: Seq<char> },
    OutOfBounds { zone: Seq<char>, right: int, bottom: int },
    RowTooWide { row: int, total: int },
}

impl View for ConfigError {
    type V = ConfigErrorView;

    open spec fn view(&self) -> ConfigErrorView {
        match self {
            ConfigError::ZeroSize { zone } => ConfigErrorView::ZeroSize { zone: zone@ },
            ConfigError::OutOfBounds { zone, right, bottom } => ConfigErrorView::OutOfBounds {
                zone: zone@,
                right: *right as int,
                bottom: *bottom as int,
            },
            ConfigError::RowTooWide { row, total } => ConfigErrorView::RowTooWide {
                row: *row as int,
                total: *total as int,
            },
        }
    }
}

// ---------------------------------------------------------------------------
// Absolute mode: every zone has a size and stays within 100%.
// ---------------------------------------------------------------------------

pub open spec fn abs_zone_ok(z: ZoneConfig) -> bool {
    &&& z.width > 0
    &&& z.height > 0
    &&& z.x + z.width <= 100
    &&& z.y + z.height <= 100
}

/// The first `k` zones are all acceptable in absolute mode.
pub open spec fn abs_ok_below(zs: Seq<ZoneConfig>, k: int) -> bool {
    forall|j: int| 0 <= j < k ==> #[trigger] abs_zone_ok(zs[j])
}

/// What absolute mode says of an unacceptable zone.
pub open spec fn abs_error(z: ZoneConfig) -> ConfigErrorView {
    if z.width == 0 || z.height == 0 {
        ConfigErrorView::ZeroSize { zone: z.id@ }
    } else {
        ConfigErrorView::OutOfBounds {
            zone: z.id@,
            right: z.x + z.width,
            bottom: z.y + z.height,
        }
    }
}

/// The edges of every zone that the check reaches with a size fit in 16 bits.
pub open spec fn abs_sums_fit(zs: Seq<ZoneConfig>) -> bool {
    forall|k: int|
        0 <= k < zs.len() && #[trigger] abs_ok_below(zs, k) && zs[k].width > 0 && zs[k].height > 0 ==> {
            &&& zs[k].x + zs[k].width <= 0xFFFF
            &&& zs[k].y + zs[k].height <= 0xFFFF
        }
}

// ---------------------------------------------------------------------------
// Rows mode: the columns of a row fit in 100%.
// ---------------------------------------------------------------------------

/// The row a zone is checked in: the row it names, or else its rank among the
/// zones that name none (1, 2, ...).
pub open spec fn check_row(zs: Seq<ZoneConfig>, i: int) -> int {
    match zs[i].row {
        Some(r) => r as int,
        None => auto_rows(zs, i + 1),
    }
}

pub open spec fn group_width_term(zs: Seq<ZoneConfig>, row: int) -> spec_fn(int) -> int {
    |j: int| if check_row(zs, j) == row { zs[j].width as int } else { 0int }
}

pub open spec fn group_size_term(zs: Seq<ZoneConfig>, row: int) -> spec_fn(int) -> int {
    |j: int| if check_row(zs, j) == row { 1int } else { 0int }
}

/// The widths of the zones checked in `row`, added up.
pub open spec fn group_width(zs: Seq<ZoneConfig>, row: int) -> int {
    sum_below(zs.len() as int, group_width_term(zs, row))
}

/// How many zones are checked in `row`.
pub open spec fn group_size(zs: Seq<ZoneConfig>, row: int) -> int {
    sum_below(zs.len() as int, group_size_term(zs, row))
}

/// Zone `i` shares its row with another zone and the row is wider than 100%.
pub open spec fn too_wide(zs: Seq<ZoneConfig>, i: int) -> bool {
    group_size(zs, check_row(zs, i)) > 1 && group_width(zs, check_row(zs, i)) > 100
}

/// The row counter and the width of every row with more than one zone fit in 16 bits.
pub open spec fn rows_sums_fit(zs: Seq<ZoneConfig>) -> bool {
    &&& auto_rows(zs, zs.len() as int) <= 0xFFFF
    &&& forall|i: int|
        0 <= i < zs.len() && group_size(zs, #[trigger] check_row(zs, i)) > 1 ==> group_width(zs, check_row(zs, i))
            <= 0xFFFF
}

impl AppConfig {
    /// The arithmetic of `validate` stays within 16 bits.
    pub open spec fn sums_fit_spec(&self) -> bool {
        if self.layout == LayoutMode::Absolute {
            abs_sums_fit(self.zones@)
        } else {
            rows_sums_fit(self.zones@)
        }
    }

    /// Whether icons are shown (the default is yes).
    pub fn use_icons(&self) -> (r: bool)
        ensures
            r == match self.icons {
                Some(b) => b,
                None => true,
            },
    {
        match self.icons {
            Some(b) => b,
            None => true,
        }
    }
}

fn check_rows(zones: &Vec<ZoneConfig>) -> (rows: Vec<u16>)
    requires
        auto_rows(zones@, zones@.len() as int) <= 0xFFFF,
    ensures
        rows@.len() == zones@.len(),
        forall|i: int| 0 <= i < zones@.len() ==> rows@[i] as int == check_row(zones@, i),
{
    let ghost zs = zones@;
    let n = zones.len();
    let mut rows: Vec<u16> = Vec::new();
    let mut auto_row: u16 = 0;
    for i in 0..n
        invariant
            n == zs.len(),
            zs == zones@,
            auto_rows(zs, n as int) <= 0xFFFF,
            auto_row as int == auto_rows(zs, i as int),
            rows@.len() == i,
            forall|j: int| 0 <= j < i ==> rows@[j] as int == check_row(zs, j),
    {
        proof {
            lemma_sum_below_mono(i + 1, n as int, auto_row_term(zs));
        }
        match zones[i].row {
            Some(r) => rows.push(r),
            None => {
                auto_row = auto_row + 1;
                rows.push(auto_row);
            },
        }
    }
    rows
}

/// How many zones are checked in `row`.
fn count_in_row(rows: &Vec<u16>, row: u16, Ghost(zs): Ghost<Seq<ZoneConfig>>) -> (c: usize)
    requires
        rows@.len() == zs.len(),
        forall|i: int| 0 <= i < zs.len() ==> rows@[i] as int == check_row(zs, i),
    ensures
        c as int == group_size(zs, row as int),
{
    let n = rows.len();
    let mut c: usize = 0;
    for j in 0..n
        invariant
            n == zs.len(),
            rows@.len() == n,
            forall|i: int| 0 <= i < n ==> rows@[i] as int == check_row(zs, i),
            c <= j,
            c as int == sum_below(j as int, group_size_term(zs, row as int)),
    {
        if rows[j] == row {
            c = c + 1;
        }
    }
    c
}

impl AppConfig {
    /// Checks the zones: in absolute mode each must have a size and stay
    /// within 100% of the terminal; in rows mode the columns of a row that
    /// holds more than one zone must fit in 100% together. The first
    /// offending zone, in the order of the zones, is reported.
    pub fn validate(&self) -> (r: Result<(), ConfigError>)
        requires
            self.sums_fit_spec(),
        ensures
            self.layout == LayoutMode::Absolute ==> {
                &&& r is Ok <==> abs_ok_below(self.zones@, self.zones@.len() as int)
                &&& r matches Err(e) ==> exists|k: int|
                    0 <= k < self.zones@.len() && #[trigger] abs_ok_below(self.zones@, k) && !abs_zone_ok(self.zones@[k])
                        && e@ == abs_error(self.zones@[k])
            },
            self.layout == LayoutMode::Rows ==> {
                &&& r is Ok <==> forall|i: int| 0 <= i < self.zones@.len() ==> !#[trigger] too_wide(self.zones@, i)
                &&& r matches Err(e) ==> exists|i: int|
                    0 <= i < self.zones@.len() && #[trigger] too_wide(self.zones@, i) && (forall|j: int|
                        0 <= j < i ==> !#[trigger] too_wide(self.zones@, j)) && e@ == (ConfigErrorView::RowTooWide {
                        row: check_row(self.zones@, i),
                        total: group_width(self.zones@, check_row(self.zones@, i)),
                    })
            },
    {
        let ghost zs = self.zones@;
        let n = self.zones.len();
        if self.layout == LayoutMode::Absolute {
            for k in 0..n
                invariant
                    n == zs.len(),
                    zs == self.zones@,
                    self.layout == LayoutMode::Absolute,
                    abs_sums_fit(zs),
                    abs_ok_below(zs, k as int),
            {
                let zone = &self.zones[k];
                if zone.width == 0 || zone.height == 0 {
                    assert(!abs_zone_ok(zs[k as int]) && abs_ok_below(zs, k as int));
                    return Err(ConfigError::ZeroSize { zone: zone.id.clone() });
                }
                assert(abs_ok_below(zs, k as int));
                let right = zone.x + zone.width;
                let bottom = zone.y + zone.height;
                if !(right <= 100 && bottom <= 100) {
                    assert(!abs_zone_ok(zs[k as int]) && abs_ok_below(zs, k as int));
                    return Err(ConfigError::OutOfBounds { zone: zone.id.clone(), right, bottom });
                }
                assert(abs_ok_below(zs, k + 1));
            }
            Ok(())
        } else {
            let rows = check_rows(&self.zones);
            for i in 0..n
                invariant
                    n == zs.len(),
                    zs == self.zones@,
                    self.layout == LayoutMode::Rows,
                    rows_sums_fit(zs),
                    rows@.len() == n,
                    forall|k: int| 0 <= k < n ==> rows@[k] as int == check_row(zs, k),
                    forall|j: int| 0 <= j < i ==> !#[trigger] too_wide(zs, j),
            {
                let row = rows[i];
                let size = count_in_row(&rows, row, Ghost(zs));
                if size > 1 {
                    let ghost f = group_width_term(zs, row as int);
                    assert(group_width(zs, check_row(zs, i as int)) <= 0xFFFF);
                    let mut total: u16 = 0;
                    for j in 0..n
                        invariant
                            n == zs.len(),
                            zs == self.zones@,
                            rows@.len() == n,
                            forall|k: int| 0 <= k < n ==> rows@[k] as int == check_row(zs, k),
                            f == group_width_term(zs, row as int),
                            sum_below(n as int, f) <= 0xFFFF,
                            total as int == sum_below(j as int, f),
                    {
                        proof {
                            lemma_sum_below_mono(j + 1, n as int, f);
                        }
                        if rows[j] == row {
                            total = total + self.zones[j].width;
                        }
                    }
                    if total > 100 {
                        assert(too_wide(zs, i as int));
                        return Err(ConfigError::RowTooWide { row, total });
                    }
                }
                assert(!too_wide(zs, i as int));
            }
            Ok(())
        }
    }
}

impl AppConfig {
    /// Whether `validate` can run on this configuration without its 16-bit
    /// arithmetic overflowing.
    pub fn sums_fit(&self) -> (b: bool)
        ensures
            b == self.sums_fit_spec(),
    {
        let ghost zs = self.zones@;
        let n = self.zones.len();
        if self.layout == LayoutMode::Absolute {
            for k in 0..n
                invariant
                    n == zs.len(),
                    zs == self.zones@,
                    self.layout == LayoutMode::Absolute,
                    abs_ok_below(zs, k as int),
                    forall|j: int|
                        0 <= j < k && #[trigger] abs_ok_below(zs, j) && zs[j].width > 0 && zs[j].height > 0 ==> {
                            &&& zs[j].x + zs[j].width <= 0xFFFF
                            &&& zs[j].y + zs[j].height <= 0xFFFF
                        },
            {
                let zone = &self.zones[k];
                if zone.width > 0 && zone.height > 0 {
                    if zone.x as u32 + zone.width as u32 > 0xFFFF || zone.y as u32 + zone.height as u32 > 0xFFFF {
                        assert(abs_ok_below(zs, k as int));
                        return false;
                    }
                }
                if !(zone.width > 0 && zone.height > 0 && zone.x + zone.width <= 100 && zone.y + zone.height <= 100) {
                    assert forall|j: int|
                        0 <= j < zs.len() && #[trigger] abs_ok_below(zs, j) && zs[j].width > 0 && zs[j].height
                            > 0 implies zs[j].x + zs[j].width <= 0xFFFF && zs[j].y + zs[j].height <= 0xFFFF by {
                        if j > k {
                            assert(!abs_zone_ok(zs[k as int]));
                        }
                    }
                    return true;
                }
                assert(abs_ok_below(zs, k + 1));
            }
            true
        } else {
            let mut auto: usize = 0;
            for i in 0..n
                invariant
                    n == zs.len(),
                    zs == self.zones@,
                    auto <= i,
                    auto as int == auto_rows(zs, i as int),
            {
                if self.zones[i].row.is_none() {
                    auto = auto + 1;
                }
            }
            if auto > 0xFFFF {
                return false;
            }
            let rows = check_rows(&self.zones);
            for i in 0..n
                invariant
                    n == zs.len(),
                    zs == self.zones@,
                    self.layout != LayoutMode::Absolute,
                    auto_rows(zs, n as int) <= 0xFFFF,
                    rows@.len() == n,
                    forall|k: int| 0 <= k < n ==> rows@[k] as int == check_row(zs, k),
                    forall|k: int|
                        0 <= k < i && group_size(zs, #[trigger] check_row(zs, k)) > 1 ==> group_width(
                            zs,
                            check_row(zs, k),
                        ) <= 0xFFFF,
            {
                let row = rows[i];
                let size = count_in_row(&rows, row, Ghost(zs));
                if size > 1 {
                    let ghost f = group_width_term(zs, row as int);
                    let mut total: u32 = 0;
                    for j in 0..n
                        invariant
                            n == zs.len(),
                            zs == self.zones@,
                            rows@.len() == n,
                            forall|k: int| 0 <= k < n ==> rows@[k] as int == check_row(zs, k),
                            f == group_width_term(zs, row as int),
                            self.layout != LayoutMode::Absolute,
                            i < n,
                            row as int == check_row(zs, i as int),
                            size as int == group_size(zs, row as int),
                            size > 1,
                            total <= 0xFFFF,
                            total as int == sum_below(j as int, f),
                    {
                        if rows[j] == row {
                            total = total + self.zones[j].width as u32;
                            if total > 0xFFFF {
                                proof {
                                    lemma_sum_below_mono(j + 1, n as int, f);
                                }
                                assert(group_size(zs, check_row(zs, i as int)) > 1);
                                return false;
                            }
                        }
                    }
                }
            }
            true
        }
    }
}

/// The text that reports a refused configuration.
pub open spec fn error_message(e: ConfigErrorView) -> Seq<char> {
    match e {
        ConfigErrorView::ZeroSize { zone } => "Zone '"@ + zone + "' has zero width or height"@,
        ConfigErrorView::OutOfBounds { zone, right, bottom } => "Zone '"@ + zone + "' exceeds 100% bounds (x+w="@
            + decimal(right as nat) + ", y+h="@ + decimal(bottom as nat) + ")"@,
        ConfigErrorView::RowTooWide { row, total } => "Row "@ + decimal(row as nat) + " column widths sum to "@
            + decimal(total as nat) + "%, must be <= 100%"@,
    }
}

impl ConfigError {
    /// The text that reports the error.
    pub fn message(&self) -> (r: String)
        ensures
            r@ == error_message(self@),
    {
        match self {
            ConfigError::ZeroSize { zone } => {
                let mut s = String::from_str("Zone '");
                s.append(zone.as_str());
                s.append("' has zero width or height");
                s
            },
            ConfigError::OutOfBounds { zone, right, bottom } => {
                let mut s = String::from_str("Zone '");
                s.append(zone.as_str());
                s.append("' exceeds 100% bounds (x+w=");
                push_decimal(&mut s, *right as u64);
                s.append(", y+h=");
                push_decimal(&mut s, *bottom as u64);
                s.append(")");
                s
            },
            ConfigError::RowTooWide { row, total } => {
                let mut s = String::from_str("Row ");
                push_decimal(&mut s, *row as u64);
                s.append(" column widths sum to ");
                push_decimal(&mut s, *total as u64);
                s.append("%, must be <= 100%");
                s
            },
        }
    }
}

/// In absolute mode the zones are accepted exactly when each has a width and
/// a height and reaches no further than 100% across (x + width) and down
/// (y + height).
pub proof fn law_absolute_zones_accepted(zs: Seq<ZoneConfig>)
    ensures
        abs_ok_below(zs, zs.len() as int) <==> forall|j: int|
            0 <= j < zs.len() ==> zs[j].width > 0 && zs[j].height > 0 && zs[j].x + zs[j].width <= 100 && zs[j].y
                + zs[j].height <= 100,
{
    if abs_ok_below(zs, zs.len() as int) {
        assert forall|j: int| 0 <= j < zs.len() implies zs[j].width > 0 && zs[j].height > 0 && zs[j].x
            + zs[j].width <= 100 && zs[j].y + zs[j].height <= 100 by {
            assert(abs_zone_ok(zs[j]));
        }
    }
}

/// A zone refused in absolute mode is reported for the rule it breaks: a
/// missing width or height, or else how far it reaches across (x + width)
/// and down (y + height), one of which is past 100%.
pub proof fn law_absolute_error_names_the_fault(z: ZoneConfig)
    requires
        !abs_zone_ok(z),
    ensures
        match abs_error(z) {
            ConfigErrorView::ZeroSize { zone } => zone == z.id@ && (z.width == 0 || z.height == 0),
            ConfigErrorView::OutOfBounds { zone, right, bottom } => {
                &&& zone == z.id@
                &&& z.width > 0 && z.height > 0
                &&& right == z.x + z.width
                &&& bottom == z.y + z.height
                &&& (right > 100 || bottom > 100)
            },
            ConfigErrorView::RowTooWide { .. } => false,
        },
{
}

/// Whether zone `i` of a rows-mode configuration is refused, read from the
/// zones directly (every zone naming its row).
proof fn lemma_too_wide_raw(zs: Seq<ZoneConfig>, i: int)
    requires
        0 <= i < zs.len(),
        forall|j: int| 0 <= j < zs.len() ==> #[trigger] zs[j].row is Some,
    ensures
        too_wide(zs, i) <==> (exists|j: int| 0 <= j < zs.len() && j != i && #[trigger] zs[j].row == zs[i].row)
            && sum_below(zs.len() as int, |j: int| if zs[j].row == zs[i].row { zs[j].width as int } else { 0int })
            > 100,
{
    let n = zs.len() as int;
    let row = check_row(zs, i);
    let raw = |j: int| if zs[j].row == zs[i].row { zs[j].width as int } else { 0int };
    assert forall|j: int| 0 <= j < n implies (check_row(zs, j) == row <==> #[trigger] zs[j].row == zs[i].row) by {
        assert(zs[j].row is Some);
    }
    assert forall|j: int| 0 <= j < n implies #[trigger] group_width_term(zs, row)(j) == raw(j) by {
        assert(check_row(zs, j) == row <==> zs[j].row == zs[i].row);
    }
    lemma_sum_below_ext(n, group_width_term(zs, row), raw);
    let g = group_size_term(zs, row);
    if exists|j: int| 0 <= j < n && j != i && #[trigger] zs[j].row == zs[i].row {
        let j = choose|j: int| 0 <= j < n && j != i && #[trigger] zs[j].row == zs[i].row;
        assert(check_row(zs, j) == row);
        assert forall|k: int| 0 <= k < n implies #[trigger] g(k) >= 0 by {}
        lemma_sum_below_two(n, g, i, j);
    } else {
        assert forall|k: int| 0 <= k < n && k != i implies #[trigger] g(k) == 0 by {
            if check_row(zs, k) == row {
                assert(zs[k].row == zs[i].row);
            }
        }
        lemma_sum_below_single(n, g, i);
    }
}

/// In rows mode, when every zone names its row, the zones are accepted
/// exactly when every row holding more than one zone has widths that add up
/// to at most 100%; a zone alone in its row may be of any width.
pub proof fn law_rows_accepted(zs: Seq<ZoneConfig>)
    requires
        forall|j: int| 0 <= j < zs.len() ==> #[trigger] zs[j].row is Some,
    ensures
        (forall|i: int| 0 <= i < zs.len() ==> !#[trigger] too_wide(zs, i)) <==> (forall|i: int|
            #![trigger zs[i]]
            0 <= i < zs.len() ==> (forall|j: int| #![trigger zs[j]] 0 <= j < zs.len() && j != i ==> zs[j].row != zs[i].row) || sum_below(
                zs.len() as int,
                |j: int| if zs[j].row == zs[i].row { zs[j].width as int } else { 0int },
            ) <= 100),
{
    let n = zs.len() as int;
    let rule = |i: int|
        (forall|j: int| #![trigger zs[j]] 0 <= j < n && j != i ==> zs[j].row != zs[i].row) || sum_below(
            n,
            |j: int| if zs[j].row == zs[i].row { zs[j].width as int } else { 0int },
        ) <= 100;
    assert forall|i: int| 0 <= i < n implies (!#[trigger] too_wide(zs, i) <==> rule(i)) by {
        lemma_too_wide_raw(zs, i);
    }
    if forall|i: int| 0 <= i < n ==> !#[trigger] too_wide(zs, i) {
        assert forall|i: int| #![trigger zs[i]] 0 <= i < n implies rule(i) by {
            assert(!too_wide(zs, i));
        }
    }
    if forall|i: int| #![trigger zs[i]] 0 <= i < n ==> rule(i) {
        assert forall|i: int| 0 <= i < n implies !#[trigger] too_wide(zs, i) by {
            assert(rule(i));
        }
    }
}

} // verus!
