use vstd::prelude::*;

use crate::config::ZoneConfig;
use crate::tally::{
    sum_below, max_below, any_below, lemma_sum_below_mono, lemma_max_below_bound, lemma_any_below_elim,
    lemma_any_below_intro, lemma_sum_below_ext, lemma_sum_below_single, lemma_max_below_of, lemma_max_below_zero,
};

pub mod rows;

verus! {

/// A rectangle of terminal cells.
#[derive(Debug, Clone, Copy, PartialEq, Eq, Structural)]
pub struct Rect {
    pub x: u16,
    pub y: u16,
    pub width: u16,
    pub height: u16,
}

/// Stores either absolute-percentage data or pre-computed character positions.
#[derive(Debug, Clone, Copy, PartialEq, Eq, Structural)]
pub enum ComputedRect {
    /// Percentage-based (absolute layout mode)
    Percent { pct_x: u16, pct_y: u16, pct_w: u16, pct_h: u16 },
    /// Horizontal position and width in percent, vertical position and height
    /// in terminal rows (rows layout mode, computed at layout time)
    Fixed { x: u16, y: u16, w: u16, h: u16 },
}

pub struct ZoneLayout {
    pub id: String,
    pub rect: ComputedRect,
    pub min_w: u16,
    pub min_h: u16,
    /// Row y-position for stacked zones (used by check_terminal_size to group columns)
    pub row_y: Option<u16>,
}

/// What a zone layout says, with its id taken by its characters.
pub struct ZoneLayoutView {
    pub id: Seq<char>,
    pub rect: ComputedRect,
    pub min_w: u16,
    pub min_h: u16,
    pub row_y: Option<u16>,
}

impl View for ZoneLayout {
    type V = ZoneLayoutView;

    open spec fn view(&self) -> ZoneLayoutView {
        ZoneLayoutView {
            id: self.id@,
            rect: self.rect,
            min_w: self.min_w,
            min_h: self.min_h,
            row_y: self.row_y,
        }
    }
}

/// `p` percent of `total` cells, rounded down, kept to 16 bits as a cast does.
pub open spec fn percent_of(p: u16, total: u16) -> u16 {
    ((p as int * total as int / 100) % 0x10000) as u16
}

/// `a - b`, or zero when `b` exceeds `a`.
pub open spec fn sat_sub(a: int, b: int) -> int {
    if a >= b { a - b } else { 0 }
}

pub open spec fn min(a: int, b: int) -> int {
    if a <= b { a } else { b }
}

pub open spec fn max(a: int, b: int) -> int {
    if a >= b { a } else { b }
}

/// The terminal rectangle of a computed zone: percentages are taken of the
/// terminal size, then width and height are cut back so that the rectangle
/// does not reach past the right or bottom edge.
pub open spec fn spec_to_rect(rect: ComputedRect, tw: u16, th: u16) -> Rect {
    let (x, y, w, h) = match rect {
        ComputedRect::Percent { pct_x, pct_y, pct_w, pct_h } => (
            percent_of(pct_x, tw),
            percent_of(pct_y, th),
            percent_of(pct_w, tw),
            percent_of(pct_h, th),
        ),
        ComputedRect::Fixed { x, y, w, h } => (percent_of(x, tw), y, percent_of(w, tw), h),
    };
    Rect {
        x,
        y,
        width: min(w as int, sat_sub(tw as int, x as int)) as u16,
        height: min(h as int, sat_sub(th as int, y as int)) as u16,
    }
}

fn scale_percent(p: u16, total: u16) -> (r: u16)
    ensures
        r == percent_of(p, total),
{
    assert(p as int * total as int <= 0xFFFF * 0xFFFF) by (nonlinear_arith)
        requires
            p <= 0xFFFF,
            total <= 0xFFFF,
    ;
    let v: u32 = p as u32 * total as u32 / 100;
    assert((v as u16) == v % 0x10000) by (bit_vector);
    #[verifier::truncate]
    (v as u16)
}

impl ZoneLayout {
    /// Places the zone on a terminal of the given size.
    pub fn to_rect(&self, terminal_width: u16, terminal_height: u16) -> (r: Rect)
        ensures
            r == spec_to_rect(self.rect, terminal_width, terminal_height),
            r.x <= terminal_width ==> r.x + r.width <= terminal_width,
            r.y <= terminal_height ==> r.y + r.height <= terminal_height,
    {
        let (x, y, w, h) = match self.rect {
            ComputedRect::Percent { pct_x, pct_y, pct_w, pct_h } => (
                scale_percent(pct_x, terminal_width),
                scale_percent(pct_y, terminal_height),
                scale_percent(pct_w, terminal_width),
                scale_percent(pct_h, terminal_height),
            ),
            ComputedRect::Fixed { x: fx, y: fy, w: fw, h: fh } => (
                scale_percent(fx, terminal_width),
                fy,
                scale_percent(fw, terminal_width),
                fh,
            ),
        };
        let room_w = terminal_width.saturating_sub(x);
        let room_h = terminal_height.saturating_sub(y);
        let w = if w < room_w { w } else { room_w };
        let h = if h < room_h { h } else { room_h };
        Rect { x, y, width: w, height: h }
    }
}

/// The layout of a zone placed by percentages (absolute mode).
pub open spec fn absolute_zone_layout(zone: ZoneConfig, min_size: (u16, u16)) -> ZoneLayoutView {
    ZoneLayoutView {
        id: zone.id@,
        rect: ComputedRect::Percent { pct_x: zone.x, pct_y: zone.y, pct_w: zone.width, pct_h: zone.height },
        min_w: match zone.min_width {
            Some(v) => v,
            None => min_size.0,
        },
        min_h: match zone.min_height {
            Some(v) => v,
            None => min_size.1,
        },
        row_y: None,
    }
}

impl ZoneLayout {
    /// The layout of one zone in absolute mode; `min_size` is the minimum
    /// (width, height) of its widget, used where the zone sets none.
    pub fn from_config(zone: &ZoneConfig, min_size: (u16, u16)) -> (r: ZoneLayout)
        ensures
            r@ == absolute_zone_layout(*zone, min_size),
    {
        ZoneLayout {
            id: zone.id.clone(),
            rect: ComputedRect::Percent { pct_x: zone.x, pct_y: zone.y, pct_w: zone.width, pct_h: zone.height },
            min_w: match zone.min_width {
                Some(v) => v,
                None => min_size.0,
            },
            min_h: match zone.min_height {
                Some(v) => v,
                None => min_size.1,
            },
            row_y: None,
        }
    }
}

/// Build layouts for absolute positioning mode: zone `i` with the minimum
/// size `min_sizes[i]` of its widget, for as many zones as have a size.
pub fn build_absolute(zones: &[ZoneConfig], min_sizes: &[(u16, u16)]) -> (r: Vec<ZoneLayout>)
    ensures
        r@.len() == min(zones@.len() as int, min_sizes@.len() as int),
        forall|i: int| 0 <= i < r@.len() ==> (#[trigger] r@[i])@ == absolute_zone_layout(zones@[i], min_sizes@[i]),
{
    let n = if zones.len() < min_sizes.len() { zones.len() } else { min_sizes.len() };
    let mut out: Vec<ZoneLayout> = Vec::new();
    for i in 0..n
        invariant
            n == min(zones@.len() as int, min_sizes@.len() as int),
            out@.len() == i,
            forall|j: int| 0 <= j < i ==> (#[trigger] out@[j])@ == absolute_zone_layout(zones@[j], min_sizes@[j]),
    {
        out.push(ZoneLayout::from_config(&zones[i], min_sizes[i]));
    }
    out
}

// ---------------------------------------------------------------------------
// The terminal size that a set of zones needs.
// ---------------------------------------------------------------------------

/// The terminal extent at which `min` cells are `pct` percent of it, rounded
/// down and kept to 16 bits as a cast does; nothing is needed for a zero percentage.
pub open spec fn pct_need(min: u16, pct: u16) -> int {
    if pct > 0 {
        (min as int * 100 / pct as int) % 0x10000
    } else {
        0
    }
}

pub open spec fn need_w_term(zs: Seq<&ZoneLayout>) -> spec_fn(int) -> int {
    |j: int|
        match zs[j].rect {
            ComputedRect::Percent { pct_w, .. } => pct_need(zs[j].min_w, pct_w),
            _ => 0int,
        }
}

pub open spec fn need_h_term(zs: Seq<&ZoneLayout>) -> spec_fn(int) -> int {
    |j: int|
        match zs[j].rect {
            ComputedRect::Percent { pct_h, .. } => pct_need(zs[j].min_h, pct_h),
            _ => 0int,
        }
}

pub open spec fn is_fixed(r: ComputedRect) -> bool {
    r is Fixed
}

/// The row of a fixed zone: its recorded row top, or else its own top.
pub open spec fn fixed_row(z: &ZoneLayout) -> int {
    match z.row_y {
        Some(ry) => ry as int,
        None => match z.rect {
            ComputedRect::Fixed { y, .. } => y as int,
            _ => 0,
        },
    }
}

/// The left edge of a fixed zone.
pub open spec fn fixed_x(z: &ZoneLayout) -> int {
    match z.rect {
        ComputedRect::Fixed { x, .. } => x as int,
        _ => 0,
    }
}

/// Zone `j` is fixed and lies in the column at left edge `x` of row `ry`.
pub open spec fn in_fixed_col(zs: Seq<&ZoneLayout>, ry: int, x: int, j: int) -> bool {
    is_fixed(zs[j].rect) && fixed_row(zs[j]) == ry && fixed_x(zs[j]) == x
}

pub open spec fn fixed_col_pred(zs: Seq<&ZoneLayout>, ry: int, x: int) -> spec_fn(int) -> bool {
    |j: int| in_fixed_col(zs, ry, x, j)
}

/// Zone `j` is the first fixed zone of its column.
pub open spec fn is_fixed_col_head(zs: Seq<&ZoneLayout>, j: int) -> bool {
    is_fixed(zs[j].rect) && !any_below(j, fixed_col_pred(zs, fixed_row(zs[j]), fixed_x(zs[j])))
}

pub open spec fn col_min_term(zs: Seq<&ZoneLayout>, ry: int, x: int) -> spec_fn(int) -> int {
    |j: int| if in_fixed_col(zs, ry, x, j) { zs[j].min_w as int } else { 0int }
}

/// The widest minimum width among the zones stacked in one column.
pub open spec fn col_min(zs: Seq<&ZoneLayout>, ry: int, x: int) -> int {
    max_below(zs.len() as int, col_min_term(zs, ry, x))
}

pub open spec fn row_min_term(zs: Seq<&ZoneLayout>, ry: int) -> spec_fn(int) -> int {
    |j: int|
        if is_fixed_col_head(zs, j) && fixed_row(zs[j]) == ry {
            col_min(zs, ry, fixed_x(zs[j]))
        } else {
            0int
        }
}

/// The minimum widths of the columns of one row, added up.
pub open spec fn row_min(zs: Seq<&ZoneLayout>, ry: int) -> int {
    sum_below(zs.len() as int, row_min_term(zs, ry))
}

pub open spec fn rows_need_term(zs: Seq<&ZoneLayout>) -> spec_fn(int) -> int {
    |j: int| if is_fixed(zs[j].rect) { row_min(zs, fixed_row(zs[j])) } else { 0int }
}

pub open spec fn bottom_term(zs: Seq<&ZoneLayout>) -> spec_fn(int) -> int {
    |j: int|
        match zs[j].rect {
            ComputedRect::Fixed { y, h, .. } => y as int + h as int,
            _ => 0int,
        }
}

/// The width the zones need: enough for every percentage zone to reach its
/// minimum, and for the widest row of fixed zones.
pub open spec fn required_w(zs: Seq<&ZoneLayout>) -> int {
    max(max_below(zs.len() as int, need_w_term(zs)), max_below(zs.len() as int, rows_need_term(zs)))
}

/// The height the zones need: enough for every percentage zone to reach its
/// minimum, and down to the bottom edge of the lowest fixed zone.
pub open spec fn required_h(zs: Seq<&ZoneLayout>) -> int {
    max(max_below(zs.len() as int, need_h_term(zs)), max_below(zs.len() as int, bottom_term(zs)))
}

/// The inputs on which the size check stays within 16-bit arithmetic: the
/// bottom edge of every fixed zone and the widths of every row of fixed zones.
pub open spec fn size_check_fits(zs: Seq<&ZoneLayout>) -> bool {
    &&& forall|j: int| 0 <= j < zs.len() ==> #[trigger] bottom_term(zs)(j) <= 0xFFFF
    &&& forall|j: int| 0 <= j < zs.len() ==> #[trigger] rows_need_term(zs)(j) <= 0xFFFF
}

fn fixed_key(z: &ZoneLayout) -> (r: (u16, u16))
    ensures
        r.0 as int == fixed_row(z),
        r.1 as int == fixed_x(z),
{
    let x = match z.rect {
        ComputedRect::Fixed { x, .. } => x,
        _ => 0,
    };
    let ry = match z.row_y {
        Some(ry) => ry,
        None => match z.rect {
            ComputedRect::Fixed { y, .. } => y,
            _ => 0,
        },
    };
    (ry, x)
}

fn scaled_need(min: u16, pct: u16) -> (r: u16)
    ensures
        r as int == pct_need(min, pct),
{
    if pct > 0 {
        let v: u32 = min as u32 * 100 / pct as u32;
        assert((v as u16) == v % 0x10000) by (bit_vector);
        #[verifier::truncate]
        (v as u16)
    } else {
        0
    }
}

/// The largest width and height that percentage zones need.
fn percent_needs(zones: &[&ZoneLayout]) -> (r: (u16, u16))
    ensures
        r.0 as int == max_below(zones@.len() as int, need_w_term(zones@)),
        r.1 as int == max_below(zones@.len() as int, need_h_term(zones@)),
{
    let n = zones.len();
    let mut w: u16 = 0;
    let mut h: u16 = 0;
    for j in 0..n
        invariant
            n == zones@.len(),
            w as int == max_below(j as int, need_w_term(zones@)),
            h as int == max_below(j as int, need_h_term(zones@)),
    {
        match zones[j].rect {
            ComputedRect::Percent { pct_w, pct_h, .. } => {
                let nw = scaled_need(zones[j].min_w, pct_w);
                let nh = scaled_need(zones[j].min_h, pct_h);
                if nw > w {
                    w = nw;
                }
                if nh > h {
                    h = nh;
                }
            },
            _ => {},
        }
    }
    (w, h)
}

/// The widest row of fixed zones, where stacked zones share one column.
fn fixed_rows_need(zones: &[&ZoneLayout]) -> (r: u16)
    requires
        size_check_fits(zones@),
    ensures
        r as int == max_below(zones@.len() as int, rows_need_term(zones@)),
{
    let ghost zs = zones@;
    let n = zones.len();
    let (heads, mins) = fixed_columns(zones);
    let mut best: u16 = 0;
    for j in 0..n
        invariant
            n == zs.len(),
            zs == zones@,
            size_check_fits(zs),
            heads@.len() == n,
            mins@.len() == n,
            forall|k: int| 0 <= k < n ==> heads@[k] == is_fixed_col_head(zs, k),
            forall|k: int|
                0 <= k < n ==> is_fixed(zs[k].rect) ==> mins@[k] as int == col_min(zs, fixed_row(zs[k]), fixed_x(zs[k])),
            best as int == max_below(j as int, rows_need_term(zs)),
    {
        if matches!(zones[j].rect, ComputedRect::Fixed { .. }) {
            let ry = fixed_key(zones[j]).0;
            let ghost f = row_min_term(zs, ry as int);
            proof {
                assert(rows_need_term(zs)(j as int) <= 0xFFFF);
                assert forall|k: int| 0 <= k < n implies #[trigger] f(k) >= 0 by {
                    lemma_max_below_bound(n as int, col_min_term(zs, ry as int, fixed_x(zs[k])));
                }
            }
            let mut acc: u16 = 0;
            for k in 0..n
                invariant
                    j < n,
                    n == zs.len(),
                    zs == zones@,
                    heads@.len() == n,
                    mins@.len() == n,
                    forall|m: int| 0 <= m < n ==> heads@[m] == is_fixed_col_head(zs, m),
                    forall|m: int|
                        0 <= m < n ==> is_fixed(zs[m].rect) ==> mins@[m] as int == col_min(
                            zs,
                            fixed_row(zs[m]),
                            fixed_x(zs[m]),
                        ),
                    f == row_min_term(zs, ry as int),
                    forall|m: int| 0 <= m < n ==> #[trigger] f(m) >= 0,
                    sum_below(n as int, f) <= 0xFFFF,
                    acc as int == sum_below(k as int, f),
            {
                proof {
                    lemma_sum_below_mono(k + 1, n as int, f);
                }
                if heads[k] && fixed_key(zones[k]).0 == ry {
                    acc = acc + mins[k];
                }
            }
            if acc > best {
                best = acc;
            }
        }
    }
    best
}

/// The lowest bottom edge among the fixed zones.
fn fixed_bottom(zones: &[&ZoneLayout]) -> (r: u16)
    requires
        size_check_fits(zones@),
    ensures
        r as int == max_below(zones@.len() as int, bottom_term(zones@)),
{
    let n = zones.len();
    let mut best: u16 = 0;
    for j in 0..n
        invariant
            n == zones@.len(),
            size_check_fits(zones@),
            best as int == max_below(j as int, bottom_term(zones@)),
    {
        match zones[j].rect {
            ComputedRect::Fixed { y, h, .. } => {
                assert(bottom_term(zones@)(j as int) <= 0xFFFF);
                if y + h > best {
                    best = y + h;
                }
            },
            _ => {},
        }
    }
    best
}

/// Checks whether a terminal of the given size is large enough for the
/// zones; when it is not, returns the size they require.
pub fn check_terminal_size(zones: &[&ZoneLayout], terminal_width: u16, terminal_height: u16) -> (r: Option<(u16, u16)>)
    requires
        size_check_fits(zones@),
    ensures
        0 <= required_w(zones@) <= 0xFFFF,
        0 <= required_h(zones@) <= 0xFFFF,
        r == size_check_result(zones@, terminal_width, terminal_height),
{
    let (pw, ph) = percent_needs(zones);
    let rw = fixed_rows_need(zones);
    let bottom = fixed_bottom(zones);
    let required_w = if rw > pw { rw } else { pw };
    let required_h = if bottom > ph { bottom } else { ph };
    if terminal_width < required_w || terminal_height < required_h {
        Some((required_w, required_h))
    } else {
        None
    }
}

/// For each zone, whether it heads its column of fixed zones, and the widest
/// minimum width in that column.
fn fixed_columns(zones: &[&ZoneLayout]) -> (r: (Vec<bool>, Vec<u16>))
    ensures
        r.0@.len() == zones@.len(),
        r.1@.len() == zones@.len(),
        forall|k: int| 0 <= k < zones@.len() ==> r.0@[k] == is_fixed_col_head(zones@, k),
        forall|k: int|
            0 <= k < zones@.len() ==> is_fixed(zones@[k].rect) ==> r.1@[k] as int == col_min(
                zones@,
                fixed_row(zones@[k]),
                fixed_x(zones@[k]),
            ),
{
    let ghost zs = zones@;
    let n = zones.len();
    let mut heads: Vec<bool> = Vec::new();
    let mut mins: Vec<u16> = Vec::new();
    for j in 0..n
        invariant
            n == zs.len(),
            zs == zones@,
            heads@.len() == j,
            mins@.len() == j,
            forall|k: int| 0 <= k < j ==> heads@[k] == is_fixed_col_head(zs, k),
            forall|k: int|
                0 <= k < j ==> is_fixed(zs[k].rect) ==> mins@[k] as int == col_min(zs, fixed_row(zs[k]), fixed_x(zs[k])),
    {
        let key = fixed_key(zones[j]);
        let fixed = matches!(zones[j].rect, ComputedRect::Fixed { .. });
        let mut seen = false;
        let mut widest: u16 = 0;
        for k in 0..n
            invariant
                j < n,
                n == zs.len(),
                zs == zones@,
                key.0 as int == fixed_row(zs[j as int]),
                key.1 as int == fixed_x(zs[j as int]),
                k <= j ==> seen == any_below(k as int, fixed_col_pred(zs, key.0 as int, key.1 as int)),
                k > j ==> seen == any_below(j as int, fixed_col_pred(zs, key.0 as int, key.1 as int)),
                widest as int == max_below(k as int, col_min_term(zs, key.0 as int, key.1 as int)),
        {
            let other = fixed_key(zones[k]);
            let same = matches!(zones[k].rect, ComputedRect::Fixed { .. }) && other.0 == key.0 && other.1 == key.1;
            if k < j {
                seen = seen || same;
            }
            if same && zones[k].min_w > widest {
                widest = zones[k].min_w;
            }
        }
        heads.push(fixed && !seen);
        mins.push(widest);
    }
    (heads, mins)
}

/// Whether `check_terminal_size` can run on these zones within 16-bit arithmetic.
pub fn size_check_within_range(zones: &[&ZoneLayout]) -> (ok: bool)
    ensures
        ok == size_check_fits(zones@),
{
    let ghost zs = zones@;
    let n = zones.len();
    for j in 0..n
        invariant
            n == zs.len(),
            zs == zones@,
            forall|k: int| 0 <= k < j ==> #[trigger] bottom_term(zs)(k) <= 0xFFFF,
    {
        match zones[j].rect {
            ComputedRect::Fixed { y, h, .. } => {
                if y as u32 + h as u32 > 0xFFFF {
                    assert(bottom_term(zs)(j as int) > 0xFFFF);
                    return false;
                }
            },
            _ => {},
        }
    }
    let (heads, mins) = fixed_columns(zones);
    for j in 0..n
        invariant
            n == zs.len(),
            zs == zones@,
            heads@.len() == n,
            mins@.len() == n,
            forall|k: int| 0 <= k < n ==> #[trigger] bottom_term(zs)(k) <= 0xFFFF,
            forall|k: int| 0 <= k < n ==> heads@[k] == is_fixed_col_head(zs, k),
            forall|k: int|
                0 <= k < n ==> is_fixed(zs[k].rect) ==> mins@[k] as int == col_min(zs, fixed_row(zs[k]), fixed_x(zs[k])),
            forall|k: int| 0 <= k < j ==> #[trigger] rows_need_term(zs)(k) <= 0xFFFF,
    {
        if matches!(zones[j].rect, ComputedRect::Fixed { .. }) {
            let ry = fixed_key(zones[j]).0;
            let ghost f = row_min_term(zs, ry as int);
            proof {
                assert forall|k: int| 0 <= k < n implies #[trigger] f(k) >= 0 by {
                    lemma_max_below_bound(n as int, col_min_term(zs, ry as int, fixed_x(zs[k])));
                }
            }
            let mut acc: u32 = 0;
            for k in 0..n
                invariant
                    j < n,
                    n == zs.len(),
                    zs == zones@,
                    heads@.len() == n,
                    mins@.len() == n,
                    forall|m: int| 0 <= m < n ==> heads@[m] == is_fixed_col_head(zs, m),
                    forall|m: int|
                        0 <= m < n ==> is_fixed(zs[m].rect) ==> mins@[m] as int == col_min(
                            zs,
                            fixed_row(zs[m]),
                            fixed_x(zs[m]),
                        ),
                    ry as int == fixed_row(zs[j as int]),
                    is_fixed(zs[j as int].rect),
                    f == row_min_term(zs, ry as int),
                    forall|m: int| 0 <= m < n ==> #[trigger] f(m) >= 0,
                    acc <= 0xFFFF,
                    acc as int == sum_below(k as int, f),
            {
                if heads[k] && fixed_key(zones[k]).0 == ry {
                    acc = acc + mins[k] as u32;
                    if acc > 0xFFFF {
                        proof {
                            lemma_sum_below_mono(k + 1, n as int, f);
                            assert(acc as int == sum_below(k + 1, f));
                            assert(rows_need_term(zs)(j as int) == sum_below(n as int, f));
                            assert(rows_need_term(zs)(j as int) > 0xFFFF);
                        }
                        return false;
                    }
                }
            }
        }
    }
    true
}

/// What the size check answers for a terminal of `tw` by `th` cells: the
/// required size when the terminal is narrower or lower than it, else nothing.
pub open spec fn size_check_result(zs: Seq<&ZoneLayout>, tw: u16, th: u16) -> Option<(u16, u16)> {
    if tw < required_w(zs) || th < required_h(zs) {
        Some((required_w(zs) as u16, required_h(zs) as u16))
    } else {
        None
    }
}

/// The size that the check reports as required is larger than the terminal
/// in one direction, passes the check, and is the same whatever terminal it
/// is reported for; once a terminal passes, every terminal at least as wide
/// and as tall passes too.
pub proof fn law_required_size_suffices(zs: Seq<&ZoneLayout>, w: u16, h: u16, w2: u16, h2: u16)
    requires
        size_check_fits(zs),
    ensures
        size_check_result(zs, w, h) matches Some((rw, rh)) ==> (w < rw || h < rh),
        size_check_result(zs, w, h) matches Some((rw, rh)) ==> size_check_result(zs, rw, rh) is None,
        size_check_result(zs, w, h) is Some ==> (size_check_result(zs, w2, h2) is None || size_check_result(
            zs,
            w2,
            h2,
        ) == size_check_result(zs, w, h)),
        size_check_result(zs, w, h) is None && w <= w2 && h <= h2 ==> size_check_result(zs, w2, h2) is None,
{
    let n = zs.len() as int;
    lemma_max_below_bound(n, need_w_term(zs));
    lemma_max_below_bound(n, need_h_term(zs));
    lemma_max_below_bound(n, rows_need_term(zs));
    lemma_max_below_bound(n, bottom_term(zs));
    if max_below(n, need_w_term(zs)) > 0 {
        let j = choose|j: int| 0 <= j < n && #[trigger] need_w_term(zs)(j) == max_below(n, need_w_term(zs));
        assert(need_w_term(zs)(j) < 0x10000);
    }
    if max_below(n, need_h_term(zs)) > 0 {
        let j = choose|j: int| 0 <= j < n && #[trigger] need_h_term(zs)(j) == max_below(n, need_h_term(zs));
        assert(need_h_term(zs)(j) < 0x10000);
    }
    if max_below(n, rows_need_term(zs)) > 0 {
        let j = choose|j: int| 0 <= j < n && #[trigger] rows_need_term(zs)(j) == max_below(n, rows_need_term(zs));
        assert(rows_need_term(zs)(j) <= 0xFFFF);
    }
    if max_below(n, bottom_term(zs)) > 0 {
        let j = choose|j: int| 0 <= j < n && #[trigger] bottom_term(zs)(j) == max_below(n, bottom_term(zs));
        assert(bottom_term(zs)(j) <= 0xFFFF);
    }
}

proof fn lemma_share_of_side(a: u16, b: u16, t: u16)
    requires
        a + b <= 100,
    ensures
        percent_of(a, t) as int == a as int * t as int / 100,
        percent_of(b, t) as int == b as int * t as int / 100,
        a as int * t as int / 100 + b as int * t as int / 100 <= t,
{
    let ai = a as int;
    let bi = b as int;
    let ti = t as int;
    assert(ai * ti / 100 + bi * ti / 100 <= ti && ai * ti / 100 <= ti && bi * ti / 100 <= ti
        && ai * ti / 100 >= 0 && bi * ti / 100 >= 0) by (nonlinear_arith)
        requires
            0 <= ai,
            0 <= bi,
            ai + bi <= 100,
            0 <= ti,
    {
        assert(ai * ti + bi * ti == (ai + bi) * ti);
        assert((ai + bi) * ti <= 100 * ti);
        assert((ai * ti / 100) * 100 <= ai * ti);
        assert((bi * ti / 100) * 100 <= bi * ti);
    }
}

/// A zone placed by percentages that stay within 100% gets exactly its share
/// of the terminal: left edge and width are that percentage of the terminal's
/// width, top edge and height of its height (rounded down), and nothing is cut off.
pub proof fn law_percent_rect_exact(px: u16, py: u16, pw: u16, ph: u16, tw: u16, th: u16)
    requires
        px + pw <= 100,
        py + ph <= 100,
    ensures
        ({
            let r = spec_to_rect(ComputedRect::Percent { pct_x: px, pct_y: py, pct_w: pw, pct_h: ph }, tw, th);
            &&& r.x == px * tw / 100
            &&& r.y == py * th / 100
            &&& r.width == pw * tw / 100
            &&& r.height == ph * th / 100
        }),
{
    lemma_share_of_side(px, pw, tw);
    lemma_share_of_side(py, ph, th);
}

/// A zone of rows mode whose columns stay within 100% and whose rows end
/// within the terminal keeps its rows as given; its left edge and width are
/// its percentages of the terminal's width.
pub proof fn law_fixed_rect_exact(fx: u16, fy: u16, fw: u16, fh: u16, tw: u16, th: u16)
    requires
        fx + fw <= 100,
        fy + fh <= th,
    ensures
        ({
            let r = spec_to_rect(ComputedRect::Fixed { x: fx, y: fy, w: fw, h: fh }, tw, th);
            &&& r.x == fx * tw / 100
            &&& r.y == fy
            &&& r.width == fw * tw / 100
            &&& r.height == fh
        }),
{
    lemma_share_of_side(fx, fw, tw);
}

/// Horizontal placement depends on the terminal's width alone, vertical
/// placement of a percentage zone on its height alone.
pub proof fn law_rect_sides_independent(rect: ComputedRect, tw: u16, th: u16, tw2: u16, th2: u16)
    ensures
        spec_to_rect(rect, tw, th).x == spec_to_rect(rect, tw, th2).x,
        spec_to_rect(rect, tw, th).width == spec_to_rect(rect, tw, th2).width,
        spec_to_rect(rect, tw, th).y == spec_to_rect(rect, tw2, th).y,
        spec_to_rect(rect, tw, th).height == spec_to_rect(rect, tw2, th).height,
{
}

/// A fixed zone that shares its column with no other zone heads it, and the
/// column needs exactly its minimum width.
proof fn lemma_lone_column(zs: Seq<&ZoneLayout>, j: int)
    requires
        0 <= j < zs.len(),
        is_fixed(zs[j].rect),
        forall|k: int|
            0 <= k < zs.len() && k != j ==> !#[trigger] in_fixed_col(zs, fixed_row(zs[j]), fixed_x(zs[j]), k),
    ensures
        is_fixed_col_head(zs, j),
        col_min(zs, fixed_row(zs[j]), fixed_x(zs[j])) == zs[j].min_w,
{
    let ry = fixed_row(zs[j]);
    let x = fixed_x(zs[j]);
    lemma_any_below_elim(j, fixed_col_pred(zs, ry, x));
    if any_below(j, fixed_col_pred(zs, ry, x)) {
        let k = choose|k: int| 0 <= k < j && #[trigger] fixed_col_pred(zs, ry, x)(k);
        assert(in_fixed_col(zs, ry, x, k));
    }
    let f = col_min_term(zs, ry, x);
    assert forall|k: int| 0 <= k < zs.len() implies #[trigger] f(k) == 0 || f(k) == zs[j].min_w by {
        if k != j {
            assert(!in_fixed_col(zs, ry, x, k));
        }
    }
    lemma_max_below_of(zs.len() as int, f, j, zs[j].min_w as int);
}

/// In rows mode, zones of different rows never add to each other's width:
/// when every zone is a row of its own, the terminal must be exactly as wide
/// as the widest minimum width.
pub proof fn law_one_zone_per_row_width(zs: Seq<&ZoneLayout>)
    requires
        forall|j: int| 0 <= j < zs.len() ==> zs[j].rect is Fixed && zs[j].row_y is Some,
        forall|j: int, k: int|
            0 <= j < zs.len() && 0 <= k < zs.len() && j != k ==> #[trigger] zs[j].row_y != #[trigger] zs[k].row_y,
    ensures
        forall|j: int| 0 <= j < zs.len() ==> zs[j].min_w <= required_w(zs),
        zs.len() == 0 ==> required_w(zs) == 0,
        zs.len() > 0 ==> exists|j: int| 0 <= j < zs.len() && required_w(zs) == zs[j].min_w,
{
    let n = zs.len() as int;
    assert forall|j: int| 0 <= j < n implies #[trigger] need_w_term(zs)(j) == 0 by {}
    lemma_max_below_zero(n, need_w_term(zs));
    assert forall|j: int| 0 <= j < n implies #[trigger] rows_need_term(zs)(j) == zs[j].min_w by {
        let ry = fixed_row(zs[j]);
        let x = fixed_x(zs[j]);
        assert forall|k: int| 0 <= k < n && k != j implies !#[trigger] in_fixed_col(zs, ry, x, k) by {
            assert(zs[j].row_y != zs[k].row_y);
        }
        lemma_lone_column(zs, j);
        assert forall|k: int| 0 <= k < n && k != j implies #[trigger] row_min_term(zs, ry)(k) == 0 by {
            assert(zs[j].row_y != zs[k].row_y);
        }
        lemma_sum_below_single(n, row_min_term(zs, ry), j);
    }
    lemma_max_below_bound(n, rows_need_term(zs));
    assert forall|j: int| 0 <= j < n implies zs[j].min_w <= required_w(zs) by {
        assert(rows_need_term(zs)(j) == zs[j].min_w);
    }
    if n > 0 {
        if max_below(n, rows_need_term(zs)) == 0 {
            assert(rows_need_term(zs)(0) <= 0);
        } else {
            let k = choose|k: int| 0 <= k < n && #[trigger] rows_need_term(zs)(k) == max_below(n, rows_need_term(zs));
            assert(required_w(zs) == zs[k].min_w);
        }
    }
}

/// Columns side by side in one row add up: when the zones all lie in one row,
/// each in a column of its own, the terminal must be as wide as their minimum
/// widths together.
pub proof fn law_one_row_width(zs: Seq<&ZoneLayout>, r: u16)
    requires
        zs.len() > 0,
        forall|j: int| 0 <= j < zs.len() ==> zs[j].rect is Fixed && zs[j].row_y == Some(r),
        forall|j: int, k: int|
            0 <= j < zs.len() && 0 <= k < zs.len() && j != k ==> #[trigger] zs[j].rect->x != #[trigger] zs[k].rect->x,
    ensures
        required_w(zs) == sum_below(zs.len() as int, |k: int| zs[k].min_w as int),
{
    let n = zs.len() as int;
    let g = |k: int| zs[k].min_w as int;
    assert forall|j: int| 0 <= j < n implies #[trigger] need_w_term(zs)(j) == 0 by {}
    lemma_max_below_zero(n, need_w_term(zs));
    assert forall|j: int| 0 <= j < n implies #[trigger] row_min_term(zs, r as int)(j) == g(j) by {
        let x = fixed_x(zs[j]);
        assert forall|k: int| 0 <= k < n && k != j implies !#[trigger] in_fixed_col(zs, r as int, x, k) by {
            assert(zs[j].rect->x != zs[k].rect->x);
        }
        lemma_lone_column(zs, j);
    }
    lemma_sum_below_ext(n, row_min_term(zs, r as int), g);
    assert forall|j: int| 0 <= j < n implies #[trigger] g(j) >= 0 by {}
    lemma_sum_below_mono(0, n, g);
    let s = sum_below(n, g);
    assert forall|j: int| 0 <= j < n implies #[trigger] rows_need_term(zs)(j) == s by {}
    assert forall|j: int| 0 <= j < n implies #[trigger] rows_need_term(zs)(j) == 0 || rows_need_term(zs)(j) == s by {}
    lemma_max_below_of(n, rows_need_term(zs), 0, s);
}

/// Zones stacked in one column share its width: when the zones all lie in
/// one column of one row, the terminal must be exactly as wide as the widest
/// minimum width among them.
pub proof fn law_one_column_width(zs: Seq<&ZoneLayout>, r: u16, x: u16)
    requires
        zs.len() > 0,
        forall|j: int| 0 <= j < zs.len() ==> zs[j].rect is Fixed && zs[j].row_y == Some(r) && zs[j].rect->x == x,
    ensures
        forall|j: int| 0 <= j < zs.len() ==> zs[j].min_w <= required_w(zs),
        exists|j: int| 0 <= j < zs.len() && required_w(zs) == zs[j].min_w,
{
    let n = zs.len() as int;
    assert forall|j: int| 0 <= j < n implies #[trigger] need_w_term(zs)(j) == 0 by {}
    lemma_max_below_zero(n, need_w_term(zs));
    let f = col_min_term(zs, r as int, x as int);
    assert forall|j: int| 0 <= j < n implies #[trigger] f(j) == zs[j].min_w by {}
    lemma_max_below_bound(n, f);
    let m = max_below(n, f);
    assert forall|k: int| 0 <= k < n && k != 0 implies #[trigger] row_min_term(zs, r as int)(k) == 0 by {
        assert(fixed_col_pred(zs, r as int, x as int)(0));
        lemma_any_below_intro(k, fixed_col_pred(zs, r as int, x as int), 0);
    }
    lemma_any_below_elim(0, fixed_col_pred(zs, r as int, x as int));
    lemma_sum_below_single(n, row_min_term(zs, r as int), 0);
    assert forall|j: int| 0 <= j < n implies #[trigger] rows_need_term(zs)(j) == 0 || rows_need_term(zs)(j) == m by {}
    lemma_max_below_of(n, rows_need_term(zs), 0, m);
    assert forall|j: int| 0 <= j < n implies zs[j].min_w <= required_w(zs) by {
        assert(f(j) == zs[j].min_w);
    }
    if m == 0 {
        assert(f(0) <= 0);
    } else {
        let k = choose|k: int| 0 <= k < n && #[trigger] f(k) == m;
        assert(required_w(zs) == zs[k].min_w);
    }
}

/// In rows mode the terminal must reach exactly down to the lowest bottom
/// edge (y + h) among the zones.
pub proof fn law_rows_height_is_lowest_edge(zs: Seq<&ZoneLayout>)
    requires
        forall|j: int| 0 <= j < zs.len() ==> zs[j].rect is Fixed,
    ensures
        forall|j: int| 0 <= j < zs.len() ==> zs[j].rect->y + zs[j].rect->h <= required_h(zs),
        zs.len() == 0 ==> required_h(zs) == 0,
        zs.len() > 0 ==> exists|j: int| 0 <= j < zs.len() && required_h(zs) == zs[j].rect->y + zs[j].rect->h,
{
    let n = zs.len() as int;
    assert forall|j: int| 0 <= j < n implies #[trigger] need_h_term(zs)(j) == 0 by {}
    lemma_max_below_zero(n, need_h_term(zs));
    lemma_max_below_bound(n, bottom_term(zs));
    assert forall|j: int| 0 <= j < n implies #[trigger] bottom_term(zs)(j) == zs[j].rect->y + zs[j].rect->h by {}
    assert forall|j: int| 0 <= j < n implies zs[j].rect->y + zs[j].rect->h <= required_h(zs) by {
        assert(bottom_term(zs)(j) == zs[j].rect->y + zs[j].rect->h);
    }
    if n > 0 {
        if max_below(n, bottom_term(zs)) == 0 {
            assert(bottom_term(zs)(0) <= 0);
        } else {
            let k = choose|k: int| 0 <= k < n && #[trigger] bottom_term(zs)(k) == max_below(n, bottom_term(zs));
            assert(required_h(zs) == zs[k].rect->y + zs[k].rect->h);
        }
    }
}

/// A zone placed by percentages needs a terminal on which its share reaches
/// its minimum: min_w * 100 / pct_w columns and min_h * 100 / pct_h rows. With
/// only such zones, the terminal must be exactly as wide as the widest need
/// and as tall as the tallest.
pub proof fn law_percent_zones_size(zs: Seq<&ZoneLayout>)
    requires
        forall|j: int|
            0 <= j < zs.len() ==> {
                &&& zs[j].rect is Percent
                &&& zs[j].rect->pct_w > 0
                &&& zs[j].rect->pct_h > 0
                &&& zs[j].min_w as int * 100 / zs[j].rect->pct_w as int <= 0xFFFF
                &&& zs[j].min_h as int * 100 / zs[j].rect->pct_h as int <= 0xFFFF
            },
    ensures
        forall|j: int| 0 <= j < zs.len() ==> zs[j].min_w as int * 100 / zs[j].rect->pct_w as int <= required_w(zs),
        forall|j: int| 0 <= j < zs.len() ==> zs[j].min_h as int * 100 / zs[j].rect->pct_h as int <= required_h(zs),
        zs.len() > 0 ==> exists|j: int| 0 <= j < zs.len() && required_w(zs) == zs[j].min_w as int * 100 / zs[j].rect->pct_w as int,
        zs.len() > 0 ==> exists|j: int| 0 <= j < zs.len() && required_h(zs) == zs[j].min_h as int * 100 / zs[j].rect->pct_h as int,
{
    let n = zs.len() as int;
    assert forall|j: int| 0 <= j < n implies #[trigger] rows_need_term(zs)(j) == 0 by {}
    assert forall|j: int| 0 <= j < n implies #[trigger] bottom_term(zs)(j) == 0 by {}
    lemma_max_below_zero(n, rows_need_term(zs));
    lemma_max_below_zero(n, bottom_term(zs));
    assert forall|j: int| 0 <= j < n implies #[trigger] need_w_term(zs)(j) == zs[j].min_w as int * 100 / zs[j].rect->pct_w as int by {
        assert(zs[j].min_w as int * 100 / zs[j].rect->pct_w as int >= 0) by (nonlinear_arith)
            requires
                zs[j].rect->pct_w > 0,
        ;
    }
    assert forall|j: int| 0 <= j < n implies #[trigger] need_h_term(zs)(j) == zs[j].min_h as int * 100 / zs[j].rect->pct_h as int by {
        assert(zs[j].min_h as int * 100 / zs[j].rect->pct_h as int >= 0) by (nonlinear_arith)
            requires
                zs[j].rect->pct_h > 0,
        ;
    }
    lemma_max_below_bound(n, need_w_term(zs));
    lemma_max_below_bound(n, need_h_term(zs));
    assert forall|j: int| 0 <= j < n implies zs[j].min_w as int * 100 / zs[j].rect->pct_w as int <= required_w(zs) by {
        assert(need_w_term(zs)(j) == zs[j].min_w as int * 100 / zs[j].rect->pct_w as int);
    }
    assert forall|j: int| 0 <= j < n implies zs[j].min_h as int * 100 / zs[j].rect->pct_h as int <= required_h(zs) by {
        assert(need_h_term(zs)(j) == zs[j].min_h as int * 100 / zs[j].rect->pct_h as int);
    }
    if n > 0 {
        if max_below(n, need_w_term(zs)) == 0 {
            assert(need_w_term(zs)(0) <= 0);
        } else {
            let k = choose|k: int| 0 <= k < n && #[trigger] need_w_term(zs)(k) == max_below(n, need_w_term(zs));
            assert(required_w(zs) == zs[k].min_w as int * 100 / zs[k].rect->pct_w as int);
        }
        if max_below(n, need_h_term(zs)) == 0 {
            assert(need_h_term(zs)(0) <= 0);
        } else {
            let k = choose|k: int| 0 <= k < n && #[trigger] need_h_term(zs)(k) == max_below(n, need_h_term(zs));
            assert(required_h(zs) == zs[k].min_h as int * 100 / zs[k].rect->pct_h as int);
        }
    }
}

/// The check answers nothing exactly when the terminal is at least as wide
/// as the required width and at least as tall as the required height, and
/// otherwise answers that required size.
pub proof fn law_size_answer(zs: Seq<&ZoneLayout>, tw: u16, th: u16)
    requires
        size_check_fits(zs),
    ensures
        size_check_result(zs, tw, th) is None <==> (tw >= required_w(zs) && th >= required_h(zs)),
        size_check_result(zs, tw, th) matches Some((rw, rh)) ==> rw == required_w(zs) && rh == required_h(zs),
{
    law_required_size_suffices(zs, tw, th, tw, th);
    let n = zs.len() as int;
    lemma_max_below_bound(n, need_w_term(zs));
    lemma_max_below_bound(n, need_h_term(zs));
    lemma_max_below_bound(n, rows_need_term(zs));
    lemma_max_below_bound(n, bottom_term(zs));
    if max_below(n, need_w_term(zs)) > 0 {
        let j = choose|j: int| 0 <= j < n && #[trigger] need_w_term(zs)(j) == max_below(n, need_w_term(zs));
        assert(need_w_term(zs)(j) < 0x10000);
    }
    if max_below(n, need_h_term(zs)) > 0 {
        let j = choose|j: int| 0 <= j < n && #[trigger] need_h_term(zs)(j) == max_below(n, need_h_term(zs));
        assert(need_h_term(zs)(j) < 0x10000);
    }
    if max_below(n, rows_need_term(zs)) > 0 {
        let j = choose|j: int| 0 <= j < n && #[trigger] rows_need_term(zs)(j) == max_below(n, rows_need_term(zs));
        assert(rows_need_term(zs)(j) <= 0xFFFF);
    }
    if max_below(n, bottom_term(zs)) > 0 {
        let j = choose|j: int| 0 <= j < n && #[trigger] bottom_term(zs)(j) == max_below(n, bottom_term(zs));
        assert(bottom_term(zs)(j) <= 0xFFFF);
    }
}

} // verus!
