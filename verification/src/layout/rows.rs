use vstd::prelude::*;

use crate::config::ZoneConfig;
use crate::layout::{ComputedRect, ZoneLayout, ZoneLayoutView, sat_sub};
use crate::tally::{
    sum_below, max_below, any_below, lemma_sum_below_mono, lemma_max_below_bound,
    lemma_any_below_intro, lemma_sum_below_term, lemma_any_below_elim, lemma_sum_below_ext,
};

verus! {

// ---------------------------------------------------------------------------
// Which row and which column each zone falls in.
// ---------------------------------------------------------------------------

pub open spec fn auto_row_term(zs: Seq<ZoneConfig>) -> spec_fn(int) -> int {
    |j: int| if zs[j].row is None { 1int } else { 0int }
}

/// How many of the first `n` zones name no row.
pub open spec fn auto_rows(zs: Seq<ZoneConfig>, n: int) -> int {
    sum_below(n, auto_row_term(zs))
}

/// The row of zone `i`: the row it names, or else 1000 times its rank among
/// the zones that name none (1000, 2000, ...).
pub open spec fn row_key(zs: Seq<ZoneConfig>, i: int) -> int {
    match zs[i].row {
        Some(r) => r as int,
        None => 1000 * auto_rows(zs, i + 1),
    }
}

pub open spec fn auto_col_term(zs: Seq<ZoneConfig>, rk: int) -> spec_fn(int) -> int {
    |j: int| if row_key(zs, j) == rk && zs[j].col is None { 1int } else { 0int }
}

/// How many of the first `n` zones lie in row `rk` and name no column.
pub open spec fn auto_cols(zs: Seq<ZoneConfig>, rk: int, n: int) -> int {
    sum_below(n, auto_col_term(zs, rk))
}

/// The column of zone `i` within its row: the column it names, or else
/// 10000 plus its rank among the zones of its row that name none.
pub open spec fn col_key(zs: Seq<ZoneConfig>, i: int) -> int {
    match zs[i].col {
        Some(c) => c as int,
        None => 10000 + auto_cols(zs, row_key(zs, i), i + 1),
    }
}

pub open spec fn in_col(zs: Seq<ZoneConfig>, rk: int, ck: int, j: int) -> bool {
    row_key(zs, j) == rk && col_key(zs, j) == ck
}

pub open spec fn in_row_pred(zs: Seq<ZoneConfig>, rk: int) -> spec_fn(int) -> bool {
    |j: int| row_key(zs, j) == rk
}

pub open spec fn in_col_pred(zs: Seq<ZoneConfig>, rk: int, ck: int) -> spec_fn(int) -> bool {
    |j: int| in_col(zs, rk, ck, j)
}

/// One of the first `n` zones lies in row `rk`.
pub open spec fn row_seen(zs: Seq<ZoneConfig>, rk: int, n: int) -> bool {
    any_below(n, in_row_pred(zs, rk))
}

/// One of the first `n` zones lies in column `ck` of row `rk`.
pub open spec fn col_seen(zs: Seq<ZoneConfig>, rk: int, ck: int, n: int) -> bool {
    any_below(n, in_col_pred(zs, rk, ck))
}

/// Zone `i` is the first zone of its row.
pub open spec fn is_row_head(zs: Seq<ZoneConfig>, i: int) -> bool {
    !row_seen(zs, row_key(zs, i), i)
}

/// Zone `i` is the first zone of its column.
pub open spec fn is_col_head(zs: Seq<ZoneConfig>, i: int) -> bool {
    !col_seen(zs, row_key(zs, i), col_key(zs, i), i)
}

/// The width a zone asks for, in percent; zero stands for the full width.
pub open spec fn width_pct(z: ZoneConfig) -> int {
    if z.width == 0 {
        100
    } else {
        z.width as int
    }
}

/// The width of column `(rk, ck)`: that of its first zone among the first `n`.
pub open spec fn col_width(zs: Seq<ZoneConfig>, rk: int, ck: int, n: int) -> int
    decreases n,
{
    if n <= 0 {
        0
    } else if !col_seen(zs, rk, ck, n - 1) && in_col(zs, rk, ck, n - 1) {
        width_pct(zs[n - 1])
    } else {
        col_width(zs, rk, ck, n - 1)
    }
}

// ---------------------------------------------------------------------------
// Heights of rows.
// ---------------------------------------------------------------------------

/// The height zone `i` asks for: its own, or else its widget's minimum.
pub open spec fn wanted_h(zs: Seq<ZoneConfig>, ms: Seq<(u16, u16)>, i: int) -> int {
    if zs[i].height > 0 {
        zs[i].height as int
    } else {
        ms[i].1 as int
    }
}

pub open spec fn col_sum_term(zs: Seq<ZoneConfig>, ms: Seq<(u16, u16)>, rk: int, ck: int) -> spec_fn(int) -> int {
    |j: int| if in_col(zs, rk, ck, j) { wanted_h(zs, ms, j) } else { 0int }
}

/// The heights asked for by the zones of column `(rk, ck)` among the first `n`, added up.
pub open spec fn col_sum(zs: Seq<ZoneConfig>, ms: Seq<(u16, u16)>, rk: int, ck: int, n: int) -> int {
    sum_below(n, col_sum_term(zs, ms, rk, ck))
}

pub open spec fn col_count_term(zs: Seq<ZoneConfig>, rk: int, ck: int) -> spec_fn(int) -> int {
    |j: int| if in_col(zs, rk, ck, j) { 1int } else { 0int }
}

/// How many of the first `n` zones lie in column `(rk, ck)`.
pub open spec fn col_count(zs: Seq<ZoneConfig>, rk: int, ck: int, n: int) -> int {
    sum_below(n, col_count_term(zs, rk, ck))
}

pub open spec fn row_need_term(zs: Seq<ZoneConfig>, ms: Seq<(u16, u16)>, rk: int) -> spec_fn(int) -> int {
    |j: int|
        if is_col_head(zs, j) && row_key(zs, j) == rk {
            col_sum(zs, ms, rk, col_key(zs, j), zs.len() as int)
        } else {
            0int
        }
}

/// The fixed height of row `rk`: the tallest of its columns; zero means the
/// row takes a share of the space that fixed rows leave.
pub open spec fn row_need(zs: Seq<ZoneConfig>, ms: Seq<(u16, u16)>, rk: int) -> int {
    max_below(zs.len() as int, row_need_term(zs, ms, rk))
}

pub open spec fn total_fixed_term(zs: Seq<ZoneConfig>, ms: Seq<(u16, u16)>) -> spec_fn(int) -> int {
    |j: int| if is_row_head(zs, j) { row_need(zs, ms, row_key(zs, j)) } else { 0int }
}

/// The fixed heights of all rows, added up.
pub open spec fn total_fixed(zs: Seq<ZoneConfig>, ms: Seq<(u16, u16)>) -> int {
    sum_below(zs.len() as int, total_fixed_term(zs, ms))
}

pub open spec fn fill_rows_term(zs: Seq<ZoneConfig>, ms: Seq<(u16, u16)>) -> spec_fn(int) -> int {
    |j: int| if is_row_head(zs, j) && row_need(zs, ms, row_key(zs, j)) == 0 { 1int } else { 0int }
}

/// How many rows have no fixed height.
pub open spec fn fill_rows(zs: Seq<ZoneConfig>, ms: Seq<(u16, u16)>) -> int {
    sum_below(zs.len() as int, fill_rows_term(zs, ms))
}

/// The height of each row without a fixed height: what the fixed rows leave
/// of the terminal, shared evenly and rounded down.
pub open spec fn fill_height(zs: Seq<ZoneConfig>, ms: Seq<(u16, u16)>, th: u16) -> int {
    let c = fill_rows(zs, ms);
    if c > 0 {
        sat_sub(th as int, total_fixed(zs, ms)) / c
    } else {
        0
    }
}

/// The height of row `rk`.
pub open spec fn row_height(zs: Seq<ZoneConfig>, ms: Seq<(u16, u16)>, th: u16, rk: int) -> int {
    let need = row_need(zs, ms, rk);
    if need > 0 {
        need
    } else {
        fill_height(zs, ms, th)
    }
}

pub open spec fn rows_above_term(zs: Seq<ZoneConfig>, ms: Seq<(u16, u16)>, th: u16, rk: int) -> spec_fn(int) -> int {
    |j: int|
        if is_row_head(zs, j) && !row_seen(zs, rk, j + 1) {
            row_height(zs, ms, th, row_key(zs, j))
        } else {
            0int
        }
}

/// The top of row `rk`: the heights of the rows that first appear before it, added up.
pub open spec fn rows_above(zs: Seq<ZoneConfig>, ms: Seq<(u16, u16)>, th: u16, rk: int) -> int {
    sum_below(zs.len() as int, rows_above_term(zs, ms, th, rk))
}

pub open spec fn rows_total_term(zs: Seq<ZoneConfig>, ms: Seq<(u16, u16)>, th: u16) -> spec_fn(int) -> int {
    |j: int| if is_row_head(zs, j) { row_height(zs, ms, th, row_key(zs, j)) } else { 0int }
}

/// The heights of all rows, added up.
pub open spec fn rows_total(zs: Seq<ZoneConfig>, ms: Seq<(u16, u16)>, th: u16) -> int {
    sum_below(zs.len() as int, rows_total_term(zs, ms, th))
}

// ---------------------------------------------------------------------------
// Horizontal positions.
// ---------------------------------------------------------------------------

pub open spec fn cols_left_term(zs: Seq<ZoneConfig>, rk: int, ck: int) -> spec_fn(int) -> int {
    |j: int|
        if is_col_head(zs, j) && row_key(zs, j) == rk && !col_seen(zs, rk, ck, j + 1) {
            width_pct(zs[j])
        } else {
            0int
        }
}

/// The left edge, in percent, of column `(rk, ck)`: the widths of the columns
/// of its row that first appear before it, added up.
pub open spec fn cols_left(zs: Seq<ZoneConfig>, rk: int, ck: int) -> int {
    sum_below(zs.len() as int, cols_left_term(zs, rk, ck))
}

pub open spec fn row_width_term(zs: Seq<ZoneConfig>, rk: int) -> spec_fn(int) -> int {
    |j: int| if is_col_head(zs, j) && row_key(zs, j) == rk { width_pct(zs[j]) } else { 0int }
}

/// The widths of all columns of row `rk`, added up.
pub open spec fn row_width(zs: Seq<ZoneConfig>, rk: int) -> int {
    sum_below(zs.len() as int, row_width_term(zs, rk))
}

// ---------------------------------------------------------------------------
// Stacked zones.
// ---------------------------------------------------------------------------

/// The height zone `j` gets when it shares its column with later zones: its
/// part of the row height in proportion to what it asks for, or an even part
/// when nobody in the column asks for anything.
pub open spec fn share(zs: Seq<ZoneConfig>, ms: Seq<(u16, u16)>, th: u16, j: int) -> int {
    let rk = row_key(zs, j);
    let ck = col_key(zs, j);
    let total = col_sum(zs, ms, rk, ck, zs.len() as int);
    let rh = row_height(zs, ms, th, rk);
    if total > 0 {
        wanted_h(zs, ms, j) * rh / total
    } else {
        rh / col_count(zs, rk, ck, zs.len() as int)
    }
}

pub open spec fn shares_term(zs: Seq<ZoneConfig>, ms: Seq<(u16, u16)>, th: u16, rk: int, ck: int) -> spec_fn(int) -> int {
    |j: int| if in_col(zs, rk, ck, j) { share(zs, ms, th, j) } else { 0int }
}

/// The shares of the zones of column `(rk, ck)` among the first `n`, added up.
pub open spec fn shares_above(zs: Seq<ZoneConfig>, ms: Seq<(u16, u16)>, th: u16, rk: int, ck: int, n: int) -> int {
    sum_below(n, shares_term(zs, ms, th, rk, ck))
}

/// Where zone `i` goes in rows mode.
pub open spec fn rows_zone_rect(zs: Seq<ZoneConfig>, ms: Seq<(u16, u16)>, th: u16, i: int) -> ComputedRect {
    let n = zs.len() as int;
    let rk = row_key(zs, i);
    let ck = col_key(zs, i);
    let top = rows_above(zs, ms, th, rk);
    let rh = row_height(zs, ms, th, rk);
    let x = cols_left(zs, rk, ck);
    let w = col_width(zs, rk, ck, n);
    if col_count(zs, rk, ck, n) == 1 {
        ComputedRect::Fixed { x: x as u16, y: top as u16, w: w as u16, h: rh as u16 }
    } else {
        let above = shares_above(zs, ms, th, rk, ck, i);
        let h = if col_count(zs, rk, ck, i + 1) == col_count(zs, rk, ck, n) {
            sat_sub(rh, above)
        } else {
            share(zs, ms, th, i)
        };
        ComputedRect::Fixed { x: x as u16, y: (top + above) as u16, w: w as u16, h: h as u16 }
    }
}

/// The layout of zone `i` in rows mode.
pub open spec fn rows_zone_layout(zs: Seq<ZoneConfig>, ms: Seq<(u16, u16)>, th: u16, i: int) -> ZoneLayoutView {
    ZoneLayoutView {
        id: zs[i].id@,
        rect: rows_zone_rect(zs, ms, th, i),
        min_w: match zs[i].min_width { Some(v) => v, None => ms[i].0 },
        min_h: match zs[i].min_height { Some(v) => v, None => ms[i].1 },
        row_y: Some(rows_above(zs, ms, th, row_key(zs, i)) as u16),
    }
}

/// The inputs on which rows mode stays within 16-bit arithmetic: a widget
/// size for every zone, at most 65 zones without a row, and row numbers,
/// column numbers, column heights, the fixed heights, the widths of each row
/// and the heights of all rows that fit in 16 bits.
pub open spec fn rows_fit(zs: Seq<ZoneConfig>, ms: Seq<(u16, u16)>, th: u16) -> bool {
    &&& ms.len() >= zs.len()
    &&& zs.len() <= 0xFFFF
    &&& auto_rows(zs, zs.len() as int) <= 65
    &&& forall|i: int| 0 <= i < zs.len() ==> auto_cols(zs, #[trigger] row_key(zs, i), zs.len() as int) <= 55535
    &&& forall|i: int| 0 <= i < zs.len() ==> col_sum(zs, ms, row_key(zs, i), #[trigger] col_key(zs, i), zs.len() as int) <= 0xFFFF
    &&& total_fixed(zs, ms) <= 0xFFFF
    &&& forall|i: int| 0 <= i < zs.len() ==> row_width(zs, #[trigger] row_key(zs, i)) <= 0xFFFF
    &&& rows_total(zs, ms, th) <= 0xFFFF
}


// ---------------------------------------------------------------------------
// Computation.
// ---------------------------------------------------------------------------

fn compute_row_keys(zones: &[ZoneConfig]) -> (rks: Vec<u16>)
    requires
        auto_rows(zones@, zones@.len() as int) <= 65,
    ensures
        rks@.len() == zones@.len(),
        forall|i: int| 0 <= i < zones@.len() ==> rks@[i] as int == row_key(zones@, i),
{
    let ghost zs = zones@;
    let n = zones.len();
    let mut rks: Vec<u16> = Vec::new();
    let mut counter: u16 = 0;
    for i in 0..n
        invariant
            n == zs.len(),
            zs == zones@,
            rks@.len() == i,
            counter as int == auto_rows(zs, i as int),
            auto_rows(zs, n as int) <= 65,
            forall|j: int| 0 <= j < i ==> rks@[j] as int == row_key(zs, j),
    {
        proof {
            lemma_sum_below_mono(i + 1, n as int, auto_row_term(zs));
        }
        match zones[i].row {
            Some(r) => rks.push(r),
            None => {
                counter = counter + 1;
                rks.push(counter * 1000);
            },
        }
    }
    rks
}

fn compute_col_keys(zones: &[ZoneConfig], rks: &Vec<u16>) -> (cks: Vec<u16>)
    requires
        rks@.len() == zones@.len(),
        forall|i: int| 0 <= i < zones@.len() ==> rks@[i] as int == row_key(zones@, i),
        forall|i: int|
            0 <= i < zones@.len() ==> auto_cols(zones@, #[trigger] row_key(zones@, i), zones@.len() as int) <= 55535,
    ensures
        cks@.len() == zones@.len(),
        forall|i: int| 0 <= i < zones@.len() ==> cks@[i] as int == col_key(zones@, i),
{
    let ghost zs = zones@;
    let n = zones.len();
    let mut cks: Vec<u16> = Vec::new();
    for i in 0..n
        invariant
            n == zs.len(),
            zs == zones@,
            rks@.len() == n,
            forall|k: int| 0 <= k < n ==> rks@[k] as int == row_key(zs, k),
            forall|k: int| 0 <= k < n ==> auto_cols(zs, #[trigger] row_key(zs, k), n as int) <= 55535,
            cks@.len() == i,
            forall|j: int| 0 <= j < i ==> cks@[j] as int == col_key(zs, j),
    {
        match zones[i].col {
            Some(c) => cks.push(c),
            None => {
                let rk = rks[i];
                let ghost f = auto_col_term(zs, rk as int);
                assert(auto_cols(zs, row_key(zs, i as int), n as int) <= 55535);
                let mut count: u16 = 0;
                for j in 0..i + 1
                    invariant
                        i < n,
                        n == zs.len(),
                        zs == zones@,
                        rks@.len() == n,
                        rk as int == row_key(zs, i as int),
                        forall|k: int| 0 <= k < n ==> rks@[k] as int == row_key(zs, k),
                        f == auto_col_term(zs, rk as int),
                        count as int == sum_below(j as int, f),
                        sum_below(n as int, f) <= 55535,
                {
                    proof {
                        lemma_sum_below_mono(j + 1, n as int, f);
                    }
                    if rks[j] == rk && zones[j].col.is_none() {
                        count = count + 1;
                    }
                }
                proof {
                    lemma_sum_below_mono(i + 1, n as int, f);
                }
                cks.push(10000 + count);
            },
        }
    }
    cks
}

fn compute_wanted(zones: &[ZoneConfig], ms: &[(u16, u16)]) -> (wants: Vec<u16>)
    requires
        ms@.len() >= zones@.len(),
    ensures
        wants@.len() == zones@.len(),
        forall|i: int| 0 <= i < zones@.len() ==> wants@[i] as int == wanted_h(zones@, ms@, i),
{
    let n = zones.len();
    let mut wants: Vec<u16> = Vec::new();
    for i in 0..n
        invariant
            n == zones@.len(),
            ms@.len() >= n,
            wants@.len() == i,
            forall|j: int| 0 <= j < i ==> wants@[j] as int == wanted_h(zones@, ms@, j),
    {
        if zones[i].height > 0 {
            wants.push(zones[i].height);
        } else {
            wants.push(ms[i].1);
        }
    }
    wants
}

/// For each zone, whether it is the first of its row.
fn compute_row_heads(zones: &[ZoneConfig], rks: &Vec<u16>) -> (heads: Vec<bool>)
    requires
        rks@.len() == zones@.len(),
        forall|i: int| 0 <= i < zones@.len() ==> rks@[i] as int == row_key(zones@, i),
    ensures
        heads@.len() == zones@.len(),
        forall|i: int| 0 <= i < zones@.len() ==> heads@[i] == is_row_head(zones@, i),
{
    let ghost zs = zones@;
    let n = zones.len();
    let mut heads: Vec<bool> = Vec::new();
    for i in 0..n
        invariant
            n == zs.len(),
            zs == zones@,
            rks@.len() == n,
            forall|k: int| 0 <= k < n ==> rks@[k] as int == row_key(zs, k),
            heads@.len() == i,
            forall|j: int| 0 <= j < i ==> heads@[j] == is_row_head(zs, j),
    {
        let rk = rks[i];
        let mut seen = false;
        for j in 0..i
            invariant
                i < n,
                n == zs.len(),
                rks@.len() == n,
                forall|k: int| 0 <= k < n ==> rks@[k] as int == row_key(zs, k),
                rk as int == row_key(zs, i as int),
                seen == row_seen(zs, rk as int, j as int),
        {
            seen = seen || rks[j] == rk;
        }
        heads.push(!seen);
    }
    heads
}

/// For each zone, whether it is the first of its column.
fn compute_col_heads(zones: &[ZoneConfig], rks: &Vec<u16>, cks: &Vec<u16>) -> (heads: Vec<bool>)
    requires
        rks@.len() == zones@.len(),
        cks@.len() == zones@.len(),
        forall|i: int| 0 <= i < zones@.len() ==> rks@[i] as int == row_key(zones@, i),
        forall|i: int| 0 <= i < zones@.len() ==> cks@[i] as int == col_key(zones@, i),
    ensures
        heads@.len() == zones@.len(),
        forall|i: int| 0 <= i < zones@.len() ==> heads@[i] == is_col_head(zones@, i),
{
    let ghost zs = zones@;
    let n = zones.len();
    let mut heads: Vec<bool> = Vec::new();
    for i in 0..n
        invariant
            n == zs.len(),
            zs == zones@,
            rks@.len() == n,
            cks@.len() == n,
            forall|k: int| 0 <= k < n ==> rks@[k] as int == row_key(zs, k),
            forall|k: int| 0 <= k < n ==> cks@[k] as int == col_key(zs, k),
            heads@.len() == i,
            forall|j: int| 0 <= j < i ==> heads@[j] == is_col_head(zs, j),
    {
        let rk = rks[i];
        let ck = cks[i];
        let mut seen = false;
        for j in 0..i
            invariant
                i < n,
                n == zs.len(),
                rks@.len() == n,
                cks@.len() == n,
                forall|k: int| 0 <= k < n ==> rks@[k] as int == row_key(zs, k),
                forall|k: int| 0 <= k < n ==> cks@[k] as int == col_key(zs, k),
                rk as int == row_key(zs, i as int),
                ck as int == col_key(zs, i as int),
                seen == col_seen(zs, rk as int, ck as int, j as int),
        {
            seen = seen || (rks[j] == rk && cks[j] == ck);
        }
        heads.push(!seen);
    }
    heads
}

/// Per-zone facts about the column of each zone.
struct ColumnStats {
    /// The heights its zones ask for, added up.
    sum: Vec<u16>,
    /// How many zones it holds.
    count: Vec<u16>,
    /// Its width in percent.
    width: Vec<u16>,
}

fn compute_column_stats(
    zones: &[ZoneConfig],
    ms: &[(u16, u16)],
    rks: &Vec<u16>,
    cks: &Vec<u16>,
    wants: &Vec<u16>,
) -> (st: ColumnStats)
    requires
        ms@.len() >= zones@.len(),
        zones@.len() <= 0xFFFF,
        rks@.len() == zones@.len(),
        cks@.len() == zones@.len(),
        wants@.len() == zones@.len(),
        forall|i: int| 0 <= i < zones@.len() ==> rks@[i] as int == row_key(zones@, i),
        forall|i: int| 0 <= i < zones@.len() ==> cks@[i] as int == col_key(zones@, i),
        forall|i: int| 0 <= i < zones@.len() ==> wants@[i] as int == wanted_h(zones@, ms@, i),
        forall|i: int|
            0 <= i < zones@.len() ==> col_sum(zones@, ms@, row_key(zones@, i), #[trigger] col_key(zones@, i), zones@.len() as int)
                <= 0xFFFF,
    ensures
        st.sum@.len() == zones@.len(),
        st.count@.len() == zones@.len(),
        st.width@.len() == zones@.len(),
        forall|i: int|
            0 <= i < zones@.len() ==> st.sum@[i] as int == col_sum(
                zones@,
                ms@,
                row_key(zones@, i),
                col_key(zones@, i),
                zones@.len() as int,
            ),
        forall|i: int|
            0 <= i < zones@.len() ==> st.count@[i] as int == col_count(
                zones@,
                row_key(zones@, i),
                col_key(zones@, i),
                zones@.len() as int,
            ),
        forall|i: int|
            0 <= i < zones@.len() ==> st.width@[i] as int == col_width(
                zones@,
                row_key(zones@, i),
                col_key(zones@, i),
                zones@.len() as int,
            ),
{
    let ghost zs = zones@;
    let ghost mz = ms@;
    let n = zones.len();
    let mut sums: Vec<u16> = Vec::new();
    let mut counts: Vec<u16> = Vec::new();
    let mut widths: Vec<u16> = Vec::new();
    for i in 0..n
        invariant
            n == zs.len(),
            zs == zones@,
            mz == ms@,
            n <= 0xFFFF,
            mz.len() >= n,
            rks@.len() == n,
            cks@.len() == n,
            wants@.len() == n,
            forall|k: int| 0 <= k < n ==> rks@[k] as int == row_key(zs, k),
            forall|k: int| 0 <= k < n ==> cks@[k] as int == col_key(zs, k),
            forall|k: int| 0 <= k < n ==> wants@[k] as int == wanted_h(zs, mz, k),
            forall|k: int|
                0 <= k < n ==> col_sum(zs, mz, row_key(zs, k), #[trigger] col_key(zs, k), n as int) <= 0xFFFF,
            sums@.len() == i,
            counts@.len() == i,
            widths@.len() == i,
            forall|j: int|
                0 <= j < i ==> sums@[j] as int == col_sum(zs, mz, row_key(zs, j), col_key(zs, j), n as int),
            forall|j: int|
                0 <= j < i ==> counts@[j] as int == col_count(zs, row_key(zs, j), col_key(zs, j), n as int),
            forall|j: int|
                0 <= j < i ==> widths@[j] as int == col_width(zs, row_key(zs, j), col_key(zs, j), n as int),
    {
        let rk = rks[i];
        let ck = cks[i];
        let ghost fs = col_sum_term(zs, mz, rk as int, ck as int);
        let ghost fc = col_count_term(zs, rk as int, ck as int);
        assert(col_sum(zs, mz, row_key(zs, i as int), col_key(zs, i as int), n as int) <= 0xFFFF);
        let mut sum: u16 = 0;
        let mut count: u16 = 0;
        let mut width: u16 = 0;
        let mut seen = false;
        for j in 0..n
            invariant
                i < n,
                n == zs.len(),
                zs == zones@,
                n <= 0xFFFF,
                mz.len() >= n,
                rks@.len() == n,
                cks@.len() == n,
                wants@.len() == n,
                forall|k: int| 0 <= k < n ==> rks@[k] as int == row_key(zs, k),
                forall|k: int| 0 <= k < n ==> cks@[k] as int == col_key(zs, k),
                forall|k: int| 0 <= k < n ==> wants@[k] as int == wanted_h(zs, mz, k),
                rk as int == row_key(zs, i as int),
                ck as int == col_key(zs, i as int),
                fs == col_sum_term(zs, mz, rk as int, ck as int),
                fc == col_count_term(zs, rk as int, ck as int),
                sum_below(n as int, fs) <= 0xFFFF,
                sum as int == sum_below(j as int, fs),
                count as int == sum_below(j as int, fc),
                count <= j,
                seen == col_seen(zs, rk as int, ck as int, j as int),
                width as int == col_width(zs, rk as int, ck as int, j as int),
        {
            proof {
                lemma_sum_below_mono(j + 1, n as int, fs);
            }
            if rks[j] == rk && cks[j] == ck {
                sum = sum + wants[j];
                count = count + 1;
                if !seen {
                    width = if zones[j].width == 0 { 100 } else { zones[j].width };
                }
                seen = true;
            }
        }
        sums.push(sum);
        counts.push(count);
        widths.push(width);
    }
    ColumnStats { sum: sums, count: counts, width: widths }
}

fn compute_row_needs(
    zones: &[ZoneConfig],
    ms: &[(u16, u16)],
    rks: &Vec<u16>,
    col_heads: &Vec<bool>,
    sums: &Vec<u16>,
) -> (needs: Vec<u16>)
    requires
        rks@.len() == zones@.len(),
        col_heads@.len() == zones@.len(),
        sums@.len() == zones@.len(),
        forall|i: int| 0 <= i < zones@.len() ==> rks@[i] as int == row_key(zones@, i),
        forall|i: int| 0 <= i < zones@.len() ==> col_heads@[i] == is_col_head(zones@, i),
        forall|i: int|
            0 <= i < zones@.len() ==> sums@[i] as int == col_sum(
                zones@,
                ms@,
                row_key(zones@, i),
                col_key(zones@, i),
                zones@.len() as int,
            ),
    ensures
        needs@.len() == zones@.len(),
        forall|i: int| 0 <= i < zones@.len() ==> needs@[i] as int == row_need(zones@, ms@, row_key(zones@, i)),
{
    let ghost zs = zones@;
    let ghost mz = ms@;
    let n = zones.len();
    let mut needs: Vec<u16> = Vec::new();
    for i in 0..n
        invariant
            n == zs.len(),
            zs == zones@,
            mz == ms@,
            rks@.len() == n,
            col_heads@.len() == n,
            sums@.len() == n,
            forall|k: int| 0 <= k < n ==> rks@[k] as int == row_key(zs, k),
            forall|k: int| 0 <= k < n ==> col_heads@[k] == is_col_head(zs, k),
            forall|k: int|
                0 <= k < n ==> sums@[k] as int == col_sum(zs, mz, row_key(zs, k), col_key(zs, k), n as int),
            needs@.len() == i,
            forall|j: int| 0 <= j < i ==> needs@[j] as int == row_need(zs, mz, row_key(zs, j)),
    {
        let rk = rks[i];
        let ghost f = row_need_term(zs, mz, rk as int);
        let mut need: u16 = 0;
        for j in 0..n
            invariant
                i < n,
                n == zs.len(),
                rks@.len() == n,
                col_heads@.len() == n,
                sums@.len() == n,
                forall|k: int| 0 <= k < n ==> rks@[k] as int == row_key(zs, k),
                forall|k: int| 0 <= k < n ==> col_heads@[k] == is_col_head(zs, k),
                forall|k: int|
                    0 <= k < n ==> sums@[k] as int == col_sum(zs, mz, row_key(zs, k), col_key(zs, k), n as int),
                rk as int == row_key(zs, i as int),
                f == row_need_term(zs, mz, rk as int),
                need as int == max_below(j as int, f),
        {
            if col_heads[j] && rks[j] == rk && sums[j] > need {
                need = sums[j];
            }
        }
        needs.push(need);
    }
    needs
}

fn compute_row_heights(
    zones: &[ZoneConfig],
    ms: &[(u16, u16)],
    terminal_height: u16,
    rks: &Vec<u16>,
    row_heads: &Vec<bool>,
    needs: &Vec<u16>,
) -> (heights: Vec<u16>)
    requires
        zones@.len() <= 0xFFFF,
        rks@.len() == zones@.len(),
        row_heads@.len() == zones@.len(),
        needs@.len() == zones@.len(),
        forall|i: int| 0 <= i < zones@.len() ==> rks@[i] as int == row_key(zones@, i),
        forall|i: int| 0 <= i < zones@.len() ==> row_heads@[i] == is_row_head(zones@, i),
        forall|i: int| 0 <= i < zones@.len() ==> needs@[i] as int == row_need(zones@, ms@, row_key(zones@, i)),
        total_fixed(zones@, ms@) <= 0xFFFF,
    ensures
        heights@.len() == zones@.len(),
        forall|i: int|
            0 <= i < zones@.len() ==> heights@[i] as int == row_height(zones@, ms@, terminal_height, row_key(zones@, i)),
{
    let ghost zs = zones@;
    let ghost mz = ms@;
    let n = zones.len();
    let ghost ft = total_fixed_term(zs, mz);
    let ghost fc = fill_rows_term(zs, mz);
    proof {
        assert forall|k: int| 0 <= k < n implies #[trigger] ft(k) >= 0 by {
            lemma_max_below_bound(n as int, row_need_term(zs, mz, row_key(zs, k)));
        }
    }
    let mut total: u16 = 0;
    let mut fill: u16 = 0;
    for j in 0..n
        invariant
            n == zs.len(),
            n <= 0xFFFF,
            rks@.len() == n,
            row_heads@.len() == n,
            needs@.len() == n,
            forall|k: int| 0 <= k < n ==> rks@[k] as int == row_key(zs, k),
            forall|k: int| 0 <= k < n ==> row_heads@[k] == is_row_head(zs, k),
            forall|k: int| 0 <= k < n ==> needs@[k] as int == row_need(zs, mz, row_key(zs, k)),
            ft == total_fixed_term(zs, mz),
            fc == fill_rows_term(zs, mz),
            forall|k: int| 0 <= k < n ==> #[trigger] ft(k) >= 0,
            sum_below(n as int, ft) <= 0xFFFF,
            total as int == sum_below(j as int, ft),
            fill as int == sum_below(j as int, fc),
            fill <= j,
    {
        proof {
            lemma_sum_below_mono(j + 1, n as int, ft);
        }
        if row_heads[j] {
            total = total + needs[j];
            if needs[j] == 0 {
                fill = fill + 1;
            }
        }
    }
    let fill_h: u16 = if fill > 0 { terminal_height.saturating_sub(total) / fill } else { 0 };
    let mut heights: Vec<u16> = Vec::new();
    for i in 0..n
        invariant
            n == zs.len(),
            needs@.len() == n,
            forall|k: int| 0 <= k < n ==> needs@[k] as int == row_need(zs, mz, row_key(zs, k)),
            fill_h as int == fill_height(zs, mz, terminal_height),
            heights@.len() == i,
            forall|j: int|
                0 <= j < i ==> heights@[j] as int == row_height(zs, mz, terminal_height, row_key(zs, j)),
    {
        if needs[i] > 0 {
            heights.push(needs[i]);
        } else {
            heights.push(fill_h);
        }
    }
    heights
}

proof fn lemma_row_height_nonneg(zs: Seq<ZoneConfig>, ms: Seq<(u16, u16)>, th: u16, rk: int)
    ensures
        row_height(zs, ms, th, rk) >= 0,
        row_need(zs, ms, rk) >= 0,
{
    lemma_max_below_bound(zs.len() as int, row_need_term(zs, ms, rk));
    let c = fill_rows(zs, ms);
    if c > 0 {
        let a = sat_sub(th as int, total_fixed(zs, ms));
        assert(a >= 0);
        assert(a / c >= 0) by (nonlinear_arith)
            requires
                a >= 0,
                c > 0,
        ;
    }
}

proof fn lemma_rows_above_prefix(zs: Seq<ZoneConfig>, ms: Seq<(u16, u16)>, th: u16, rk: int, n: int)
    requires
        0 <= n <= zs.len(),
    ensures
        0 <= sum_below(n, rows_above_term(zs, ms, th, rk)),
        sum_below(n, rows_above_term(zs, ms, th, rk)) + (if row_seen(zs, rk, n) {
            row_height(zs, ms, th, rk)
        } else {
            0
        }) <= sum_below(n, rows_total_term(zs, ms, th)),
    decreases n,
{
    if n > 0 {
        lemma_rows_above_prefix(zs, ms, th, rk, n - 1);
        lemma_row_height_nonneg(zs, ms, th, rk);
        lemma_row_height_nonneg(zs, ms, th, row_key(zs, n - 1));
        assert(row_seen(zs, rk, n) == (row_seen(zs, rk, n - 1) || row_key(zs, n - 1) == rk));
    }
}

/// The top of a zone's row plus the row's height stays within the height of all rows.
proof fn lemma_rows_above_bound(zs: Seq<ZoneConfig>, ms: Seq<(u16, u16)>, th: u16, i: int)
    requires
        0 <= i < zs.len(),
    ensures
        0 <= rows_above(zs, ms, th, row_key(zs, i)),
        0 <= row_height(zs, ms, th, row_key(zs, i)),
        rows_above(zs, ms, th, row_key(zs, i)) + row_height(zs, ms, th, row_key(zs, i)) <= rows_total(
            zs,
            ms,
            th,
        ),
{
    let rk = row_key(zs, i);
    lemma_rows_above_prefix(zs, ms, th, rk, zs.len() as int);
    lemma_any_below_intro(zs.len() as int, in_row_pred(zs, rk), i);
    lemma_row_height_nonneg(zs, ms, th, rk);
}

proof fn lemma_cols_left_prefix(zs: Seq<ZoneConfig>, rk: int, ck: int, n: int)
    requires
        0 <= n <= zs.len(),
    ensures
        0 <= sum_below(n, cols_left_term(zs, rk, ck)),
        0 <= col_width(zs, rk, ck, n),
        sum_below(n, cols_left_term(zs, rk, ck)) + (if col_seen(zs, rk, ck, n) {
            col_width(zs, rk, ck, n)
        } else {
            0
        }) <= sum_below(n, row_width_term(zs, rk)),
    decreases n,
{
    if n > 0 {
        lemma_cols_left_prefix(zs, rk, ck, n - 1);
        assert(col_seen(zs, rk, ck, n) == (col_seen(zs, rk, ck, n - 1) || in_col(zs, rk, ck, n - 1)));
    }
}

/// The left edge of a zone's column plus the column's width stays within the width of its row.
proof fn lemma_cols_left_bound(zs: Seq<ZoneConfig>, i: int)
    requires
        0 <= i < zs.len(),
    ensures
        0 <= cols_left(zs, row_key(zs, i), col_key(zs, i)),
        0 <= col_width(zs, row_key(zs, i), col_key(zs, i), zs.len() as int),
        cols_left(zs, row_key(zs, i), col_key(zs, i)) + col_width(
            zs,
            row_key(zs, i),
            col_key(zs, i),
            zs.len() as int,
        ) <= row_width(zs, row_key(zs, i)),
{
    let rk = row_key(zs, i);
    let ck = col_key(zs, i);
    lemma_cols_left_prefix(zs, rk, ck, zs.len() as int);
    lemma_any_below_intro(zs.len() as int, in_col_pred(zs, rk, ck), i);
}

fn compute_tops(
    zones: &[ZoneConfig],
    ms: &[(u16, u16)],
    terminal_height: u16,
    rks: &Vec<u16>,
    row_heads: &Vec<bool>,
    heights: &Vec<u16>,
) -> (tops: Vec<u16>)
    requires
        rks@.len() == zones@.len(),
        row_heads@.len() == zones@.len(),
        heights@.len() == zones@.len(),
        forall|i: int| 0 <= i < zones@.len() ==> rks@[i] as int == row_key(zones@, i),
        forall|i: int| 0 <= i < zones@.len() ==> row_heads@[i] == is_row_head(zones@, i),
        forall|i: int|
            0 <= i < zones@.len() ==> heights@[i] as int == row_height(zones@, ms@, terminal_height, row_key(zones@, i)),
        rows_total(zones@, ms@, terminal_height) <= 0xFFFF,
    ensures
        tops@.len() == zones@.len(),
        forall|i: int|
            0 <= i < zones@.len() ==> tops@[i] as int == rows_above(zones@, ms@, terminal_height, row_key(zones@, i)),
{
    let ghost zs = zones@;
    let ghost mz = ms@;
    let n = zones.len();
    let mut tops: Vec<u16> = Vec::new();
    for i in 0..n
        invariant
            n == zs.len(),
            zs == zones@,
            mz == ms@,
            rks@.len() == n,
            row_heads@.len() == n,
            heights@.len() == n,
            forall|k: int| 0 <= k < n ==> rks@[k] as int == row_key(zs, k),
            forall|k: int| 0 <= k < n ==> row_heads@[k] == is_row_head(zs, k),
            forall|k: int|
                0 <= k < n ==> heights@[k] as int == row_height(zs, mz, terminal_height, row_key(zs, k)),
            rows_total(zs, mz, terminal_height) <= 0xFFFF,
            tops@.len() == i,
            forall|j: int|
                0 <= j < i ==> tops@[j] as int == rows_above(zs, mz, terminal_height, row_key(zs, j)),
    {
        let rk = rks[i];
        let ghost f = rows_above_term(zs, mz, terminal_height, rk as int);
        proof {
            lemma_rows_above_bound(zs, mz, terminal_height, i as int);
            assert forall|k: int| 0 <= k < n implies #[trigger] f(k) >= 0 by {
                lemma_row_height_nonneg(zs, mz, terminal_height, row_key(zs, k));
            }
        }
        let mut acc: u16 = 0;
        let mut seen = false;
        for j in 0..n
            invariant
                i < n,
                n == zs.len(),
                rks@.len() == n,
                row_heads@.len() == n,
                heights@.len() == n,
                forall|k: int| 0 <= k < n ==> rks@[k] as int == row_key(zs, k),
                forall|k: int| 0 <= k < n ==> row_heads@[k] == is_row_head(zs, k),
                forall|k: int|
                    0 <= k < n ==> heights@[k] as int == row_height(zs, mz, terminal_height, row_key(zs, k)),
                rk as int == row_key(zs, i as int),
                f == rows_above_term(zs, mz, terminal_height, rk as int),
                forall|k: int| 0 <= k < n ==> #[trigger] f(k) >= 0,
                sum_below(n as int, f) <= 0xFFFF,
                acc as int == sum_below(j as int, f),
                seen == row_seen(zs, rk as int, j as int),
        {
            proof {
                lemma_sum_below_mono(j + 1, n as int, f);
            }
            let now_seen = seen || rks[j] == rk;
            if row_heads[j] && !now_seen {
                acc = acc + heights[j];
            }
            seen = now_seen;
        }
        tops.push(acc);
    }
    tops
}

fn compute_lefts(zones: &[ZoneConfig], rks: &Vec<u16>, cks: &Vec<u16>, col_heads: &Vec<bool>) -> (lefts: Vec<u16>)
    requires
        rks@.len() == zones@.len(),
        cks@.len() == zones@.len(),
        col_heads@.len() == zones@.len(),
        forall|i: int| 0 <= i < zones@.len() ==> rks@[i] as int == row_key(zones@, i),
        forall|i: int| 0 <= i < zones@.len() ==> cks@[i] as int == col_key(zones@, i),
        forall|i: int| 0 <= i < zones@.len() ==> col_heads@[i] == is_col_head(zones@, i),
        forall|i: int| 0 <= i < zones@.len() ==> row_width(zones@, #[trigger] row_key(zones@, i)) <= 0xFFFF,
    ensures
        lefts@.len() == zones@.len(),
        forall|i: int|
            0 <= i < zones@.len() ==> lefts@[i] as int == cols_left(zones@, row_key(zones@, i), col_key(zones@, i)),
{
    let ghost zs = zones@;
    let n = zones.len();
    let mut lefts: Vec<u16> = Vec::new();
    for i in 0..n
        invariant
            n == zs.len(),
            zs == zones@,
            rks@.len() == n,
            cks@.len() == n,
            col_heads@.len() == n,
            forall|k: int| 0 <= k < n ==> rks@[k] as int == row_key(zs, k),
            forall|k: int| 0 <= k < n ==> cks@[k] as int == col_key(zs, k),
            forall|k: int| 0 <= k < n ==> col_heads@[k] == is_col_head(zs, k),
            forall|k: int| 0 <= k < n ==> row_width(zs, #[trigger] row_key(zs, k)) <= 0xFFFF,
            lefts@.len() == i,
            forall|j: int| 0 <= j < i ==> lefts@[j] as int == cols_left(zs, row_key(zs, j), col_key(zs, j)),
    {
        let rk = rks[i];
        let ck = cks[i];
        let ghost f = cols_left_term(zs, rk as int, ck as int);
        proof {
            lemma_cols_left_bound(zs, i as int);
            assert(row_width(zs, row_key(zs, i as int)) <= 0xFFFF);
            assert forall|k: int| 0 <= k < n implies #[trigger] f(k) >= 0 by {}
        }
        let mut acc: u16 = 0;
        let mut seen = false;
        for j in 0..n
            invariant
                i < n,
                n == zs.len(),
                zs == zones@,
                rks@.len() == n,
                cks@.len() == n,
                col_heads@.len() == n,
                forall|k: int| 0 <= k < n ==> rks@[k] as int == row_key(zs, k),
                forall|k: int| 0 <= k < n ==> cks@[k] as int == col_key(zs, k),
                forall|k: int| 0 <= k < n ==> col_heads@[k] == is_col_head(zs, k),
                rk as int == row_key(zs, i as int),
                ck as int == col_key(zs, i as int),
                f == cols_left_term(zs, rk as int, ck as int),
                forall|k: int| 0 <= k < n ==> #[trigger] f(k) >= 0,
                sum_below(n as int, f) <= 0xFFFF,
                acc as int == sum_below(j as int, f),
                seen == col_seen(zs, rk as int, ck as int, j as int),
        {
            proof {
                lemma_sum_below_mono(j + 1, n as int, f);
            }
            let now_seen = seen || (rks[j] == rk && cks[j] == ck);
            if col_heads[j] && rks[j] == rk && !now_seen {
                acc = acc + if zones[j].width == 0 { 100 } else { zones[j].width };
            }
            seen = now_seen;
        }
        lefts.push(acc);
    }
    lefts
}

proof fn lemma_floor_mul_le(w: int, rh: int, t: int)
    by (nonlinear_arith)
    requires
        w >= 0,
        rh >= 0,
        t > 0,
    ensures
        (w * rh / t) * t <= w * rh,
        w * rh / t >= 0,
        w <= t ==> w * rh / t <= rh,
{
}

proof fn lemma_div_le(rh: int, c: int)
    by (nonlinear_arith)
    requires
        rh >= 0,
        c >= 1,
    ensures
        0 <= rh / c <= rh,
        c * (rh / c) <= rh,
{
}

proof fn lemma_scaled_le(a: int, b: int, t: int, rh: int)
    by (nonlinear_arith)
    requires
        a * t <= b * rh,
        0 <= b <= t,
        t > 0,
        rh >= 0,
    ensures
        a <= rh,
{
    assert(b * rh <= t * rh);
}

proof fn lemma_count_mul_le(x: int, c: int, q: int, rh: int)
    by (nonlinear_arith)
    requires
        0 <= x,
        x + 1 <= c,
        q >= 0,
        c * q <= rh,
    ensures
        x * q <= rh,
        x * q >= 0,
{
    assert(x * q <= c * q);
}

/// Facts about the shares of the zones of column `(rk, ck)` among the first `n`.
proof fn lemma_shares_prefix(zs: Seq<ZoneConfig>, ms: Seq<(u16, u16)>, th: u16, rk: int, ck: int, n: int)
    requires
        0 <= n <= zs.len(),
        ms.len() >= zs.len(),
    ensures
        shares_above(zs, ms, th, rk, ck, n) >= 0,
        col_sum(zs, ms, rk, ck, zs.len() as int) > 0 ==> shares_above(zs, ms, th, rk, ck, n) * col_sum(
            zs,
            ms,
            rk,
            ck,
            zs.len() as int,
        ) <= col_sum(zs, ms, rk, ck, n) * row_height(zs, ms, th, rk),
        col_sum(zs, ms, rk, ck, zs.len() as int) == 0 ==> shares_above(zs, ms, th, rk, ck, n) == col_count(
            zs,
            rk,
            ck,
            n,
        ) * (row_height(zs, ms, th, rk) / col_count(zs, rk, ck, zs.len() as int)),
    decreases n,
{
    let t = col_sum(zs, ms, rk, ck, zs.len() as int);
    let c = col_count(zs, rk, ck, zs.len() as int);
    let rh = row_height(zs, ms, th, rk);
    lemma_row_height_nonneg(zs, ms, th, rk);
    if n > 0 {
        lemma_shares_prefix(zs, ms, th, rk, ck, n - 1);
        let j = n - 1;
        if in_col(zs, rk, ck, j) {
            let w = wanted_h(zs, ms, j);
            assert(share(zs, ms, th, j) == if t > 0 { w * rh / t } else { rh / c });
            assert(col_sum(zs, ms, rk, ck, n) == col_sum(zs, ms, rk, ck, n - 1) + w);
            assert(col_count(zs, rk, ck, n) == col_count(zs, rk, ck, n - 1) + 1);
            if t > 0 {
                lemma_floor_mul_le(w, rh, t);
                let a = shares_above(zs, ms, th, rk, ck, n - 1);
                let b = col_sum(zs, ms, rk, ck, n - 1);
                assert((a + w * rh / t) * t == a * t + (w * rh / t) * t) by (nonlinear_arith);
                assert((b + w) * rh == b * rh + w * rh) by (nonlinear_arith);
            } else {
                lemma_sum_below_mono(n, zs.len() as int, col_count_term(zs, rk, ck));
                lemma_sum_below_mono(n - 1, zs.len() as int, col_count_term(zs, rk, ck));
                lemma_div_le(rh, c);
                let x = col_count(zs, rk, ck, n - 1);
                let q = rh / c;
                assert((x + 1) * q == x * q + q) by (nonlinear_arith);
                assert(x * q >= 0) by (nonlinear_arith)
                    requires
                        x >= 0,
                        q >= 0,
                ;
            }
        } else {
            assert(col_sum(zs, ms, rk, ck, n) == col_sum(zs, ms, rk, ck, n - 1));
            assert(col_count(zs, rk, ck, n) == col_count(zs, rk, ck, n - 1));
        }
    } else {
        assert(0 * t == 0);
    }
}

/// Every share, and the shares of the zones stacked above a zone, fit in the row height.
proof fn lemma_shares_bound(zs: Seq<ZoneConfig>, ms: Seq<(u16, u16)>, th: u16, i: int)
    requires
        0 <= i < zs.len(),
        ms.len() >= zs.len(),
    ensures
        0 <= share(zs, ms, th, i) <= row_height(zs, ms, th, row_key(zs, i)),
        0 <= shares_above(zs, ms, th, row_key(zs, i), col_key(zs, i), i) <= row_height(
            zs,
            ms,
            th,
            row_key(zs, i),
        ),
        col_count(zs, row_key(zs, i), col_key(zs, i), i + 1) == col_count(zs, row_key(zs, i), col_key(zs, i), i)
            + 1,
        col_count(zs, row_key(zs, i), col_key(zs, i), i + 1) <= col_count(
            zs,
            row_key(zs, i),
            col_key(zs, i),
            zs.len() as int,
        ),
{
    let rk = row_key(zs, i);
    let ck = col_key(zs, i);
    let n = zs.len() as int;
    let t = col_sum(zs, ms, rk, ck, n);
    let c = col_count(zs, rk, ck, n);
    let rh = row_height(zs, ms, th, rk);
    let w = wanted_h(zs, ms, i);
    lemma_row_height_nonneg(zs, ms, th, rk);
    lemma_shares_prefix(zs, ms, th, rk, ck, i);
    assert(in_col(zs, rk, ck, i));
    assert(col_count(zs, rk, ck, i + 1) == col_count(zs, rk, ck, i) + 1);
    lemma_sum_below_mono(i + 1, n, col_count_term(zs, rk, ck));
    lemma_sum_below_mono(i, n, col_count_term(zs, rk, ck));
    lemma_sum_below_mono(i, n, col_sum_term(zs, ms, rk, ck));
    if t > 0 {
        lemma_sum_below_term(n, col_sum_term(zs, ms, rk, ck), i);
        lemma_floor_mul_le(w, rh, t);
        lemma_scaled_le(shares_above(zs, ms, th, rk, ck, i), col_sum(zs, ms, rk, ck, i), t, rh);
    } else {
        lemma_div_le(rh, c);
        lemma_count_mul_le(col_count(zs, rk, ck, i), c, rh / c, rh);
    }
}

fn compute_shares(
    zones: &[ZoneConfig],
    ms: &[(u16, u16)],
    terminal_height: u16,
    wants: &Vec<u16>,
    st: &ColumnStats,
    heights: &Vec<u16>,
) -> (shares: Vec<u16>)
    requires
        ms@.len() >= zones@.len(),
        wants@.len() == zones@.len(),
        st.sum@.len() == zones@.len(),
        st.count@.len() == zones@.len(),
        heights@.len() == zones@.len(),
        forall|i: int| 0 <= i < zones@.len() ==> wants@[i] as int == wanted_h(zones@, ms@, i),
        forall|i: int|
            0 <= i < zones@.len() ==> st.sum@[i] as int == col_sum(
                zones@,
                ms@,
                row_key(zones@, i),
                col_key(zones@, i),
                zones@.len() as int,
            ),
        forall|i: int|
            0 <= i < zones@.len() ==> st.count@[i] as int == col_count(
                zones@,
                row_key(zones@, i),
                col_key(zones@, i),
                zones@.len() as int,
            ),
        forall|i: int|
            0 <= i < zones@.len() ==> heights@[i] as int == row_height(zones@, ms@, terminal_height, row_key(zones@, i)),
    ensures
        shares@.len() == zones@.len(),
        forall|i: int| 0 <= i < zones@.len() ==> shares@[i] as int == share(zones@, ms@, terminal_height, i),
{
    let ghost zs = zones@;
    let ghost mz = ms@;
    let n = zones.len();
    let mut shares: Vec<u16> = Vec::new();
    for i in 0..n
        invariant
            n == zs.len(),
            zs == zones@,
            mz == ms@,
            mz.len() >= n,
            wants@.len() == n,
            st.sum@.len() == n,
            st.count@.len() == n,
            heights@.len() == n,
            forall|k: int| 0 <= k < n ==> wants@[k] as int == wanted_h(zs, mz, k),
            forall|k: int|
                0 <= k < n ==> st.sum@[k] as int == col_sum(zs, mz, row_key(zs, k), col_key(zs, k), n as int),
            forall|k: int|
                0 <= k < n ==> st.count@[k] as int == col_count(zs, row_key(zs, k), col_key(zs, k), n as int),
            forall|k: int|
                0 <= k < n ==> heights@[k] as int == row_height(zs, mz, terminal_height, row_key(zs, k)),
            shares@.len() == i,
            forall|j: int| 0 <= j < i ==> shares@[j] as int == share(zs, mz, terminal_height, j),
    {
        proof {
            lemma_shares_bound(zs, mz, terminal_height, i as int);
            lemma_sum_below_mono(
                i as int,
                n as int,
                col_count_term(zs, row_key(zs, i as int), col_key(zs, i as int)),
            );
        }
        let rh = heights[i];
        let total = st.sum[i];
        let v: u16 = if total > 0 {
            assert(wants[i as int] as int * rh as int <= 0xFFFF * 0xFFFF) by (nonlinear_arith)
                requires
                    wants[i as int] <= 0xFFFF,
                    rh <= 0xFFFF,
            ;
            let q: u32 = wants[i] as u32 * rh as u32 / total as u32;
            assert(q as int == share(zs, mz, terminal_height, i as int));
            q as u16
        } else {
            rh / st.count[i]
        };
        shares.push(v);
    }
    shares
}

/// For each zone, the shares of the zones stacked above it in its column and
/// how many zones those are.
fn compute_stacks(zones: &[ZoneConfig], ms: &[(u16, u16)], terminal_height: u16, rks: &Vec<u16>, cks: &Vec<u16>, shares: &Vec<u16>)
    -> (r: (Vec<u16>, Vec<u16>))
    requires
        ms@.len() >= zones@.len(),
        zones@.len() <= 0xFFFF,
        rks@.len() == zones@.len(),
        cks@.len() == zones@.len(),
        shares@.len() == zones@.len(),
        forall|i: int| 0 <= i < zones@.len() ==> rks@[i] as int == row_key(zones@, i),
        forall|i: int| 0 <= i < zones@.len() ==> cks@[i] as int == col_key(zones@, i),
        forall|i: int| 0 <= i < zones@.len() ==> shares@[i] as int == share(zones@, ms@, terminal_height, i),
        rows_total(zones@, ms@, terminal_height) <= 0xFFFF,
    ensures
        r.0@.len() == zones@.len(),
        r.1@.len() == zones@.len(),
        forall|i: int|
            0 <= i < zones@.len() ==> r.0@[i] as int == shares_above(
                zones@,
                ms@,
                terminal_height,
                row_key(zones@, i),
                col_key(zones@, i),
                i,
            ),
        forall|i: int|
            0 <= i < zones@.len() ==> r.1@[i] as int == col_count(zones@, row_key(zones@, i), col_key(zones@, i), i),
{
    let ghost zs = zones@;
    let ghost mz = ms@;
    let n = zones.len();
    let mut aboves: Vec<u16> = Vec::new();
    let mut befores: Vec<u16> = Vec::new();
    for i in 0..n
        invariant
            n == zs.len(),
            zs == zones@,
            mz == ms@,
            mz.len() >= n,
            n <= 0xFFFF,
            rks@.len() == n,
            cks@.len() == n,
            shares@.len() == n,
            forall|k: int| 0 <= k < n ==> rks@[k] as int == row_key(zs, k),
            forall|k: int| 0 <= k < n ==> cks@[k] as int == col_key(zs, k),
            forall|k: int| 0 <= k < n ==> shares@[k] as int == share(zs, mz, terminal_height, k),
            rows_total(zs, mz, terminal_height) <= 0xFFFF,
            aboves@.len() == i,
            befores@.len() == i,
            forall|j: int|
                0 <= j < i ==> aboves@[j] as int == shares_above(zs, mz, terminal_height, row_key(zs, j), col_key(zs, j), j),
            forall|j: int| 0 <= j < i ==> befores@[j] as int == col_count(zs, row_key(zs, j), col_key(zs, j), j),
    {
        let rk = rks[i];
        let ck = cks[i];
        let ghost f = shares_term(zs, mz, terminal_height, rk as int, ck as int);
        let ghost fc = col_count_term(zs, rk as int, ck as int);
        proof {
            lemma_shares_bound(zs, mz, terminal_height, i as int);
            lemma_rows_above_bound(zs, mz, terminal_height, i as int);
            assert forall|k: int| 0 <= k < n implies #[trigger] f(k) >= 0 by {
                lemma_shares_bound(zs, mz, terminal_height, k);
            }
        }
        let mut acc: u16 = 0;
        let mut count: u16 = 0;
        for j in 0..i
            invariant
                i < n,
                n == zs.len(),
                n <= 0xFFFF,
                rks@.len() == n,
                cks@.len() == n,
                shares@.len() == n,
                forall|k: int| 0 <= k < n ==> rks@[k] as int == row_key(zs, k),
                forall|k: int| 0 <= k < n ==> cks@[k] as int == col_key(zs, k),
                forall|k: int| 0 <= k < n ==> shares@[k] as int == share(zs, mz, terminal_height, k),
                rk as int == row_key(zs, i as int),
                ck as int == col_key(zs, i as int),
                f == shares_term(zs, mz, terminal_height, rk as int, ck as int),
                fc == col_count_term(zs, rk as int, ck as int),
                forall|k: int| 0 <= k < n ==> #[trigger] f(k) >= 0,
                sum_below(i as int, f) <= 0xFFFF,
                acc as int == sum_below(j as int, f),
                count as int == sum_below(j as int, fc),
                count <= j,
        {
            proof {
                lemma_sum_below_mono(j + 1, i as int, f);
            }
            if rks[j] == rk && cks[j] == ck {
                acc = acc + shares[j];
                count = count + 1;
            }
        }
        aboves.push(acc);
        befores.push(count);
    }
    (aboves, befores)
}

/// Builds the layouts of rows (stacked) mode, one per zone and in the order of the zones.
///
/// Zones are grouped by their `row` (a zone without one opens a row of its
/// own), rows by their `col`; zones of one column are stacked. Rows appear in
/// the order in which their first zone appears, top to bottom; a row is as
/// tall as its tallest column, or takes an even part of the height that such
/// rows leave when it asks for none. Columns sit side by side in the order in
/// which they first appear, each as wide, in percent, as its first zone asks.
/// `min_sizes[i]` is the minimum (width, height) of the widget of zone `i`.
pub fn build_rows(zones: &[ZoneConfig], min_sizes: &[(u16, u16)], terminal_height: u16) -> (r: Vec<ZoneLayout>)
    requires
        rows_fit(zones@, min_sizes@, terminal_height),
    ensures
        r@.len() == zones@.len(),
        forall|i: int|
            0 <= i < zones@.len() ==> (#[trigger] r@[i])@ == rows_zone_layout(zones@, min_sizes@, terminal_height, i),
{
    let ghost zs = zones@;
    let ghost mz = min_sizes@;
    let n = zones.len();
    let rks = compute_row_keys(zones);
    let cks = compute_col_keys(zones, &rks);
    let wants = compute_wanted(zones, min_sizes);
    let row_heads = compute_row_heads(zones, &rks);
    let col_heads = compute_col_heads(zones, &rks, &cks);
    let st = compute_column_stats(zones, min_sizes, &rks, &cks, &wants);
    let needs = compute_row_needs(zones, min_sizes, &rks, &col_heads, &st.sum);
    let heights = compute_row_heights(zones, min_sizes, terminal_height, &rks, &row_heads, &needs);
    let tops = compute_tops(zones, min_sizes, terminal_height, &rks, &row_heads, &heights);
    let lefts = compute_lefts(zones, &rks, &cks, &col_heads);
    let shares = compute_shares(zones, min_sizes, terminal_height, &wants, &st, &heights);
    let (aboves, befores) = compute_stacks(zones, min_sizes, terminal_height, &rks, &cks, &shares);
    let mut out: Vec<ZoneLayout> = Vec::new();
    for i in 0..n
        invariant
            n == zs.len(),
            zs == zones@,
            mz == min_sizes@,
            rows_fit(zs, mz, terminal_height),
            st.count@.len() == n,
            st.width@.len() == n,
            heights@.len() == n,
            tops@.len() == n,
            lefts@.len() == n,
            shares@.len() == n,
            aboves@.len() == n,
            befores@.len() == n,
            forall|k: int|
                0 <= k < n ==> st.count@[k] as int == col_count(zs, row_key(zs, k), col_key(zs, k), n as int),
            forall|k: int|
                0 <= k < n ==> st.width@[k] as int == col_width(zs, row_key(zs, k), col_key(zs, k), n as int),
            forall|k: int|
                0 <= k < n ==> heights@[k] as int == row_height(zs, mz, terminal_height, row_key(zs, k)),
            forall|k: int| 0 <= k < n ==> tops@[k] as int == rows_above(zs, mz, terminal_height, row_key(zs, k)),
            forall|k: int| 0 <= k < n ==> lefts@[k] as int == cols_left(zs, row_key(zs, k), col_key(zs, k)),
            forall|k: int| 0 <= k < n ==> shares@[k] as int == share(zs, mz, terminal_height, k),
            forall|k: int|
                0 <= k < n ==> aboves@[k] as int == shares_above(zs, mz, terminal_height, row_key(zs, k), col_key(zs, k), k),
            forall|k: int| 0 <= k < n ==> befores@[k] as int == col_count(zs, row_key(zs, k), col_key(zs, k), k),
            out@.len() == i,
            forall|j: int| 0 <= j < i ==> (#[trigger] out@[j])@ == rows_zone_layout(zs, mz, terminal_height, j),
    {
        proof {
            lemma_rows_above_bound(zs, mz, terminal_height, i as int);
            lemma_shares_bound(zs, mz, terminal_height, i as int);
        }
        let rh = heights[i];
        let top = tops[i];
        let x = lefts[i];
        let w = st.width[i];
        let count = st.count[i];
        let rect = if count == 1 {
            ComputedRect::Fixed { x, y: top, w, h: rh }
        } else {
            let above = aboves[i];
            let h = if befores[i] + 1 == count {
                rh.saturating_sub(above)
            } else {
                shares[i]
            };
            ComputedRect::Fixed { x, y: top + above, w, h }
        };
        let min_w = match zones[i].min_width {
            Some(v) => v,
            None => min_sizes[i].0,
        };
        let min_h = match zones[i].min_height {
            Some(v) => v,
            None => min_sizes[i].1,
        };
        let layout = ZoneLayout { id: zones[i].id.clone(), rect, min_w, min_h, row_y: Some(top) };
        assert(layout@ == rows_zone_layout(zs, mz, terminal_height, i as int));
        out.push(layout);
    }
    out
}

/// How many of the zones lie in row `rk` and name no column.
fn count_auto_cols(zones: &[ZoneConfig], rks: &Vec<u16>, rk: u16) -> (c: usize)
    requires
        rks@.len() == zones@.len(),
        forall|i: int| 0 <= i < zones@.len() ==> rks@[i] as int == row_key(zones@, i),
    ensures
        c as int == auto_cols(zones@, rk as int, zones@.len() as int),
{
    let ghost zs = zones@;
    let n = zones.len();
    let mut c: usize = 0;
    for j in 0..n
        invariant
            n == zs.len(),
            zs == zones@,
            rks@.len() == n,
            forall|k: int| 0 <= k < n ==> rks@[k] as int == row_key(zs, k),
            c <= j,
            c as int == auto_cols(zs, rk as int, j as int),
    {
        if rks[j] == rk && zones[j].col.is_none() {
            c = c + 1;
        }
    }
    c
}

/// The heights asked for by the zones of column `(rk, ck)`, added up.
fn column_height_sum(zones: &[ZoneConfig], ms: &[(u16, u16)], rks: &Vec<u16>, cks: &Vec<u16>, wants: &Vec<u16>, rk: u16, ck: u16) -> (s: u64)
    requires
        zones@.len() <= 0xFFFF,
        rks@.len() == zones@.len(),
        cks@.len() == zones@.len(),
        wants@.len() == zones@.len(),
        forall|i: int| 0 <= i < zones@.len() ==> rks@[i] as int == row_key(zones@, i),
        forall|i: int| 0 <= i < zones@.len() ==> cks@[i] as int == col_key(zones@, i),
        forall|i: int| 0 <= i < zones@.len() ==> wants@[i] as int == wanted_h(zones@, ms@, i),
    ensures
        s as int == col_sum(zones@, ms@, rk as int, ck as int, zones@.len() as int),
{
    let ghost zs = zones@;
    let ghost f = col_sum_term(zs, ms@, rk as int, ck as int);
    let n = zones.len();
    let mut s: u64 = 0;
    for j in 0..n
        invariant
            n == zs.len(),
            n <= 0xFFFF,
            rks@.len() == n,
            cks@.len() == n,
            wants@.len() == n,
            forall|k: int| 0 <= k < n ==> rks@[k] as int == row_key(zs, k),
            forall|k: int| 0 <= k < n ==> cks@[k] as int == col_key(zs, k),
            forall|k: int| 0 <= k < n ==> wants@[k] as int == wanted_h(zs, ms@, k),
            f == col_sum_term(zs, ms@, rk as int, ck as int),
            s <= j * 0xFFFF,
            s as int == sum_below(j as int, f),
    {
        if rks[j] == rk && cks[j] == ck {
            s = s + wants[j] as u64;
        }
    }
    s
}

/// The widths of the columns of row `rk`, added up.
fn row_width_sum(zones: &[ZoneConfig], rks: &Vec<u16>, col_heads: &Vec<bool>, rk: u16) -> (s: u64)
    requires
        zones@.len() <= 0xFFFF,
        rks@.len() == zones@.len(),
        col_heads@.len() == zones@.len(),
        forall|i: int| 0 <= i < zones@.len() ==> rks@[i] as int == row_key(zones@, i),
        forall|i: int| 0 <= i < zones@.len() ==> col_heads@[i] == is_col_head(zones@, i),
    ensures
        s as int == row_width(zones@, rk as int),
{
    let ghost zs = zones@;
    let ghost f = row_width_term(zs, rk as int);
    let n = zones.len();
    let mut s: u64 = 0;
    for j in 0..n
        invariant
            n == zs.len(),
            zs == zones@,
            n <= 0xFFFF,
            rks@.len() == n,
            col_heads@.len() == n,
            forall|k: int| 0 <= k < n ==> rks@[k] as int == row_key(zs, k),
            forall|k: int| 0 <= k < n ==> col_heads@[k] == is_col_head(zs, k),
            f == row_width_term(zs, rk as int),
            s <= j * 0xFFFF,
            s as int == sum_below(j as int, f),
    {
        if col_heads[j] && rks[j] == rk {
            let w: u16 = if zones[j].width == 0 { 100 } else { zones[j].width };
            s = s + w as u64;
        }
    }
    s
}

/// Whether `build_rows` can lay out these zones within 16-bit arithmetic.
pub fn rows_layout_fits(zones: &[ZoneConfig], min_sizes: &[(u16, u16)], terminal_height: u16) -> (ok: bool)
    ensures
        ok == rows_fit(zones@, min_sizes@, terminal_height),
{
    let ghost zs = zones@;
    let ghost mz = min_sizes@;
    let n = zones.len();
    if min_sizes.len() < n || n > 0xFFFF {
        return false;
    }
    let mut autos: usize = 0;
    for i in 0..n
        invariant
            n == zs.len(),
            zs == zones@,
            autos <= i,
            autos as int == auto_rows(zs, i as int),
    {
        if zones[i].row.is_none() {
            autos = autos + 1;
        }
    }
    if autos > 65 {
        return false;
    }
    let rks = compute_row_keys(zones);
    for i in 0..n
        invariant
            n == zs.len(),
            zs == zones@,
            rks@.len() == n,
            forall|k: int| 0 <= k < n ==> rks@[k] as int == row_key(zs, k),
            forall|k: int| 0 <= k < i ==> auto_cols(zs, #[trigger] row_key(zs, k), n as int) <= 55535,
    {
        if count_auto_cols(zones, &rks, rks[i]) > 55535 {
            assert(auto_cols(zs, row_key(zs, i as int), n as int) > 55535);
            return false;
        }
    }
    let cks = compute_col_keys(zones, &rks);
    let wants = compute_wanted(zones, min_sizes);
    for i in 0..n
        invariant
            n == zs.len(),
            zs == zones@,
            mz == min_sizes@,
            n <= 0xFFFF,
            rks@.len() == n,
            cks@.len() == n,
            wants@.len() == n,
            forall|k: int| 0 <= k < n ==> rks@[k] as int == row_key(zs, k),
            forall|k: int| 0 <= k < n ==> cks@[k] as int == col_key(zs, k),
            forall|k: int| 0 <= k < n ==> wants@[k] as int == wanted_h(zs, mz, k),
            forall|k: int| 0 <= k < i ==> col_sum(zs, mz, row_key(zs, k), #[trigger] col_key(zs, k), n as int) <= 0xFFFF,
    {
        if column_height_sum(zones, min_sizes, &rks, &cks, &wants, rks[i], cks[i]) > 0xFFFF {
            assert(col_sum(zs, mz, row_key(zs, i as int), col_key(zs, i as int), n as int) > 0xFFFF);
            return false;
        }
    }
    let row_heads = compute_row_heads(zones, &rks);
    let col_heads = compute_col_heads(zones, &rks, &cks);
    let st = compute_column_stats(zones, min_sizes, &rks, &cks, &wants);
    let needs = compute_row_needs(zones, min_sizes, &rks, &col_heads, &st.sum);
    let ghost ft = total_fixed_term(zs, mz);
    let mut total: u64 = 0;
    for j in 0..n
        invariant
            n == zs.len(),
            n <= 0xFFFF,
            row_heads@.len() == n,
            needs@.len() == n,
            forall|k: int| 0 <= k < n ==> row_heads@[k] == is_row_head(zs, k),
            forall|k: int| 0 <= k < n ==> needs@[k] as int == row_need(zs, mz, row_key(zs, k)),
            ft == total_fixed_term(zs, mz),
            total <= j * 0xFFFF,
            total as int == sum_below(j as int, ft),
    {
        if row_heads[j] {
            total = total + needs[j] as u64;
        }
    }
    if total > 0xFFFF {
        return false;
    }
    for i in 0..n
        invariant
            n == zs.len(),
            zs == zones@,
            n <= 0xFFFF,
            rks@.len() == n,
            col_heads@.len() == n,
            forall|k: int| 0 <= k < n ==> rks@[k] as int == row_key(zs, k),
            forall|k: int| 0 <= k < n ==> col_heads@[k] == is_col_head(zs, k),
            forall|k: int| 0 <= k < i ==> row_width(zs, #[trigger] row_key(zs, k)) <= 0xFFFF,
    {
        if row_width_sum(zones, &rks, &col_heads, rks[i]) > 0xFFFF {
            assert(row_width(zs, row_key(zs, i as int)) > 0xFFFF);
            return false;
        }
    }
    let heights = compute_row_heights(zones, min_sizes, terminal_height, &rks, &row_heads, &needs);
    let ghost fr = rows_total_term(zs, mz, terminal_height);
    let mut all: u64 = 0;
    for j in 0..n
        invariant
            n == zs.len(),
            n <= 0xFFFF,
            row_heads@.len() == n,
            heights@.len() == n,
            forall|k: int| 0 <= k < n ==> row_heads@[k] == is_row_head(zs, k),
            forall|k: int|
                0 <= k < n ==> heights@[k] as int == row_height(zs, mz, terminal_height, row_key(zs, k)),
            fr == rows_total_term(zs, mz, terminal_height),
            all <= j * 0xFFFF,
            all as int == sum_below(j as int, fr),
    {
        if row_heads[j] {
            all = all + heights[j] as u64;
        }
    }
    all <= 0xFFFF
}

// ---------------------------------------------------------------------------
// Laws of rows mode.
// ---------------------------------------------------------------------------

proof fn lemma_row_seen_mono(zs: Seq<ZoneConfig>, rk: int, k: int, m: int)
    requires
        0 <= k <= m,
        row_seen(zs, rk, k),
    ensures
        row_seen(zs, rk, m),
{
    lemma_any_below_elim(k, in_row_pred(zs, rk));
    lemma_any_below_elim(m, in_row_pred(zs, rk));
    let w = choose|w: int| 0 <= w < k && #[trigger] in_row_pred(zs, rk)(w);
    assert(in_row_pred(zs, rk)(w));
}

proof fn lemma_rows_order_prefix(zs: Seq<ZoneConfig>, ms: Seq<(u16, u16)>, th: u16, r1: int, r2: int, n: int)
    requires
        0 <= n <= zs.len(),
        r1 != r2,
        forall|m: int| 0 <= m < zs.len() && row_key(zs, m) == r2 ==> row_seen(zs, r1, m),
    ensures
        sum_below(n, rows_above_term(zs, ms, th, r1)) + (if row_seen(zs, r1, n) {
            row_height(zs, ms, th, r1)
        } else {
            0
        }) <= sum_below(n, rows_above_term(zs, ms, th, r2)),
    decreases n,
{
    if n > 0 {
        let m = n - 1;
        lemma_rows_order_prefix(zs, ms, th, r1, r2, m);
        lemma_row_height_nonneg(zs, ms, th, r1);
        lemma_row_height_nonneg(zs, ms, th, row_key(zs, m));
        assert(row_seen(zs, r1, n) == (row_seen(zs, r1, m) || row_key(zs, m) == r1));
        assert(row_seen(zs, r2, n) == (row_seen(zs, r2, m) || row_key(zs, m) == r2));
        if row_seen(zs, r2, n) {
            lemma_any_below_elim(n, in_row_pred(zs, r2));
            let k = choose|k: int| 0 <= k < n && #[trigger] in_row_pred(zs, r2)(k);
            assert(in_row_pred(zs, r2)(k));
            lemma_row_seen_mono(zs, r1, k, m);
        }
    }
}

/// Rows stack from the top in the order in which they first appear, without
/// overlapping: when zone `i` is the first of its row and zone `j` the first
/// of a later row, the row of `i` ends at or above the top of the row of `j`.
pub proof fn law_rows_stack_in_order(zs: Seq<ZoneConfig>, ms: Seq<(u16, u16)>, th: u16, i: int, j: int)
    requires
        0 <= i < j < zs.len(),
        is_row_head(zs, i),
        is_row_head(zs, j),
    ensures
        rows_above(zs, ms, th, row_key(zs, i)) + row_height(zs, ms, th, row_key(zs, i)) <= rows_above(
            zs,
            ms,
            th,
            row_key(zs, j),
        ),
{
    let r1 = row_key(zs, i);
    let r2 = row_key(zs, j);
    lemma_any_below_elim(j, in_row_pred(zs, r2));
    if r1 == r2 {
        assert(in_row_pred(zs, r2)(i));
        assert(false);
    }
    assert forall|m: int| 0 <= m < zs.len() && row_key(zs, m) == r2 implies row_seen(zs, r1, m) by {
        if m <= i {
            assert(in_row_pred(zs, r2)(m));
        }
        lemma_any_below_intro(m, in_row_pred(zs, r1), i);
    }
    lemma_rows_order_prefix(zs, ms, th, r1, r2, zs.len() as int);
    lemma_any_below_intro(zs.len() as int, in_row_pred(zs, r1), i);
}

proof fn lemma_col_seen_mono(zs: Seq<ZoneConfig>, rk: int, ck: int, k: int, m: int)
    requires
        0 <= k <= m,
        col_seen(zs, rk, ck, k),
    ensures
        col_seen(zs, rk, ck, m),
{
    lemma_any_below_elim(k, in_col_pred(zs, rk, ck));
    lemma_any_below_elim(m, in_col_pred(zs, rk, ck));
    let w = choose|w: int| 0 <= w < k && #[trigger] in_col_pred(zs, rk, ck)(w);
    assert(in_col_pred(zs, rk, ck)(w));
}

proof fn lemma_cols_order_prefix(zs: Seq<ZoneConfig>, rk: int, c1: int, c2: int, n: int)
    requires
        0 <= n <= zs.len(),
        c1 != c2,
        forall|m: int| 0 <= m < zs.len() && in_col(zs, rk, c2, m) ==> col_seen(zs, rk, c1, m),
    ensures
        sum_below(n, cols_left_term(zs, rk, c1)) + (if col_seen(zs, rk, c1, n) {
            col_width(zs, rk, c1, n)
        } else {
            0
        }) <= sum_below(n, cols_left_term(zs, rk, c2)),
    decreases n,
{
    if n > 0 {
        let m = n - 1;
        lemma_cols_order_prefix(zs, rk, c1, c2, m);
        assert(col_seen(zs, rk, c1, n) == (col_seen(zs, rk, c1, m) || in_col(zs, rk, c1, m)));
        assert(col_seen(zs, rk, c2, n) == (col_seen(zs, rk, c2, m) || in_col(zs, rk, c2, m)));
        if col_seen(zs, rk, c2, n) {
            lemma_any_below_elim(n, in_col_pred(zs, rk, c2));
            let k = choose|k: int| 0 <= k < n && #[trigger] in_col_pred(zs, rk, c2)(k);
            assert(in_col_pred(zs, rk, c2)(k));
            lemma_col_seen_mono(zs, rk, c1, k, m);
        }
    }
}

/// Columns of a row sit side by side from the left in the order in which they
/// first appear, without overlapping: when zones `i` and `j` of one row are
/// the first of their columns and `i` comes first, the column of `i` ends at
/// or left of where the column of `j` begins.
pub proof fn law_columns_side_by_side(zs: Seq<ZoneConfig>, i: int, j: int)
    requires
        0 <= i < j < zs.len(),
        row_key(zs, i) == row_key(zs, j),
        is_col_head(zs, i),
        is_col_head(zs, j),
    ensures
        cols_left(zs, row_key(zs, i), col_key(zs, i)) + col_width(
            zs,
            row_key(zs, i),
            col_key(zs, i),
            zs.len() as int,
        ) <= cols_left(zs, row_key(zs, j), col_key(zs, j)),
{
    let rk = row_key(zs, i);
    let c1 = col_key(zs, i);
    let c2 = col_key(zs, j);
    lemma_any_below_elim(j, in_col_pred(zs, rk, c2));
    if c1 == c2 {
        assert(in_col_pred(zs, rk, c2)(i));
        assert(false);
    }
    assert forall|m: int| 0 <= m < zs.len() && in_col(zs, rk, c2, m) implies col_seen(zs, rk, c1, m) by {
        if m <= i {
            assert(in_col_pred(zs, rk, c2)(m));
        }
        lemma_any_below_intro(m, in_col_pred(zs, rk, c1), i);
    }
    lemma_cols_order_prefix(zs, rk, c1, c2, zs.len() as int);
    lemma_any_below_intro(zs.len() as int, in_col_pred(zs, rk, c1), i);
}

/// The shares of column `(rk, ck)` up to `a` and up to `b` agree when no zone
/// of the column lies in between.
proof fn lemma_shares_gap(zs: Seq<ZoneConfig>, ms: Seq<(u16, u16)>, th: u16, rk: int, ck: int, a: int, b: int)
    requires
        0 <= a <= b <= zs.len(),
        col_count(zs, rk, ck, a) == col_count(zs, rk, ck, b),
    ensures
        shares_above(zs, ms, th, rk, ck, a) == shares_above(zs, ms, th, rk, ck, b),
    decreases b - a,
{
    if b > a {
        lemma_sum_below_mono(a, b - 1, col_count_term(zs, rk, ck));
        assert(col_count(zs, rk, ck, b) == col_count(zs, rk, ck, b - 1) + if in_col(zs, rk, ck, b - 1) {
            1int
        } else {
            0int
        });
        lemma_shares_gap(zs, ms, th, rk, ck, a, b - 1);
    }
}

/// The shares of the zones of a column up to and including zone `i` fit in the row height.
proof fn lemma_shares_through(zs: Seq<ZoneConfig>, ms: Seq<(u16, u16)>, th: u16, i: int)
    requires
        0 <= i < zs.len(),
        ms.len() >= zs.len(),
    ensures
        shares_above(zs, ms, th, row_key(zs, i), col_key(zs, i), i + 1) == shares_above(
            zs,
            ms,
            th,
            row_key(zs, i),
            col_key(zs, i),
            i,
        ) + share(zs, ms, th, i),
        shares_above(zs, ms, th, row_key(zs, i), col_key(zs, i), i + 1) <= row_height(zs, ms, th, row_key(zs, i)),
{
    let rk = row_key(zs, i);
    let ck = col_key(zs, i);
    let n = zs.len() as int;
    let t = col_sum(zs, ms, rk, ck, n);
    let c = col_count(zs, rk, ck, n);
    let rh = row_height(zs, ms, th, rk);
    assert(in_col(zs, rk, ck, i));
    lemma_row_height_nonneg(zs, ms, th, rk);
    lemma_shares_prefix(zs, ms, th, rk, ck, i + 1);
    lemma_shares_bound(zs, ms, th, i);
    lemma_sum_below_mono(i + 1, n, col_count_term(zs, rk, ck));
    lemma_sum_below_mono(i, n, col_count_term(zs, rk, ck));
    lemma_sum_below_mono(i + 1, n, col_sum_term(zs, ms, rk, ck));
    if t > 0 {
        lemma_scaled_le(shares_above(zs, ms, th, rk, ck, i + 1), col_sum(zs, ms, rk, ck, i + 1), t, rh);
    } else {
        lemma_div_le(rh, c);
        lemma_count_mul_le(col_count(zs, rk, ck, i), c, rh / c, rh);
        let x = col_count(zs, rk, ck, i);
        let q = rh / c;
        assert((x + 1) * q == x * q + q) by (nonlinear_arith);
        assert((x + 1) * q <= c * q) by (nonlinear_arith)
            requires
                x + 1 <= c,
                q >= 0,
        ;
    }
}

/// Zones stacked in one column fill their row's band from top to bottom
/// without gaps or overlap: each lies within the band, the first begins at
/// the row's top, each later one begins where the one before it ends, and
/// the last ends at the row's bottom.
pub proof fn law_stacked_zones_tile_row(zs: Seq<ZoneConfig>, ms: Seq<(u16, u16)>, th: u16, i: int, j: int)
    requires
        rows_fit(zs, ms, th),
        0 <= i < zs.len(),
        0 <= j < zs.len(),
    ensures
        ({
            let rk = row_key(zs, i);
            let ck = col_key(zs, i);
            let top = rows_above(zs, ms, th, rk);
            let rh = row_height(zs, ms, th, rk);
            let r = rows_zone_rect(zs, ms, th, i);
            &&& top <= r->y
            &&& r->y + r->h <= top + rh
            &&& col_count(zs, rk, ck, i) == 0 ==> r->y == top
            &&& col_count(zs, rk, ck, i + 1) == col_count(zs, rk, ck, zs.len() as int) ==> r->y + r->h == top + rh
        }),
        i < j && row_key(zs, j) == row_key(zs, i) && col_key(zs, j) == col_key(zs, i) && col_count(
            zs,
            row_key(zs, i),
            col_key(zs, i),
            j,
        ) == col_count(zs, row_key(zs, i), col_key(zs, i), i) + 1 ==> rows_zone_rect(zs, ms, th, j)->y == rows_zone_rect(
            zs,
            ms,
            th,
            i,
        )->y + rows_zone_rect(zs, ms, th, i)->h,
{
    let n = zs.len() as int;
    let rk = row_key(zs, i);
    let ck = col_key(zs, i);
    let top = rows_above(zs, ms, th, rk);
    let rh = row_height(zs, ms, th, rk);
    lemma_rows_above_bound(zs, ms, th, i);
    lemma_shares_bound(zs, ms, th, i);
    lemma_shares_through(zs, ms, th, i);
    lemma_sum_below_mono(i, n, col_count_term(zs, rk, ck));
    if col_count(zs, rk, ck, i) == 0 {
        assert(col_count(zs, rk, ck, 0) == 0);
        lemma_shares_gap(zs, ms, th, rk, ck, 0, i);
        assert(shares_above(zs, ms, th, rk, ck, 0) == 0);
    }
    if i < j && row_key(zs, j) == rk && col_key(zs, j) == ck && col_count(zs, rk, ck, j) == col_count(zs, rk, ck, i)
        + 1 {
        lemma_rows_above_bound(zs, ms, th, j);
        lemma_shares_bound(zs, ms, th, j);
        lemma_shares_gap(zs, ms, th, rk, ck, i + 1, j);
        assert(col_count(zs, rk, ck, n) >= 2);
    }
}

/// A sum of `f + c * g` is the sum of `f` plus `c` times the sum of `g`.
proof fn lemma_sum_scaled(n: int, f: spec_fn(int) -> int, g: spec_fn(int) -> int, h: spec_fn(int) -> int, c: int)
    requires
        forall|j: int| 0 <= j < n ==> #[trigger] h(j) == f(j) + c * g(j),
    ensures
        sum_below(n, h) == sum_below(n, f) + c * sum_below(n, g),
    decreases n,
{
    if n > 0 {
        lemma_sum_scaled(n - 1, f, g, h, c);
        let a = sum_below(n - 1, g);
        let b = g(n - 1);
        assert(c * a + c * b == c * (a + b)) by (nonlinear_arith);
    }
}

/// Rows without a height of their own fill the space that the fixed rows
/// leave: all rows together are the fixed heights plus one even share per
/// such row; when the fixed rows fit in the terminal, all rows fit, and the
/// rows left unfilled are fewer than the rows that share the space.
pub proof fn law_rows_fill_terminal(zs: Seq<ZoneConfig>, ms: Seq<(u16, u16)>, th: u16)
    ensures
        rows_total(zs, ms, th) == total_fixed(zs, ms) + fill_rows(zs, ms) * fill_height(zs, ms, th),
        total_fixed(zs, ms) <= th ==> rows_total(zs, ms, th) <= th,
        total_fixed(zs, ms) <= th && fill_rows(zs, ms) > 0 ==> th - rows_total(zs, ms, th) < fill_rows(zs, ms),
{
    let n = zs.len() as int;
    let fh = fill_height(zs, ms, th);
    assert forall|j: int| 0 <= j < n implies #[trigger] rows_total_term(zs, ms, th)(j) == total_fixed_term(zs, ms)(j)
        + fh * fill_rows_term(zs, ms)(j) by {
        lemma_row_height_nonneg(zs, ms, th, row_key(zs, j));
    }
    lemma_sum_scaled(n, total_fixed_term(zs, ms), fill_rows_term(zs, ms), rows_total_term(zs, ms, th), fh);
    let c = fill_rows(zs, ms);
    let tf = total_fixed(zs, ms);
    if c > 0 && tf <= th {
        let a = th - tf;
        assert(c * (a / c) <= a && a - c * (a / c) < c) by (nonlinear_arith)
            requires
                a >= 0,
                c > 0,
        ;
    }
}

/// The first zone of the column of zone `k` lies at or before it.
proof fn lemma_col_head_of(zs: Seq<ZoneConfig>, k: int) -> (j: int)
    requires
        0 <= k < zs.len(),
    ensures
        0 <= j <= k,
        row_key(zs, j) == row_key(zs, k),
        col_key(zs, j) == col_key(zs, k),
        is_col_head(zs, j),
    decreases k,
{
    let rk = row_key(zs, k);
    let ck = col_key(zs, k);
    if col_seen(zs, rk, ck, k) {
        lemma_any_below_elim(k, in_col_pred(zs, rk, ck));
        let m = choose|m: int| 0 <= m < k && #[trigger] in_col_pred(zs, rk, ck)(m);
        lemma_col_head_of(zs, m)
    } else {
        k
    }
}

/// The row of a zone that asks for some height has a fixed height.
proof fn lemma_row_need_positive(zs: Seq<ZoneConfig>, ms: Seq<(u16, u16)>, k: int)
    requires
        0 <= k < zs.len(),
        wanted_h(zs, ms, k) > 0,
    ensures
        row_need(zs, ms, row_key(zs, k)) > 0,
{
    let n = zs.len() as int;
    let rk = row_key(zs, k);
    let ck = col_key(zs, k);
    let j = lemma_col_head_of(zs, k);
    let f = col_sum_term(zs, ms, rk, ck);
    assert forall|m: int| 0 <= m < n implies #[trigger] f(m) >= 0 by {}
    lemma_sum_below_term(n, f, k);
    assert(row_need_term(zs, ms, rk)(j) == col_sum(zs, ms, rk, ck, n));
    lemma_max_below_bound(n, row_need_term(zs, ms, rk));
}

/// The terminal height only sizes rows that ask for no height: when every
/// zone asks for some height (its own, or its widget's minimum), each zone's
/// layout is the same for any two terminal heights.
pub proof fn law_rows_ignore_terminal_height(zs: Seq<ZoneConfig>, ms: Seq<(u16, u16)>, h1: u16, h2: u16, i: int)
    requires
        0 <= i < zs.len(),
        forall|k: int| 0 <= k < zs.len() ==> #[trigger] wanted_h(zs, ms, k) > 0,
    ensures
        rows_zone_layout(zs, ms, h1, i) == rows_zone_layout(zs, ms, h2, i),
{
    let n = zs.len() as int;
    assert forall|k: int| 0 <= k < n implies #[trigger] row_height(zs, ms, h1, row_key(zs, k)) == row_height(
        zs,
        ms,
        h2,
        row_key(zs, k),
    ) by {
        lemma_row_need_positive(zs, ms, k);
    }
    assert forall|k: int| 0 <= k < n implies #[trigger] share(zs, ms, h1, k) == share(zs, ms, h2, k) by {
        assert(row_height(zs, ms, h1, row_key(zs, k)) == row_height(zs, ms, h2, row_key(zs, k)));
    }
    let rk = row_key(zs, i);
    let ck = col_key(zs, i);
    assert forall|j: int| 0 <= j < n implies #[trigger] rows_above_term(zs, ms, h1, rk)(j) == rows_above_term(
        zs,
        ms,
        h2,
        rk,
    )(j) by {
        assert(row_height(zs, ms, h1, row_key(zs, j)) == row_height(zs, ms, h2, row_key(zs, j)));
    }
    lemma_sum_below_ext(n, rows_above_term(zs, ms, h1, rk), rows_above_term(zs, ms, h2, rk));
    assert forall|j: int| 0 <= j < i implies #[trigger] shares_term(zs, ms, h1, rk, ck)(j) == shares_term(
        zs,
        ms,
        h2,
        rk,
        ck,
    )(j) by {
        assert(share(zs, ms, h1, j) == share(zs, ms, h2, j));
    }
    lemma_sum_below_ext(i, shares_term(zs, ms, h1, rk, ck), shares_term(zs, ms, h2, rk, ck));
    assert(row_height(zs, ms, h1, rk) == row_height(zs, ms, h2, rk));
    assert(share(zs, ms, h1, i) == share(zs, ms, h2, i));
    assert(rows_zone_rect(zs, ms, h1, i) == rows_zone_rect(zs, ms, h2, i));
}

} // verus!
