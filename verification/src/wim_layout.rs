//! Movement-chart layout: column x-positions and row advancement.
//!
//! Lengths are held in thousandths of a pixel. A single column centres on
//! the canvas; otherwise the first and last columns sit half their label
//! width inside the margins and the interior columns divide the span
//! evenly. Rows advance by a fixed slot per item, with a taller slot for an
//! item that stays in its column (drawn as a vertical arrow).

use vstd::prelude::*;
use crate::work_item_movement::{WorkItemMovement, WorkItem};
use crate::pie_layout::{clamp_size, clamp_size_exec, clamp_coord, SIZE_CAP};
use crate::numbers::dec_chars;
use crate::text::string_from_chars;
use vstd::arithmetic::mul::lemma_mul_inequality;
use vstd::arithmetic::div_mod::{lemma_div_is_ordered, lemma_div_multiples_vanish,
    lemma_div_pos_is_pos};

verus! {

/// Vertical slot of an ordinary row, in thousandths.
pub const ITEM_SLOT: i64 = 50_000;

/// Extra vertical room an in-column (vertical-arrow) row takes.
pub const VERTICAL_EXTRA: i64 = 80_000;

/// Measured column-label widths handed in by the caller; `None` falls back
/// to eight pixels per character.
pub struct WimMetrics {
    pub title_height_milli: Option<i64>,
    pub column_widths_milli: Option<Vec<i64>>,
}

/// The width charged for column `k`'s label.
pub open spec fn col_width(chart: WorkItemMovement, metrics: WimMetrics, k: int) -> int {
    match metrics.column_widths_milli {
        Option::Some(ws) => clamp_size(ws@[k] as int),
        Option::None => clamp_size((chart.columns@[k]@.len() as int) * 8000),
    }
}

/// Division truncated toward zero, as the machine divides.
pub open spec fn tdiv(a: int, b: int) -> int {
    if a >= 0 {
        a / b
    } else {
        -((-a) / b)
    }
}

/// The x-position of column `i` among `n` columns spanning `first..last`:
/// the ends are pinned, the interior divides the span evenly.
pub open spec fn col_pos(first: int, last: int, n: int, i: int) -> int {
    if i <= 0 {
        first
    } else if i >= n - 1 {
        last
    } else {
        first + tdiv(i * (last - first), n - 1)
    }
}

/// The law of the columns: when the first position does not exceed the
/// last, the positions are monotone non-decreasing from left to right, and
/// the ends equal the pinned first and last positions. (A canvas too
/// narrow for its margins and labels makes `last` fall left of `first`;
/// those inputs are left out.)
pub proof fn lemma_col_pos_monotone(first: int, last: int, n: int)
    requires
        n >= 2,
        first <= last,
    ensures
        forall|i: int, j: int| 0 <= i <= j < n ==> col_pos(first, last, n, i) <= col_pos(
            first,
            last,
            n,
            j,
        ),
        col_pos(first, last, n, 0) == first,
        col_pos(first, last, n, n - 1) == last,
{
    let d = last - first;
    assert forall|i: int, j: int| 0 <= i <= j < n implies col_pos(first, last, n, i) <= col_pos(
        first,
        last,
        n,
        j,
    ) by {
        if 0 < i && j < n - 1 {
            lemma_mul_inequality(0, i, d);
            lemma_mul_inequality(i, j, d);
            lemma_div_is_ordered(i * d, j * d, n - 1);
        } else if i == 0 && 0 < j < n - 1 {
            lemma_mul_inequality(0, j, d);
            lemma_div_is_ordered(0, j * d, n - 1);
            assert(0int / (n - 1) == 0) by {
                vstd::arithmetic::div_mod::lemma_div_of0(n - 1);
            }
        } else if 0 < i < n - 1 && j == n - 1 {
            lemma_mul_inequality(0, i, d);
            lemma_mul_inequality(i, n - 1, d);
            lemma_div_is_ordered(i * d, (n - 1) * d, n - 1);
            lemma_div_multiples_vanish(d, n - 1);
        }
    }
}

/// Compute the column x-positions, exactly as `col_pos` states them. With
/// one column the canvas centre; with more, the pinned-ends layout: every
/// position lies between `first` and `last`, so all fit the coordinate
/// type; when the span is not inverted they are monotone non-decreasing.
pub fn column_positions(chart: &WorkItemMovement, metrics: &WimMetrics, width_px: u32) -> (r: Vec<
    i64,
>)
    requires
        metrics.column_widths_milli matches Option::Some(ws) ==> ws@.len()
            == chart.columns@.len(),
        chart.columns@.len() > 0,
    ensures
        r@.len() == chart.columns@.len(),
        chart.columns@.len() == 1 ==> r@[0] as int == (width_px as int) * 1000 / 2,
        chart.columns@.len() >= 2 ==> {
            let n = chart.columns@.len() as int;
            let first = 20000 + col_width(*chart, *metrics, 0) / 2;
            let last = (width_px as int) * 1000 - 20000 - col_width(*chart, *metrics, n - 1) / 2;
            forall|i: int|
                0 <= i < n ==> #[trigger] r@[i] as int == col_pos(first, last, n, i)
        },
        chart.columns@.len() >= 2 && 20000 + col_width(*chart, *metrics, 0) / 2 <= (width_px
            as int) * 1000 - 20000 - col_width(*chart, *metrics, chart.columns@.len() - 1) / 2
            ==> forall|i: int, j: int|
            0 <= i <= j < chart.columns@.len() ==> #[trigger] r@[i] <= #[trigger] r@[j],
{
    let n = chart.columns.len();
    if n == 1 {
        let mut out: Vec<i64> = Vec::new();
        out.push(((width_px as i64) * 1000) / 2);
        return out;
    }
    let w_first = column_width_exec(chart, metrics, 0);
    let w_last = column_width_exec(chart, metrics, n - 1);
    let first: i64 = 20000 + w_first / 2;
    let last_raw: i128 = (width_px as i128) * 1000 - 20000 - ((w_last / 2) as i128);
    let ghost firsts = first as int;
    let ghost lasts = last_raw as int;
    let mut out: Vec<i64> = Vec::new();
    let mut i: usize = 0;
    while i < n
        invariant
            i <= n,
            n == chart.columns@.len(),
            n >= 2,
            first as int == 20000 + col_width(*chart, *metrics, 0) / 2,
            last_raw as int == (width_px as int) * 1000 - 20000 - col_width(
                *chart,
                *metrics,
                n - 1,
            ) / 2,
            0 <= first <= SIZE_CAP + 20000,
            -(SIZE_CAP as int) - 20000 <= last_raw as int <= 0x3_0000_0000_0000i128,
            out@.len() == i,
            forall|t: int|
                0 <= t < i ==> #[trigger] out@[t] as int == col_pos(
                    first as int,
                    last_raw as int,
                    n as int,
                    t,
                ),
        decreases n - i,
    {
        let pos: i64 = if i == 0 {
            first
        } else if i == n - 1 {
            last_raw as i64
        } else {
            let d: i128 = last_raw - (first as i128);
            proof {
                assert(-(0xFFFF_FFFF_FFFF_FFFFi128 * 0x4_0000_0000_0000) <= (i as int) * (
                d as int) <= 0xFFFF_FFFF_FFFF_FFFFi128 * 0x4_0000_0000_0000)
                    by (nonlinear_arith)
                    requires
                        0 <= i as int <= 0xFFFF_FFFF_FFFF_FFFF,
                        -0x4_0000_0000_0000i128 <= d as int <= 0x4_0000_0000_0000i128,
                ;
            }
            let scaled: i128 = (i as i128) * d;
            let q: i128 = if scaled >= 0 {
                scaled / ((n - 1) as i128)
            } else {
                -((-scaled) / ((n - 1) as i128))
            };
            proof {
                // the interior offset lies between zero and the whole span
                if scaled as int >= 0 {
                    assert(d as int >= 0) by (nonlinear_arith)
                        requires
                            (i as int) * (d as int) >= 0,
                            i as int >= 1,
                    ;
                    lemma_div_pos_is_pos(scaled as int, (n as int) - 1);
                    lemma_mul_inequality(i as int, (n as int) - 1, d as int);
                    lemma_div_is_ordered(scaled as int, ((n as int) - 1) * (d as int),
                        (n as int) - 1);
                    lemma_div_multiples_vanish(d as int, (n as int) - 1);
                    assert(0 <= q as int && (q as int) <= (d as int));
                } else {
                    assert((d as int) < 0) by (nonlinear_arith)
                        requires
                            (i as int) * (d as int) < 0,
                            i as int >= 1,
                    ;
                    assert(-(scaled as int) == (i as int) * (-(d as int))) by (nonlinear_arith)
                        requires scaled as int == (i as int) * (d as int);
                    lemma_div_pos_is_pos(-(scaled as int), (n as int) - 1);
                    lemma_mul_inequality(i as int, (n as int) - 1, -(d as int));
                    assert(((n as int) - 1) * (-(d as int)) == -(((n as int) - 1) * (d as int)))
                        by (nonlinear_arith);
                    lemma_div_is_ordered(-(scaled as int), ((n as int) - 1) * (-(d as int)),
                        (n as int) - 1);
                    lemma_div_multiples_vanish(-(d as int), (n as int) - 1);
                    assert((d as int) <= (q as int) && q as int <= 0);
                }
            }
            ((first as i128) + q) as i64
        };
        out.push(pos);
        i = i + 1;
    }
    proof {
        if firsts <= lasts {
            lemma_col_pos_monotone(firsts, lasts, n as int);
        }
    }
    out
}

/// Clamp a coordinate into `[-SIZE_CAP, SIZE_CAP]`.
pub fn clamp_coord_pub(x: i128) -> (r: i64)
    ensures
        r as int == clamp_coord(x as int),
{
    if x < -1_000_000_000_000i128 {
        -1_000_000_000_000i64
    } else if x > 1_000_000_000_000i128 {
        1_000_000_000_000i64
    } else {
        x as i64
    }
}

/// The width charged for one column label.
fn column_width_exec(chart: &WorkItemMovement, metrics: &WimMetrics, k: usize) -> (r: i64)
    requires
        k < chart.columns@.len(),
        metrics.column_widths_milli matches Option::Some(ws) ==> ws@.len()
            == chart.columns@.len(),
    ensures
        r as int == col_width(*chart, *metrics, k as int),
        0 <= r <= SIZE_CAP,
{
    match &metrics.column_widths_milli {
        Option::Some(ws) => clamp_size_exec(ws[k] as i128),
        Option::None => {
            let len = chart.columns[k].as_str().unicode_len();
            proof {
                assert(0 <= (len as int) * 8000 <= 0xFFFF_FFFF_FFFF_FFFF * 8000)
                    by (nonlinear_arith)
                    requires 0 <= len as int <= 0xFFFF_FFFF_FFFF_FFFF;
            }
            clamp_size_exec((len as i128) * 8000)
        },
    }
}

/// The index of the first column equal to `state` (exact comparison, as
/// drawn), or zero when none matches.
pub open spec fn col_index(cols: Seq<Seq<char>>, state: Seq<char>) -> int {
    if (exists|k: int| 0 <= k < cols.len() && cols[k] == state) {
        first_match(cols, state, 0)
    } else {
        0
    }
}

/// The first index at or after `from` whose column equals `state`.
pub open spec fn first_match(cols: Seq<Seq<char>>, state: Seq<char>, from: int) -> int
    decreases cols.len() - from,
{
    if !(0 <= from < cols.len()) {
        0
    } else if cols[from] == state {
        from
    } else {
        first_match(cols, state, from + 1)
    }
}

/// Find the column drawn for a state.
pub fn find_col_index(columns: &Vec<String>, state: &String) -> (r: usize)
    requires
        columns@.len() > 0,
    ensures
        r as int == col_index(columns@.map_values(|c: String| c@), state@),
        r < columns@.len(),
{
    let ghost cols = columns@.map_values(|c: String| c@);
    let mut k: usize = 0;
    while k < columns.len()
        invariant
            k <= columns@.len(),
            cols == columns@.map_values(|c: String| c@),
            forall|t: int| 0 <= t < k ==> cols[t] != state@,
        decreases columns@.len() - k,
    {
        if crate::text::str_eq(columns[k].as_str(), state.as_str()) {
            proof {
                lemma_first_match_pinpoint(cols, state@, k as int);
            }
            return k;
        }
        k = k + 1;
    }
    proof {
        if exists|t: int| 0 <= t < cols.len() && cols[t] == state@ {
            let t = choose|t: int| 0 <= t < cols.len() && cols[t] == state@;
            assert(false);
        }
    }
    0
}

proof fn lemma_first_match_pinpoint(cols: Seq<Seq<char>>, state: Seq<char>, k: int)
    requires
        0 <= k < cols.len(),
        cols[k] == state,
        forall|t: int| 0 <= t < k ==> cols[t] != state,
    ensures
        col_index(cols, state) == k,
{
    lemma_first_match_from(cols, state, 0, k);
}

proof fn lemma_first_match_from(cols: Seq<Seq<char>>, state: Seq<char>, from: int, k: int)
    requires
        0 <= from <= k < cols.len(),
        cols[k] == state,
        forall|t: int| from <= t < k ==> cols[t] != state,
    ensures
        first_match(cols, state, from) == k,
    decreases k - from,
{
    if from < k {
        lemma_first_match_from(cols, state, from + 1, k);
    }
}

/// Whether item `k` stays in its column (drawn as a vertical arrow).
pub open spec fn is_vertical(cols: Seq<Seq<char>>, it: WorkItem) -> bool {
    col_index(cols, it.from_state@) == col_index(cols, it.to_state@)
}

/// The vertical room the first `k` items take, in thousandths.
pub open spec fn rows_advance(cols: Seq<Seq<char>>, items: Seq<WorkItem>, k: int) -> int
    decreases k,
{
    if k <= 0 {
        0
    } else {
        rows_advance(cols, items, k - 1) + (if is_vertical(cols, items[k - 1]) {
            (ITEM_SLOT + VERTICAL_EXTRA) as int
        } else {
            ITEM_SLOT as int
        })
    }
}

pub proof fn lemma_rows_advance_bound(cols: Seq<Seq<char>>, items: Seq<WorkItem>, k: int)
    requires
        0 <= k,
    ensures
        0 <= rows_advance(cols, items, k) <= k * (ITEM_SLOT + VERTICAL_EXTRA),
    decreases k,
{
    if k > 0 {
        lemma_rows_advance_bound(cols, items, k - 1);
        assert(k * (ITEM_SLOT + VERTICAL_EXTRA) == (k - 1) * (ITEM_SLOT + VERTICAL_EXTRA)
            + (ITEM_SLOT + VERTICAL_EXTRA)) by (nonlinear_arith);
    }
}

/// The label drawn beside item `k`'s arrow: the id, and the signed points
/// delta when it is not zero.
pub open spec fn item_label_spec(it: WorkItem) -> Seq<char> {
    let delta = it.to_points as int - it.from_points as int;
    if delta == 0 {
        it.id@
    } else if delta > 0 {
        it.id@ + ": +"@ + dec_chars(delta as nat)
    } else {
        it.id@ + ": -"@ + dec_chars((-delta) as nat)
    }
}

/// Build the label drawn beside an item's arrow.
pub fn item_label(it: &WorkItem) -> (r: String)
    ensures
        r@ == item_label_spec(*it),
{
    let delta: i64 = it.points_change();
    if delta == 0 {
        return it.id.clone();
    }
    let mut out = crate::text::chars_of(it.id.as_str());
    if delta > 0 {
        let mut sep = crate::text::chars_of(": +");
        out.append(&mut sep);
        let mut digits = crate::numbers::u64_chars(delta as u64);
        out.append(&mut digits);
        proof {
            assert(out@ =~= item_label_spec(*it));
        }
    } else {
        let mut sep = crate::text::chars_of(": -");
        out.append(&mut sep);
        let mut digits = crate::numbers::u64_chars((-delta) as u64);
        out.append(&mut digits);
        proof {
            assert(out@ =~= item_label_spec(*it));
        }
    }
    string_from_chars(&out)
}

/// One laid-out item row.
pub struct WimRow {
    pub from_idx: usize,
    pub to_idx: usize,
    pub y_milli: i64,
    pub vertical: bool,
    pub label: String,
}

/// The movement-chart geometry: canvas, column positions, the rows, and
/// the vertical span of the column guide lines.
pub struct WimLayout {
    pub width_px: u32,
    pub height_px: u32,
    pub title_height_milli: i64,
    pub items_top_milli: i64,
    pub columns_x_milli: Vec<i64>,
    pub rows: Vec<WimRow>,
    pub guide_top_milli: i64,
    pub guide_bottom_milli: i64,
}

/// Where the item rows start: margin, title block, column headers, gap.
pub open spec fn items_top_spec(chart: WorkItemMovement, metrics: WimMetrics) -> int {
    let title_h: int = if chart.title is Some {
        match metrics.title_height_milli {
            Option::Some(h) => clamp_size(h as int),
            Option::None => 20000,
        }
    } else {
        0
    };
    let title_gap: int = if chart.title is Some {
        20000
    } else {
        0
    };
    20000 + title_h + title_gap + 40000 + 20000
}

/// The y-position of item row `k`.
pub open spec fn row_y_spec(chart: WorkItemMovement, metrics: WimMetrics, k: int) -> int {
    items_top_spec(chart, metrics) + rows_advance(
        chart.columns@.map_values(|c: String| c@),
        chart.items@,
        k,
    )
}

/// The canvas height, in thousandths: back below the last row, plus the
/// circle radius, the guide-line extension and the margin; a chart without
/// items keeps only its header space. The guide lines replay the same row
/// advancement.
pub open spec fn wim_height_spec(chart: WorkItemMovement, metrics: WimMetrics) -> int {
    let top = items_top_spec(chart, metrics);
    if chart.items@.len() == 0 {
        top + 20000
    } else {
        let last_y = row_y_spec(chart, metrics, chart.items@.len() as int) - ITEM_SLOT;
        last_y + 15000 + 15000 + 20000
    }
}

/// The top of the column guide lines.
pub open spec fn guide_top_spec(chart: WorkItemMovement, metrics: WimMetrics) -> int {
    items_top_spec(chart, metrics) - 15000 - 15000
}

/// The bottom of the column guide lines: below the last row, replaying the
/// same advancement that sizes the canvas.
pub open spec fn guide_bottom_spec(chart: WorkItemMovement, metrics: WimMetrics) -> int {
    let top = items_top_spec(chart, metrics);
    if chart.items@.len() == 0 {
        top + 15000 + 15000
    } else {
        row_y_spec(chart, metrics, chart.items@.len() as int) - ITEM_SLOT + 15000 + 15000
    }
}

/// Lay a movement chart out.
#[verifier::rlimit(100)]
pub fn wim_layout(chart: &WorkItemMovement, metrics: &WimMetrics, default_width: u32) -> (r:
    WimLayout)
    requires
        chart.columns@.len() > 0,
        chart.items@.len() <= 10_000_000,
        metrics.column_widths_milli matches Option::Some(ws) ==> ws@.len()
            == chart.columns@.len(),
    ensures
        r.width_px == (match chart.config {
            Option::Some(c) => match c.width {
                Option::Some(w) => w,
                Option::None => default_width,
            },
            Option::None => default_width,
        }),
        r.items_top_milli as int == items_top_spec(*chart, *metrics),
        r.title_height_milli as int == (if chart.title is Some {
            match metrics.title_height_milli {
                Option::Some(h) => clamp_size(h as int),
                Option::None => 20000int,
            }
        } else {
            0int
        }),
        r.height_px as int == crate::pie_layout::clamp_u32(
            wim_height_spec(*chart, *metrics) / 1000,
        ),
        r.guide_top_milli as int == guide_top_spec(*chart, *metrics),
        r.guide_bottom_milli as int == guide_bottom_spec(*chart, *metrics),
        r.columns_x_milli@.len() == chart.columns@.len(),
        r.rows@.len() == chart.items@.len(),
        forall|k: int|
            0 <= k < r.rows@.len() ==> {
                let cols = chart.columns@.map_values(|c: String| c@);
                &&& (#[trigger] r.rows@[k]).y_milli as int == row_y_spec(*chart, *metrics, k)
                &&& r.rows@[k].from_idx as int == col_index(cols, chart.items@[k].from_state@)
                &&& r.rows@[k].to_idx as int == col_index(cols, chart.items@[k].to_state@)
                &&& r.rows@[k].vertical == is_vertical(cols, chart.items@[k])
                &&& r.rows@[k].label@ == item_label_spec(chart.items@[k])
                &&& r.rows@[k].from_idx < chart.columns@.len()
                &&& r.rows@[k].to_idx < chart.columns@.len()
            },
{
    let width_px: u32 = match &chart.config {
        Option::Some(c) => match c.width {
            Option::Some(w) => w,
            Option::None => default_width,
        },
        Option::None => default_width,
    };
    let title_h: i64 = match &chart.title {
        Option::Some(_) => match metrics.title_height_milli {
            Option::Some(h) => clamp_size_exec(h as i128),
            Option::None => 20000,
        },
        Option::None => 0,
    };
    let title_gap: i64 = match &chart.title {
        Option::Some(_) => 20000,
        Option::None => 0,
    };
    let items_top: i64 = 20000 + title_h + title_gap + 40000 + 20000;
    let columns_x_milli = column_positions(chart, metrics, width_px);
    let ghost cols = chart.columns@.map_values(|c: String| c@);
    let mut rows: Vec<WimRow> = Vec::new();
    let mut adv: i64 = 0;
    let n = chart.items.len();
    let mut k: usize = 0;
    while k < n
        invariant
            k <= n,
            n == chart.items@.len(),
            n <= 10_000_000,
            cols == chart.columns@.map_values(|c: String| c@),
            chart.columns@.len() > 0,
            items_top as int == items_top_spec(*chart, *metrics),
            adv as int == rows_advance(cols, chart.items@, k as int),
            0 <= adv as int <= (k as int) * (ITEM_SLOT + VERTICAL_EXTRA),
            rows@.len() == k,
            forall|t: int|
                0 <= t < k ==> {
                    &&& (#[trigger] rows@[t]).y_milli as int == row_y_spec(*chart, *metrics, t)
                    &&& rows@[t].from_idx as int == col_index(cols, chart.items@[t].from_state@)
                    &&& rows@[t].to_idx as int == col_index(cols, chart.items@[t].to_state@)
                    &&& rows@[t].vertical == is_vertical(cols, chart.items@[t])
                    &&& rows@[t].label@ == item_label_spec(chart.items@[t])
                    &&& rows@[t].from_idx < chart.columns@.len()
                    &&& rows@[t].to_idx < chart.columns@.len()
                },
        decreases n - k,
    {
        let item = &chart.items[k];
        let from_idx = find_col_index(&chart.columns, &item.from_state);
        let to_idx = find_col_index(&chart.columns, &item.to_state);
        let vertical = from_idx == to_idx;
        let label = item_label(item);
        proof {
            lemma_rows_advance_bound(cols, chart.items@, k + 1);
            assert((k as int) * (ITEM_SLOT + VERTICAL_EXTRA) <= 10_000_000 * (ITEM_SLOT
                + VERTICAL_EXTRA)) by (nonlinear_arith)
                requires 0 <= k as int <= 10_000_000;
            assert(((k as int) + 1) * (ITEM_SLOT + VERTICAL_EXTRA) <= 10_000_001 * (ITEM_SLOT
                + VERTICAL_EXTRA)) by (nonlinear_arith)
                requires 0 <= (k as int) + 1 <= 10_000_001;
        }
        let y: i64 = items_top + adv;
        rows.push(WimRow { from_idx, to_idx, y_milli: y, vertical, label });
        adv = adv + (if vertical {
            ITEM_SLOT + VERTICAL_EXTRA
        } else {
            ITEM_SLOT
        });
        k = k + 1;
    }
    let height_raw: i64 = if n == 0 {
        items_top + 20000
    } else {
        items_top + adv - ITEM_SLOT + 15000 + 15000 + 20000
    };
    let height_px = crate::pie_layout::clamp_u32_pub(height_raw as i128 / 1000);
    let guide_top: i64 = items_top - 15000 - 15000;
    let guide_bottom: i64 = if n == 0 {
        items_top + 15000 + 15000
    } else {
        items_top + adv - ITEM_SLOT + 15000 + 15000
    };
    WimLayout {
        width_px,
        height_px,
        title_height_milli: title_h,
        items_top_milli: items_top,
        columns_x_milli,
        rows,
        guide_top_milli: guide_top,
        guide_bottom_milli: guide_bottom,
    }
}

} // verus!
