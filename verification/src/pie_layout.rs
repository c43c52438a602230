//! Pie layout: two-phase sizing and exact slice geometry.
//!
//! Lengths are held in thousandths of a pixel. Angles are held in
//! millionths of a full turn, measured from the top of the circle (the
//! drawing starts at minus a quarter turn); slice `k` spans from
//! `cum_k * FULL_TURN / total` to `cum_{k+1} * FULL_TURN / total`, where
//! `cum_k` is the sum of the first `k` values, so the spans tile the circle
//! exactly.

use vstd::prelude::*;
use crate::pie_chart::{PieChart, pie_data_view, pie_data_bounded};
use crate::common::{ChartConfig, kv_view, kv_get};
use crate::numbers::{number_end, number_milli, milli_chars, milli_to_chars, dec_chars, MAX_MILLI};
use crate::text::string_from_chars;
use vstd::arithmetic::div_mod::lemma_div_multiples_vanish;

verus! {

/// One full turn, in millionths.
pub const FULL_TURN: i64 = 1_000_000;

/// Largest length, in thousandths of a pixel, that sizing saturates at.
pub const SIZE_CAP: i64 = 1_000_000_000_000;

/// Clamp a length into `[0, SIZE_CAP]`.
pub open spec fn clamp_size(x: int) -> int {
    if x < 0 {
        0
    } else if x > SIZE_CAP {
        SIZE_CAP as int
    } else {
        x
    }
}

/// Clamp a length into `[0, SIZE_CAP]`.
pub fn clamp_size_exec(x: i128) -> (r: i64)
    ensures
        r as int == clamp_size(x as int),
{
    if x < 0 {
        0
    } else if x > 1_000_000_000_000i128 {
        1_000_000_000_000i64
    } else {
        x as i64
    }
}

/// The theme variable under `key`, or `default` when absent.
pub open spec fn theme_var_spec(
    config: Option<ChartConfig>,
    key: Seq<char>,
    default: Seq<char>,
) -> Seq<char> {
    match config {
        Option::Some(c) => match kv_get(kv_view(c.theme_variables@), key) {
            Option::Some(v) => v,
            Option::None => default,
        },
        Option::None => default,
    }
}

/// Look a theme variable up, falling back to a default.
pub fn get_theme_variable(config: &Option<ChartConfig>, key: &str, default: &str) -> (r: String)
    ensures
        r@ == theme_var_spec(*config, key@, default@),
{
    match config {
        Option::Some(c) => match crate::common::config_var(c, key) {
            Option::Some(v) => v.clone(),
            Option::None => default.to_owned(),
        },
        Option::None => default.to_owned(),
    }
}

/// The reading of a font-size string: its numeric value in thousandths when
/// it is a number followed by `px`, else the default.
pub open spec fn font_size_spec(s: Seq<char>, default_milli: int) -> int {
    if s.len() >= "px"@.len() && s.subrange(s.len() - 2, s.len() as int) == "px"@ && number_end(
        s.subrange(0, s.len() - 2),
        0,
    ) == Option::Some(s.len() - 2) {
        number_milli(s.subrange(0, s.len() - 2), 0)
    } else {
        default_milli
    }
}

/// Parse a `<number>px` font size, in thousandths; fall back on anything
/// else.
pub fn parse_font_size(s: &str, default_milli: i64) -> (r: i64)
    requires
        -MAX_MILLI <= default_milli <= MAX_MILLI,
    ensures
        r as int == font_size_spec(s@, default_milli as int),
        -MAX_MILLI <= r <= MAX_MILLI,
{
    proof {
        reveal_strlit("px");
    }
    let cs = crate::text::chars_of(s);
    let px = crate::text::chars_of("px");
    if cs.len() < px.len() {
        proof {
            assert(s@.len() < "px"@.len());
        }
        return default_milli;
    }
    let head = crate::common::sub_chars(&cs, 0, cs.len() - 2);
    let tail = crate::common::sub_chars(&cs, cs.len() - 2, cs.len());
    let is_px = {
        let mut same = tail.len() == px.len();
        if same {
            same = tail[0] == px[0] && tail[1] == px[1];
        }
        same
    };
    proof {
        if is_px {
            assert(tail@ =~= s@.subrange(s@.len() - 2, s@.len() as int));
            assert(tail@ == px@) by {
                assert(tail@.len() == 2 && px@.len() == 2);
                assert(tail@ =~= px@);
            }
        } else {
            assert(tail@ != px@) by {
                if tail@ == px@ {
                    assert(tail@[0] == px@[0] && tail@[1] == px@[1]);
                }
            }
            assert(s@.subrange(s@.len() - 2, s@.len() as int) =~= tail@);
        }
    }
    if !is_px {
        return default_milli;
    }
    match crate::numbers::number(&head, 0) {
        Option::Some(p) => {
            if p.0 == head.len() {
                p.1
            } else {
                default_milli
            }
        },
        Option::None => default_milli,
    }
}

/// The fixed palette a slice colour falls back to.
pub open spec fn pie_palette_spec(i: int) -> Seq<char> {
    let k = i % 10;
    if k == 0 {
        "#1f77b4"@
    } else if k == 1 {
        "#ff7f0e"@
    } else if k == 2 {
        "#2ca02c"@
    } else if k == 3 {
        "#d62728"@
    } else if k == 4 {
        "#9467bd"@
    } else if k == 5 {
        "#8c564b"@
    } else if k == 6 {
        "#e377c2"@
    } else if k == 7 {
        "#7f7f7f"@
    } else if k == 8 {
        "#bcbd22"@
    } else {
        "#17becf"@
    }
}

/// The fallback palette colour for slice `i`.
pub fn pie_palette(i: usize) -> (r: String)
    ensures
        r@ == pie_palette_spec(i as int),
{
    let k = i % 10;
    if k == 0 {
        "#1f77b4".to_owned()
    } else if k == 1 {
        "#ff7f0e".to_owned()
    } else if k == 2 {
        "#2ca02c".to_owned()
    } else if k == 3 {
        "#d62728".to_owned()
    } else if k == 4 {
        "#9467bd".to_owned()
    } else if k == 5 {
        "#8c564b".to_owned()
    } else if k == 6 {
        "#e377c2".to_owned()
    } else if k == 7 {
        "#7f7f7f".to_owned()
    } else if k == 8 {
        "#bcbd22".to_owned()
    } else {
        "#17becf".to_owned()
    }
}

/// The key `pie<k>` that a slice colour override lives under.
pub open spec fn pie_color_key(k: int) -> Seq<char> {
    "pie"@ + dec_chars(k as nat)
}

/// The colour of slice `i`: the `pie<i+1>` theme variable, else the
/// palette.
pub open spec fn pie_color_spec(config: Option<ChartConfig>, i: int) -> Seq<char> {
    let key = pie_color_key(i + 1);
    match config {
        Option::Some(c) => match kv_get(kv_view(c.theme_variables@), key) {
            Option::Some(v) => v,
            Option::None => pie_palette_spec(i),
        },
        Option::None => pie_palette_spec(i),
    }
}

/// The colour drawn for slice `i`.
pub fn get_color_for_slice(config: &Option<ChartConfig>, i: usize) -> (r: String)
    requires
        i < usize::MAX,
    ensures
        r@ == pie_color_spec(*config, i as int),
{
    let mut key_chars = crate::text::chars_of("pie");
    let mut digits = crate::numbers::u64_chars((i + 1) as u64);
    key_chars.append(&mut digits);
    proof {
        assert(key_chars@ =~= pie_color_key(i + 1));
    }
    let key = string_from_chars(&key_chars);
    match config {
        Option::Some(c) => match crate::common::config_var(c, key.as_str()) {
            Option::Some(v) => v.clone(),
            Option::None => pie_palette(i),
        },
        Option::None => pie_palette(i),
    }
}

/// The text of a legend row: `label [value]`.
pub open spec fn legend_text_spec(label: Seq<char>, value_milli: int) -> Seq<char> {
    label + " ["@ + milli_chars(value_milli) + "]"@
}

/// The legend strings to be measured and drawn, one per entry.
pub fn pie_legend_texts(chart: &PieChart) -> (r: Vec<String>)
    requires
        pie_data_bounded(chart.data@),
    ensures
        r@.len() == chart.data@.len(),
        forall|k: int|
            0 <= k < r@.len() ==> #[trigger] r@[k]@ == legend_text_spec(
                chart.data@[k].label@,
                chart.data@[k].value_milli as int,
            ),
{
    let mut out: Vec<String> = Vec::new();
    let mut k: usize = 0;
    while k < chart.data.len()
        invariant
            k <= chart.data@.len(),
            pie_data_bounded(chart.data@),
            out@.len() == k,
            forall|t: int|
                0 <= t < k ==> #[trigger] out@[t]@ == legend_text_spec(
                    chart.data@[t].label@,
                    chart.data@[t].value_milli as int,
                ),
        decreases chart.data@.len() - k,
    {
        let entry = &chart.data[k];
        let mut text = crate::text::chars_of(entry.label.as_str());
        let mut open_part = crate::text::chars_of(" [");
        text.append(&mut open_part);
        let mut value_part = milli_to_chars(entry.value_milli);
        text.append(&mut value_part);
        let mut close_part = crate::text::chars_of("]");
        text.append(&mut close_part);
        proof {
            assert(text@ =~= legend_text_spec(
                chart.data@[k as int].label@,
                chart.data@[k as int].value_milli as int,
            ));
        }
        out.push(string_from_chars(&text));
        k = k + 1;
    }
    out
}

/// Measured text sizes handed in by the caller; `None` falls back to the
/// character-count heuristic.
pub struct PieMetrics {
    pub title_height_milli: Option<i64>,
    pub legend_text_widths_milli: Option<Vec<i64>>,
}

/// One slice's geometry: angles in millionths of a turn from the top, a
/// fill colour, and the optional percentage label.
pub struct PieSlice {
    pub start_uturn: i128,
    pub end_uturn: i128,
    pub mid_uturn: i128,
    pub color: String,
    pub pct_label: Option<String>,
}

/// The percentage a slice is labelled with: `100 * value / total`, rounded
/// half away from zero.
pub open spec fn pct_of(value: int, total: int) -> int {
    if value >= 0 {
        (200 * value + total) / (2 * total)
    } else {
        -((200 * (-value) + total) / (2 * total))
    }
}

/// The percentage label drawn on a slice: the clamped rounded percentage
/// and a percent sign.
pub open spec fn pct_label_spec(value: int, total: int) -> Seq<char> {
    let p = pct_of(value, total);
    let clamped: int = if p < -1_000_000_000 {
        -1_000_000_000
    } else if p > 1_000_000_000 {
        1_000_000_000
    } else {
        p
    };
    milli_chars(clamped * 1000) + "%"@
}

/// The sum of the first `k` values of a dataset.
pub open spec fn cum_milli(d: Seq<(Seq<char>, int)>, k: int) -> int
    decreases k,
{
    if k <= 0 {
        0
    } else {
        cum_milli(d, k - 1) + d[k - 1].1
    }
}

/// The total of a dataset.
pub open spec fn total_milli(d: Seq<(Seq<char>, int)>) -> int {
    cum_milli(d, d.len() as int)
}

pub proof fn lemma_cum_bound(d: Seq<(Seq<char>, int)>, k: int)
    requires
        0 <= k <= d.len(),
        forall|t: int| 0 <= t < d.len() ==> -MAX_MILLI <= #[trigger] d[t].1 <= MAX_MILLI,
    ensures
        -(MAX_MILLI as int) * k <= cum_milli(d, k) <= (MAX_MILLI as int) * k,
    decreases k,
{
    if k > 0 {
        lemma_cum_bound(d, k - 1);
        assert((MAX_MILLI as int) * k == (MAX_MILLI as int) * (k - 1) + MAX_MILLI) by (nonlinear_arith);
    }
}

/// The boundary angle after `k` slices: `cum_k * FULL_TURN / total`,
/// truncated toward zero.
pub open spec fn boundary_uturn(d: Seq<(Seq<char>, int)>, k: int, total: int) -> int {
    let scaled = cum_milli(d, k) * FULL_TURN;
    if scaled >= 0 {
        scaled / total
    } else {
        -((-scaled) / total)
    }
}

/// Compute one boundary angle.
fn boundary_exec(cum: i128, total: i128) -> (r: i128)
    requires
        total > 0,
        -0x2000_0000_0000_0000_0000_0000i128 <= cum <= 0x2000_0000_0000_0000_0000_0000i128,
    ensures
        r as int == ({
            let scaled = cum * FULL_TURN;
            if scaled >= 0 {
                scaled as int / total as int
            } else {
                -((-(scaled as int)) / total as int)
            }
        }),
{
    let scaled: i128 = cum * 1_000_000i128;
    if scaled >= 0 {
        let q = scaled / total;
        proof {
            vstd::arithmetic::div_mod::lemma_div_pos_is_pos(scaled as int, total as int);
        }
        q
    } else {
        let q = (-scaled) / total;
        proof {
            vstd::arithmetic::div_mod::lemma_div_pos_is_pos(-(scaled as int), total as int);
        }
        -q
    }
}

/// Slice angles for a dataset with positive total: slice `k` runs from
/// boundary `k` to boundary `k + 1`. The first slice starts at zero, each
/// slice starts where the one before ended, and the last ends at exactly
/// one full turn: the spans tile the circle.
pub open spec fn slices_tile(sl: Seq<PieSlice>, d: Seq<(Seq<char>, int)>, total: int) -> bool {
    &&& sl.len() == d.len()
    &&& forall|k: int|
        0 <= k < sl.len() ==> #[trigger] sl[k].start_uturn as int == boundary_uturn(d, k, total)
    &&& forall|k: int|
        0 <= k < sl.len() ==> #[trigger] sl[k].end_uturn as int == boundary_uturn(
            d,
            k + 1,
            total,
        )
}

/// The sum of the spans of a slice list.
pub open spec fn spans_sum(sl: Seq<PieSlice>) -> int
    decreases sl.len(),
{
    if sl.len() == 0 {
        0
    } else {
        spans_sum(sl.drop_last()) + (sl.last().end_uturn - sl.last().start_uturn)
    }
}

proof fn lemma_spans_telescope(sl: Seq<PieSlice>, d: Seq<(Seq<char>, int)>, total: int, k: int)
    requires
        slices_tile(sl, d, total),
        0 <= k <= sl.len(),
    ensures
        spans_sum(sl.take(k)) == boundary_uturn(d, k, total) - boundary_uturn(d, 0, total),
    decreases k,
{
    if k == 0 {
        assert(sl.take(0) =~= Seq::<PieSlice>::empty());
    } else {
        lemma_spans_telescope(sl, d, total, k - 1);
        assert(sl.take(k).drop_last() =~= sl.take(k - 1));
        assert(sl.take(k).last() == sl[k - 1]);
    }
}

/// The law of the pie: for a dataset with positive total, the slice spans
/// sum to exactly one full turn, the first slice starts at the top, and
/// each slice begins where the one before it ends — the slices lie in data
/// order around the circle.
pub proof fn lemma_pie_slices_tile_circle(
    sl: Seq<PieSlice>,
    d: Seq<(Seq<char>, int)>,
    total: int,
)
    requires
        slices_tile(sl, d, total),
        sl.len() > 0,
        total == total_milli(d),
        total > 0,
    ensures
        spans_sum(sl) == FULL_TURN,
        sl[0].start_uturn == 0,
        forall|k: int| 0 < k < sl.len() ==> #[trigger] sl[k].start_uturn == sl[k - 1].end_uturn,
{
    let n = sl.len() as int;
    lemma_spans_telescope(sl, d, total, n);
    assert(sl.take(n) =~= sl);
    assert(cum_milli(d, 0) == 0);
    assert(boundary_uturn(d, 0, total) == 0) by {
        vstd::arithmetic::div_mod::lemma_div_of0(total);
    }
    assert(boundary_uturn(d, n, total) == FULL_TURN) by {
        assert(cum_milli(d, n) == total);
        lemma_div_multiples_vanish(FULL_TURN as int, total);
        assert(total * FULL_TURN == FULL_TURN * total) by (nonlinear_arith);
    }
}

/// Build the slices of a dataset whose total is positive.
fn build_slices(chart: &PieChart, total: i128, show_data: bool) -> (r: Vec<PieSlice>)
    requires
        pie_data_bounded(chart.data@),
        chart.data@.len() <= 100_000_000,
        total as int == total_milli(pie_data_view(chart.data@)),
        total > 0,
    ensures
        slices_tile(r@, pie_data_view(chart.data@), total as int),
        forall|k: int|
            0 <= k < r@.len() ==> #[trigger] r@[k].color@ == pie_color_spec(chart.config, k),
        forall|k: int|
            0 <= k < r@.len() ==> (#[trigger] r@[k].pct_label is Some <==> show_data),
        forall|k: int|
            0 <= k < r@.len() ==> (#[trigger] r@[k].pct_label matches Option::Some(lbl)
                ==> lbl@ == pct_label_spec(
                pie_data_view(chart.data@)[k].1,
                total as int,
            )),
{
    let ghost d = pie_data_view(chart.data@);
    let mut slices: Vec<PieSlice> = Vec::new();
    let mut cum: i128 = 0;
    let mut prev_boundary: i128 = 0;
    proof {
        lemma_cum_bound(d, 0);
        vstd::arithmetic::div_mod::lemma_div_of0(total as int);
    }
    let n = chart.data.len();
    let mut k: usize = 0;
    while k < n
        invariant
            k <= n,
            n == chart.data@.len(),
            n <= 100_000_000,
            d == pie_data_view(chart.data@),
            pie_data_bounded(chart.data@),
            total as int == total_milli(d),
            total > 0,
            cum as int == cum_milli(d, k as int),
            -(MAX_MILLI as int) * (k as int) <= cum as int <= (MAX_MILLI as int) * (k as int),
            prev_boundary as int == boundary_uturn(d, k as int, total as int),
            slices@.len() == k,
            forall|t: int|
                0 <= t < k ==> #[trigger] slices@[t].start_uturn as int == boundary_uturn(
                    d,
                    t,
                    total as int,
                ),
            forall|t: int|
                0 <= t < k ==> #[trigger] slices@[t].end_uturn as int == boundary_uturn(
                    d,
                    t + 1,
                    total as int,
                ),
            forall|t: int|
                0 <= t < k ==> #[trigger] slices@[t].color@ == pie_color_spec(chart.config, t),
            forall|t: int| 0 <= t < k ==> (#[trigger] slices@[t].pct_label is Some <==> show_data),
            forall|t: int|
                0 <= t < k ==> (#[trigger] slices@[t].pct_label matches Option::Some(lbl)
                    ==> lbl@ == pct_label_spec(d[t].1, total as int)),
        decreases n - k,
    {
        let value = chart.data[k].value_milli;
        proof {
            assert(-MAX_MILLI <= chart.data@[k as int].value_milli <= MAX_MILLI);
            assert(d[k as int].1 == value as int);
            lemma_cum_bound(d, k + 1);
            assert((MAX_MILLI as int) * 100_000_000 < 0x2000_0000_0000_0000_0000_0000)
                by (nonlinear_arith);
            assert((MAX_MILLI as int) * (k + 1) <= (MAX_MILLI as int) * 100_000_000) by (nonlinear_arith)
                requires 0 <= k + 1 <= 100_000_000;
            assert((MAX_MILLI as int) * ((k as int) + 1) == (MAX_MILLI as int) * (k as int)
                + (MAX_MILLI as int)) by (nonlinear_arith);
            assert(cum as int + value as int <= (MAX_MILLI as int) * ((k as int) + 1));
            assert(cum as int + value as int >= -((MAX_MILLI as int) * ((k as int) + 1)))
                by (nonlinear_arith)
                requires
                    cum as int >= -(MAX_MILLI as int) * (k as int),
                    value as int >= -(MAX_MILLI as int),
            ;
        }
        let new_cum: i128 = cum + (value as i128);
        let b = boundary_exec(new_cum, total);
        let mid: i128 = (prev_boundary + b) / 2;
        let color = get_color_for_slice(&chart.config, k);
        let pct_label: Option<String> = if show_data {
            proof {
                lemma_cum_bound(d, n as int);
                assert(-MAX_MILLI <= chart.data@[k as int].value_milli <= MAX_MILLI);
            }
            let pct = pct_exec(value as i128, total);
            let mut label = crate::numbers::milli_to_chars(clamp_pct(pct) * 1000);
            let mut sign = crate::text::chars_of("%");
            label.append(&mut sign);
            proof {
                assert(label@ =~= pct_label_spec(d[k as int].1, total as int));
            }
            Option::Some(string_from_chars(&label))
        } else {
            Option::None
        };
        slices.push(
            PieSlice {
                start_uturn: prev_boundary,
                end_uturn: b,
                mid_uturn: mid,
                color,
                pct_label,
            },
        );
        cum = new_cum;
        prev_boundary = b;
        k = k + 1;
    }
    slices
}

/// One legend row: its top-left corner, swatch colour and text.
pub struct PieLegendRow {
    pub x_milli: i64,
    pub y_milli: i64,
    pub color: String,
    pub text: String,
}

/// The computed pie geometry.
pub struct PieLayout {
    pub width_px: u32,
    pub height_px: u32,
    pub center_x_milli: i64,
    pub center_y_milli: i64,
    pub radius_milli: i64,
    pub title_font_milli: i64,
    pub legend_font_milli: i64,
    pub slices: Vec<PieSlice>,
    pub legend: Vec<PieLegendRow>,
}

/// Clamp a pixel count into `u32`.
pub open spec fn clamp_u32(x: int) -> int {
    if x < 0 {
        0
    } else if x > u32::MAX {
        u32::MAX as int
    } else {
        x
    }
}

pub fn clamp_u32_pub(x: i128) -> (r: u32)
    ensures
        r as int == clamp_u32(x as int),
{
    if x < 0 {
        0
    } else if x > 0xFFFF_FFFFi128 {
        0xFFFF_FFFFu32
    } else {
        x as u32
    }
}

/// Clamp a coordinate into `[-SIZE_CAP, SIZE_CAP]`.
pub open spec fn clamp_coord(x: int) -> int {
    if x < -SIZE_CAP {
        -SIZE_CAP as int
    } else if x > SIZE_CAP {
        SIZE_CAP as int
    } else {
        x
    }
}

fn clamp_coord_exec(x: i128) -> (r: i64)
    ensures
        r as int == clamp_coord(x as int),
{
    if x < -1_000_000_000_000i128 {
        -1_000_000_000_000i64
    } else if x > 1_000_000_000_000i128 {
        1_000_000_000_000i64
    } else {
        x as i64
    }
}

/// The canvas width in pixels: the config override when present, else the
/// caller's default.
pub open spec fn pie_width_px(chart: PieChart, default_width: u32) -> u32 {
    match chart.config {
        Option::Some(c) => match c.width {
            Option::Some(w) => w,
            Option::None => default_width,
        },
        Option::None => default_width,
    }
}

/// The title font size, from `pieTitleTextSize` (default 25px).
pub open spec fn pie_title_font(chart: PieChart) -> int {
    font_size_spec(theme_var_spec(chart.config, "pieTitleTextSize"@, "25px"@), 25000)
}

/// The legend font size, from `pieLegendTextSize` (default 17px).
pub open spec fn pie_legend_font(chart: PieChart) -> int {
    font_size_spec(theme_var_spec(chart.config, "pieLegendTextSize"@, "17px"@), 17000)
}

/// The title block height: the measured height when given, else the title
/// font size; zero without a title.
pub open spec fn pie_title_height(chart: PieChart, metrics: PieMetrics) -> int {
    if chart.title is Some {
        match metrics.title_height_milli {
            Option::Some(h) => clamp_size(h as int),
            Option::None => clamp_size(pie_title_font(chart)),
        }
    } else {
        0
    }
}

/// The gap between the title block and the chart; zero without a title.
pub open spec fn pie_title_gap(chart: PieChart) -> int {
    if chart.title is Some {
        20000
    } else {
        0
    }
}

/// The widest legend text: measured widths when given, else a
/// character-count estimate at 53% of the legend font size per character.
pub open spec fn pie_max_legend_text(chart: PieChart, metrics: PieMetrics) -> int
    decreases chart.data@.len(),
{
    max_legend_over(chart, metrics, chart.data@.len() as int)
}

/// The widest legend text among the first `k` entries.
pub open spec fn max_legend_over(chart: PieChart, metrics: PieMetrics, k: int) -> int
    decreases k,
{
    if k <= 0 {
        0
    } else {
        let prev = max_legend_over(chart, metrics, k - 1);
        let cur = legend_entry_width(chart, metrics, k - 1);
        if cur > prev {
            cur
        } else {
            prev
        }
    }
}

/// The width charged for legend entry `k`.
pub open spec fn legend_entry_width(chart: PieChart, metrics: PieMetrics, k: int) -> int {
    match metrics.legend_text_widths_milli {
        Option::Some(ws) => clamp_size(ws@[k] as int),
        Option::None => {
            let cw = clamp_size(pie_legend_font(chart) * 53 / 100);
            let text = legend_text_spec(chart.data@[k].label@, chart.data@[k].value_milli as int);
            clamp_size(text.len() * cw)
        },
    }
}

/// The legend block width: swatch, gap, widest text, right margin.
pub open spec fn pie_legend_width(chart: PieChart, metrics: PieMetrics) -> int {
    18000 + 22000 + pie_max_legend_text(chart, metrics) + 20000
}

/// The width left for the circle after margins and the legend.
pub open spec fn pie_avail_width(chart: PieChart, metrics: PieMetrics, default_width: u32) -> int {
    clamp_size(
        (pie_width_px(chart, default_width) as int) * 1000 - 60000 - pie_legend_width(
            chart,
            metrics,
        ) - 20000,
    )
}

/// The stacked legend height: a fixed 22px row per entry.
pub open spec fn pie_legend_height(chart: PieChart) -> int {
    (chart.data@.len() as int) * 22000
}

/// The width-driven radius: 90% of half the available width.
pub open spec fn pie_radius0(chart: PieChart, metrics: PieMetrics, default_width: u32) -> int {
    pie_avail_width(chart, metrics, default_width) * 9 / 20
}

/// The height the chart would like: margins, title block, and the taller
/// of the circle and the stacked legend.
pub open spec fn pie_optimal_height(
    chart: PieChart,
    metrics: PieMetrics,
    default_width: u32,
) -> int {
    let content = if 2 * pie_radius0(chart, metrics, default_width) > pie_legend_height(chart) {
        2 * pie_radius0(chart, metrics, default_width)
    } else {
        pie_legend_height(chart)
    };
    70000 + pie_title_height(chart, metrics) + pie_title_gap(chart) + content
}

/// The final radius: width-driven when the optimal height fits the
/// requested height, else bounded by the height budget too.
pub open spec fn pie_final_radius(
    chart: PieChart,
    metrics: PieMetrics,
    default_width: u32,
    height: u32,
) -> int {
    if pie_optimal_height(chart, metrics, default_width) > (height as int) * 1000 {
        let ach = clamp_size(
            (height as int) * 1000 - 70000 - pie_title_height(chart, metrics) - pie_title_gap(
                chart,
            ),
        );
        let acw = pie_avail_width(chart, metrics, default_width);
        let half = if acw / 2 < ach / 2 {
            acw / 2
        } else {
            ach / 2
        };
        half * 9 / 10
    } else {
        pie_radius0(chart, metrics, default_width)
    }
}

/// The final canvas height, in thousandths: the requested height when the
/// optimal height exceeds it, else the optimal height.
pub open spec fn pie_final_height(
    chart: PieChart,
    metrics: PieMetrics,
    default_width: u32,
    height: u32,
) -> int {
    if pie_optimal_height(chart, metrics, default_width) > (height as int) * 1000 {
        (height as int) * 1000
    } else {
        pie_optimal_height(chart, metrics, default_width)
    }
}

/// The vertical center of the drawn content.
pub open spec fn pie_center_y(
    chart: PieChart,
    metrics: PieMetrics,
    default_width: u32,
    height: u32,
) -> int {
    let r = pie_final_radius(chart, metrics, default_width, height);
    let content = if 2 * r > pie_legend_height(chart) {
        2 * r
    } else {
        pie_legend_height(chart)
    };
    35000 + pie_title_height(chart, metrics) + pie_title_gap(chart) + content / 2
}

/// Compute the widest legend text width.
fn max_legend_text_exec(chart: &PieChart, metrics: &PieMetrics) -> (r: i64)
    requires
        pie_data_bounded(chart.data@),
        metrics.legend_text_widths_milli matches Option::Some(ws) ==> ws@.len()
            == chart.data@.len(),
    ensures
        r as int == pie_max_legend_text(*chart, *metrics),
        0 <= r <= SIZE_CAP,
{
    let cw: i64 = match &metrics.legend_text_widths_milli {
        Option::Some(_) => 0,
        Option::None => {
            let fs = parse_font_size(
                get_theme_variable(&chart.config, "pieLegendTextSize", "17px").as_str(),
                17000,
            );
            clamp_size_exec((fs as i128) * 53 / 100)
        },
    };
    let texts: Option<Vec<String>> = match &metrics.legend_text_widths_milli {
        Option::Some(_) => Option::None,
        Option::None => Option::Some(pie_legend_texts(chart)),
    };
    let mut best: i64 = 0;
    let mut k: usize = 0;
    while k < chart.data.len()
        invariant
            k <= chart.data@.len(),
            pie_data_bounded(chart.data@),
            metrics.legend_text_widths_milli matches Option::Some(ws) ==> ws@.len()
                == chart.data@.len(),
            metrics.legend_text_widths_milli is None ==> cw as int == clamp_size(
                pie_legend_font(*chart) * 53 / 100,
            ),
            0 <= cw <= SIZE_CAP,
            metrics.legend_text_widths_milli is None <==> texts is Some,
            texts matches Option::Some(ts) ==> ts@.len() == chart.data@.len() && forall|t: int|
                0 <= t < ts@.len() ==> #[trigger] ts@[t]@ == legend_text_spec(
                    chart.data@[t].label@,
                    chart.data@[t].value_milli as int,
                ),
            best as int == max_legend_over(*chart, *metrics, k as int),
            0 <= best <= SIZE_CAP,
        decreases chart.data@.len() - k,
    {
        let cur: i64 = match &metrics.legend_text_widths_milli {
            Option::Some(ws) => clamp_size_exec(ws[k] as i128),
            Option::None => {
                let text_len = match &texts {
                    Option::Some(ts) => ts[k].as_str().unicode_len(),
                    Option::None => 0,
                };
                proof {
                    assert(0 <= (text_len as int) * (cw as int)
                        <= 0xFFFF_FFFF_FFFF_FFFF * 1_000_000_000_000) by (nonlinear_arith)
                        requires
                            0 <= text_len as int <= 0xFFFF_FFFF_FFFF_FFFF,
                            0 <= cw as int <= 1_000_000_000_000,
                    ;
                }
                clamp_size_exec((text_len as i128) * (cw as i128))
            },
        };
        if cur > best {
            best = cur;
        }
        k = k + 1;
    }
    best
}

/// Lay a pie chart out: pick the canvas, size the circle against the
/// legend and title, and build the slices and legend rows. A dataset whose
/// total is not positive draws no slices.
#[verifier::rlimit(100)]
pub fn pie_layout(chart: &PieChart, default_width: u32, height: u32, metrics: &PieMetrics) -> (r:
    PieLayout)
    requires
        pie_data_bounded(chart.data@),
        chart.data@.len() <= 100_000_000,
        metrics.legend_text_widths_milli matches Option::Some(ws) ==> ws@.len()
            == chart.data@.len(),
    ensures
        r.width_px == pie_width_px(*chart, default_width),
        r.height_px as int == clamp_u32(
            pie_final_height(*chart, *metrics, default_width, height) / 1000,
        ),
        r.title_font_milli as int == pie_title_font(*chart),
        r.legend_font_milli as int == pie_legend_font(*chart),
        r.radius_milli as int == pie_final_radius(*chart, *metrics, default_width, height),
        r.center_x_milli as int == 30000 + pie_avail_width(*chart, *metrics, default_width) / 2,
        r.center_y_milli as int == clamp_coord(
            pie_center_y(*chart, *metrics, default_width, height),
        ),
        total_milli(pie_data_view(chart.data@)) > 0 ==> slices_tile(
            r.slices@,
            pie_data_view(chart.data@),
            total_milli(pie_data_view(chart.data@)),
        ),
        total_milli(pie_data_view(chart.data@)) <= 0 ==> r.slices@.len() == 0,
        r.legend@.len() == chart.data@.len(),
        forall|k: int|
            0 <= k < r.legend@.len() ==> {
                &&& (#[trigger] r.legend@[k]).x_milli as int == clamp_coord(
                    (pie_width_px(*chart, default_width) as int) * 1000 - 30000 - pie_legend_width(
                        *chart,
                        *metrics,
                    ),
                )
                &&& r.legend@[k].y_milli as int == clamp_coord(
                    pie_center_y(*chart, *metrics, default_width, height) - chart.data@.len()
                        * 11000 + k * 22000,
                )
                &&& r.legend@[k].color@ == pie_color_spec(chart.config, k)
                &&& r.legend@[k].text@ == legend_text_spec(
                    chart.data@[k].label@,
                    chart.data@[k].value_milli as int,
                )
            },
{
    let width_px: u32 = match &chart.config {
        Option::Some(c) => match c.width {
            Option::Some(w) => w,
            Option::None => default_width,
        },
        Option::None => default_width,
    };
    let w_m: i64 = (width_px as i64) * 1000;
    let title_font = parse_font_size(
        get_theme_variable(&chart.config, "pieTitleTextSize", "25px").as_str(),
        25000,
    );
    let legend_font = parse_font_size(
        get_theme_variable(&chart.config, "pieLegendTextSize", "17px").as_str(),
        17000,
    );
    let title_h: i64 = match &chart.title {
        Option::Some(_) => match metrics.title_height_milli {
            Option::Some(h) => clamp_size_exec(h as i128),
            Option::None => clamp_size_exec(title_font as i128),
        },
        Option::None => 0,
    };
    let title_gap: i64 = match &chart.title {
        Option::Some(_) => 20000,
        Option::None => 0,
    };
    let max_text = max_legend_text_exec(chart, metrics);
    let legend_w: i64 = 18000 + 22000 + max_text + 20000;
    let acw: i64 = clamp_size_exec((w_m as i128) - 60000 - (legend_w as i128) - 20000);
    let radius0: i64 = acw * 9 / 20;
    let legend_h: i128 = (chart.data.len() as i128) * 22000;
    let content: i128 = if 2 * (radius0 as i128) > legend_h {
        2 * (radius0 as i128)
    } else {
        legend_h
    };
    let optimal: i128 = 70000 + (title_h as i128) + (title_gap as i128) + content;
    let h_m: i128 = (height as i128) * 1000;
    let (final_radius, final_h): (i64, i128) = if optimal > h_m {
        let ach: i64 = clamp_size_exec(h_m - 70000 - (title_h as i128) - (title_gap as i128));
        let half: i64 = if acw / 2 < ach / 2 {
            acw / 2
        } else {
            ach / 2
        };
        (half * 9 / 10, h_m)
    } else {
        (radius0, optimal)
    };
    let height_px: u32 = clamp_u32_pub(final_h / 1000);
    let center_x: i64 = 30000 + acw / 2;
    let fch: i128 = if 2 * (final_radius as i128) > legend_h {
        2 * (final_radius as i128)
    } else {
        legend_h
    };
    let center_y_raw: i128 = 35000 + (title_h as i128) + (title_gap as i128) + fch / 2;
    let center_y: i64 = clamp_coord_exec(center_y_raw);
    // the dataset total, and the slices when it is positive
    let ghost d = pie_data_view(chart.data@);
    let mut total: i128 = 0;
    let mut k: usize = 0;
    while k < chart.data.len()
        invariant
            k <= chart.data@.len(),
            chart.data@.len() <= 100_000_000,
            pie_data_bounded(chart.data@),
            d == pie_data_view(chart.data@),
            total as int == cum_milli(d, k as int),
            -(MAX_MILLI as int) * (k as int) <= total as int <= (MAX_MILLI as int) * (k as int),
        decreases chart.data@.len() - k,
    {
        proof {
            assert(-MAX_MILLI <= chart.data@[k as int].value_milli <= MAX_MILLI);
            assert(d[k as int].1 == chart.data@[k as int].value_milli as int);
            lemma_cum_bound(d, k + 1);
            assert((MAX_MILLI as int) * ((k as int) + 1) == (MAX_MILLI as int) * (k as int)
                + (MAX_MILLI as int)) by (nonlinear_arith);
            assert((MAX_MILLI as int) * (k + 1) <= (MAX_MILLI as int) * 100_000_000)
                by (nonlinear_arith)
                requires 0 <= k + 1 <= 100_000_000;
            assert((MAX_MILLI as int) * 100_000_000 < 0x2000_0000_0000_0000_0000_0000)
                by (nonlinear_arith);
            assert(total as int + chart.data@[k as int].value_milli as int
                >= -((MAX_MILLI as int) * ((k as int) + 1)))
                by (nonlinear_arith)
                requires
                    total as int >= -(MAX_MILLI as int) * (k as int),
                    chart.data@[k as int].value_milli as int >= -(MAX_MILLI as int),
            ;
        }
        proof {
            assert(total as int + chart.data@[k as int].value_milli as int <= (MAX_MILLI as int)
                * ((k as int) + 1)) by (nonlinear_arith)
                requires
                    total as int <= (MAX_MILLI as int) * (k as int),
                    chart.data@[k as int].value_milli as int <= MAX_MILLI as int,
            ;
        }
        total = total + (chart.data[k].value_milli as i128);
        k = k + 1;
    }
    let slices: Vec<PieSlice> = if total > 0 {
        build_slices(chart, total, chart.show_data)
    } else {
        Vec::new()
    };
    // legend rows
    let legend_x: i64 = clamp_coord_exec((w_m as i128) - 30000 - (legend_w as i128));
    let texts = pie_legend_texts(chart);
    let mut legend: Vec<PieLegendRow> = Vec::new();
    let n = chart.data.len();
    let mut t: usize = 0;
    while t < n
        invariant
            t <= n,
            n == chart.data@.len(),
            pie_data_bounded(chart.data@),
            texts@.len() == n,
            forall|u: int|
                0 <= u < n ==> #[trigger] texts@[u]@ == legend_text_spec(
                    chart.data@[u].label@,
                    chart.data@[u].value_milli as int,
                ),
            legend@.len() == t,
            legend_x as int == clamp_coord(
                (pie_width_px(*chart, default_width) as int) * 1000 - 30000 - pie_legend_width(
                    *chart,
                    *metrics,
                ),
            ),
            center_y_raw as int == pie_center_y(*chart, *metrics, default_width, height),
            forall|u: int|
                0 <= u < t ==> {
                    &&& (#[trigger] legend@[u]).x_milli == legend_x
                    &&& legend@[u].y_milli as int == clamp_coord(
                        center_y_raw as int - n * 11000 + u * 22000,
                    )
                    &&& legend@[u].color@ == pie_color_spec(chart.config, u)
                    &&& legend@[u].text@ == legend_text_spec(
                        chart.data@[u].label@,
                        chart.data@[u].value_milli as int,
                    )
                },
        decreases n - t,
    {
        let y = clamp_coord_exec(
            center_y_raw - (n as i128) * 11000 + (t as i128) * 22000,
        );
        let color = get_color_for_slice(&chart.config, t);
        let text = texts[t].clone();
        legend.push(PieLegendRow { x_milli: legend_x, y_milli: y, color, text });
        t = t + 1;
    }
    PieLayout {
        width_px,
        height_px,
        center_x_milli: center_x,
        center_y_milli: center_y,
        radius_milli: final_radius,
        title_font_milli: title_font,
        legend_font_milli: legend_font,
        slices,
        legend,
    }
}

/// Clamp a percentage into the range a label can show.
fn clamp_pct(p: i128) -> (r: i64)
    ensures
        -1_000_000_000 <= r <= 1_000_000_000,
        r as int == (if p < -1_000_000_000 {
            -1_000_000_000int
        } else if p > 1_000_000_000 {
            1_000_000_000int
        } else {
            p as int
        }),
{
    if p < -1_000_000_000i128 {
        -1_000_000_000i64
    } else if p > 1_000_000_000i128 {
        1_000_000_000i64
    } else {
        p as i64
    }
}

/// Compute the rounded percentage of `value` against `total`.
fn pct_exec(value: i128, total: i128) -> (r: i128)
    requires
        total > 0,
        -0x1000_0000_0000_0000_0000i128 <= value <= 0x1000_0000_0000_0000_0000i128,
        total <= 0x1000_0000_0000_0000_0000_0000i128,
    ensures
        r as int == pct_of(value as int, total as int),
{
    if value >= 0 {
        let q = (200i128 * value + total) / (2i128 * total);
        proof {
            vstd::arithmetic::div_mod::lemma_div_pos_is_pos(
                200 * (value as int) + total as int,
                2 * (total as int),
            );
        }
        q
    } else {
        let q = (200i128 * (-value) + total) / (2i128 * total);
        proof {
            vstd::arithmetic::div_mod::lemma_div_pos_is_pos(
                200 * (-(value as int)) + total as int,
                2 * (total as int),
            );
        }
        -q
    }
}

} // verus!
