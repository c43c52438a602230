//! XY-chart layout: axis ticks, sizing, and per-series styling.
//!
//! Lengths are held in thousandths of a pixel; tick values in
//! ten-thousandths of a unit, so the eleven evenly interpolated ticks
//! between the axis bounds are exact.

use vstd::prelude::*;
use crate::xychart::{XYChart, YAxis};
use crate::common::{ChartConfig, kv_view, kv_get};
use crate::numbers::{number_end, number_milli, dec_chars, MAX_MILLI};
use crate::pie_layout::{clamp_size, clamp_size_exec, clamp_coord, theme_var_spec,
    get_theme_variable, SIZE_CAP};
use crate::wim_layout::{tdiv, clamp_coord_pub};
use crate::text::{find_char, trim_start, trim_end, seek_char, trim_range, sub_string,
    chars_of, string_from_chars, lemma_find_char};

verus! {

/// The reading of a bare numeric theme value, in thousandths; the default
/// on anything that is not wholly a number.
pub open spec fn num_or_default(s: Seq<char>, default_milli: int) -> int {
    if number_end(s, 0) == Option::Some(s.len() as int) {
        number_milli(s, 0)
    } else {
        default_milli
    }
}

/// Parse a bare numeric theme value.
pub fn parse_num_or_default(s: &str, default_milli: i64) -> (r: i64)
    requires
        -MAX_MILLI <= default_milli <= MAX_MILLI,
    ensures
        r as int == num_or_default(s@, default_milli as int),
        -MAX_MILLI <= r <= MAX_MILLI,
{
    let cs = chars_of(s);
    match crate::numbers::number(&cs, 0) {
        Option::Some(p) => {
            if p.0 == cs.len() {
                p.1
            } else {
                default_milli
            }
        },
        Option::None => default_milli,
    }
}

/// The comma-separated, whitespace-trimmed segments of a text.
pub open spec fn split_spec(s: Seq<char>, i: int) -> Seq<Seq<char>>
    decreases s.len() - i,
    via split_spec_decreases
{
    if !(0 <= i <= s.len()) {
        Seq::empty()
    } else {
        let e = find_char(s, i, ',');
        let te = trim_end(s, i, e);
        let ts = trim_start(s, i, te);
        let item = s.subrange(ts, te);
        if e < s.len() {
            seq![item] + split_spec(s, e + 1)
        } else {
            seq![item]
        }
    }
}

#[via_fn]
proof fn split_spec_decreases(s: Seq<char>, i: int) {
    if 0 <= i <= s.len() {
        lemma_find_char(s, i, ',');
    }
}

/// Split a text at commas, trimming each segment.
pub fn split_commas(s: &str) -> (r: Vec<String>)
    ensures
        r@.map_values(|x: String| x@) == split_spec(s@, 0),
{
    let cs = chars_of(s);
    let mut out: Vec<String> = Vec::new();
    let mut cur: usize = 0;
    proof {
        assert(out@.map_values(|x: String| x@) + split_spec(cs@, 0) =~= split_spec(cs@, 0));
    }
    loop
        invariant
            cur <= cs.len(),
            cs@ == s@,
            split_spec(cs@, 0) == out@.map_values(|x: String| x@) + split_spec(cs@, cur as int),
        decreases cs.len() - cur,
    {
        proof {
            lemma_find_char(cs@, cur as int, ',');
        }
        let e = seek_char(&cs, cur, ',');
        let (a, b) = trim_range(&cs, cur, e);
        let item = sub_string(&cs, a, b);
        let ghost before = out@.map_values(|x: String| x@);
        out.push(item);
        proof {
            assert(out@.map_values(|x: String| x@) =~= before.push(
                split_spec(cs@, cur as int)[0],
            ));
        }
        if e < cs.len() {
            proof {
                assert(before + (seq![split_spec(cs@, cur as int)[0]] + split_spec(cs@, e + 1))
                    =~= out@.map_values(|x: String| x@) + split_spec(cs@, e + 1));
            }
            cur = e + 1;
        } else {
            proof {
                assert(before + seq![split_spec(cs@, cur as int)[0]] =~= out@.map_values(
                    |x: String| x@,
                ));
                assert(split_spec(cs@, cur as int) =~= seq![split_spec(cs@, cur as int)[0]]);
            }
            return out;
        }
    }
}

/// The fixed palette an XY series colour falls back to.
pub open spec fn xy_palette_spec(i: int) -> Seq<char> {
    let k = i % 10;
    if k == 0 {
        "#ff8b00"@
    } else if k == 1 {
        "#9c1de9"@
    } else if k == 2 {
        "#2ca02c"@
    } else if k == 3 {
        "#d62728"@
    } else if k == 4 {
        "#9467bd"@
    } else if k == 5 {
        "#8c564b"@
    } else if k == 6 {
        "#e377c2"@
    } else if k == 7 {
        "#7f7f7f"@
    } else if k == 8 {
        "#bcbd22"@
    } else {
        "#17becf"@
    }
}

/// The fallback palette colour for series `i`.
pub fn xy_palette(i: usize) -> (r: String)
    ensures
        r@ == xy_palette_spec(i as int),
{
    let k = i % 10;
    if k == 0 {
        "#ff8b00".to_owned()
    } else if k == 1 {
        "#9c1de9".to_owned()
    } else if k == 2 {
        "#2ca02c".to_owned()
    } else if k == 3 {
        "#d62728".to_owned()
    } else if k == 4 {
        "#9467bd".to_owned()
    } else if k == 5 {
        "#8c564b".to_owned()
    } else if k == 6 {
        "#e377c2".to_owned()
    } else if k == 7 {
        "#7f7f7f".to_owned()
    } else if k == 8 {
        "#bcbd22".to_owned()
    } else {
        "#17becf".to_owned()
    }
}

/// The colour of series `i`: entry `i` of the comma-separated
/// `xyChart.plotColorPalette` when it reaches that far, else the palette.
pub open spec fn series_color_spec(config: Option<ChartConfig>, i: int) -> Seq<char> {
    match config {
        Option::Some(c) => match kv_get(kv_view(c.theme_variables@), "xyChart.plotColorPalette"@) {
            Option::Some(v) => {
                let parts = split_spec(v, 0);
                if i < parts.len() {
                    parts[i]
                } else {
                    xy_palette_spec(i)
                }
            },
            Option::None => xy_palette_spec(i),
        },
        Option::None => xy_palette_spec(i),
    }
}

/// The colour drawn for series `i`.
pub fn get_color_for_series(config: &Option<ChartConfig>, i: usize) -> (r: String)
    ensures
        r@ == series_color_spec(*config, i as int),
{
    match config {
        Option::Some(c) => match crate::common::config_var(c, "xyChart.plotColorPalette") {
            Option::Some(v) => {
                let parts = split_commas(v.as_str());
                if i < parts.len() {
                    proof {
                        assert(parts@.map_values(|x: String| x@)[i as int] == parts@[i as int]@);
                    }
                    parts[i].clone()
                } else {
                    xy_palette(i)
                }
            },
            Option::None => xy_palette(i),
        },
        Option::None => xy_palette(i),
    }
}

/// The marker of series `i`: entry `i` of `xyChart.plotPoints` unless it is
/// `none` or missing.
pub open spec fn plot_point_spec(config: Option<ChartConfig>, i: int) -> Option<Seq<char>> {
    match config {
        Option::Some(c) => match kv_get(kv_view(c.theme_variables@), "xyChart.plotPoints"@) {
            Option::Some(v) => {
                let parts = split_spec(v, 0);
                if i < parts.len() && parts[i] != "none"@ {
                    Option::Some(parts[i])
                } else {
                    Option::None
                }
            },
            Option::None => Option::None,
        },
        Option::None => Option::None,
    }
}

/// The marker drawn on series `i`'s points, if any.
pub fn get_plot_point_shape(config: &Option<ChartConfig>, i: usize) -> (r: Option<String>)
    ensures
        r is Some <==> plot_point_spec(*config, i as int) is Some,
        r matches Option::Some(v) ==> plot_point_spec(*config, i as int) == Option::Some(v@),
{
    match config {
        Option::Some(c) => match crate::common::config_var(c, "xyChart.plotPoints") {
            Option::Some(v) => {
                let parts = split_commas(v.as_str());
                if i < parts.len() {
                    proof {
                        assert(parts@.map_values(|x: String| x@)[i as int] == parts@[i as int]@);
                    }
                    if !crate::text::str_eq(parts[i].as_str(), "none") {
                        Option::Some(parts[i].clone())
                    } else {
                        Option::None
                    }
                } else {
                    Option::None
                }
            },
            Option::None => Option::None,
        },
        Option::None => Option::None,
    }
}

/// The stroke style of series `i`: entry `i` of `xyChart.strokeStyles`,
/// else `solid`.
pub open spec fn stroke_style_spec(config: Option<ChartConfig>, i: int) -> Seq<char> {
    match config {
        Option::Some(c) => match kv_get(kv_view(c.theme_variables@), "xyChart.strokeStyles"@) {
            Option::Some(v) => {
                let parts = split_spec(v, 0);
                if i < parts.len() {
                    parts[i]
                } else {
                    "solid"@
                }
            },
            Option::None => "solid"@,
        },
        Option::None => "solid"@,
    }
}

/// The stroke style drawn for series `i`.
pub fn get_stroke_style(config: &Option<ChartConfig>, i: usize) -> (r: String)
    ensures
        r@ == stroke_style_spec(*config, i as int),
{
    match config {
        Option::Some(c) => match crate::common::config_var(c, "xyChart.strokeStyles") {
            Option::Some(v) => {
                let parts = split_commas(v.as_str());
                if i < parts.len() {
                    proof {
                        assert(parts@.map_values(|x: String| x@)[i as int] == parts@[i as int]@);
                    }
                    parts[i].clone()
                } else {
                    "solid".to_owned()
                }
            },
            Option::None => "solid".to_owned(),
        },
        Option::None => "solid".to_owned(),
    }
}

/// Tick `i` of eleven, in ten-thousandths of a unit: exactly
/// `max - i * (max - min) / 10`, cleared of division by scaling by ten.
pub open spec fn tick_value(min_milli: int, max_milli: int, i: int) -> int {
    (10 - i) * max_milli + i * min_milli
}

/// The eleven y-axis tick values, from `max` down to `min`, in
/// ten-thousandths of a unit: tick `i` is `max - i * (max - min) / 10`
/// exactly, i.e. `(10 - i) * max + i * min`.
pub fn y_tick_values(y_axis: &YAxis) -> (r: Vec<i64>)
    requires
        -MAX_MILLI <= y_axis.min_milli <= MAX_MILLI,
        -MAX_MILLI <= y_axis.max_milli <= MAX_MILLI,
    ensures
        r@.len() == 11,
        forall|i: int|
            0 <= i < 11 ==> #[trigger] r@[i] as int == tick_value(
                y_axis.min_milli as int,
                y_axis.max_milli as int,
                i,
            ),
{
    let mut out: Vec<i64> = Vec::new();
    let mut i: i64 = 0;
    while i < 11
        invariant
            0 <= i <= 11,
            -MAX_MILLI <= y_axis.min_milli <= MAX_MILLI,
            -MAX_MILLI <= y_axis.max_milli <= MAX_MILLI,
            out@.len() == i,
            forall|t: int|
                0 <= t < i ==> #[trigger] out@[t] as int == tick_value(
                    y_axis.min_milli as int,
                    y_axis.max_milli as int,
                    t,
                ),
        decreases 11 - i,
    {
        proof {
            assert(-10 * (MAX_MILLI as int) <= (10 - i as int) * (y_axis.max_milli as int)
                <= 10 * (MAX_MILLI as int)) by (nonlinear_arith)
                requires
                    0 <= 10 - i as int <= 10,
                    -(MAX_MILLI as int) <= y_axis.max_milli as int <= MAX_MILLI as int,
            ;
            assert(-10 * (MAX_MILLI as int) <= (i as int) * (y_axis.min_milli as int)
                <= 10 * (MAX_MILLI as int)) by (nonlinear_arith)
                requires
                    0 <= i as int <= 10,
                    -(MAX_MILLI as int) <= y_axis.min_milli as int <= MAX_MILLI as int,
            ;
        }
        let v: i64 = (10 - i) * y_axis.max_milli + i * y_axis.min_milli;
        out.push(v);
        i = i + 1;
    }
    out
}

/// The whole number a tick is labelled with: the value truncated toward
/// zero, as the renderer casts it.
pub open spec fn tick_label_int(value_tenth_milli: int) -> int {
    tdiv(value_tenth_milli, 10000)
}

/// The text of a tick label.
pub open spec fn tick_label_chars(value_tenth_milli: int) -> Seq<char> {
    let v = tick_label_int(value_tenth_milli);
    if v < 0 {
        seq!['-'] + dec_chars((-v) as nat)
    } else {
        dec_chars(v as nat)
    }
}

/// Render the label of one tick value.
pub fn tick_label(value_tenth_milli: i64) -> (r: String)
    requires
        -21 * MAX_MILLI <= value_tenth_milli <= 21 * MAX_MILLI,
    ensures
        r@ == tick_label_chars(value_tenth_milli as int),
{
    let v: i64 = if value_tenth_milli >= 0 {
        value_tenth_milli / 10000
    } else {
        -((-value_tenth_milli) / 10000)
    };
    proof {
        if value_tenth_milli >= 0 {
            vstd::arithmetic::div_mod::lemma_div_pos_is_pos(value_tenth_milli as int, 10000);
            vstd::arithmetic::div_mod::lemma_div_is_ordered(
                0,
                value_tenth_milli as int,
                10000,
            );
        } else {
            vstd::arithmetic::div_mod::lemma_div_pos_is_pos(-(value_tenth_milli as int), 10000);
        }
    }
    if v < 0 {
        let mut out: Vec<char> = Vec::new();
        out.push('-');
        let mut digits = crate::numbers::u64_chars((-v) as u64);
        out.append(&mut digits);
        proof {
            assert(out@ =~= tick_label_chars(value_tenth_milli as int));
        }
        string_from_chars(&out)
    } else {
        let digits = crate::numbers::u64_chars(v as u64);
        string_from_chars(&digits)
    }
}

/// The eleven tick label strings, for measuring and drawing.
pub fn y_tick_labels(y_axis: &YAxis) -> (r: Vec<String>)
    requires
        -MAX_MILLI <= y_axis.min_milli <= MAX_MILLI,
        -MAX_MILLI <= y_axis.max_milli <= MAX_MILLI,
    ensures
        r@.len() == 11,
        forall|i: int|
            0 <= i < 11 ==> #[trigger] r@[i]@ == tick_label_chars(
                tick_value(y_axis.min_milli as int, y_axis.max_milli as int, i),
            ),
{
    let values = y_tick_values(y_axis);
    let mut out: Vec<String> = Vec::new();
    let mut i: usize = 0;
    while i < values.len()
        invariant
            i <= values@.len(),
            values@.len() == 11,
            -MAX_MILLI <= y_axis.min_milli <= MAX_MILLI,
            -MAX_MILLI <= y_axis.max_milli <= MAX_MILLI,
            forall|t: int|
                0 <= t < 11 ==> #[trigger] values@[t] as int == tick_value(
                    y_axis.min_milli as int,
                    y_axis.max_milli as int,
                    t,
                ),
            out@.len() == i,
            forall|t: int|
                0 <= t < i ==> #[trigger] out@[t]@ == tick_label_chars(
                    tick_value(y_axis.min_milli as int, y_axis.max_milli as int, t),
                ),
        decreases values@.len() - i,
    {
        proof {
            assert(-10 * (MAX_MILLI as int) <= (10 - i as int) * (y_axis.max_milli as int)
                <= 10 * (MAX_MILLI as int)) by (nonlinear_arith)
                requires
                    0 <= 10 - i as int <= 10,
                    -(MAX_MILLI as int) <= y_axis.max_milli as int <= MAX_MILLI as int,
            ;
            assert(-10 * (MAX_MILLI as int) <= (i as int) * (y_axis.min_milli as int)
                <= 10 * (MAX_MILLI as int)) by (nonlinear_arith)
                requires
                    0 <= i as int <= 10,
                    -(MAX_MILLI as int) <= y_axis.min_milli as int <= MAX_MILLI as int,
            ;
        }
        out.push(tick_label(values[i]));
        i = i + 1;
    }
    out
}

/// Measured text sizes handed in by the caller; `None` falls back to the
/// character-count heuristics.
pub struct XYMetrics {
    pub title_height_milli: Option<i64>,
    pub max_y_label_width_milli: Option<i64>,
    pub x_label_widths_milli: Option<Vec<i64>>,
    pub max_legend_width_milli: Option<i64>,
}

/// The computed chart frame.
pub struct XYGeometry {
    pub width_px: u32,
    pub height_px: u32,
    pub chart_left_milli: i64,
    pub chart_top_milli: i64,
    pub chart_width_milli: i64,
    pub chart_height_milli: i64,
    pub category_width_milli: i64,
    pub vertical_labels: bool,
    pub title_font_milli: i64,
    pub label_font_milli: i64,
    pub legend_font_milli: i64,
    pub legend_width_milli: i64,
}

/// The canvas width in pixels: the config override when present, else the
/// caller's default.
pub open spec fn xy_width_px(chart: XYChart, default_width: u32) -> u32 {
    match chart.config {
        Option::Some(c) => match c.width {
            Option::Some(w) => w,
            Option::None => default_width,
        },
        Option::None => default_width,
    }
}

/// The title font size, from `xyChart.titleFontSize` (default 20).
pub open spec fn xy_title_font(chart: XYChart) -> int {
    num_or_default(theme_var_spec(chart.config, "xyChart.titleFontSize"@, "20"@), 20000)
}

/// The axis-label font size, from `xyChart.labelFontSize` (default 16).
pub open spec fn xy_label_font(chart: XYChart) -> int {
    num_or_default(theme_var_spec(chart.config, "xyChart.labelFontSize"@, "16"@), 16000)
}

/// The legend font size, from `xyChart.legendFontSize` (default 17).
pub open spec fn xy_legend_font(chart: XYChart) -> int {
    num_or_default(theme_var_spec(chart.config, "xyChart.legendFontSize"@, "17"@), 17000)
}

/// The title block height and its gap: measured or the title font size; a
/// chart without a title takes none.
pub open spec fn xy_title_block(chart: XYChart, metrics: XYMetrics) -> int {
    if chart.title is Some {
        (match metrics.title_height_milli {
            Option::Some(h) => clamp_size(h as int),
            Option::None => clamp_size(xy_title_font(chart)),
        }) + 20000
    } else {
        0
    }
}

/// The widest legend label: measured, else eight pixels a character.
pub open spec fn xy_max_legend_text(chart: XYChart, metrics: XYMetrics) -> int {
    match metrics.max_legend_width_milli {
        Option::Some(w) => clamp_size(w as int),
        Option::None => clamp_size(max_label_len(legend_labels(chart), legend_labels(chart).len() as int) * 8000),
    }
}

/// The legend labels, or empty without a legend.
pub open spec fn legend_labels(chart: XYChart) -> Seq<Seq<char>> {
    match chart.legend {
        Option::Some(lg) => lg.deep_view(),
        Option::None => Seq::empty(),
    }
}

/// The longest length among the first `k` labels.
pub open spec fn max_label_len(labels: Seq<Seq<char>>, k: int) -> int
    decreases k,
{
    if k <= 0 {
        0
    } else {
        let prev = max_label_len(labels, k - 1);
        let cur = labels[k - 1].len() as int;
        if cur > prev {
            cur
        } else {
            prev
        }
    }
}

/// The legend block width and the chart-to-legend gap; zero without a
/// legend.
pub open spec fn xy_legend_width(chart: XYChart, metrics: XYMetrics) -> int {
    if chart.legend is Some {
        18000 + 4000 + xy_max_legend_text(chart, metrics) + 20000
    } else {
        0
    }
}

pub open spec fn xy_legend_gap(chart: XYChart) -> int {
    if chart.legend is Some {
        20000
    } else {
        0
    }
}

/// The widest y-axis tick label: measured, else room for two characters at
/// 60% of the label font size.
pub open spec fn xy_max_y_label(chart: XYChart, metrics: XYMetrics) -> int {
    match metrics.max_y_label_width_milli {
        Option::Some(w) => clamp_size(w as int),
        Option::None => clamp_size(xy_label_font(chart) * 6 / 10 * 2),
    }
}

/// Whether the category labels rotate to vertical: with measured label
/// widths, some label plus a minimum gap exceeds the estimated category
/// width; without measurements they stay horizontal.
pub open spec fn xy_vertical_labels(chart: XYChart, metrics: XYMetrics, default_width: u32) -> bool {
    match metrics.x_label_widths_milli {
        Option::Some(ws) => {
            let ncat = chart.x_axis.labels@.len() as int;
            if ncat == 0 {
                false
            } else {
                let est = tdiv(
                    (xy_width_px(chart, default_width) as int) * 1000 - 70000 - (xy_max_y_label(
                        chart,
                        metrics,
                    ) + 35000),
                    ncat,
                );
                exists|k: int| 0 <= k < ws@.len() && clamp_size(ws@[k] as int) + 5000 > est
            }
        },
        Option::None => false,
    }
}

/// The widest category label, charged only when labels are vertical.
pub open spec fn xy_max_x_label(chart: XYChart, metrics: XYMetrics, default_width: u32) -> int {
    if xy_vertical_labels(chart, metrics, default_width) {
        match metrics.x_label_widths_milli {
            Option::Some(ws) => max_clamped(ws@, ws@.len() as int),
            Option::None => 0,
        }
    } else {
        0
    }
}

/// The largest clamped width among the first `k`.
pub open spec fn max_clamped(ws: Seq<i64>, k: int) -> int
    decreases k,
{
    if k <= 0 {
        0
    } else {
        let prev = max_clamped(ws, k - 1);
        let cur = clamp_size(ws[k - 1] as int);
        if cur > prev {
            cur
        } else {
            prev
        }
    }
}

/// The space to the left of the plot: tick labels plus fixed gaps.
pub open spec fn xy_y_space(chart: XYChart, metrics: XYMetrics) -> int {
    xy_max_y_label(chart, metrics) + 10000 + 12000 + 20000
}

/// The space below the plot: room for horizontal labels, or the widest
/// label plus a margin when they rotate.
pub open spec fn xy_x_space(chart: XYChart, metrics: XYMetrics, default_width: u32) -> int {
    if xy_vertical_labels(chart, metrics, default_width) {
        xy_max_x_label(chart, metrics, default_width) + 20000
    } else {
        40000
    }
}

/// The plot width.
pub open spec fn xy_chart_width(chart: XYChart, metrics: XYMetrics, default_width: u32) -> int {
    (xy_width_px(chart, default_width) as int) * 1000 - 70000 - xy_y_space(chart, metrics)
        - xy_legend_width(chart, metrics) - xy_legend_gap(chart)
}

/// The plot height.
pub open spec fn xy_chart_height(chart: XYChart, metrics: XYMetrics, height: u32, default_width: u32) -> int {
    (height as int) * 1000 - 70000 - xy_title_block(chart, metrics) - xy_x_space(
        chart,
        metrics,
        default_width,
    )
}

/// The y-coordinate a value maps to: the plot bottom, moved up by the
/// value's share of the range; the bottom itself when the range is empty.
pub open spec fn value_y(bottom: int, v: int, min: int, chart_h: int, range: int) -> int {
    if range > 0 {
        bottom - tdiv((v - min) * chart_h, range)
    } else {
        bottom
    }
}

/// Map one value into the plot.
pub fn value_y_exec(bottom: i64, v: i64, min: i64, chart_h: i64, range: i64) -> (r: i64)
    requires
        -MAX_MILLI <= v <= MAX_MILLI,
        -MAX_MILLI <= min <= MAX_MILLI,
        -SIZE_CAP <= bottom <= SIZE_CAP,
        -0x40_0000_0000_0000i64 <= chart_h <= 0x40_0000_0000_0000i64,
        range >= 0,
    ensures
        r as int == clamp_coord(value_y(bottom as int, v as int, min as int, chart_h as int, range as int)),
{
    if range <= 0 {
        return clamp_coord_pub(bottom as i128);
    }
    proof {
        assert(-(0x4_0000_0000_0000_0000i128 * 0x40_0000_0000_0000) <= ((v as int) - (min as int))
            * (chart_h as int) <= 0x4_0000_0000_0000_0000i128 * 0x40_0000_0000_0000)
            by (nonlinear_arith)
            requires
                -0x4_0000_0000_0000_0000i128 <= (v as int) - (min as int)
                    <= 0x4_0000_0000_0000_0000i128,
                -0x40_0000_0000_0000i64 <= chart_h as int <= 0x40_0000_0000_0000i64,
        ;
    }
    let num: i128 = ((v as i128) - (min as i128)) * (chart_h as i128);
    let q: i128 = if num >= 0 {
        num / (range as i128)
    } else {
        -((-num) / (range as i128))
    };
    proof {
        if num >= 0 {
            vstd::arithmetic::div_mod::lemma_div_pos_is_pos(num as int, range as int);
        } else {
            vstd::arithmetic::div_mod::lemma_div_pos_is_pos(-(num as int), range as int);
        }
    }
    clamp_coord_pub((bottom as i128) - q)
}

/// Compute the chart frame.
#[verifier::rlimit(100)]
pub fn xy_geometry(chart: &XYChart, default_width: u32, height: u32, metrics: &XYMetrics) -> (r:
    XYGeometry)
    requires
        metrics.x_label_widths_milli matches Option::Some(ws) ==> ws@.len()
            == chart.x_axis.labels@.len(),
    ensures
        r.width_px == xy_width_px(*chart, default_width),
        r.height_px == height,
        r.title_font_milli as int == xy_title_font(*chart),
        r.label_font_milli as int == xy_label_font(*chart),
        r.legend_font_milli as int == xy_legend_font(*chart),
        r.legend_width_milli as int == xy_legend_width(*chart, *metrics),
        r.vertical_labels == xy_vertical_labels(*chart, *metrics, default_width),
        r.chart_left_milli as int == 35000 + xy_y_space(*chart, *metrics),
        r.chart_top_milli as int == 35000 + xy_title_block(*chart, *metrics),
        r.chart_width_milli as int == clamp_coord(xy_chart_width(*chart, *metrics, default_width)),
        r.chart_height_milli as int == clamp_coord(
            xy_chart_height(*chart, *metrics, height, default_width),
        ),
        r.category_width_milli as int == (if chart.x_axis.labels@.len() > 0 {
            tdiv(
                clamp_coord(xy_chart_width(*chart, *metrics, default_width)),
                chart.x_axis.labels@.len() as int,
            )
        } else {
            0int
        }),
{
    let width_px: u32 = match &chart.config {
        Option::Some(c) => match c.width {
            Option::Some(w) => w,
            Option::None => default_width,
        },
        Option::None => default_width,
    };
    let title_font = parse_num_or_default(
        get_theme_variable(&chart.config, "xyChart.titleFontSize", "20").as_str(),
        20000,
    );
    let label_font = parse_num_or_default(
        get_theme_variable(&chart.config, "xyChart.labelFontSize", "16").as_str(),
        16000,
    );
    let legend_font = parse_num_or_default(
        get_theme_variable(&chart.config, "xyChart.legendFontSize", "17").as_str(),
        17000,
    );
    let title_block: i64 = match &chart.title {
        Option::Some(_) => {
            let h = match metrics.title_height_milli {
                Option::Some(h) => clamp_size_exec(h as i128),
                Option::None => clamp_size_exec(title_font as i128),
            };
            h + 20000
        },
        Option::None => 0,
    };
    // legend block
    let (legend_w, legend_gap): (i64, i64) = match &chart.legend {
        Option::Some(lg) => {
            let maxtext: i64 = match metrics.max_legend_width_milli {
                Option::Some(w) => clamp_size_exec(w as i128),
                Option::None => {
                    let mut bestlen: usize = 0;
                    let mut k: usize = 0;
                    while k < lg.len()
                        invariant
                            k <= lg@.len(),
                            bestlen as int == max_label_len(lg.deep_view(), k as int),
                        decreases lg@.len() - k,
                    {
                        proof {
                            assert(lg.deep_view()[k as int] == lg@[k as int]@);
                        }
                        let len = lg[k].as_str().unicode_len();
                        if len > bestlen {
                            bestlen = len;
                        }
                        k = k + 1;
                    }
                    proof {
                        assert(0 <= (bestlen as int) * 8000 <= 0xFFFF_FFFF_FFFF_FFFF * 8000)
                            by (nonlinear_arith)
                            requires 0 <= bestlen as int <= 0xFFFF_FFFF_FFFF_FFFF;
                    }
                    clamp_size_exec((bestlen as i128) * 8000)
                },
            };
            (18000 + 4000 + maxtext + 20000, 20000)
        },
        Option::None => (0, 0),
    };
    let max_y_label: i64 = match metrics.max_y_label_width_milli {
        Option::Some(w) => clamp_size_exec(w as i128),
        Option::None => clamp_size_exec((label_font as i128) * 6 / 10 * 2),
    };
    // vertical-label decision
    let ncat = chart.x_axis.labels.len();
    let vertical: bool = match &metrics.x_label_widths_milli {
        Option::Some(ws) => {
            if ncat == 0 {
                false
            } else {
                let est_num: i128 = (width_px as i128) * 1000 - 70000 - ((max_y_label as i128)
                    + 35000);
                let est: i128 = if est_num >= 0 {
                    est_num / (ncat as i128)
                } else {
                    -((-est_num) / (ncat as i128))
                };
                proof {
                    if est_num as int >= 0 {
                        vstd::arithmetic::div_mod::lemma_div_pos_is_pos(
                            est_num as int,
                            ncat as int,
                        );
                    } else {
                        vstd::arithmetic::div_mod::lemma_div_pos_is_pos(
                            -(est_num as int),
                            ncat as int,
                        );
                    }
                }
                let mut any: bool = false;
                let mut k: usize = 0;
                while k < ws.len()
                    invariant
                        k <= ws@.len(),
                        any <==> exists|t: int|
                            0 <= t < k && clamp_size(ws@[t] as int) + 5000 > est as int,
                        -0x20_0000_0000_0000i128 <= est <= 0x20_0000_0000_0000i128,
                    decreases ws@.len() - k,
                {
                    let w = clamp_size_exec(ws[k] as i128);
                    if (w as i128) + 5000 > est {
                        proof {
                            assert(clamp_size(ws@[k as int] as int) + 5000 > est as int);
                        }
                        any = true;
                    }
                    k = k + 1;
                }
                any
            }
        },
        Option::None => false,
    };
    let max_x_label: i64 = if vertical {
        match &metrics.x_label_widths_milli {
            Option::Some(ws) => {
                let mut best: i64 = 0;
                let mut k: usize = 0;
                while k < ws.len()
                    invariant
                        k <= ws@.len(),
                        0 <= best <= SIZE_CAP,
                        best as int == max_clamped(ws@, k as int),
                    decreases ws@.len() - k,
                {
                    let cur = clamp_size_exec(ws[k] as i128);
                    if cur > best {
                        best = cur;
                    }
                    k = k + 1;
                }
                best
            },
            Option::None => 0,
        }
    } else {
        0
    };
    let y_space: i64 = max_y_label + 10000 + 12000 + 20000;
    let x_space: i64 = if vertical {
        max_x_label + 20000
    } else {
        40000
    };
    let chart_w = clamp_coord_pub(
        (width_px as i128) * 1000 - 70000 - (y_space as i128) - (legend_w as i128) - (legend_gap
            as i128),
    );
    let chart_h = clamp_coord_pub(
        (height as i128) * 1000 - 70000 - (title_block as i128) - (x_space as i128),
    );
    let category_w: i64 = if ncat > 0 {
        let q: i128 = if chart_w >= 0 {
            (chart_w as i128) / (ncat as i128)
        } else {
            -((-(chart_w as i128)) / (ncat as i128))
        };
        proof {
            if chart_w as int >= 0 {
                vstd::arithmetic::div_mod::lemma_div_pos_is_pos(chart_w as int, ncat as int);
            } else {
                vstd::arithmetic::div_mod::lemma_div_pos_is_pos(-(chart_w as int), ncat as int);
            }
        }
        q as i64
    } else {
        0
    };
    XYGeometry {
        width_px,
        height_px: height,
        chart_left_milli: 35000 + y_space,
        chart_top_milli: 35000 + title_block,
        chart_width_milli: chart_w,
        chart_height_milli: chart_h,
        category_width_milli: category_w,
        vertical_labels: vertical,
        title_font_milli: title_font,
        label_font_milli: label_font,
        legend_font_milli: legend_font,
        legend_width_milli: legend_w,
    }
}

/// The order bars of one category are drawn in: an arrangement of all the
/// series indices with their values non-increasing, so the tallest bar is
/// drawn first and shorter bars land on top of it.
pub fn bar_draw_order(values: &Vec<i64>) -> (r: Vec<usize>)
    ensures
        r@.len() == values@.len(),
        forall|t: int| 0 <= t < r@.len() ==> #[trigger] r@[t] < values@.len(),
        forall|a: int, b: int|
            0 <= a <= b < r@.len() ==> values@[#[trigger] r@[a] as int] >= values@[
                #[trigger] r@[b] as int
            ],
        r@.to_multiset() == Seq::new(values@.len(), |i: int| i as usize).to_multiset(),
{
    broadcast use vstd::seq_lib::group_to_multiset_ensures;

    let n = values.len();
    let ghost all = Seq::new(values@.len(), |i: int| i as usize);
    let mut remaining: Vec<usize> = Vec::new();
    let mut i: usize = 0;
    while i < n
        invariant
            i <= n,
            n == values@.len(),
            remaining@ == Seq::new(i as nat, |t: int| t as usize),
        decreases n - i,
    {
        remaining.push(i);
        proof {
            assert(remaining@ =~= Seq::new((i + 1) as nat, |t: int| t as usize));
        }
        i = i + 1;
    }
    proof {
        assert(remaining@ =~= all);
    }
    let mut out: Vec<usize> = Vec::new();
    while remaining.len() > 0
        invariant
            n == values@.len(),
            out@.len() + remaining@.len() == n,
            forall|t: int| 0 <= t < out@.len() ==> #[trigger] out@[t] < n,
            forall|t: int| 0 <= t < remaining@.len() ==> #[trigger] remaining@[t] < n,
            forall|a: int, b: int|
                0 <= a <= b < out@.len() ==> values@[#[trigger] out@[a] as int] >= values@[
                    #[trigger] out@[b] as int
                ],
            forall|a: int, t: int|
                0 <= a < out@.len() && 0 <= t < remaining@.len() ==> values@[
                    #[trigger] out@[a] as int
                ] >= values@[#[trigger] remaining@[t] as int],
            out@.to_multiset().add(remaining@.to_multiset()) == all.to_multiset(),
        decreases remaining@.len(),
    {
        // select the largest remaining value
        let mut m: usize = 0;
        let mut k: usize = 1;
        while k < remaining.len()
            invariant
                m < k <= remaining@.len() || (k <= remaining@.len() && m == 0),
                m < remaining@.len(),
                remaining@.len() > 0,
                n == values@.len(),
                forall|t: int| 0 <= t < remaining@.len() ==> #[trigger] remaining@[t] < n,
                forall|t: int|
                    0 <= t < k ==> values@[remaining@[m as int] as int] >= values@[
                        #[trigger] remaining@[t] as int
                    ],
            decreases remaining@.len() - k,
        {
            if values[remaining[k]] > values[remaining[m]] {
                m = k;
            }
            k = k + 1;
        }
        let chosen = remaining[m];
        let ghost out_before = out@;
        let ghost rem_before = remaining@;
        out.push(chosen);
        let _ = remaining.remove(m);
        proof {
            assert(out@ =~= out_before.push(chosen));
            assert(remaining@ =~= rem_before.remove(m as int));
            assert(rem_before.contains(chosen)) by {
                assert(rem_before[m as int] == chosen);
            }
            out_before.to_multiset_ensures();
            rem_before.to_multiset_ensures();
            assert(out_before.push(chosen).to_multiset() =~= out_before.to_multiset().insert(
                chosen,
            ));
            assert(rem_before.remove(m as int).to_multiset() =~= rem_before.to_multiset().remove(
                chosen,
            ));
            assert(rem_before.to_multiset().count(chosen) > 0);
            assert(out@.to_multiset().add(remaining@.to_multiset()) =~= all.to_multiset());
            assert forall|t: int| 0 <= t < remaining@.len() implies values@[
                out@[out@.len() - 1] as int
            ] >= values@[#[trigger] remaining@[t] as int] by {
                if t < m {
                    assert(remaining@[t] == rem_before[t]);
                } else {
                    assert(remaining@[t] == rem_before[t + 1]);
                }
            }
        }
    }
    proof {
        assert(remaining@ =~= Seq::<usize>::empty());
        assert(out@.to_multiset().add(remaining@.to_multiset()) =~= out@.to_multiset());
    }
    out
}

} // verus!
