//! The XY dialect: `xychart-beta`, an optional quoted title, an optional
//! `legend [...]`, a required `x-axis [...]`, a required
//! `y-axis "<title>" <min> --> <max>`, and bar/line series lines.

use vstd::prelude::*;
use crate::text::{
    ws_end, blank_end, find_any, trim_start, trim_end, has_tag_at, skip_ws, skip_blank, seek_any,
    trim_range, sub_string, tag_at, chars_of, lemma_ws_end, lemma_blank_end, lemma_find_any,
};
use crate::string_parser::{
    quoted_ok, quoted_close, quoted_content, quoted_string, labels_spec, parse_labels_list,
};
use crate::numbers::{
    number, number_end, number_milli, lemma_number_end_bounds, MAX_MILLI,
};
use crate::common::ChartConfig;
use crate::detect::ParseError;

verus! {

/// A parsed XY chart.
#[derive(Debug, PartialEq)]
pub struct XYChart {
    pub config: Option<ChartConfig>,
    pub title: Option<String>,
    pub legend: Option<Vec<String>>,
    pub x_axis: XAxis,
    pub y_axis: YAxis,
    pub series: Vec<Series>,
}

/// The category labels along the X axis.
#[derive(Debug, Clone, PartialEq)]
pub struct XAxis {
    pub labels: Vec<String>,
}

/// The Y axis: a title and its range, in thousandths.
#[derive(Debug, Clone, PartialEq)]
pub struct YAxis {
    pub title: String,
    pub min_milli: i64,
    pub max_milli: i64,
}

/// How a series is drawn.
#[derive(Debug, Clone, Copy, PartialEq, Eq, Structural)]
pub enum SeriesType {
    Bar,
    Line,
}

/// One series: its kind and its values in thousandths, one per category.
#[derive(Debug, Clone, PartialEq)]
pub struct Series {
    pub series_type: SeriesType,
    pub data_milli: Vec<i64>,
}

/// The shape of a series list, for reasoning.
pub open spec fn series_view(s: Seq<Series>) -> Seq<(SeriesType, Seq<int>)> {
    s.map_values(
        |sr: Series| (sr.series_type, sr.data_milli@.map_values(|v: i64| v as int)),
    )
}

/// Every series value is bounded by the numeric model.
pub open spec fn series_bounded(s: Seq<Series>) -> bool {
    forall|k: int, t: int|
        0 <= k < s.len() && 0 <= t < s[k].data_milli.len() ==> -MAX_MILLI
            <= #[trigger] s[k].data_milli[t] <= MAX_MILLI
}

// --- header ---

/// Whether a quoted title follows the keyword.
pub open spec fn xy_has_title(s: Seq<char>, after_kw: int) -> bool {
    let tw = ws_end(s, after_kw);
    has_tag_at(s, tw, "title "@) && quoted_ok(s, tw + "title "@.len(), '"')
}

/// The title text.
pub open spec fn xy_title(s: Seq<char>, after_kw: int) -> Seq<char> {
    let tw = ws_end(s, after_kw);
    quoted_content(s, tw + "title "@.len(), '"')
}

/// Position after the optional title.
pub open spec fn xy_title_next(s: Seq<char>, after_kw: int) -> int {
    let tw = ws_end(s, after_kw);
    if xy_has_title(s, after_kw) {
        quoted_close(s, tw + "title "@.len(), '"') + 1
    } else {
        tw
    }
}

/// Where the optional legend would begin.
pub open spec fn legend_at(s: Seq<char>, after_kw: int) -> int {
    ws_end(s, xy_title_next(s, after_kw))
}

/// Whether a legend line parses there.
pub open spec fn xy_has_legend(s: Seq<char>, after_kw: int) -> bool {
    let lw = legend_at(s, after_kw);
    let lb = blank_end(s, lw + "legend"@.len());
    &&& has_tag_at(s, lw, "legend"@)
    &&& lb < s.len()
    &&& s[lb] == '['
    &&& labels_spec(s, lb + 1) is Some
    &&& {
        let r = labels_spec(s, lb + 1)->0;
        r.0 < s.len() && s[r.0] == ']'
    }
}

/// The legend labels.
pub open spec fn xy_legend(s: Seq<char>, after_kw: int) -> Seq<Seq<char>> {
    let lw = legend_at(s, after_kw);
    let lb = blank_end(s, lw + "legend"@.len());
    ({
        let r = labels_spec(s, lb + 1)->0;
        r.1
    })
}

/// Position after the optional legend.
pub open spec fn legend_next(s: Seq<char>, after_kw: int) -> int {
    let lw = legend_at(s, after_kw);
    if xy_has_legend(s, after_kw) {
        let lb = blank_end(s, lw + "legend"@.len());
        let r = labels_spec(s, lb + 1)->0;
        r.0 + 1
    } else {
        lw
    }
}

// --- x-axis ---

/// Where the x-axis line begins.
pub open spec fn xaxis_at(s: Seq<char>, after_kw: int) -> int {
    ws_end(s, legend_next(s, after_kw))
}

/// The x-axis line parses there.
pub open spec fn xaxis_ok(s: Seq<char>, after_kw: int) -> bool {
    let xw = xaxis_at(s, after_kw);
    let xb = blank_end(s, xw + "x-axis"@.len());
    &&& has_tag_at(s, xw, "x-axis"@)
    &&& xb < s.len()
    &&& s[xb] == '['
    &&& labels_spec(s, xb + 1) is Some
    &&& {
        let r = labels_spec(s, xb + 1)->0;
        r.0 < s.len() && s[r.0] == ']'
    }
}

/// The category labels.
pub open spec fn xaxis_labels(s: Seq<char>, after_kw: int) -> Seq<Seq<char>> {
    let xw = xaxis_at(s, after_kw);
    let xb = blank_end(s, xw + "x-axis"@.len());
    ({
        let r = labels_spec(s, xb + 1)->0;
        r.1
    })
}

/// Position after the x-axis line.
pub open spec fn xaxis_next(s: Seq<char>, after_kw: int) -> int {
    let xw = xaxis_at(s, after_kw);
    let xb = blank_end(s, xw + "x-axis"@.len());
    ({
        let r = labels_spec(s, xb + 1)->0;
        r.0 + 1
    })
}

// --- y-axis ---

/// Where the y-axis line begins.
pub open spec fn yaxis_at(s: Seq<char>, after_kw: int) -> int {
    ws_end(s, xaxis_next(s, after_kw))
}

/// Start of the minimum value.
pub open spec fn yaxis_min_at(s: Seq<char>, after_kw: int) -> int {
    let yw = yaxis_at(s, after_kw);
    let yb = blank_end(s, yw + "y-axis"@.len());
    blank_end(s, quoted_close(s, yb, '"') + 1)
}

/// Start of the maximum value.
pub open spec fn yaxis_max_at(s: Seq<char>, after_kw: int) -> int {
    let a1 = yaxis_min_at(s, after_kw);
    let a2 = blank_end(s, number_end(s, a1)->0);
    blank_end(s, a2 + "-->"@.len())
}

/// The y-axis line parses there: `y-axis "<title>" <min> --> <max>`.
pub open spec fn yaxis_ok(s: Seq<char>, after_kw: int) -> bool {
    let yw = yaxis_at(s, after_kw);
    let yb = blank_end(s, yw + "y-axis"@.len());
    &&& has_tag_at(s, yw, "y-axis"@)
    &&& quoted_ok(s, yb, '"')
    &&& number_end(s, yaxis_min_at(s, after_kw)) is Some
    &&& {
        let a2 = blank_end(s, number_end(s, yaxis_min_at(s, after_kw))->0);
        &&& has_tag_at(s, a2, "-->"@)
        &&& number_end(s, yaxis_max_at(s, after_kw)) is Some
    }
}

/// The y-axis title text.
pub open spec fn yaxis_title(s: Seq<char>, after_kw: int) -> Seq<char> {
    let yw = yaxis_at(s, after_kw);
    let yb = blank_end(s, yw + "y-axis"@.len());
    quoted_content(s, yb, '"')
}

/// The minimum, in thousandths.
pub open spec fn yaxis_min(s: Seq<char>, after_kw: int) -> int {
    number_milli(s, yaxis_min_at(s, after_kw))
}

/// The maximum, in thousandths.
pub open spec fn yaxis_max(s: Seq<char>, after_kw: int) -> int {
    number_milli(s, yaxis_max_at(s, after_kw))
}

/// Position after the y-axis line.
pub open spec fn yaxis_next(s: Seq<char>, after_kw: int) -> int {
    number_end(s, yaxis_max_at(s, after_kw))->0
}

// --- series ---

/// The number list inside a series line, from `j` (right after `[`):
/// numbers separated by `,` with optional blanks; ends before the first
/// position that does not continue the list.
pub open spec fn nums_list(s: Seq<char>, j: int) -> (int, Seq<int>)
    decreases s.len() - j,
    via nums_list_decreases
{
    if !(0 <= j <= s.len()) {
        (j, Seq::empty())
    } else if number_end(s, j) is None {
        (j, Seq::empty())
    } else {
        let v1 = number_milli(s, j);
        let n1 = number_end(s, j)->0;
        let b = blank_end(s, n1);
        if b < s.len() && s[b] == ',' {
            let b2 = blank_end(s, b + 1);
            if number_end(s, b2) is Some {
                let rest = nums_list(s, b2);
                (rest.0, seq![v1] + rest.1)
            } else {
                (n1, seq![v1])
            }
        } else {
            (n1, seq![v1])
        }
    }
}

#[via_fn]
proof fn nums_list_decreases(s: Seq<char>, j: int) {
    if 0 <= j <= s.len() && number_end(s, j) is Some {
        lemma_number_end_bounds(s, j);
        let n1 = number_end(s, j)->0;
        lemma_blank_end(s, n1);
        let b = blank_end(s, n1);
        if b < s.len() && s[b] == ',' {
            lemma_blank_end(s, b + 1);
        }
    }
}

pub proof fn lemma_nums_list_bounds(s: Seq<char>, j: int)
    requires
        0 <= j <= s.len(),
    ensures
        j <= nums_list(s, j).0 <= s.len(),
    decreases s.len() - j,
{
    if number_end(s, j) is Some {
        lemma_number_end_bounds(s, j);
        let n1 = number_end(s, j)->0;
        lemma_blank_end(s, n1);
        let b = blank_end(s, n1);
        if b < s.len() && s[b] == ',' {
            lemma_blank_end(s, b + 1);
            let b2 = blank_end(s, b + 1);
            if number_end(s, b2) is Some {
                lemma_nums_list_bounds(s, b2);
            }
        }
    }
}

/// Parse the number list from `j` (right after `[`).
fn parse_nums(s: &Vec<char>, j: usize) -> (r: (usize, Vec<i64>))
    requires
        j <= s.len(),
    ensures
        r.0 as int == nums_list(s@, j as int).0,
        j <= r.0 <= s.len(),
        r.1@.map_values(|v: i64| v as int) == nums_list(s@, j as int).1,
        forall|t: int| 0 <= t < r.1@.len() ==> -MAX_MILLI <= #[trigger] r.1@[t] <= MAX_MILLI,
    decreases s.len() - j,
{
    proof {
        lemma_nums_list_bounds(s@, j as int);
    }
    let first = match number(s, j) {
        Option::Some(p) => p,
        Option::None => {
            let empty: Vec<i64> = Vec::new();
            proof {
                assert(empty@.map_values(|v: i64| v as int) =~= Seq::<int>::empty());
            }
            return (j, empty);
        },
    };
    proof {
        lemma_number_end_bounds(s@, j as int);
        lemma_blank_end(s@, first.0 as int);
    }
    let b = skip_blank(s, first.0);
    if b < s.len() && s[b] == ',' {
        proof {
            lemma_blank_end(s@, b + 1);
        }
        let b2 = skip_blank(s, b + 1);
        let more = match number(s, b2) {
            Option::Some(_) => true,
            Option::None => false,
        };
        if more {
            let rest = parse_nums(s, b2);
            let mut out: Vec<i64> = Vec::new();
            out.push(first.1);
            let ghost one = out@.map_values(|v: i64| v as int);
            let mut tail = rest.1;
            out.append(&mut tail);
            proof {
                assert(out@.map_values(|v: i64| v as int) =~= one + rest.1@.map_values(
                    |v: i64| v as int,
                ));
                assert(out@.map_values(|v: i64| v as int) =~= nums_list(s@, j as int).1);
            }
            return (rest.0, out);
        }
    }
    let mut one: Vec<i64> = Vec::new();
    one.push(first.1);
    proof {
        assert(one@.map_values(|v: i64| v as int) =~= nums_list(s@, j as int).1);
    }
    (first.0, one)
}

/// The characters that end a series keyword.
pub open spec fn kw_stops() -> Seq<char> {
    seq![' ', '\t']
}

/// The kind named by a series keyword: `line` draws a line, anything else
/// (including `bar`) draws bars.
pub open spec fn kind_of(t: Seq<char>) -> SeriesType {
    if t == "line"@ {
        SeriesType::Line
    } else {
        SeriesType::Bar
    }
}

/// A series line starts at `w` (no leading whitespace): a keyword run, then
/// blanks, then `[`, a number list, `]`.
pub open spec fn series_ok(s: Seq<char>, w: int) -> bool {
    let e = find_any(s, w, kw_stops());
    let b = blank_end(s, e);
    &&& b < s.len()
    &&& s[b] == '['
    &&& {
        let r = nums_list(s, b + 1);
        r.0 < s.len() && s[r.0] == ']'
    }
}

/// The kind and values of the series line at `w`.
pub open spec fn series_val(s: Seq<char>, w: int) -> (SeriesType, Seq<int>) {
    let e = find_any(s, w, kw_stops());
    let te = trim_end(s, w, e);
    let ts = trim_start(s, w, te);
    let b = blank_end(s, e);
    (kind_of(s.subrange(ts, te)), nums_list(s, b + 1).1)
}

/// Position after the series line at `w`.
pub open spec fn series_next(s: Seq<char>, w: int) -> int {
    let e = find_any(s, w, kw_stops());
    let b = blank_end(s, e);
    nums_list(s, b + 1).0 + 1
}

pub proof fn lemma_series_bounds(s: Seq<char>, w: int)
    requires
        0 <= w <= s.len(),
        series_ok(s, w),
    ensures
        w < series_next(s, w) <= s.len(),
{
    lemma_find_any(s, w, kw_stops());
    let e = find_any(s, w, kw_stops());
    lemma_blank_end(s, e);
    let b = blank_end(s, e);
    lemma_nums_list_bounds(s, b + 1);
}

/// The series list starting at `i`: series lines separated by whitespace,
/// ending right before the first text that is not a series line.
pub open spec fn series_list(s: Seq<char>, i: int) -> (int, Seq<(SeriesType, Seq<int>)>)
    decreases s.len() - i,
    via series_list_decreases
{
    if !(0 <= i <= s.len()) {
        (i, Seq::empty())
    } else {
        let w = ws_end(s, i);
        if series_ok(s, w) {
            let n = series_next(s, w);
            let rest = series_list(s, n);
            (rest.0, seq![series_val(s, w)] + rest.1)
        } else {
            (i, Seq::empty())
        }
    }
}

#[via_fn]
proof fn series_list_decreases(s: Seq<char>, i: int) {
    if 0 <= i <= s.len() {
        lemma_ws_end(s, i);
        let w = ws_end(s, i);
        if series_ok(s, w) {
            lemma_series_bounds(s, w);
        }
    }
}

/// Parse one series line at `w`.
fn parse_series_line(s: &Vec<char>, w: usize) -> (r: Option<(usize, Series)>)
    requires
        w <= s.len(),
    ensures
        r is Some <==> series_ok(s@, w as int),
        r matches Option::Some(p) ==> {
            &&& p.0 as int == series_next(s@, w as int)
            &&& w < p.0 <= s.len()
            &&& (p.1.series_type, p.1.data_milli@.map_values(|v: i64| v as int)) == series_val(
                s@,
                w as int,
            )
            &&& forall|t: int|
                0 <= t < p.1.data_milli@.len() ==> -MAX_MILLI <= #[trigger] p.1.data_milli@[t]
                    <= MAX_MILLI
        },
{
    let mut stops: Vec<char> = Vec::new();
    stops.push(' ');
    stops.push('\t');
    proof {
        assert(stops@ =~= kw_stops());
        lemma_find_any(s@, w as int, kw_stops());
    }
    let e = seek_any(s, w, &stops);
    let (a, b0) = trim_range(s, w, e);
    let kind_text = sub_string(s, a, b0);
    proof {
        lemma_blank_end(s@, e as int);
    }
    let b = skip_blank(s, e);
    if !(b < s.len() && s[b] == '[') {
        return Option::None;
    }
    let (nend, data_milli) = parse_nums(s, b + 1);
    if !(nend < s.len() && s[nend] == ']') {
        return Option::None;
    }
    let series_type = if crate::text::str_eq(kind_text.as_str(), "line") {
        SeriesType::Line
    } else {
        SeriesType::Bar
    };
    proof {
        lemma_series_bounds(s@, w as int);
    }
    Option::Some((nend + 1, Series { series_type, data_milli }))
}

/// Parse the series list from `i` on; never fails.
fn parse_series(s: &Vec<char>, i: usize) -> (r: Vec<Series>)
    requires
        i <= s.len(),
    ensures
        series_view(r@) == series_list(s@, i as int).1,
        series_bounded(r@),
{
    let mut series: Vec<Series> = Vec::new();
    let mut cur = i;
    proof {
        assert(series_view(series@) =~= Seq::<(SeriesType, Seq<int>)>::empty());
    }
    loop
        invariant
            i <= cur <= s.len(),
            series_list(s@, i as int).1 == series_view(series@) + series_list(s@, cur as int).1,
            series_bounded(series@),
        decreases s.len() - cur,
    {
        proof {
            lemma_ws_end(s@, cur as int);
        }
        let w = skip_ws(s, cur);
        let ghost before = series_view(series@);
        match parse_series_line(s, w) {
            Option::Some(p) => {
                series.push(p.1);
                proof {
                    assert(series_view(series@) =~= before.push(series_val(s@, w as int)));
                    assert(before + (seq![series_val(s@, w as int)] + series_list(
                        s@,
                        p.0 as int,
                    ).1) =~= series_view(series@) + series_list(s@, p.0 as int).1);
                }
                cur = p.0;
            },
            Option::None => {
                proof {
                    assert(series_view(series@) + Seq::<(SeriesType, Seq<int>)>::empty()
                        =~= series_view(series@));
                }
                return series;
            },
        }
    }
}

// --- the whole document ---

/// The y-axis range is ordered: the maximum exceeds the minimum. This is
/// the data-model invariant; a document whose range is empty (in the
/// thousandths model) is rejected rather than handed to layout.
pub open spec fn yaxis_range_ok(s: Seq<char>, after_kw: int) -> bool {
    yaxis_min(s, after_kw) < yaxis_max(s, after_kw)
}

/// The whole chart parses: the keyword, then x-axis and y-axis lines, and
/// the y-axis range is ordered.
pub open spec fn xy_ok(s: Seq<char>, i: int) -> bool {
    &&& has_tag_at(s, i, "xychart-beta"@)
    &&& xaxis_ok(s, i + "xychart-beta"@.len())
    &&& yaxis_ok(s, i + "xychart-beta"@.len())
    &&& yaxis_range_ok(s, i + "xychart-beta"@.len())
}

/// Where parsing fails when `xy_ok` does not hold: at the keyword, at the
/// x-axis line, or at the y-axis line.
pub open spec fn xy_fail_at(s: Seq<char>, i: int) -> int {
    if !has_tag_at(s, i, "xychart-beta"@) {
        i
    } else if !xaxis_ok(s, i + "xychart-beta"@.len()) {
        xaxis_at(s, i + "xychart-beta"@.len())
    } else {
        yaxis_at(s, i + "xychart-beta"@.len())
    }
}

/// Parse an XY chart at position `i` of `s`.
#[verifier::rlimit(100)]
fn parse_xy_at(s: &Vec<char>, i: usize, config: Option<ChartConfig>) -> (r: Result<
    XYChart,
    usize,
>)
    requires
        i <= s.len(),
    ensures
        r is Ok <==> xy_ok(s@, i as int),
        r matches Result::Ok(c) ==> {
            let after_kw = i + "xychart-beta"@.len();
            &&& c.config == config
            &&& c.title is Some <==> xy_has_title(s@, after_kw)
            &&& c.title matches Option::Some(t) ==> t@ == xy_title(s@, after_kw)
            &&& c.legend is Some <==> xy_has_legend(s@, after_kw)
            &&& c.legend matches Option::Some(lg) ==> lg.deep_view() == xy_legend(s@, after_kw)
            &&& c.x_axis.labels.deep_view() == xaxis_labels(s@, after_kw)
            &&& c.y_axis.title@ == yaxis_title(s@, after_kw)
            &&& c.y_axis.min_milli as int == yaxis_min(s@, after_kw)
            &&& c.y_axis.max_milli as int == yaxis_max(s@, after_kw)
            &&& -MAX_MILLI <= c.y_axis.min_milli <= MAX_MILLI
            &&& -MAX_MILLI <= c.y_axis.max_milli <= MAX_MILLI
            &&& series_view(c.series@) == series_list(s@, yaxis_next(s@, after_kw)).1
            &&& series_bounded(c.series@)
            &&& c.y_axis.min_milli < c.y_axis.max_milli
        },
        r matches Result::Err(e) ==> i <= e <= s.len() && e as int == xy_fail_at(s@, i as int),
{
    let kw = chars_of("xychart-beta");
    if !tag_at(s, i, &kw) {
        return Result::Err(i);
    }
    let after_kw = i + kw.len();
    proof {
        lemma_ws_end(s@, after_kw as int);
    }
    // optional title
    let tw = skip_ws(s, after_kw);
    let title_tag = chars_of("title ");
    let mut title: Option<String> = Option::None;
    let mut after_title = tw;
    if tag_at(s, tw, &title_tag) {
        match quoted_string(s, tw + title_tag.len()) {
            Option::Some(p) => {
                title = Option::Some(p.1);
                after_title = p.0;
            },
            Option::None => {},
        }
    }
    proof {
        lemma_ws_end(s@, after_title as int);
    }
    // optional legend
    let lw = skip_ws(s, after_title);
    let legend_tag = chars_of("legend");
    let mut legend: Option<Vec<String>> = Option::None;
    let mut after_legend = lw;
    if tag_at(s, lw, &legend_tag) {
        proof {
            lemma_blank_end(s@, lw + legend_tag@.len());
        }
        let lb = skip_blank(s, lw + legend_tag.len());
        if lb < s.len() && s[lb] == '[' {
            match parse_labels_list(s, lb + 1) {
                Option::Some(p) => {
                    if p.0 < s.len() && s[p.0] == ']' {
                        legend = Option::Some(p.1);
                        after_legend = p.0 + 1;
                    }
                },
                Option::None => {},
            }
        }
    }
    proof {
        lemma_ws_end(s@, after_legend as int);
    }
    // required x-axis
    let xw = skip_ws(s, after_legend);
    let xaxis_tag = chars_of("x-axis");
    if !tag_at(s, xw, &xaxis_tag) {
        return Result::Err(xw);
    }
    proof {
        lemma_blank_end(s@, xw + xaxis_tag@.len());
    }
    let xb = skip_blank(s, xw + xaxis_tag.len());
    if !(xb < s.len() && s[xb] == '[') {
        return Result::Err(xw);
    }
    let xlist = match parse_labels_list(s, xb + 1) {
        Option::Some(p) => p,
        Option::None => {
            return Result::Err(xw);
        },
    };
    if !(xlist.0 < s.len() && s[xlist.0] == ']') {
        return Result::Err(xw);
    }
    let x_axis = XAxis { labels: xlist.1 };
    proof {
        lemma_ws_end(s@, xlist.0 + 1);
    }
    // required y-axis
    let yw = skip_ws(s, xlist.0 + 1);
    let yaxis_tag = chars_of("y-axis");
    if !tag_at(s, yw, &yaxis_tag) {
        return Result::Err(yw);
    }
    proof {
        lemma_blank_end(s@, yw + yaxis_tag@.len());
    }
    let yb = skip_blank(s, yw + yaxis_tag.len());
    let ytitle = match quoted_string(s, yb) {
        Option::Some(p) => p,
        Option::None => {
            return Result::Err(yw);
        },
    };
    proof {
        lemma_blank_end(s@, ytitle.0 as int);
    }
    let a1 = skip_blank(s, ytitle.0);
    let min_num = match number(s, a1) {
        Option::Some(p) => p,
        Option::None => {
            return Result::Err(yw);
        },
    };
    proof {
        lemma_blank_end(s@, min_num.0 as int);
    }
    let a2 = skip_blank(s, min_num.0);
    let arrow = chars_of("-->");
    if !tag_at(s, a2, &arrow) {
        return Result::Err(yw);
    }
    proof {
        lemma_blank_end(s@, a2 + arrow@.len());
    }
    let a3 = skip_blank(s, a2 + arrow.len());
    let max_num = match number(s, a3) {
        Option::Some(p) => p,
        Option::None => {
            return Result::Err(yw);
        },
    };
    if !(min_num.1 < max_num.1) {
        return Result::Err(yw);
    }
    let y_axis = YAxis { title: ytitle.1, min_milli: min_num.1, max_milli: max_num.1 };
    // series
    let series = parse_series(s, max_num.0);
    Result::Ok(XYChart { config, title, legend, x_axis, y_axis, series })
}

/// Parse the XY chart body; the input must begin with the keyword. On
/// failure the error holds the unconsumed remainder at the failing line.
pub fn parse_xychart_content(input: &str, config: Option<ChartConfig>) -> (r: Result<
    XYChart,
    ParseError,
>)
    ensures
        r is Ok <==> xy_ok(input@, 0),
        r matches Result::Ok(c) ==> {
            let after_kw = "xychart-beta"@.len() as int;
            &&& c.config == config
            &&& c.title is Some <==> xy_has_title(input@, after_kw)
            &&& c.title matches Option::Some(t) ==> t@ == xy_title(input@, after_kw)
            &&& c.legend is Some <==> xy_has_legend(input@, after_kw)
            &&& c.legend matches Option::Some(lg) ==> lg.deep_view() == xy_legend(input@, after_kw)
            &&& c.x_axis.labels.deep_view() == xaxis_labels(input@, after_kw)
            &&& c.y_axis.title@ == yaxis_title(input@, after_kw)
            &&& c.y_axis.min_milli as int == yaxis_min(input@, after_kw)
            &&& c.y_axis.max_milli as int == yaxis_max(input@, after_kw)
            &&& series_view(c.series@) == series_list(input@, yaxis_next(input@, after_kw)).1
            &&& series_bounded(c.series@)
            &&& c.y_axis.min_milli < c.y_axis.max_milli
        },
        r matches Result::Err(e) ==> e.remaining@ == input@.subrange(
            xy_fail_at(input@, 0),
            input@.len() as int,
        ),
{
    let cs = chars_of(input);
    match parse_xy_at(&cs, 0, config) {
        Result::Ok(c) => Result::Ok(c),
        Result::Err(pos) => Result::Err(
            ParseError { remaining: sub_string(&cs, pos, cs.len()) },
        ),
    }
}

/// Parse a whole XY document: optional theming header, then the chart.
pub fn parse_xychart(input: &str) -> (r: Result<XYChart, ParseError>)
    ensures
        r is Ok <==> xy_ok(input@, crate::detect::content_start(input@)),
        r matches Result::Ok(c) ==> {
            let after_kw = crate::detect::content_start(input@) + "xychart-beta"@.len();
            &&& (c.config is Some <==> crate::detect::has_config(input@))
            &&& c.config matches Option::Some(cfg) ==> {
                let m = crate::common::config_map(
                    input@,
                    crate::text::ws_end(input@, 0) + "%%{init: "@.len(),
                );
                &&& cfg.theme@ == crate::common::theme_of(m)
                &&& cfg.width == crate::common::width_entry(m)
                &&& crate::common::kv_view(cfg.theme_variables@) == crate::common::variables_of(m)
            }
            &&& (c.title is Some <==> xy_has_title(input@, after_kw))
            &&& (c.title matches Option::Some(t) ==> t@ == xy_title(input@, after_kw))
            &&& (c.legend is Some <==> xy_has_legend(input@, after_kw))
            &&& (c.legend matches Option::Some(lg) ==> lg.deep_view() == xy_legend(
                input@,
                after_kw,
            ))
            &&& c.x_axis.labels.deep_view() == xaxis_labels(input@, after_kw)
            &&& c.y_axis.title@ == yaxis_title(input@, after_kw)
            &&& c.y_axis.min_milli as int == yaxis_min(input@, after_kw)
            &&& c.y_axis.max_milli as int == yaxis_max(input@, after_kw)
            &&& series_view(c.series@) == series_list(input@, yaxis_next(input@, after_kw)).1
            &&& series_bounded(c.series@)
            &&& c.y_axis.min_milli < c.y_axis.max_milli
        },
        r matches Result::Err(e) ==> e.remaining@ == input@.subrange(
            xy_fail_at(input@, crate::detect::content_start(input@)),
            input@.len() as int,
        ),
{
    let cs = chars_of(input);
    proof {
        lemma_ws_end(cs@, 0);
    }
    let a = skip_ws(&cs, 0);
    let (config, after) = match crate::common::config_line(&cs, a) {
        Option::Some(p) => (Option::Some(p.1), p.0),
        Option::None => (Option::None, 0),
    };
    proof {
        lemma_ws_end(cs@, after as int);
    }
    let rest = skip_ws(&cs, after);
    match parse_xy_at(&cs, rest, config) {
        Result::Ok(c) => Result::Ok(c),
        Result::Err(pos) => Result::Err(
            ParseError { remaining: sub_string(&cs, pos, cs.len()) },
        ),
    }
}

} // verus!
