//! The pie dialect: `pie [showData] [title <rest-of-line>]` followed by
//! entries of the form `"<label>": <number>`.

use vstd::prelude::*;
use crate::text::{
    ws_end, blank_end, find_char, has_tag_at, skip_ws, skip_blank, seek_char, sub_string, tag_at,
    chars_of, lemma_ws_end, lemma_blank_end, lemma_find_char,
};
use crate::string_parser::{quoted_ok, quoted_close, quoted_content, quoted_string};
use crate::numbers::{number, number_end, number_milli, lemma_number_end_bounds, MAX_MILLI};
use crate::common::ChartConfig;
use crate::detect::ParseError;

verus! {

/// The pie-chart name for the shared config.
pub type PieChartConfig = ChartConfig;

/// One pie entry: a label and its value in thousandths.
#[derive(Debug, Clone, PartialEq)]
pub struct PieChartData {
    pub label: String,
    pub value_milli: i64,
}

/// A parsed pie chart.
#[derive(Debug, PartialEq)]
pub struct PieChart {
    pub config: Option<ChartConfig>,
    pub show_data: bool,
    pub title: Option<String>,
    pub data: Vec<PieChartData>,
}

/// The text of a pie dataset, for reasoning.
pub open spec fn pie_data_view(d: Seq<PieChartData>) -> Seq<(Seq<char>, int)> {
    d.map_values(|e: PieChartData| (e.label@, e.value_milli as int))
}

/// Every pie value is bounded by the numeric model.
pub open spec fn pie_data_bounded(d: Seq<PieChartData>) -> bool {
    forall|k: int| 0 <= k < d.len() ==> -MAX_MILLI <= #[trigger] d[k].value_milli <= MAX_MILLI
}

/// Whether the header shows the `showData` flag.
pub open spec fn pie_show(s: Seq<char>, i: int) -> bool {
    has_tag_at(s, blank_end(s, i + "pie"@.len()), "showData"@)
}

/// Position after the optional `showData` flag.
pub open spec fn pie_after_show(s: Seq<char>, i: int) -> int {
    let b1 = blank_end(s, i + "pie"@.len());
    if has_tag_at(s, b1, "showData"@) {
        b1 + "showData"@.len()
    } else {
        b1
    }
}

/// Whether a `title ` clause follows (it needs a newline to end at).
pub open spec fn pie_has_title(s: Seq<char>, i: int) -> bool {
    let b2 = blank_end(s, pie_after_show(s, i));
    has_tag_at(s, b2, "title "@) && find_char(s, b2 + "title "@.len(), '\n') < s.len()
}

/// The title text: everything from `title ` to the end of the line.
pub open spec fn pie_title(s: Seq<char>, i: int) -> Seq<char> {
    let b2 = blank_end(s, pie_after_show(s, i));
    let t0 = b2 + "title "@.len();
    s.subrange(t0, find_char(s, t0, '\n'))
}

/// Position after the whole header.
pub open spec fn pie_body_start(s: Seq<char>, i: int) -> int {
    let b2 = blank_end(s, pie_after_show(s, i));
    if pie_has_title(s, i) {
        find_char(s, b2 + "title "@.len(), '\n')
    } else {
        b2
    }
}

pub proof fn lemma_pie_body_start_bounds(s: Seq<char>, i: int)
    requires
        0 <= i,
        i + "pie"@.len() <= s.len(),
    ensures
        i <= pie_body_start(s, i) <= s.len(),
{
    lemma_blank_end(s, i + "pie"@.len());
    let b1 = blank_end(s, i + "pie"@.len());
    lemma_blank_end(s, pie_after_show(s, i));
    let b2 = blank_end(s, pie_after_show(s, i));
    if pie_has_title(s, i) {
        lemma_find_char(s, b2 + "title "@.len(), '\n');
    }
}

/// An entry `"<label>": <number>` starts at `w`.
pub open spec fn pie_entry_ok(s: Seq<char>, w: int) -> bool {
    &&& quoted_ok(s, w, '"')
    &&& quoted_close(s, w, '"') + 1 < s.len()
    &&& s[quoted_close(s, w, '"') + 1] == ':'
    &&& number_end(s, blank_end(s, quoted_close(s, w, '"') + 2)) is Some
}

/// Position after the entry starting at `w`.
pub open spec fn pie_entry_next(s: Seq<char>, w: int) -> int {
    number_end(s, blank_end(s, quoted_close(s, w, '"') + 2))->0
}

/// The label and value of the entry starting at `w`.
pub open spec fn pie_entry_val(s: Seq<char>, w: int) -> (Seq<char>, int) {
    (quoted_content(s, w, '"'), number_milli(s, blank_end(s, quoted_close(s, w, '"') + 2)))
}

pub proof fn lemma_pie_entry_bounds(s: Seq<char>, w: int)
    requires
        0 <= w <= s.len(),
        pie_entry_ok(s, w),
    ensures
        w < pie_entry_next(s, w) <= s.len(),
{
    lemma_find_char(s, w + 1, '"');
    let qc = quoted_close(s, w, '"');
    lemma_blank_end(s, qc + 2);
    lemma_number_end_bounds(s, blank_end(s, qc + 2));
}

/// The entry list starting at `i`: entries separated by whitespace, ending
/// right before the first position where no entry parses.
pub open spec fn pie_entries(s: Seq<char>, i: int) -> (int, Seq<(Seq<char>, int)>)
    decreases s.len() - i,
    via pie_entries_decreases
{
    if !(0 <= i <= s.len()) {
        (i, Seq::empty())
    } else {
        let w = ws_end(s, i);
        if pie_entry_ok(s, w) {
            let n = pie_entry_next(s, w);
            let rest = pie_entries(s, n);
            (rest.0, seq![pie_entry_val(s, w)] + rest.1)
        } else {
            (i, Seq::empty())
        }
    }
}

#[via_fn]
proof fn pie_entries_decreases(s: Seq<char>, i: int) {
    if 0 <= i <= s.len() {
        lemma_ws_end(s, i);
        let w = ws_end(s, i);
        if pie_entry_ok(s, w) {
            lemma_pie_entry_bounds(s, w);
        }
    }
}

/// Parse one entry at `w` (no leading whitespace).
fn pie_data_entry(s: &Vec<char>, w: usize) -> (r: Option<(usize, PieChartData)>)
    requires
        w <= s.len(),
    ensures
        r is Some <==> pie_entry_ok(s@, w as int),
        r matches Option::Some(p) ==> {
            &&& p.0 as int == pie_entry_next(s@, w as int)
            &&& w < p.0 <= s.len()
            &&& (p.1.label@, p.1.value_milli as int) == pie_entry_val(s@, w as int)
            &&& -MAX_MILLI <= p.1.value_milli <= MAX_MILLI
        },
{
    let label = match quoted_string(s, w) {
        Option::Some(p) => p,
        Option::None => {
            return Option::None;
        },
    };
    let after_quote = label.0;
    if !(after_quote < s.len() && s[after_quote] == ':') {
        return Option::None;
    }
    proof {
        lemma_blank_end(s@, after_quote + 1);
    }
    let b = skip_blank(s, after_quote + 1);
    match number(s, b) {
        Option::Some(p) => {
            proof {
                lemma_pie_entry_bounds(s@, w as int);
            }
            Option::Some((p.0, PieChartData { label: label.1, value_milli: p.1 }))
        },
        Option::None => Option::None,
    }
}

/// Parse the entry list from `i` on; never fails, stopping before the first
/// text that is not an entry.
fn pie_body(s: &Vec<char>, i: usize) -> (r: Vec<PieChartData>)
    requires
        i <= s.len(),
    ensures
        pie_data_view(r@) == pie_entries(s@, i as int).1,
        pie_data_bounded(r@),
{
    let mut data: Vec<PieChartData> = Vec::new();
    let mut cur = i;
    proof {
        assert(pie_data_view(data@) =~= Seq::<(Seq<char>, int)>::empty());
    }
    loop
        invariant
            i <= cur <= s.len(),
            pie_entries(s@, i as int).1 == pie_data_view(data@) + pie_entries(s@, cur as int).1,
            pie_data_bounded(data@),
        decreases s.len() - cur,
    {
        proof {
            lemma_ws_end(s@, cur as int);
        }
        let w = skip_ws(s, cur);
        let ghost data_before = pie_data_view(data@);
        match pie_data_entry(s, w) {
            Option::Some(p) => {
                data.push(p.1);
                proof {
                    assert(pie_data_view(data@) =~= data_before.push(
                        pie_entry_val(s@, w as int),
                    ));
                    assert(data_before + (seq![pie_entry_val(s@, w as int)] + pie_entries(
                        s@,
                        p.0 as int,
                    ).1) =~= pie_data_view(data@) + pie_entries(s@, p.0 as int).1);
                }
                cur = p.0;
            },
            Option::None => {
                proof {
                    assert(pie_entries(s@, cur as int).1 =~= Seq::<(Seq<char>, int)>::empty());
                    assert(pie_data_view(data@) + Seq::<(Seq<char>, int)>::empty()
                        =~= pie_data_view(data@));
                }
                return data;
            },
        }
    }
}

/// Parse the pie header and body; the input must begin with the `pie`
/// keyword. On failure the error holds the whole input.
pub fn parse_pie_chart_content(input: &str, config: Option<ChartConfig>) -> (r: Result<
    PieChart,
    ParseError,
>)
    ensures
        r is Ok <==> has_tag_at(input@, 0, "pie"@),
        r matches Result::Ok(c) ==> {
            &&& c.config == config
            &&& c.show_data == pie_show(input@, 0)
            &&& c.title is Some <==> pie_has_title(input@, 0)
            &&& c.title matches Option::Some(t) ==> t@ == pie_title(input@, 0)
            &&& pie_data_view(c.data@) == pie_entries(input@, pie_body_start(input@, 0)).1
            &&& pie_data_bounded(c.data@)
        },
        r matches Result::Err(e) ==> e.remaining@ == input@,
{
    let cs = chars_of(input);
    match parse_pie_at(&cs, 0, config) {
        Option::Some(c) => Result::Ok(c),
        Option::None => Result::Err(ParseError { remaining: input.to_owned() }),
    }
}

/// Parse a pie chart at position `i` of `s`: keyword, header, body.
fn parse_pie_at(s: &Vec<char>, i: usize, config: Option<ChartConfig>) -> (r: Option<PieChart>)
    requires
        i <= s.len(),
    ensures
        r is Some <==> has_tag_at(s@, i as int, "pie"@),
        r matches Option::Some(c) ==> {
            &&& c.config == config
            &&& c.show_data == pie_show(s@, i as int)
            &&& c.title is Some <==> pie_has_title(s@, i as int)
            &&& c.title matches Option::Some(t) ==> t@ == pie_title(s@, i as int)
            &&& pie_data_view(c.data@) == pie_entries(s@, pie_body_start(s@, i as int)).1
            &&& pie_data_bounded(c.data@)
        },
{
    let pie_tag = chars_of("pie");
    if !tag_at(s, i, &pie_tag) {
        return Option::None;
    }
    proof {
        lemma_blank_end(s@, i + pie_tag@.len());
        lemma_pie_body_start_bounds(s@, i as int);
    }
    let b1 = skip_blank(s, i + pie_tag.len());
    let show_tag = chars_of("showData");
    let show_data = tag_at(s, b1, &show_tag);
    let p2 = if show_data {
        b1 + show_tag.len()
    } else {
        b1
    };
    proof {
        lemma_blank_end(s@, p2 as int);
    }
    let b2 = skip_blank(s, p2);
    let title_tag = chars_of("title ");
    let mut title: Option<String> = Option::None;
    let mut body_start = b2;
    if tag_at(s, b2, &title_tag) {
        let t0 = b2 + title_tag.len();
        proof {
            lemma_find_char(s@, t0 as int, '\n');
        }
        let nl = seek_char(s, t0, '\n');
        if nl < s.len() {
            title = Option::Some(sub_string(s, t0, nl));
            body_start = nl;
        }
    }
    let data = pie_body(s, body_start);
    Option::Some(PieChart { config, show_data, title, data })
}

/// Parse a whole pie document: optional theming header, then the chart.
pub fn parse_pie_chart(input: &str) -> (r: Result<PieChart, ParseError>)
    ensures
        r is Ok <==> has_tag_at(input@, crate::detect::content_start(input@), "pie"@),
        r matches Result::Ok(c) ==> {
            let cs0 = crate::detect::content_start(input@);
            &&& (c.config is Some <==> crate::detect::has_config(input@))
            &&& c.config matches Option::Some(cfg) ==> {
                let m = crate::common::config_map(
                    input@,
                    crate::text::ws_end(input@, 0) + "%%{init: "@.len(),
                );
                &&& cfg.theme@ == crate::common::theme_of(m)
                &&& cfg.width == crate::common::width_entry(m)
                &&& crate::common::kv_view(cfg.theme_variables@) == crate::common::variables_of(m)
            }
            &&& c.show_data == pie_show(input@, cs0)
            &&& (c.title is Some <==> pie_has_title(input@, cs0))
            &&& (c.title matches Option::Some(t) ==> t@ == pie_title(input@, cs0))
            &&& pie_data_view(c.data@) == pie_entries(input@, pie_body_start(input@, cs0)).1
            &&& pie_data_bounded(c.data@)
        },
        r matches Result::Err(e) ==> e.remaining@ == input@.subrange(
            crate::detect::content_start(input@),
            input@.len() as int,
        ),
{
    let cs = chars_of(input);
    proof {
        lemma_ws_end(cs@, 0);
    }
    let a = skip_ws(&cs, 0);
    let (config, after) = match crate::common::config_line(&cs, a) {
        Option::Some(p) => (Option::Some(p.1), p.0),
        Option::None => (Option::None, 0),
    };
    proof {
        lemma_ws_end(cs@, after as int);
    }
    let rest = skip_ws(&cs, after);
    match parse_pie_at(&cs, rest, config) {
        Option::Some(c) => Result::Ok(c),
        Option::None => Result::Err(
            ParseError { remaining: sub_string(&cs, rest, cs.len()) },
        ),
    }
}

} // verus!
