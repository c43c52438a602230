//! Chart-type detection and the front of the pipeline.
//!
//! After the optional theming header, the remaining input is classified by
//! trying fixed keyword prefixes in priority order: the multi-word keyword
//! first, then the XY keyword, then the pie keyword, so that the short `pie`
//! token never shadows the longer keywords.

use vstd::prelude::*;
use crate::text::{
    ws_end, has_tag_at, eq_ignore_case, skip_ws, tag_at, chars_of, sub_string,
    chars_eq_ignore_case, lemma_ws_end,
};
use crate::common::{ChartConfig, config_line, config_ok, config_end, config_map, theme_of,
    width_entry, variables_of, kv_view};

verus! {

/// One of the three dialects.
#[derive(Debug, Clone, PartialEq, Eq, Structural)]
pub enum ChartType {
    Pie,
    XY,
    WorkItemMovement,
}

/// A parse failure, carrying the unconsumed remainder of the input.
#[derive(Debug)]
pub struct ParseError {
    pub remaining: String,
}

/// The dialect selected by the keyword after position `i` (whitespace
/// skipped), with the priority order fixed: `work-item-movement`, then
/// `xychart-beta`, then `pie`.
pub open spec fn detect_spec(s: Seq<char>, i: int) -> Option<(int, ChartType)> {
    let w = ws_end(s, i);
    if has_tag_at(s, w, "work-item-movement"@) {
        Option::Some((w + "work-item-movement"@.len(), ChartType::WorkItemMovement))
    } else if has_tag_at(s, w, "xychart-beta"@) {
        Option::Some((w + "xychart-beta"@.len(), ChartType::XY))
    } else if has_tag_at(s, w, "pie"@) {
        Option::Some((w + "pie"@.len(), ChartType::Pie))
    } else {
        Option::None
    }
}

/// Classify the input at `i` by keyword prefix, in priority order; yields
/// the position after the keyword. `None` is the unknown-chart-type error.
pub fn detect_chart_type(s: &Vec<char>, i: usize) -> (r: Option<(usize, ChartType)>)
    requires
        i <= s.len(),
    ensures
        r is Some <==> detect_spec(s@, i as int) is Some,
        r matches Option::Some(p) ==> {
            &&& detect_spec(s@, i as int) == Option::Some((p.0 as int, p.1))
            &&& i <= p.0 <= s.len()
        },
{
    proof {
        lemma_ws_end(s@, i as int);
    }
    let w = skip_ws(s, i);
    let wim = chars_of("work-item-movement");
    if tag_at(s, w, &wim) {
        return Option::Some((w + wim.len(), ChartType::WorkItemMovement));
    }
    let xy = chars_of("xychart-beta");
    if tag_at(s, w, &xy) {
        return Option::Some((w + xy.len(), ChartType::XY));
    }
    let pie = chars_of("pie");
    if tag_at(s, w, &pie) {
        return Option::Some((w + pie.len(), ChartType::Pie));
    }
    Option::None
}

/// Where the dialect text begins: after the theming header when one parses,
/// and after leading whitespace either way.
pub open spec fn content_start(s: Seq<char>) -> int {
    let a = ws_end(s, 0);
    if config_ok(s, a) {
        ws_end(s, config_end(s, a))
    } else {
        a
    }
}

/// Whether the input carries a theming header.
pub open spec fn has_config(s: Seq<char>) -> bool {
    config_ok(s, ws_end(s, 0))
}

/// Parse the optional theming header, then classify the rest. Yields the
/// config (when present), the dialect, and the remaining text beginning at
/// the dialect keyword. Fails only when no keyword matches; the error holds
/// the unconsumed remainder.
pub fn parse_config_and_detect_type(input: &str) -> (r: Result<
    (Option<ChartConfig>, ChartType, String),
    ParseError,
>)
    ensures
        r is Ok <==> detect_spec(input@, content_start(input@)) is Some,
        r matches Result::Ok(p) ==> {
            &&& p.0 is Some <==> has_config(input@)
            &&& p.0 matches Option::Some(cfg) ==> {
                let m = config_map(input@, ws_end(input@, 0) + "%%{init: "@.len());
                &&& cfg.theme@ == theme_of(m)
                &&& cfg.width == width_entry(m)
                &&& kv_view(cfg.theme_variables@) == variables_of(m)
            }
            &&& detect_spec(input@, content_start(input@)) matches Option::Some(d) && d.1 == p.1
            &&& p.2@ == input@.subrange(content_start(input@), input@.len() as int)
        },
        r matches Result::Err(e) ==> e.remaining@ == input@.subrange(
            content_start(input@),
            input@.len() as int,
        ),
{
    let cs = chars_of(input);
    proof {
        lemma_ws_end(cs@, 0);
    }
    let a = skip_ws(&cs, 0);
    let (config, after) = match config_line(&cs, a) {
        Option::Some(p) => (Option::Some(p.1), p.0),
        Option::None => (Option::None, 0),
    };
    proof {
        lemma_ws_end(cs@, after as int);
    }
    let rest_start = skip_ws(&cs, after);
    proof {
        if config is None {
            assert(ws_end(cs@, 0) == a);
            assert(rest_start as int == content_start(cs@));
        }
    }
    let remaining = sub_string(&cs, rest_start, cs.len());
    match detect_chart_type(&cs, rest_start) {
        Option::Some(d) => Result::Ok((config, d.1, remaining)),
        Option::None => Result::Err(ParseError { remaining }),
    }
}

/// Index of the last occurrence of `c`, or `-1`.
pub open spec fn rfind_char(s: Seq<char>, c: char) -> int
    decreases s.len(),
{
    if s.len() == 0 {
        -1
    } else if s.last() == c {
        s.len() - 1
    } else {
        rfind_char(s.drop_last(), c)
    }
}

pub proof fn lemma_rfind_char(s: Seq<char>, c: char)
    ensures
        -1 <= rfind_char(s, c) < s.len(),
        rfind_char(s, c) >= 0 ==> s[rfind_char(s, c)] == c,
        forall|k: int| rfind_char(s, c) < k < s.len() ==> s[k] != c,
    decreases s.len(),
{
    if s.len() > 0 && s.last() != c {
        lemma_rfind_char(s.drop_last(), c);
        assert forall|k: int| rfind_char(s, c) < k < s.len() implies s[k] != c by {
            if k < s.len() - 1 {
                assert(s.drop_last()[k] == s[k]);
            }
        }
    }
}

/// Scan for the last occurrence of `c`; the length of `s` plays the part of
/// "absent" so the result stays a `usize` offset by one.
fn seek_last_char(s: &Vec<char>, c: char) -> (r: usize)
    ensures
        r as int == rfind_char(s@, c) + 1,
        r <= s.len(),
{
    let mut j = s.len();
    proof {
        assert(s@.take(s@.len() as int) =~= s@);
    }
    while j > 0
        invariant
            j <= s.len(),
            rfind_char(s@, c) == rfind_char(s@.take(j as int), c),
        decreases j,
    {
        proof {
            assert(s@.take(j as int).last() == s@[j - 1]);
            assert(s@.take(j as int).drop_last() =~= s@.take(j - 1));
        }
        if s[j - 1] == c {
            return j;
        }
        j = j - 1;
    }
    proof {
        assert(s@.take(0) =~= Seq::<char>::empty());
    }
    0
}

/// The output format named by a path's file extension: `png` or `svg`, in
/// any letter case; `None` otherwise. A dot that starts the file name does
/// not begin an extension.
pub open spec fn format_of(path: Seq<char>) -> Option<Seq<char>> {
    let fstart = rfind_char(path, '/') + 1;
    let d = rfind_char(path, '.');
    if d > fstart {
        let ext = path.subrange(d + 1, path.len() as int);
        if eq_ignore_case(ext, "png"@) {
            Option::Some("png"@)
        } else if eq_ignore_case(ext, "svg"@) {
            Option::Some("svg"@)
        } else {
            Option::None
        }
    } else {
        Option::None
    }
}

/// Detect the output format from a path's extension, lower-cased.
pub fn detect_format_from_extension(output_path: &str) -> (r: Option<String>)
    ensures
        r is Some <==> format_of(output_path@) is Some,
        r matches Option::Some(v) ==> format_of(output_path@) == Option::Some(v@),
{
    let cs = chars_of(output_path);
    proof {
        lemma_rfind_char(cs@, '/');
        lemma_rfind_char(cs@, '.');
    }
    let fstart = seek_last_char(&cs, '/');
    let dplus = seek_last_char(&cs, '.');
    if dplus >= 1 && dplus - 1 > fstart {
        let ext = crate::common::sub_chars(&cs, dplus, cs.len());
        let png = chars_of("png");
        if chars_eq_ignore_case(&ext, &png) {
            return Option::Some("png".to_owned());
        }
        let svg = chars_of("svg");
        if chars_eq_ignore_case(&ext, &svg) {
            return Option::Some("svg".to_owned());
        }
        return Option::None;
    }
    Option::None
}

} // verus!
