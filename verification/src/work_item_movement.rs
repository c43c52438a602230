//! The work-item-movement dialect: a `work-item-movement` keyword, an
//! optional single-quoted title, a `columns [...]` line, and item lines of
//! the form `<ID> <state>: <points> -> <state>: <points>`.

use vstd::prelude::*;
use crate::text::{
    ws_end, blank_end, letters_end, digits_end, find_char, find_any, trim_start, trim_end,
    has_tag_at, eq_ignore_case, skip_ws, skip_blank, seek_char, seek_any, trim_range, sub_string,
    tag_at, chars_of, string_from_chars, lemma_ws_end, lemma_blank_end, lemma_letters_end,
    lemma_digits_end, lemma_find_char, lemma_find_any,
};
use crate::numbers::{digits_val, lemma_digits_val_nonneg, parse_digits};
use crate::common::ChartConfig;
use crate::detect::ParseError;
use vstd::string::StringExecFns;

verus! {

/// A parsed movement chart.
#[derive(Debug, PartialEq)]
pub struct WorkItemMovement {
    pub config: Option<ChartConfig>,
    pub title: Option<String>,
    pub columns: Vec<String>,
    pub items: Vec<WorkItem>,
}

/// One work item: an id and its movement between columns, with points.
#[derive(Debug, Clone, PartialEq)]
pub struct WorkItem {
    pub id: String,
    pub from_state: String,
    pub from_points: u32,
    pub to_state: String,
    pub to_points: u32,
}

impl WorkItem {
    /// The signed points delta of the movement.
    pub fn points_change(&self) -> (r: i64)
        ensures
            r == self.to_points - self.from_points,
    {
        (self.to_points as i64) - (self.from_points as i64)
    }
}

/// A failed cross-check of an item against the declared columns.
#[derive(Debug)]
pub struct ValidationError {
    pub message: String,
}

/// The text of a column list, for reasoning.
pub open spec fn cols_view(cols: Seq<String>) -> Seq<Seq<char>> {
    cols.map_values(|c: String| c@)
}

/// The shape of an item list, for reasoning.
pub open spec fn items_view(items: Seq<WorkItem>) -> Seq<(Seq<char>, Seq<char>, int, Seq<char>, int)> {
    items.map_values(
        |it: WorkItem| (it.id@, it.from_state@, it.from_points as int, it.to_state@, it.to_points as int),
    )
}

// --- the columns list ---

/// The characters that end a bare column name.
pub open spec fn col_stops() -> Seq<char> {
    seq![',', ']']
}

/// The column list starting at `i` (right after `[`): comma-separated bare
/// runs, trimmed; ends right before a `,`-less stop. The caller checks that
/// a `]` stands at the returned position.
pub open spec fn cols_list(s: Seq<char>, i: int) -> (int, Seq<Seq<char>>)
    decreases s.len() - i,
    via cols_list_decreases
{
    if !(0 <= i <= s.len()) {
        (i, Seq::empty())
    } else {
        let e = find_any(s, i, col_stops());
        if e == i {
            (i, Seq::empty())
        } else {
            let te = trim_end(s, i, e);
            let ts = trim_start(s, i, te);
            let item = s.subrange(ts, te);
            if e < s.len() && s[e] == ',' {
                let p2 = blank_end(s, e + 1);
                let e2 = find_any(s, p2, col_stops());
                if e2 == p2 {
                    (e, seq![item])
                } else {
                    let rest = cols_list(s, p2);
                    (rest.0, seq![item] + rest.1)
                }
            } else {
                (e, seq![item])
            }
        }
    }
}

#[via_fn]
proof fn cols_list_decreases(s: Seq<char>, i: int) {
    if 0 <= i <= s.len() {
        lemma_find_any(s, i, col_stops());
        let e = find_any(s, i, col_stops());
        if e != i && e < s.len() && s[e] == ',' {
            lemma_blank_end(s, e + 1);
        }
    }
}

/// Parse the bracketed column list body from `i` (right after `[`).
fn parse_cols_list(s: &Vec<char>, i: usize) -> (r: (usize, Vec<String>))
    requires
        i <= s.len(),
    ensures
        r.0 as int == cols_list(s@, i as int).0,
        i <= r.0 <= s.len(),
        cols_view(r.1@) == cols_list(s@, i as int).1,
    decreases s.len() - i,
{
    let mut stops: Vec<char> = Vec::new();
    stops.push(',');
    stops.push(']');
    proof {
        assert(stops@ =~= col_stops());
        lemma_find_any(s@, i as int, col_stops());
    }
    let e = seek_any(s, i, &stops);
    if e == i {
        let empty: Vec<String> = Vec::new();
        proof {
            assert(cols_view(empty@) =~= Seq::<Seq<char>>::empty());
        }
        return (i, empty);
    }
    let (a, b) = trim_range(s, i, e);
    let item = sub_string(s, a, b);
    if e < s.len() && s[e] == ',' {
        proof {
            lemma_blank_end(s@, e + 1);
        }
        let p2 = skip_blank(s, e + 1);
        proof {
            lemma_find_any(s@, p2 as int, col_stops());
        }
        let e2 = seek_any(s, p2, &stops);
        if e2 == p2 {
            let mut one: Vec<String> = Vec::new();
            one.push(item);
            proof {
                assert(cols_view(one@) =~= seq![cols_list(s@, i as int).1[0]]);
            }
            return (e, one);
        }
        let rest = parse_cols_list(s, p2);
        let mut out: Vec<String> = Vec::new();
        out.push(item);
        let mut tail = rest.1;
        let ghost out_one = cols_view(out@);
        out.append(&mut tail);
        proof {
            assert(cols_view(out@) =~= out_one + cols_view(rest.1@));
            assert(cols_view(out@) =~= cols_list(s@, i as int).1);
        }
        return (rest.0, out);
    }
    let mut one: Vec<String> = Vec::new();
    one.push(item);
    proof {
        assert(cols_view(one@) =~= cols_list(s@, i as int).1);
    }
    (e, one)
}

// --- item lines ---

/// An item id `letters-digits` starts at `w`.
pub open spec fn id_ok(s: Seq<char>, w: int) -> bool {
    let le = letters_end(s, w);
    &&& le > w
    &&& le < s.len()
    &&& s[le] == '-'
    &&& digits_end(s, le + 1) > le + 1
}

/// Position after the id starting at `w`.
pub open spec fn id_end(s: Seq<char>, w: int) -> int {
    digits_end(s, letters_end(s, w) + 1)
}

/// A `<state>: <points>` clause starts at `p`: text up to a `:`, then
/// spaces, then a digit run whose value fits in `u32`.
pub open spec fn swp_ok(s: Seq<char>, p: int) -> bool {
    let colon = find_char(s, p, ':');
    let b = blank_end(s, colon + 1);
    &&& colon < s.len()
    &&& digits_end(s, b) > b
    &&& digits_val(s.subrange(b, digits_end(s, b))) <= u32::MAX
}

/// Position after the clause starting at `p`.
pub open spec fn swp_end(s: Seq<char>, p: int) -> int {
    digits_end(s, blank_end(s, find_char(s, p, ':') + 1))
}

/// The state text of the clause: up to the `:`, trimmed.
pub open spec fn swp_state(s: Seq<char>, p: int) -> Seq<char> {
    let colon = find_char(s, p, ':');
    let te = trim_end(s, p, colon);
    let ts = trim_start(s, p, te);
    s.subrange(ts, te)
}

/// The points of the clause.
pub open spec fn swp_points(s: Seq<char>, p: int) -> int {
    let b = blank_end(s, find_char(s, p, ':') + 1);
    digits_val(s.subrange(b, digits_end(s, b)))
}

pub proof fn lemma_swp_bounds(s: Seq<char>, p: int)
    requires
        0 <= p <= s.len(),
        swp_ok(s, p),
    ensures
        p < swp_end(s, p) <= s.len(),
{
    lemma_find_char(s, p, ':');
    let colon = find_char(s, p, ':');
    lemma_blank_end(s, colon + 1);
    lemma_digits_end(s, blank_end(s, colon + 1));
}

/// Parse a `<state>: <points>` clause at `p`.
fn parse_swp(s: &Vec<char>, p: usize) -> (r: Option<(usize, String, u32)>)
    requires
        p <= s.len(),
    ensures
        r is Some <==> swp_ok(s@, p as int),
        r matches Option::Some(q) ==> {
            &&& q.0 as int == swp_end(s@, p as int)
            &&& p < q.0 <= s.len()
            &&& q.1@ == swp_state(s@, p as int)
            &&& q.2 as int == swp_points(s@, p as int)
        },
{
    proof {
        lemma_find_char(s@, p as int, ':');
    }
    let colon = seek_char(s, p, ':');
    if colon == s.len() {
        return Option::None;
    }
    let (a, b) = trim_range(s, p, colon);
    let state = sub_string(s, a, b);
    proof {
        lemma_blank_end(s@, colon + 1);
    }
    let d0 = skip_blank(s, colon + 1);
    let (de, val) = parse_digits(s, d0);
    if de == d0 {
        return Option::None;
    }
    proof {
        lemma_digits_end(s@, d0 as int);
        lemma_digits_val_nonneg(s@.subrange(d0 as int, de as int));
    }
    if val > 0xFFFF_FFFFu64 {
        proof {
            if digits_val(s@.subrange(d0 as int, de as int)) <= u32::MAX {
                assert(val as int == digits_val(s@.subrange(d0 as int, de as int)));
            }
        }
        return Option::None;
    }
    proof {
        if digits_val(s@.subrange(d0 as int, de as int)) > u32::MAX {
            assert(val == 1_000_000_000_000u64 || val as int == digits_val(
                s@.subrange(d0 as int, de as int),
            ));
        }
        lemma_swp_bounds(s@, p as int);
    }
    Option::Some((de, state, val as u32))
}

/// An item line starts at `w`.
pub open spec fn item_ok(s: Seq<char>, w: int) -> bool {
    &&& id_ok(s, w)
    &&& swp_ok(s, blank_end(s, id_end(s, w)))
    &&& {
        let p2 = blank_end(s, swp_end(s, blank_end(s, id_end(s, w))));
        &&& has_tag_at(s, p2, "->"@)
        &&& swp_ok(s, blank_end(s, p2 + "->"@.len()))
    }
}

/// Position after the item line starting at `w`.
pub open spec fn item_next(s: Seq<char>, w: int) -> int {
    let p1 = blank_end(s, id_end(s, w));
    let p2 = blank_end(s, swp_end(s, p1));
    swp_end(s, blank_end(s, p2 + "->"@.len()))
}

/// The parts of the item line starting at `w`.
pub open spec fn item_val(s: Seq<char>, w: int) -> (Seq<char>, Seq<char>, int, Seq<char>, int) {
    let p1 = blank_end(s, id_end(s, w));
    let p2 = blank_end(s, swp_end(s, p1));
    let p3 = blank_end(s, p2 + "->"@.len());
    (
        s.subrange(w, id_end(s, w)),
        swp_state(s, p1),
        swp_points(s, p1),
        swp_state(s, p3),
        swp_points(s, p3),
    )
}

pub proof fn lemma_item_bounds(s: Seq<char>, w: int)
    requires
        0 <= w <= s.len(),
        item_ok(s, w),
    ensures
        w < item_next(s, w) <= s.len(),
{
    lemma_letters_end(s, w);
    lemma_digits_end(s, letters_end(s, w) + 1);
    lemma_blank_end(s, id_end(s, w));
    let p1 = blank_end(s, id_end(s, w));
    lemma_swp_bounds(s, p1);
    lemma_blank_end(s, swp_end(s, p1));
    let p2 = blank_end(s, swp_end(s, p1));
    lemma_blank_end(s, p2 + "->"@.len());
    lemma_swp_bounds(s, blank_end(s, p2 + "->"@.len()));
}

/// Parse one item line at `w` (no leading whitespace).
fn parse_item(s: &Vec<char>, w: usize) -> (r: Option<(usize, WorkItem)>)
    requires
        w <= s.len(),
    ensures
        r is Some <==> item_ok(s@, w as int),
        r matches Option::Some(p) ==> {
            &&& p.0 as int == item_next(s@, w as int)
            &&& w < p.0 <= s.len()
            &&& (p.1.id@, p.1.from_state@, p.1.from_points as int, p.1.to_state@,
            p.1.to_points as int) == item_val(s@, w as int)
        },
{
    proof {
        lemma_letters_end(s@, w as int);
    }
    let le = skip_letters(s, w);
    if !(le > w && le < s.len() && s[le] == '-') {
        return Option::None;
    }
    proof {
        lemma_digits_end(s@, le + 1);
    }
    let de = skip_digits(s, le + 1);
    if de == le + 1 {
        return Option::None;
    }
    let id = sub_string(s, w, de);
    proof {
        lemma_blank_end(s@, de as int);
    }
    let p1 = skip_blank(s, de);
    let first = match parse_swp(s, p1) {
        Option::Some(q) => q,
        Option::None => {
            return Option::None;
        },
    };
    proof {
        lemma_blank_end(s@, first.0 as int);
    }
    let p2 = skip_blank(s, first.0);
    let arrow = chars_of("->");
    if !tag_at(s, p2, &arrow) {
        return Option::None;
    }
    proof {
        lemma_blank_end(s@, p2 + arrow@.len());
    }
    let p3 = skip_blank(s, p2 + arrow.len());
    let second = match parse_swp(s, p3) {
        Option::Some(q) => q,
        Option::None => {
            return Option::None;
        },
    };
    proof {
        lemma_item_bounds(s@, w as int);
    }
    Option::Some(
        (
            second.0,
            WorkItem {
                id,
                from_state: first.1,
                from_points: first.2,
                to_state: second.1,
                to_points: second.2,
            },
        ),
    )
}

use crate::text::{skip_letters, skip_digits};

/// The item list starting at `i`: item lines separated by whitespace,
/// ending right before the first text that is not an item line.
pub open spec fn items_list(s: Seq<char>, i: int) -> (int, Seq<
    (Seq<char>, Seq<char>, int, Seq<char>, int),
>)
    decreases s.len() - i,
    via items_list_decreases
{
    if !(0 <= i <= s.len()) {
        (i, Seq::empty())
    } else {
        let w = ws_end(s, i);
        if item_ok(s, w) {
            let n = item_next(s, w);
            let rest = items_list(s, n);
            (rest.0, seq![item_val(s, w)] + rest.1)
        } else {
            (i, Seq::empty())
        }
    }
}

#[via_fn]
proof fn items_list_decreases(s: Seq<char>, i: int) {
    if 0 <= i <= s.len() {
        lemma_ws_end(s, i);
        let w = ws_end(s, i);
        if item_ok(s, w) {
            lemma_item_bounds(s, w);
        }
    }
}

/// Parse the item list from `i` on; never fails.
fn parse_items(s: &Vec<char>, i: usize) -> (r: Vec<WorkItem>)
    requires
        i <= s.len(),
    ensures
        items_view(r@) == items_list(s@, i as int).1,
{
    let mut items: Vec<WorkItem> = Vec::new();
    let mut cur = i;
    proof {
        assert(items_view(items@) =~= Seq::<(Seq<char>, Seq<char>, int, Seq<char>, int)>::empty());
    }
    loop
        invariant
            i <= cur <= s.len(),
            items_list(s@, i as int).1 == items_view(items@) + items_list(s@, cur as int).1,
        decreases s.len() - cur,
    {
        proof {
            lemma_ws_end(s@, cur as int);
        }
        let w = skip_ws(s, cur);
        let ghost before = items_view(items@);
        match parse_item(s, w) {
            Option::Some(p) => {
                items.push(p.1);
                proof {
                    assert(items_view(items@) =~= before.push(item_val(s@, w as int)));
                    assert(before + (seq![item_val(s@, w as int)] + items_list(s@, p.0 as int).1)
                        =~= items_view(items@) + items_list(s@, p.0 as int).1);
                }
                cur = p.0;
            },
            Option::None => {
                proof {
                    assert(items_view(items@) + Seq::<(Seq<char>, Seq<char>, int, Seq<char>,
                    int)>::empty() =~= items_view(items@));
                }
                return items;
            },
        }
    }
}

// --- the whole document ---

/// Position after the optional title line.
pub open spec fn wim_title_next(s: Seq<char>, after_kw: int) -> int {
    let w = ws_end(s, after_kw);
    let b = blank_end(s, w + "title"@.len());
    if has_tag_at(s, w, "title"@) && crate::string_parser::quoted_ok(s, b, '\'') {
        crate::string_parser::quoted_close(s, b, '\'') + 1
    } else {
        after_kw
    }
}

/// Whether a title line is present.
pub open spec fn wim_has_title(s: Seq<char>, after_kw: int) -> bool {
    let w = ws_end(s, after_kw);
    has_tag_at(s, w, "title"@) && crate::string_parser::quoted_ok(
        s,
        blank_end(s, w + "title"@.len()),
        '\'',
    )
}

/// The title text.
pub open spec fn wim_title(s: Seq<char>, after_kw: int) -> Seq<char> {
    let w = ws_end(s, after_kw);
    crate::string_parser::quoted_content(s, blank_end(s, w + "title"@.len()), '\'')
}

/// Where the columns line begins (after leading whitespace).
pub open spec fn wim_cols_at(s: Seq<char>, after_kw: int) -> int {
    ws_end(s, wim_title_next(s, after_kw))
}

/// The columns line parses: `columns`, an optional blank run, `[`, the
/// list, `]`.
pub open spec fn wim_cols_ok(s: Seq<char>, after_kw: int) -> bool {
    let cw = wim_cols_at(s, after_kw);
    let cb = blank_end(s, cw + "columns"@.len());
    &&& has_tag_at(s, cw, "columns"@)
    &&& cb < s.len()
    &&& s[cb] == '['
    &&& {
        let r = cols_list(s, cb + 1);
        r.0 < s.len() && s[r.0] == ']'
    }
}

/// The parsed column names.
pub open spec fn wim_cols(s: Seq<char>, after_kw: int) -> Seq<Seq<char>> {
    let cw = wim_cols_at(s, after_kw);
    let cb = blank_end(s, cw + "columns"@.len());
    cols_list(s, cb + 1).1
}

/// Position after the `]` of the columns line.
pub open spec fn wim_cols_next(s: Seq<char>, after_kw: int) -> int {
    let cw = wim_cols_at(s, after_kw);
    let cb = blank_end(s, cw + "columns"@.len());
    cols_list(s, cb + 1).0 + 1
}

/// The whole document parses: the keyword, then a columns line.
pub open spec fn wim_ok(s: Seq<char>, i: int) -> bool {
    &&& has_tag_at(s, i, "work-item-movement"@)
    &&& wim_cols_ok(s, i + "work-item-movement"@.len())
}

/// Where parsing fails when `wim_ok` does not hold: at the keyword, or at
/// the columns line.
pub open spec fn wim_fail_at(s: Seq<char>, i: int) -> int {
    if !has_tag_at(s, i, "work-item-movement"@) {
        i
    } else {
        wim_cols_at(s, i + "work-item-movement"@.len())
    }
}

/// Parse a movement chart at position `i` of `s`.
fn parse_wim_at(s: &Vec<char>, i: usize, config: Option<ChartConfig>) -> (r: Result<
    WorkItemMovement,
    usize,
>)
    requires
        i <= s.len(),
    ensures
        r is Ok <==> wim_ok(s@, i as int),
        r matches Result::Ok(c) ==> {
            let after_kw = i + "work-item-movement"@.len();
            &&& c.config == config
            &&& c.title is Some <==> wim_has_title(s@, after_kw)
            &&& c.title matches Option::Some(t) ==> t@ == wim_title(s@, after_kw)
            &&& cols_view(c.columns@) == wim_cols(s@, after_kw)
            &&& items_view(c.items@) == items_list(s@, wim_cols_next(s@, after_kw)).1
        },
        r matches Result::Err(e) ==> i <= e <= s.len() && e as int == wim_fail_at(s@, i as int),
{
    let kw = chars_of("work-item-movement");
    if !tag_at(s, i, &kw) {
        return Result::Err(i);
    }
    let after_kw = i + kw.len();
    proof {
        lemma_ws_end(s@, after_kw as int);
    }
    // optional title line
    let w = skip_ws(s, after_kw);
    let title_tag = chars_of("title");
    let mut title: Option<String> = Option::None;
    let mut after_title = after_kw;
    if tag_at(s, w, &title_tag) {
        proof {
            lemma_blank_end(s@, w + title_tag@.len());
        }
        let b = skip_blank(s, w + title_tag.len());
        match crate::string_parser::quoted_string_single(s, b) {
            Option::Some(p) => {
                title = Option::Some(p.1);
                after_title = p.0;
            },
            Option::None => {},
        }
    }
    proof {
        lemma_ws_end(s@, after_title as int);
    }
    // columns line
    let cw = skip_ws(s, after_title);
    let cols_tag = chars_of("columns");
    if !tag_at(s, cw, &cols_tag) {
        return Result::Err(cw);
    }
    proof {
        lemma_blank_end(s@, cw + cols_tag@.len());
    }
    let cb = skip_blank(s, cw + cols_tag.len());
    if !(cb < s.len() && s[cb] == '[') {
        return Result::Err(cw);
    }
    let (cend, columns) = parse_cols_list(s, cb + 1);
    if !(cend < s.len() && s[cend] == ']') {
        return Result::Err(cw);
    }
    let items = parse_items(s, cend + 1);
    Result::Ok(WorkItemMovement { config, title, columns, items })
}

/// Parse a movement chart; the input must begin with the keyword. On
/// failure the error holds the unconsumed remainder at the failing line.
pub fn parse_work_item_movement(input: &str, config: Option<ChartConfig>) -> (r: Result<
    WorkItemMovement,
    ParseError,
>)
    ensures
        r is Ok <==> wim_ok(input@, 0),
        r matches Result::Ok(c) ==> {
            let after_kw = "work-item-movement"@.len() as int;
            &&& c.config == config
            &&& c.title is Some <==> wim_has_title(input@, after_kw)
            &&& c.title matches Option::Some(t) ==> t@ == wim_title(input@, after_kw)
            &&& cols_view(c.columns@) == wim_cols(input@, after_kw)
            &&& items_view(c.items@) == items_list(input@, wim_cols_next(input@, after_kw)).1
        },
        r matches Result::Err(e) ==> e.remaining@ == input@.subrange(
            wim_fail_at(input@, 0),
            input@.len() as int,
        ),
{
    let cs = chars_of(input);
    match parse_wim_at(&cs, 0, config) {
        Result::Ok(c) => Result::Ok(c),
        Result::Err(pos) => Result::Err(
            ParseError { remaining: sub_string(&cs, pos, cs.len()) },
        ),
    }
}

// --- validation ---

/// A state matches a column list when some column equals it up to ASCII
/// case (folding is ASCII-only: letters outside ASCII compare by
/// identity).
pub open spec fn state_matches(cols: Seq<Seq<char>>, st: Seq<char>) -> bool {
    exists|k: int| 0 <= k < cols.len() && eq_ignore_case(cols[k], st)
}

/// Both states of an item match the columns.
pub open spec fn item_valid(cols: Seq<Seq<char>>, it: WorkItem) -> bool {
    state_matches(cols, it.from_state@) && state_matches(cols, it.to_state@)
}

/// Whether some column matches `st` up to ASCII case.
fn any_col_matches(cols: &Vec<String>, st: &String) -> (r: bool)
    ensures
        r == state_matches(cols_view(cols@), st@),
{
    let stv = chars_of(st.as_str());
    let mut k: usize = 0;
    while k < cols.len()
        invariant
            k <= cols.len(),
            stv@ == st@,
            forall|t: int| 0 <= t < k ==> !eq_ignore_case(cols_view(cols@)[t], st@),
        decreases cols.len() - k,
    {
        let cv = chars_of(cols[k].as_str());
        if crate::text::chars_eq_ignore_case(&cv, &stv) {
            proof {
                assert(eq_ignore_case(cols_view(cols@)[k as int], st@));
            }
            return true;
        }
        k = k + 1;
    }
    false
}

/// The escape of one character inside a quoted debug listing: quotes and
/// backslashes are escaped, the common control characters take their short
/// forms; every other character stands for itself.
pub open spec fn esc_char(c: char) -> Seq<char> {
    if c == '"' {
        seq!['\\', '"']
    } else if c == '\\' {
        seq!['\\', '\\']
    } else if c == '\n' {
        seq!['\\', 'n']
    } else if c == '\r' {
        seq!['\\', 'r']
    } else if c == '\t' {
        seq!['\\', 't']
    } else {
        seq![c]
    }
}

/// A text with each character escaped for a quoted debug listing.
pub open spec fn esc_text(s: Seq<char>) -> Seq<char>
    decreases s.len(),
{
    if s.len() == 0 {
        Seq::empty()
    } else {
        esc_text(s.drop_last()) + esc_char(s.last())
    }
}

/// Escape a name for a quoted debug listing.
fn escape_chars(name: &Vec<char>) -> (r: Vec<char>)
    ensures
        r@ == esc_text(name@),
{
    let mut out: Vec<char> = Vec::new();
    let mut k: usize = 0;
    proof {
        assert(name@.take(0) =~= Seq::<char>::empty());
    }
    while k < name.len()
        invariant
            k <= name@.len(),
            out@ == esc_text(name@.take(k as int)),
        decreases name@.len() - k,
    {
        let c = name[k];
        if c == '"' {
            out.push('\\');
            out.push('"');
        } else if c == '\\' {
            out.push('\\');
            out.push('\\');
        } else if c == '\n' {
            out.push('\\');
            out.push('n');
        } else if c == '\r' {
            out.push('\\');
            out.push('r');
        } else if c == '\t' {
            out.push('\\');
            out.push('t');
        } else {
            out.push(c);
        }
        proof {
            assert(name@.take(k + 1).drop_last() =~= name@.take(k as int));
            assert(name@.take(k + 1).last() == name@[k as int]);
            assert(out@ =~= esc_text(name@.take(k + 1)));
        }
        k = k + 1;
    }
    proof {
        assert(name@.take(name@.len() as int) =~= name@);
    }
    out
}

/// The debug rendering of a column list: `["a", "b"]`, with quotes and
/// backslashes inside the names escaped.
pub open spec fn cols_debug(cols: Seq<Seq<char>>) -> Seq<char> {
    seq!['['] + cols_debug_inner(cols) + seq![']']
}

/// The comma-separated quoted names inside the brackets.
pub open spec fn cols_debug_inner(cols: Seq<Seq<char>>) -> Seq<char>
    decreases cols.len(),
{
    if cols.len() == 0 {
        Seq::empty()
    } else if cols.len() == 1 {
        seq!['"'] + esc_text(cols[0]) + seq!['"']
    } else {
        cols_debug_inner(cols.drop_last()) + seq![',', ' ', '"'] + esc_text(cols.last())
            + seq!['"']
    }
}

/// Render a column list the way a debug listing would.
fn cols_debug_string(cols: &Vec<String>) -> (r: String)
    ensures
        r@ == cols_debug(cols_view(cols@)),
{
    let mut out: Vec<char> = Vec::new();
    out.push('[');
    let mut k: usize = 0;
    while k < cols.len()
        invariant
            k <= cols.len(),
            out@ == seq!['['] + cols_debug_inner(cols_view(cols@).take(k as int)),
        decreases cols.len() - k,
    {
        let ghost cv = cols_view(cols@);
        if k > 0 {
            out.push(',');
            out.push(' ');
        }
        out.push('"');
        let name = chars_of(cols[k].as_str());
        let mut escaped = escape_chars(&name);
        out.append(&mut escaped);
        out.push('"');
        proof {
            assert(cv.take(k + 1).drop_last() =~= cv.take(k as int));
            assert(cv.take(k + 1).last() == cv[k as int]);
            if k == 0 {
                assert(out@ =~= seq!['['] + cols_debug_inner(cv.take(k + 1)));
            } else {
                assert(out@ =~= seq!['['] + cols_debug_inner(cv.take(k + 1)));
            }
        }
        k = k + 1;
    }
    out.push(']');
    proof {
        assert(cols_view(cols@).take(cols@.len() as int) =~= cols_view(cols@));
        assert(out@ =~= cols_debug(cols_view(cols@)));
    }
    string_from_chars(&out)
}

/// The message reported for an item whose `state` is not a column.
pub open spec fn validation_message(id: Seq<char>, state: Seq<char>, cols: Seq<Seq<char>>) -> Seq<
    char,
> {
    "Work item '"@ + id + "' references column '"@ + state
        + "' which does not exist. Available columns are: "@ + cols_debug(cols)
}

/// Build the message for a failed cross-check.
fn make_validation_message(id: &String, state: &String, cols: &Vec<String>) -> (r: String)
    ensures
        r@ == validation_message(id@, state@, cols_view(cols@)),
{
    let mut m = "Work item '".to_owned();
    m.append(id.as_str());
    m.append("' references column '");
    m.append(state.as_str());
    m.append("' which does not exist. Available columns are: ");
    let listing = cols_debug_string(cols);
    m.append(listing.as_str());
    m
}

/// The index of the first failing check, scanning items in order and each
/// item's `from` state before its `to` state; `None` when all pass. The
/// second component tells whether the `from` state was the offender.
pub open spec fn first_violation(cols: Seq<Seq<char>>, items: Seq<WorkItem>) -> Option<(int, bool)>
    decreases items.len(),
{
    if items.len() == 0 {
        Option::None
    } else if !state_matches(cols, items[0].from_state@) {
        Option::Some((0, true))
    } else if !state_matches(cols, items[0].to_state@) {
        Option::Some((0, false))
    } else {
        match first_violation(cols, items.drop_first()) {
            Option::Some(p) => Option::Some((p.0 + 1, p.1)),
            Option::None => Option::None,
        }
    }
}

proof fn lemma_first_violation(cols: Seq<Seq<char>>, items: Seq<WorkItem>)
    ensures
        first_violation(cols, items) is None <==> (forall|k: int|
            0 <= k < items.len() ==> item_valid(cols, #[trigger] items[k])),
    decreases items.len(),
{
    if items.len() > 0 {
        lemma_first_violation(cols, items.drop_first());
        if first_violation(cols, items) is None {
            assert forall|k: int| 0 <= k < items.len() implies item_valid(
                cols,
                #[trigger] items[k],
            ) by {
                if k > 0 {
                    assert(items.drop_first()[k - 1] == items[k]);
                }
            }
        } else {
            if item_valid(cols, items[0]) {
                lemma_first_violation_in_range(cols, items.drop_first());
                let p = first_violation(cols, items.drop_first())->0;
                assert(items.drop_first()[p.0] == items[p.0 + 1]);
            }
        }
    }
}

proof fn lemma_first_violation_in_range(cols: Seq<Seq<char>>, items: Seq<WorkItem>)
    requires
        first_violation(cols, items) is Some,
    ensures
        ({
            let v = first_violation(cols, items)->0;
            0 <= v.0 < items.len() && !item_valid(cols, items[v.0])
        }),
    decreases items.len(),
{
    if items.len() > 0 && state_matches(cols, items[0].from_state@) && state_matches(
        cols,
        items[0].to_state@,
    ) {
        lemma_first_violation_in_range(cols, items.drop_first());
        let p = first_violation(cols, items.drop_first())->0;
        assert(items.drop_first()[p.0] == items[p.0 + 1]);
    }
}

proof fn lemma_first_violation_pinpoint(
    cols: Seq<Seq<char>>,
    items: Seq<WorkItem>,
    k: int,
    from_fails: bool,
)
    requires
        0 <= k < items.len(),
        forall|t: int| 0 <= t < k ==> item_valid(cols, #[trigger] items[t]),
        from_fails ==> !state_matches(cols, items[k].from_state@),
        !from_fails ==> state_matches(cols, items[k].from_state@) && !state_matches(
            cols,
            items[k].to_state@,
        ),
    ensures
        first_violation(cols, items) == Option::Some((k, from_fails)),
    decreases k,
{
    if k > 0 {
        assert(item_valid(cols, items[0]));
        assert forall|t: int| 0 <= t < k - 1 implies item_valid(
            cols,
            #[trigger] items.drop_first()[t],
        ) by {
            assert(items.drop_first()[t] == items[t + 1]);
        }
        assert(items.drop_first()[k - 1] == items[k]);
        lemma_first_violation_pinpoint(cols, items.drop_first(), k - 1, from_fails);
    }
}

/// Check every item's states against the columns, case-insensitively. `Ok`
/// exactly when every item matches; otherwise the error names the first
/// offending item and state, and lists the valid columns.
pub fn validate_work_item_movement(chart: &WorkItemMovement) -> (r: Result<(), ValidationError>)
    ensures
        r is Ok <==> forall|k: int|
            0 <= k < chart.items@.len() ==> item_valid(
                cols_view(chart.columns@),
                #[trigger] chart.items@[k],
            ),
        r matches Result::Err(e) ==> first_violation(cols_view(chart.columns@), chart.items@)
            matches Option::Some(v) && e.message@ == validation_message(
            chart.items@[v.0].id@,
            if v.1 {
                chart.items@[v.0].from_state@
            } else {
                chart.items@[v.0].to_state@
            },
            cols_view(chart.columns@),
        ),
{
    proof {
        lemma_first_violation(cols_view(chart.columns@), chart.items@);
    }
    let ghost cols = cols_view(chart.columns@);
    let mut k: usize = 0;
    while k < chart.items.len()
        invariant
            k <= chart.items@.len(),
            cols == cols_view(chart.columns@),
            forall|t: int| 0 <= t < k ==> item_valid(cols, #[trigger] chart.items@[t]),
        decreases chart.items@.len() - k,
    {
        let item = &chart.items[k];
        if !any_col_matches(&chart.columns, &item.from_state) {
            proof {
                lemma_first_violation_pinpoint(cols, chart.items@, k as int, true);
            }
            let message = make_validation_message(&item.id, &item.from_state, &chart.columns);
            return Result::Err(ValidationError { message });
        }
        if !any_col_matches(&chart.columns, &item.to_state) {
            proof {
                lemma_first_violation_pinpoint(cols, chart.items@, k as int, false);
            }
            let message = make_validation_message(&item.id, &item.to_state, &chart.columns);
            return Result::Err(ValidationError { message });
        }
        k = k + 1;
    }
    proof {
        let fv = first_violation(cols, chart.items@);
        if fv is Some {
            let v = fv->0;
            lemma_first_violation_in_range(cols, chart.items@);
            assert(item_valid(cols, chart.items@[v.0]));
            assert(false);
        }
    }
    Result::Ok(())
}

/// Both states of a parsed item line match the columns, case-insensitively.
pub open spec fn parsed_item_valid(
    cols: Seq<Seq<char>>,
    it: (Seq<char>, Seq<char>, int, Seq<char>, int),
) -> bool {
    state_matches(cols, it.1) && state_matches(cols, it.3)
}

/// The first failing check over parsed item lines, as `first_violation`
/// scans parsed items: in order, `from` state before `to` state.
pub open spec fn parsed_first_violation(
    cols: Seq<Seq<char>>,
    items: Seq<(Seq<char>, Seq<char>, int, Seq<char>, int)>,
) -> Option<(int, bool)>
    decreases items.len(),
{
    if items.len() == 0 {
        Option::None
    } else if !state_matches(cols, items[0].1) {
        Option::Some((0, true))
    } else if !state_matches(cols, items[0].3) {
        Option::Some((0, false))
    } else {
        match parsed_first_violation(cols, items.drop_first()) {
            Option::Some(p) => Option::Some((p.0 + 1, p.1)),
            Option::None => Option::None,
        }
    }
}

proof fn lemma_parsed_first_violation(cols: Seq<Seq<char>>, items: Seq<WorkItem>)
    ensures
        parsed_first_violation(cols, items_view(items)) == first_violation(cols, items),
    decreases items.len(),
{
    if items.len() > 0 {
        assert(items_view(items)[0] == (items[0].id@, items[0].from_state@,
        items[0].from_points as int, items[0].to_state@, items[0].to_points as int));
        assert(items_view(items).drop_first() =~= items_view(items.drop_first()));
        lemma_parsed_first_violation(cols, items.drop_first());
    }
}

/// Parse a movement chart and validate it against its columns: `Ok` exactly
/// when the document parses and every item's states match a declared
/// column up to ASCII case. `Ok` carries the parsed document; a parse
/// failure and a validation failure each carry their own diagnostic.
pub fn parse_and_validate_work_item_movement(input: &str, config: Option<ChartConfig>) -> (r:
    Result<WorkItemMovement, String>)
    ensures
        r is Ok <==> wim_ok(input@, 0) && {
            let cols = wim_cols(input@, "work-item-movement"@.len() as int);
            let items = items_list(
                input@,
                wim_cols_next(input@, "work-item-movement"@.len() as int),
            ).1;
            forall|k: int| 0 <= k < items.len() ==> parsed_item_valid(cols, #[trigger] items[k])
        },
        r matches Result::Ok(c) ==> {
            let after_kw = "work-item-movement"@.len() as int;
            &&& c.config == config
            &&& (c.title is Some <==> wim_has_title(input@, after_kw))
            &&& (c.title matches Option::Some(t) ==> t@ == wim_title(input@, after_kw))
            &&& cols_view(c.columns@) == wim_cols(input@, after_kw)
            &&& items_view(c.items@) == items_list(input@, wim_cols_next(input@, after_kw)).1
            &&& forall|k: int|
                0 <= k < c.items@.len() ==> item_valid(
                    cols_view(c.columns@),
                    #[trigger] c.items@[k],
                )
        },
        r matches Result::Err(m) ==> {
            let after_kw = "work-item-movement"@.len() as int;
            if wim_ok(input@, 0) {
                let cols = wim_cols(input@, after_kw);
                let items = items_list(input@, wim_cols_next(input@, after_kw)).1;
                parsed_first_violation(cols, items) matches Option::Some(v) && m@
                    == validation_message(
                    items[v.0].0,
                    if v.1 {
                        items[v.0].1
                    } else {
                        items[v.0].3
                    },
                    cols,
                )
            } else {
                m@ == "Failed to parse work item movement chart: "@ + input@.subrange(
                    wim_fail_at(input@, 0),
                    input@.len() as int,
                )
            }
        },
{
    match parse_work_item_movement(input, config) {
        Result::Ok(chart) => {
            proof {
                let cols = cols_view(chart.columns@);
                let parsed = items_view(chart.items@);
                assert forall|k: int| 0 <= k < chart.items@.len() implies (item_valid(
                    cols,
                    #[trigger] chart.items@[k],
                ) <==> parsed_item_valid(cols, parsed[k])) by {
                    assert(parsed[k] == (chart.items@[k].id@, chart.items@[k].from_state@,
                    chart.items@[k].from_points as int, chart.items@[k].to_state@,
                    chart.items@[k].to_points as int));
                }
                lemma_parsed_first_violation(cols, chart.items@);
            }
            match validate_work_item_movement(&chart) {
                Result::Ok(()) => Result::Ok(chart),
                Result::Err(e) => {
                    proof {
                        let cols = cols_view(chart.columns@);
                        let fv = first_violation(cols, chart.items@);
                        lemma_first_violation_in_range(cols, chart.items@);
                        let v = fv->0;
                        assert(items_view(chart.items@)[v.0] == (chart.items@[v.0].id@,
                        chart.items@[v.0].from_state@, chart.items@[v.0].from_points as int,
                        chart.items@[v.0].to_state@, chart.items@[v.0].to_points as int));
                    }
                    Result::Err(e.message)
                },
            }
        },
        Result::Err(e) => {
            let mut m = "Failed to parse work item movement chart: ".to_owned();
            m.append(e.remaining.as_str());
            Result::Err(m)
        },
    }
}

} // verus!
