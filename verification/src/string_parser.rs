//! The shared token grammar: quoted strings and label lists.
//!
//! A label is either double-quoted, single-quoted (either may contain commas),
//! or the literal run up to the next `,` or `]`, trimmed of whitespace. A
//! label list is a `,`-separated run of labels ending at a `]`, which is left
//! unconsumed.

use vstd::prelude::*;
use crate::text::{
    ws_end, find_char, find_any, trim_start, trim_end, skip_ws, seek_char, seek_any,
    trim_range, sub_string, lemma_ws_end, lemma_find_char, lemma_find_any,
};

verus! {

/// A quote token of kind `q` starts at `i` and closes before the input ends.
pub open spec fn quoted_ok(s: Seq<char>, i: int, q: char) -> bool {
    &&& 0 <= i < s.len()
    &&& s[i] == q
    &&& find_char(s, i + 1, q) < s.len()
}

/// Position of the closing quote.
pub open spec fn quoted_close(s: Seq<char>, i: int, q: char) -> int {
    find_char(s, i + 1, q)
}

/// Text between the quotes, taken verbatim.
pub open spec fn quoted_content(s: Seq<char>, i: int, q: char) -> Seq<char> {
    s.subrange(i + 1, quoted_close(s, i, q))
}

fn quoted(s: &Vec<char>, i: usize, q: char) -> (r: Option<(usize, String)>)
    requires
        i <= s.len(),
    ensures
        r is Some == quoted_ok(s@, i as int, q),
        r matches Option::Some(p) ==> {
            &&& p.0 as int == quoted_close(s@, i as int, q) + 1
            &&& i < p.0 <= s.len()
            &&& p.1@ == quoted_content(s@, i as int, q)
        },
{
    if i < s.len() && s[i] == q {
        let close = seek_char(s, i + 1, q);
        if close < s.len() {
            let content = sub_string(s, i + 1, close);
            return Option::Some((close + 1, content));
        }
    }
    Option::None
}

/// Parse a double-quoted string starting exactly at `i`.
pub fn quoted_string(s: &Vec<char>, i: usize) -> (r: Option<(usize, String)>)
    requires
        i <= s.len(),
    ensures
        r is Some == quoted_ok(s@, i as int, '"'),
        r matches Option::Some(p) ==> {
            &&& p.0 as int == quoted_close(s@, i as int, '"') + 1
            &&& i < p.0 <= s.len()
            &&& p.1@ == quoted_content(s@, i as int, '"')
        },
{
    quoted(s, i, '"')
}

/// Parse a single-quoted string starting exactly at `i`.
pub fn quoted_string_single(s: &Vec<char>, i: usize) -> (r: Option<(usize, String)>)
    requires
        i <= s.len(),
    ensures
        r is Some == quoted_ok(s@, i as int, '\''),
        r matches Option::Some(p) ==> {
            &&& p.0 as int == quoted_close(s@, i as int, '\'') + 1
            &&& i < p.0 <= s.len()
            &&& p.1@ == quoted_content(s@, i as int, '\'')
        },
{
    quoted(s, i, '\'')
}

/// Take text up to the first character of `stops` (or the end of input).
pub fn take_until_any(s: &Vec<char>, i: usize, stops: &Vec<char>) -> (r: (usize, String))
    requires
        i <= s.len(),
    ensures
        r.0 as int == find_any(s@, i as int, stops@),
        i <= r.0 <= s.len(),
        r.1@ == s@.subrange(i as int, r.0 as int),
{
    let j = seek_any(s, i, stops);
    let taken = sub_string(s, i, j);
    (j, taken)
}

/// The stop characters that end an unquoted label.
pub open spec fn label_stops() -> Seq<char> {
    seq![',', ']']
}

/// Where the label starting at `i` (after leading whitespace) ends.
pub open spec fn label_next(s: Seq<char>, i: int) -> int {
    let w = ws_end(s, i);
    if quoted_ok(s, w, '"') {
        quoted_close(s, w, '"') + 1
    } else if quoted_ok(s, w, '\'') {
        quoted_close(s, w, '\'') + 1
    } else {
        find_any(s, w, label_stops())
    }
}

/// The text of the label starting at `i`: quoted content verbatim, or the
/// unquoted run trimmed of surrounding whitespace.
pub open spec fn label_content(s: Seq<char>, i: int) -> Seq<char> {
    let w = ws_end(s, i);
    if quoted_ok(s, w, '"') {
        quoted_content(s, w, '"')
    } else if quoted_ok(s, w, '\'') {
        quoted_content(s, w, '\'')
    } else {
        let e = find_any(s, w, label_stops());
        let te = trim_end(s, w, e);
        let ts = trim_start(s, w, te);
        s.subrange(ts, te)
    }
}

pub proof fn lemma_label_next_bounds(s: Seq<char>, i: int)
    requires
        0 <= i <= s.len(),
    ensures
        i <= label_next(s, i) <= s.len(),
        ws_end(s, i) <= label_next(s, i),
{
    lemma_ws_end(s, i);
    let w = ws_end(s, i);
    if quoted_ok(s, w, '"') {
        lemma_find_char(s, w + 1, '"');
    } else if quoted_ok(s, w, '\'') {
        lemma_find_char(s, w + 1, '\'');
    } else {
        lemma_find_any(s, w, label_stops());
    }
}

/// Parse one label: double-quoted, single-quoted, or the trimmed run up to
/// the next `,` or `]`. Always succeeds; an empty run yields an empty label.
pub fn parse_label(s: &Vec<char>, i: usize) -> (r: (usize, String))
    requires
        i <= s.len(),
    ensures
        r.0 as int == label_next(s@, i as int),
        i <= r.0 <= s.len(),
        r.1@ == label_content(s@, i as int),
{
    proof {
        lemma_label_next_bounds(s@, i as int);
    }
    let w = skip_ws(s, i);
    match quoted_string(s, w) {
        Option::Some(p) => {
            return p;
        },
        Option::None => {},
    }
    match quoted_string_single(s, w) {
        Option::Some(p) => {
            return p;
        },
        Option::None => {},
    }
    let mut stops: Vec<char> = Vec::new();
    stops.push(',');
    stops.push(']');
    proof {
        assert(stops@ =~= label_stops());
    }
    let e = seek_any(s, w, &stops);
    let (a, b) = trim_range(s, w, e);
    let content = sub_string(s, a, b);
    (e, content)
}

/// The label list starting at `i`: labels separated by `,`, ending at a `]`
/// which is not consumed. `None` when the list is not terminated.
pub open spec fn labels_spec(s: Seq<char>, i: int) -> Option<(int, Seq<Seq<char>>)>
    decreases s.len() - i,
    via labels_spec_decreases
{
    if !(0 <= i <= s.len()) {
        Option::None
    } else {
        let w = ws_end(s, i);
        if w < s.len() && s[w] == ']' {
            Option::Some((w, Seq::empty()))
        } else {
            let j = label_next(s, w);
            let lab = label_content(s, w);
            let w2 = ws_end(s, j);
            if w2 < s.len() && s[w2] == ',' {
                match labels_spec(s, w2 + 1) {
                    Option::Some(p) => Option::Some((p.0, seq![lab] + p.1)),
                    Option::None => Option::None,
                }
            } else if w2 < s.len() && s[w2] == ']' {
                Option::Some((w2, seq![lab]))
            } else {
                Option::None
            }
        }
    }
}

#[via_fn]
proof fn labels_spec_decreases(s: Seq<char>, i: int) {
    if 0 <= i <= s.len() {
        lemma_ws_end(s, i);
        let w = ws_end(s, i);
        lemma_label_next_bounds(s, w);
        lemma_ws_end(s, label_next(s, w));
    }
}

/// Parse a `,`-separated list of labels, stopping at (and not consuming) the
/// closing `]`. Fails when neither `,` nor `]` follows a label.
pub fn parse_labels_list(s: &Vec<char>, i: usize) -> (r: Option<(usize, Vec<String>)>)
    requires
        i <= s.len(),
    ensures
        r is Some == labels_spec(s@, i as int) is Some,
        r matches Option::Some(p) ==> labels_spec(s@, i as int) matches Option::Some(q) && {
            &&& p.0 as int == q.0
            &&& i <= p.0 <= s.len()
            &&& p.1.deep_view() == q.1
        },
{
    let mut labels: Vec<String> = Vec::new();
    let mut cur = i;
    loop
        invariant
            i <= cur <= s.len(),
            labels_spec(s@, i as int) is Some <==> labels_spec(s@, cur as int) is Some,
            labels_spec(s@, i as int) matches Option::Some(p) ==> labels_spec(
                s@,
                cur as int,
            ) matches Option::Some(q) && p.0 == q.0 && p.1 == labels.deep_view() + q.1,
        decreases s.len() - cur,
    {
        proof {
            lemma_ws_end(s@, cur as int);
        }
        let w = skip_ws(s, cur);
        if w < s.len() && s[w] == ']' {
            proof {
                assert(labels.deep_view() + Seq::<Seq<char>>::empty() =~= labels.deep_view());
            }
            return Option::Some((w, labels));
        }
        proof {
            lemma_label_next_bounds(s@, w as int);
        }
        let (j, lab) = parse_label(s, w);
        let ghost labels_before = labels.deep_view();
        labels.push(lab);
        proof {
            assert(labels.deep_view() =~= labels_before.push(lab@));
        }
        let w2 = skip_ws(s, j);
        if w2 < s.len() && s[w2] == ',' {
            proof {
                let t = labels_spec(s@, w2 + 1);
                if t is Some {
                    let rest = t->0;
                    assert(labels_before + (seq![lab@] + rest.1) =~= labels.deep_view() + rest.1);
                }
            }
            cur = w2 + 1;
        } else if w2 < s.len() && s[w2] == ']' {
            proof {
                assert(labels_before + seq![lab@] =~= labels.deep_view());
            }
            return Option::Some((w2, labels));
        } else {
            return Option::None;
        }
    }
}

} // verus!
