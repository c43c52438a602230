//! The theming header: a lenient JSON-like object literal.
//!
//! The header `%%{init: { ... }}%%` holds a flat or nested object. Keys and
//! values may use either quote style; nested objects flatten into dotted
//! keys; any construct that does not parse is dropped rather than failing
//! the document. The parsed variables live in an insertion-ordered list of
//! unique keys, where a later duplicate key overwrites the earlier entry.

use vstd::prelude::*;
use crate::text::{
    ws_end, find_char, find_any, trim_start, trim_end, has_tag_at, skip_ws, seek_char, seek_any,
    sub_string, trim_range, chars_of, string_from_chars, tag_at,
    lemma_ws_end, lemma_find_char, lemma_find_any, lemma_digits_end,
};
use crate::string_parser::{quoted_ok, quoted_close, quoted_content};
use crate::numbers::digits_val;
use crate::text::is_digit;

verus! {

/// A parsed theming header: the theme name, the flattened theme variables,
/// and an optional canvas-width override.
#[derive(Debug, Clone, PartialEq)]
pub struct ChartConfig {
    pub theme: String,
    pub theme_variables: Vec<(String, String)>,
    pub width: Option<u32>,
}

/// The text of a key/value list, for reasoning.
pub open spec fn kv_view(entries: Seq<(String, String)>) -> Seq<(Seq<char>, Seq<char>)> {
    entries.map_values(|p: (String, String)| (p.0@, p.1@))
}

/// First index holding key `k`, or the length when absent.
pub open spec fn kv_find(m: Seq<(Seq<char>, Seq<char>)>, k: Seq<char>) -> int
    decreases m.len(),
{
    if m.len() == 0 {
        0
    } else if m[0].0 == k {
        0
    } else {
        1 + kv_find(m.drop_first(), k)
    }
}

pub proof fn lemma_kv_find(m: Seq<(Seq<char>, Seq<char>)>, k: Seq<char>)
    ensures
        0 <= kv_find(m, k) <= m.len(),
        kv_find(m, k) < m.len() ==> m[kv_find(m, k)].0 == k,
        forall|t: int| 0 <= t < kv_find(m, k) ==> m[t].0 != k,
    decreases m.len(),
{
    if m.len() > 0 && m[0].0 != k {
        lemma_kv_find(m.drop_first(), k);
        assert forall|t: int| 0 <= t < kv_find(m, k) implies m[t].0 != k by {
            if t > 0 {
                assert(m.drop_first()[t - 1] == m[t]);
            }
        }
    }
}

/// The value stored under `k`, if any.
pub open spec fn kv_get(m: Seq<(Seq<char>, Seq<char>)>, k: Seq<char>) -> Option<Seq<char>> {
    let i = kv_find(m, k);
    if i < m.len() {
        Option::Some(m[i].1)
    } else {
        Option::None
    }
}

/// Store `v` under `k`: overwrite the existing entry or append a new one.
pub open spec fn kv_upsert(
    m: Seq<(Seq<char>, Seq<char>)>,
    k: Seq<char>,
    v: Seq<char>,
) -> Seq<(Seq<char>, Seq<char>)> {
    let i = kv_find(m, k);
    if i < m.len() {
        m.update(i, (k, v))
    } else {
        m.push((k, v))
    }
}

/// Store every pair of `ps` in order.
pub open spec fn kv_upsert_all(
    m: Seq<(Seq<char>, Seq<char>)>,
    ps: Seq<(Seq<char>, Seq<char>)>,
) -> Seq<(Seq<char>, Seq<char>)>
    decreases ps.len(),
{
    if ps.len() == 0 {
        m
    } else {
        kv_upsert_all(kv_upsert(m, ps[0].0, ps[0].1), ps.drop_first())
    }
}

pub proof fn lemma_upsert_all_cons(
    m: Seq<(Seq<char>, Seq<char>)>,
    p: (Seq<char>, Seq<char>),
    ps: Seq<(Seq<char>, Seq<char>)>,
)
    ensures
        kv_upsert_all(m, seq![p] + ps) == kv_upsert_all(kv_upsert(m, p.0, p.1), ps),
{
    let whole = seq![p] + ps;
    assert(whole.len() > 0);
    assert(whole[0] == p);
    assert(whole.drop_first() =~= ps);
}

pub proof fn lemma_upsert_all_append(
    m: Seq<(Seq<char>, Seq<char>)>,
    a: Seq<(Seq<char>, Seq<char>)>,
    b: Seq<(Seq<char>, Seq<char>)>,
)
    ensures
        kv_upsert_all(m, a + b) == kv_upsert_all(kv_upsert_all(m, a), b),
    decreases a.len(),
{
    if a.len() == 0 {
        assert(a + b =~= b);
    } else {
        let m2 = kv_upsert(m, a[0].0, a[0].1);
        assert((a + b).drop_first() =~= a.drop_first() + b);
        assert((a + b)[0] == a[0]);
        lemma_upsert_all_append(m2, a.drop_first(), b);
    }
}

/// Position of the `}` closing the object at nesting `depth`, skipping quoted
/// runs of either style; the length of `s` when unbalanced.
pub open spec fn match_brace(s: Seq<char>, i: int, depth: nat) -> int
    decreases s.len() - i,
    via match_brace_decreases
{
    if i < 0 || i >= s.len() {
        s.len() as int
    } else if s[i] == '}' {
        if depth == 0 {
            i
        } else {
            match_brace(s, i + 1, (depth - 1) as nat)
        }
    } else if s[i] == '{' {
        match_brace(s, i + 1, depth + 1)
    } else if s[i] == '"' || s[i] == '\'' {
        let c = find_char(s, i + 1, s[i]);
        if c < s.len() {
            match_brace(s, c + 1, depth)
        } else {
            s.len() as int
        }
    } else {
        match_brace(s, i + 1, depth)
    }
}

#[via_fn]
proof fn match_brace_decreases(s: Seq<char>, i: int, depth: nat) {
    if 0 <= i < s.len() {
        if s[i] == '"' || s[i] == '\'' {
            lemma_find_char(s, i + 1, s[i]);
        }
    }
}

pub proof fn lemma_match_brace_bounds(s: Seq<char>, i: int, depth: nat)
    requires
        0 <= i <= s.len(),
    ensures
        i <= match_brace(s, i, depth) <= s.len(),
    decreases s.len() - i,
{
    if i < s.len() {
        if s[i] == '}' {
            if depth > 0 {
                lemma_match_brace_bounds(s, i + 1, (depth - 1) as nat);
            }
        } else if s[i] == '{' {
            lemma_match_brace_bounds(s, i + 1, depth + 1);
        } else if s[i] == '"' || s[i] == '\'' {
            lemma_find_char(s, i + 1, s[i]);
            let c = find_char(s, i + 1, s[i]);
            if c < s.len() {
                lemma_match_brace_bounds(s, c + 1, depth);
            }
        } else {
            lemma_match_brace_bounds(s, i + 1, depth);
        }
    }
}

/// Scan for the matching `}` of the object whose body starts at `i`.
pub fn seek_match_brace(s: &Vec<char>, i: usize) -> (r: usize)
    requires
        i <= s.len(),
    ensures
        r as int == match_brace(s@, i as int, 0),
        i <= r <= s.len(),
{
    let mut j = i;
    let mut depth: usize = 0;
    loop
        invariant
            i <= j <= s.len(),
            depth <= j - i,
            match_brace(s@, i as int, 0) == match_brace(s@, j as int, depth as nat),
        decreases s.len() - j,
    {
        proof {
            lemma_match_brace_bounds(s@, j as int, depth as nat);
        }
        if j == s.len() {
            return j;
        }
        let c = s[j];
        if c == '}' {
            if depth == 0 {
                return j;
            }
            depth = depth - 1;
            j = j + 1;
        } else if c == '{' {
            depth = depth + 1;
            j = j + 1;
        } else if c == '"' || c == '\'' {
            let q = seek_char(s, j + 1, c);
            if q == s.len() {
                return s.len();
            }
            j = q + 1;
        } else {
            j = j + 1;
        }
    }
}

/// The characters that end a bare key.
pub open spec fn key_stops() -> Seq<char> {
    seq![':', ',', '}']
}

/// The characters that end a bare scalar value.
pub open spec fn value_stops() -> Seq<char> {
    seq![',', '}']
}

/// Where the key starting at `w` ends.
pub open spec fn key_next(s: Seq<char>, w: int) -> int {
    if quoted_ok(s, w, '"') {
        quoted_close(s, w, '"') + 1
    } else if quoted_ok(s, w, '\'') {
        quoted_close(s, w, '\'') + 1
    } else {
        find_any(s, w, key_stops())
    }
}

/// The text of the key starting at `w`.
pub open spec fn key_text(s: Seq<char>, w: int) -> Seq<char> {
    if quoted_ok(s, w, '"') {
        quoted_content(s, w, '"')
    } else if quoted_ok(s, w, '\'') {
        quoted_content(s, w, '\'')
    } else {
        let e = find_any(s, w, key_stops());
        let te = trim_end(s, w, e);
        let ts = trim_start(s, w, te);
        s.subrange(ts, te)
    }
}

pub proof fn lemma_key_next_bounds(s: Seq<char>, w: int)
    requires
        0 <= w <= s.len(),
    ensures
        w <= key_next(s, w) <= s.len(),
        w < s.len() && !key_stops().contains(s[w]) ==> w < key_next(s, w),
{
    if quoted_ok(s, w, '"') {
        lemma_find_char(s, w + 1, '"');
    } else if quoted_ok(s, w, '\'') {
        lemma_find_char(s, w + 1, '\'');
    } else {
        lemma_find_any(s, w, key_stops());
    }
}

/// The flattened pairs of the object body starting at `i`, prefixed with
/// `prefix`, and the position right after the `}` that closes it (or the end
/// of input). Constructs that do not parse contribute no pairs.
pub open spec fn obj_pairs(s: Seq<char>, i: int, prefix: Seq<char>) -> (
    int,
    Seq<(Seq<char>, Seq<char>)>,
)
    decreases s.len() - i, 0nat,
    via obj_pairs_decreases
{
    if !(0 <= i <= s.len()) {
        (s.len() as int, Seq::empty())
    } else {
        let w = ws_end(s, i);
        if w >= s.len() {
            (s.len() as int, Seq::empty())
        } else if s[w] == '}' {
            (w + 1, Seq::empty())
        } else if s[w] == ',' {
            obj_pairs(s, w + 1, prefix)
        } else if s[w] == ':' {
            // no key: drop the segment
            let t = find_any(s, w + 1, value_stops());
            obj_pairs(s, t, prefix)
        } else {
            let k = key_next(s, w);
            let key = key_text(s, w);
            let kw = ws_end(s, k);
            if kw < s.len() && s[kw] == ':' {
                let v0 = ws_end(s, kw + 1);
                if v0 < s.len() && s[v0] == '{' {
                    let close = match_brace(s, v0 + 1, 0);
                    let cont = if close < s.len() {
                        close + 1
                    } else {
                        s.len() as int
                    };
                    let inner: Seq<(Seq<char>, Seq<char>)> = if key.len() > 0 {
                        obj_pairs(s, v0 + 1, prefix + key + seq!['.']).1
                    } else {
                        Seq::empty()
                    };
                    let rest = obj_pairs(s, cont, prefix);
                    (rest.0, inner + rest.1)
                } else if v0 < s.len() && (s[v0] == '"' || s[v0] == '\'') && quoted_ok(
                    s,
                    v0,
                    s[v0],
                ) {
                    let val = quoted_content(s, v0, s[v0]);
                    let cont = quoted_close(s, v0, s[v0]) + 1;
                    let rest = obj_pairs(s, cont, prefix);
                    if key.len() > 0 && val.len() > 0 {
                        (rest.0, seq![(prefix + key, val)] + rest.1)
                    } else {
                        rest
                    }
                } else {
                    let e = find_any(s, v0, value_stops());
                    let te = trim_end(s, v0, e);
                    let ts = trim_start(s, v0, te);
                    let val = s.subrange(ts, te);
                    let rest = obj_pairs(s, e, prefix);
                    if key.len() > 0 && val.len() > 0 {
                        (rest.0, seq![(prefix + key, val)] + rest.1)
                    } else {
                        rest
                    }
                }
            } else {
                // no colon after the key: drop the segment
                let t = find_any(s, kw, value_stops());
                obj_pairs(s, t, prefix)
            }
        }
    }
}

#[via_fn]
proof fn obj_pairs_decreases(s: Seq<char>, i: int, prefix: Seq<char>) {
    if 0 <= i <= s.len() {
        lemma_ws_end(s, i);
        let w = ws_end(s, i);
        if w < s.len() && s[w] != '}' && s[w] != ',' {
            if s[w] == ':' {
                lemma_find_any(s, w + 1, value_stops());
            } else {
                lemma_key_next_bounds(s, w);
                let k = key_next(s, w);
                lemma_ws_end(s, k);
                let kw = ws_end(s, k);
                if kw < s.len() && s[kw] == ':' {
                    lemma_ws_end(s, kw + 1);
                    let v0 = ws_end(s, kw + 1);
                    if v0 < s.len() && s[v0] == '{' {
                        lemma_match_brace_bounds(s, v0 + 1, 0);
                    } else if v0 < s.len() && (s[v0] == '"' || s[v0] == '\'') && quoted_ok(
                        s,
                        v0,
                        s[v0],
                    ) {
                        lemma_find_char(s, v0 + 1, s[v0]);
                    } else {
                        lemma_find_any(s, v0, value_stops());
                        assert(!key_stops().contains(s[w]));
                        assert(find_any(s, v0, value_stops()) > i);
                    }
                } else {
                    lemma_find_any(s, kw, value_stops());
                    assert(!key_stops().contains(s[w]));
                }
            }
        }
    }
}

pub proof fn lemma_obj_pairs_bounds(s: Seq<char>, i: int, prefix: Seq<char>)
    requires
        0 <= i <= s.len(),
    ensures
        i <= obj_pairs(s, i, prefix).0 <= s.len(),
    decreases s.len() - i, 0nat,
{
    lemma_ws_end(s, i);
    let w = ws_end(s, i);
    if w < s.len() && s[w] != '}' {
        if s[w] == ',' {
            lemma_obj_pairs_bounds(s, w + 1, prefix);
        } else if s[w] == ':' {
            lemma_find_any(s, w + 1, value_stops());
            lemma_obj_pairs_bounds(s, find_any(s, w + 1, value_stops()), prefix);
        } else {
            lemma_key_next_bounds(s, w);
            let k = key_next(s, w);
            lemma_ws_end(s, k);
            let kw = ws_end(s, k);
            if kw < s.len() && s[kw] == ':' {
                lemma_ws_end(s, kw + 1);
                let v0 = ws_end(s, kw + 1);
                if v0 < s.len() && s[v0] == '{' {
                    lemma_match_brace_bounds(s, v0 + 1, 0);
                    let close = match_brace(s, v0 + 1, 0);
                    let cont = if close < s.len() {
                        close + 1
                    } else {
                        s.len() as int
                    };
                    lemma_obj_pairs_bounds(s, cont, prefix);
                } else if v0 < s.len() && (s[v0] == '"' || s[v0] == '\'') && quoted_ok(
                    s,
                    v0,
                    s[v0],
                ) {
                    lemma_find_char(s, v0 + 1, s[v0]);
                    lemma_obj_pairs_bounds(s, quoted_close(s, v0, s[v0]) + 1, prefix);
                } else {
                    lemma_find_any(s, v0, value_stops());
                    assert(!key_stops().contains(s[w]));
                    lemma_obj_pairs_bounds(s, find_any(s, v0, value_stops()), prefix);
                }
            } else {
                lemma_find_any(s, kw, value_stops());
                assert(!key_stops().contains(s[w]));
                lemma_obj_pairs_bounds(s, find_any(s, kw, value_stops()), prefix);
            }
        }
    }
}

/// Copy the characters of `[a, b)`.
pub fn sub_chars(s: &Vec<char>, a: usize, b: usize) -> (v: Vec<char>)
    requires
        a <= b <= s.len(),
    ensures
        v@ == s@.subrange(a as int, b as int),
{
    let mut v: Vec<char> = Vec::new();
    let mut k = a;
    while k < b
        invariant
            a <= k <= b <= s.len(),
            v@ == s@.subrange(a as int, k as int),
        decreases b - k,
    {
        v.push(s[k]);
        proof {
            assert(v@ =~= s@.subrange(a as int, k + 1));
        }
        k = k + 1;
    }
    v
}

/// Store `v` under `k`, overwriting the first entry with that key.
pub fn vars_upsert(vars: &mut Vec<(String, String)>, k: String, v: String)
    ensures
        kv_view(final(vars)@) == kv_upsert(kv_view(old(vars)@), k@, v@),
{
    proof {
        lemma_kv_find(kv_view(vars@), k@);
    }
    let n = vars.len();
    let mut t: usize = 0;
    while t < n
        invariant
            t <= n,
            n == vars.len(),
            vars@ == old(vars)@,
            forall|u: int| 0 <= u < t ==> kv_view(vars@)[u].0 != k@,
        decreases n - t,
    {
        let hit = {
            let cand = &vars[t].0;
            crate::text::str_eq(cand.as_str(), k.as_str())
        };
        if hit {
            let ghost before = kv_view(vars@);
            proof {
                lemma_kv_find(before, k@);
                assert(kv_find(before, k@) == t as int) by {
                    lemma_kv_find_pinpoint(before, k@, t as int);
                }
            }
            vars.set(t, (k, v));
            proof {
                assert(kv_view(vars@) =~~= kv_upsert(before, k@, v@));
            }
            return ;
        }
        t = t + 1;
    }
    let ghost before = kv_view(vars@);
    proof {
        lemma_kv_find(before, k@);
        if kv_find(before, k@) < before.len() {
            assert(before[kv_find(before, k@)].0 == k@);
            assert(false);
        }
    }
    vars.push((k, v));
    proof {
        assert(kv_view(vars@) =~~= kv_upsert(before, k@, v@));
    }
}

proof fn lemma_kv_find_pinpoint(m: Seq<(Seq<char>, Seq<char>)>, k: Seq<char>, t: int)
    requires
        0 <= t < m.len(),
        m[t].0 == k,
        forall|u: int| 0 <= u < t ==> m[u].0 != k,
    ensures
        kv_find(m, k) == t,
    decreases t,
{
    lemma_kv_find(m, k);
    if t > 0 {
        assert(m.drop_first()[t - 1] == m[t]);
        assert forall|u: int| 0 <= u < t - 1 implies m.drop_first()[u].0 != k by {
            assert(m.drop_first()[u] == m[u + 1]);
        }
        lemma_kv_find_pinpoint(m.drop_first(), k, t - 1);
    }
}

/// Look a key up in a variable list.
pub fn vars_get<'a>(vars: &'a Vec<(String, String)>, key: &str) -> (r: Option<&'a String>)
    ensures
        r is Some <==> kv_get(kv_view(vars@), key@) is Some,
        r matches Option::Some(v) ==> kv_get(kv_view(vars@), key@) == Option::Some(v@),
{
    proof {
        lemma_kv_find(kv_view(vars@), key@);
    }
    let n = vars.len();
    let mut t: usize = 0;
    while t < n
        invariant
            t <= n,
            n == vars.len(),
            forall|u: int| 0 <= u < t ==> kv_view(vars@)[u].0 != key@,
        decreases n - t,
    {
        let hit = {
            let cand = &vars[t].0;
            crate::text::str_eq(cand.as_str(), key)
        };
        if hit {
            proof {
                lemma_kv_find_pinpoint(kv_view(vars@), key@, t as int);
            }
            return Option::Some(&vars[t].1);
        }
        t = t + 1;
    }
    proof {
        lemma_kv_find(kv_view(vars@), key@);
        if kv_find(kv_view(vars@), key@) < vars@.len() {
            assert(kv_view(vars@)[kv_find(kv_view(vars@), key@)].0 == key@);
            assert(false);
        }
    }
    Option::None
}

/// Parse the object body starting at `start`, folding each flattened pair
/// into `vars` in order; returns the position after the closing `}`.
pub fn parse_object_body(
    s: &Vec<char>,
    start: usize,
    prefix: &Vec<char>,
    vars: &mut Vec<(String, String)>,
) -> (r: usize)
    requires
        start <= s.len(),
    ensures
        r as int == obj_pairs(s@, start as int, prefix@).0,
        start <= r <= s.len(),
        kv_view(final(vars)@) == kv_upsert_all(
            kv_view(old(vars)@),
            obj_pairs(s@, start as int, prefix@).1,
        ),
    decreases s.len() - start,
{
    proof {
        lemma_obj_pairs_bounds(s@, start as int, prefix@);
    }
    let ghost goal = obj_pairs(s@, start as int, prefix@);
    let mut cur = start;
    loop
        invariant
            start <= cur <= s.len(),
            goal == obj_pairs(s@, start as int, prefix@),
            obj_pairs(s@, cur as int, prefix@).0 == goal.0,
            kv_upsert_all(kv_view(vars@), obj_pairs(s@, cur as int, prefix@).1)
                == kv_upsert_all(kv_view(old(vars)@), goal.1),
        decreases s.len() - cur,
    {
        proof {
            lemma_ws_end(s@, cur as int);
            lemma_obj_pairs_bounds(s@, cur as int, prefix@);
        }
        let w = skip_ws(s, cur);
        if w == s.len() {
            return s.len();
        }
        if s[w] == '}' {
            return w + 1;
        }
        if s[w] == ',' {
            cur = w + 1;
            continue ;
        }
        if s[w] == ':' {
            proof {
                lemma_find_any(s@, w + 1, value_stops());
            }
            let mut stops: Vec<char> = Vec::new();
            stops.push(',');
            stops.push('}');
            proof {
                assert(stops@ =~= value_stops());
            }
            let t = seek_any(s, w + 1, &stops);
            cur = t;
            continue ;
        }
        proof {
            lemma_key_next_bounds(s@, w as int);
            assert(!key_stops().contains(s@[w as int]));
        }
        // parse the key
        let mut k: usize;
        let mut key: Vec<char>;
        match crate::string_parser::quoted_string(s, w) {
            Option::Some(p) => {
                k = p.0;
                key = chars_of(p.1.as_str());
            },
            Option::None => {
                match crate::string_parser::quoted_string_single(s, w) {
                    Option::Some(p) => {
                        k = p.0;
                        key = chars_of(p.1.as_str());
                    },
                    Option::None => {
                        let mut kstops: Vec<char> = Vec::new();
                        kstops.push(':');
                        kstops.push(',');
                        kstops.push('}');
                        proof {
                            assert(kstops@ =~= key_stops());
                        }
                        let e = seek_any(s, w, &kstops);
                        let (a, b) = trim_range(s, w, e);
                        k = e;
                        key = sub_chars(s, a, b);
                    },
                }
            },
        }
        proof {
            assert(k as int == key_next(s@, w as int));
            assert(key@ == key_text(s@, w as int));
            lemma_ws_end(s@, k as int);
        }
        let kw = skip_ws(s, k);
        if !(kw < s.len() && s[kw] == ':') {
            proof {
                lemma_find_any(s@, kw as int, value_stops());
            }
            let mut stops: Vec<char> = Vec::new();
            stops.push(',');
            stops.push('}');
            proof {
                assert(stops@ =~= value_stops());
            }
            let t = seek_any(s, kw, &stops);
            cur = t;
            continue ;
        }
        proof {
            lemma_ws_end(s@, kw + 1);
        }
        let v0 = skip_ws(s, kw + 1);
        if v0 < s.len() && s[v0] == '{' {
            proof {
                lemma_match_brace_bounds(s@, v0 + 1, 0);
            }
            let close = seek_match_brace(s, v0 + 1);
            let cont = if close < s.len() {
                close + 1
            } else {
                s.len()
            };
            if key.len() > 0 {
                let mut inner_prefix = sub_chars(prefix, 0, prefix.len());
                let mut key_copy = sub_chars(&key, 0, key.len());
                inner_prefix.append(&mut key_copy);
                inner_prefix.push('.');
                proof {
                    assert(inner_prefix@ =~= prefix@ + key@ + seq!['.']);
                    assert(prefix@.subrange(0, prefix@.len() as int) =~= prefix@);
                    assert(key@.subrange(0, key@.len() as int) =~= key@);
                }
                let ghost vars_before = kv_view(vars@);
                let ghost inner_pairs = obj_pairs(s@, v0 + 1, prefix@ + key@ + seq!['.']).1;
                let _ = parse_object_body(s, v0 + 1, &inner_prefix, vars);
                proof {
                    lemma_upsert_all_append(vars_before, inner_pairs,
                        obj_pairs(s@, cont as int, prefix@).1);
                    assert(inner_pairs + obj_pairs(s@, cont as int, prefix@).1
                        == obj_pairs(s@, cur as int, prefix@).1);
                }
            } else {
                proof {
                    assert(obj_pairs(s@, cur as int, prefix@).1 =~= Seq::<(Seq<char>,
                        Seq<char>)>::empty() + obj_pairs(s@, cont as int, prefix@).1);
                    assert(Seq::<(Seq<char>, Seq<char>)>::empty() + obj_pairs(
                        s@,
                        cont as int,
                        prefix@,
                    ).1 =~= obj_pairs(s@, cont as int, prefix@).1);
                }
            }
            cur = cont;
            continue ;
        }
        // the value: quoted, or a bare run up to `,` or `}`
        let mut val: String;
        let mut cont: usize;
        if v0 < s.len() && (s[v0] == '"' || s[v0] == '\'') {
            let q = s[v0];
            match crate::string_parser::quoted_string(s, v0) {
                Option::Some(p) => {
                    cont = p.0;
                    val = p.1;
                },
                Option::None => {
                    match crate::string_parser::quoted_string_single(s, v0) {
                        Option::Some(p) => {
                            cont = p.0;
                            val = p.1;
                        },
                        Option::None => {
                            // unterminated quote: treat as a bare scalar
                            proof {
                                lemma_find_any(s@, v0 as int, value_stops());
                            }
                            let mut stops: Vec<char> = Vec::new();
                            stops.push(',');
                            stops.push('}');
                            proof {
                                assert(stops@ =~= value_stops());
                            }
                            let e = seek_any(s, v0, &stops);
                            let (a, b) = trim_range(s, v0, e);
                            val = sub_string(s, a, b);
                            cont = e;
                        },
                    }
                },
            }
        } else {
            proof {
                lemma_find_any(s@, v0 as int, value_stops());
            }
            let mut stops: Vec<char> = Vec::new();
            stops.push(',');
            stops.push('}');
            proof {
                assert(stops@ =~= value_stops());
            }
            let e = seek_any(s, v0, &stops);
            let (a, b) = trim_range(s, v0, e);
            val = sub_string(s, a, b);
            cont = e;
        }
        if key.len() > 0 && val.as_str().unicode_len() > 0 {
            let mut full = sub_chars(prefix, 0, prefix.len());
            let mut key_copy = sub_chars(&key, 0, key.len());
            full.append(&mut key_copy);
            proof {
                assert(full@ =~= prefix@ + key@);
                assert(prefix@.subrange(0, prefix@.len() as int) =~= prefix@);
                assert(key@.subrange(0, key@.len() as int) =~= key@);
            }
            let full_key = string_from_chars(&full);
            let ghost vars_before = kv_view(vars@);
            let ghost pair = ((prefix@ + key@), val@);
            vars_upsert(vars, full_key, val);
            proof {
                lemma_upsert_all_cons(vars_before, pair, obj_pairs(s@, cont as int, prefix@).1);
                assert(obj_pairs(s@, cur as int, prefix@).1 == seq![pair] + obj_pairs(
                    s@,
                    cont as int,
                    prefix@,
                ).1);
            }
        }
        cur = cont;
    }
}

/// First position at or after `i` where the text `t` occurs, or the length
/// of `s` when it never does.
pub open spec fn find_tag(s: Seq<char>, i: int, t: Seq<char>) -> int
    decreases s.len() - i,
{
    if !(0 <= i <= s.len()) {
        s.len() as int
    } else if has_tag_at(s, i, t) {
        i
    } else if i >= s.len() {
        s.len() as int
    } else {
        find_tag(s, i + 1, t)
    }
}

pub proof fn lemma_find_tag_bounds(s: Seq<char>, i: int, t: Seq<char>)
    requires
        0 <= i <= s.len(),
    ensures
        i <= find_tag(s, i, t) <= s.len(),
        find_tag(s, i, t) < s.len() ==> has_tag_at(s, find_tag(s, i, t), t),
        has_tag_at(s, find_tag(s, i, t), t) || find_tag(s, i, t) == s.len(),
    decreases s.len() - i,
{
    if !has_tag_at(s, i, t) && i < s.len() {
        lemma_find_tag_bounds(s, i + 1, t);
    }
}

/// Scan for the first occurrence of `tag`.
pub fn seek_tag(s: &Vec<char>, i: usize, tag: &Vec<char>) -> (r: usize)
    requires
        i <= s.len(),
    ensures
        r as int == find_tag(s@, i as int, tag@),
        i <= r <= s.len(),
{
    let mut j = i;
    while j < s.len() && !tag_at(s, j, tag)
        invariant
            i <= j <= s.len(),
            find_tag(s@, i as int, tag@) == find_tag(s@, j as int, tag@),
        decreases s.len() - j,
    {
        j = j + 1;
    }
    j
}

/// The numeric reading of a width override: a non-empty digit run whose
/// value fits in `u32`.
pub open spec fn width_of(v: Seq<char>) -> Option<u32> {
    if v.len() > 0 && (forall|k: int| 0 <= k < v.len() ==> is_digit(v[k])) && digits_val(v)
        <= u32::MAX {
        Option::Some(digits_val(v) as u32)
    } else {
        Option::None
    }
}

/// Parse a width override.
pub fn parse_width(v: &str) -> (r: Option<u32>)
    ensures
        r == width_of(v@),
{
    let cs = chars_of(v);
    if cs.len() == 0 {
        return Option::None;
    }
    let (e, val) = crate::numbers::parse_digits(&cs, 0);
    proof {
        lemma_digits_end(cs@, 0);
        assert(cs@.subrange(0, cs@.len() as int) =~= cs@);
    }
    if e < cs.len() {
        proof {
            assert(!is_digit(cs@[e as int]));
        }
        return Option::None;
    }
    if val > 0xFFFF_FFFFu64 {
        proof {
            if crate::numbers::digits_val(cs@) <= u32::MAX {
                assert(val as int == crate::numbers::digits_val(cs@));
            }
        }
        return Option::None;
    }
    proof {
        if crate::numbers::digits_val(cs@) > u32::MAX {
            assert(val == 1_000_000_000_000u64 || val as int == crate::numbers::digits_val(cs@));
        }
    }
    Option::Some(val as u32)
}

/// The entries of `m` whose keys extend `pre`, with `pre` stripped.
pub open spec fn strip_prefixed(
    m: Seq<(Seq<char>, Seq<char>)>,
    pre: Seq<char>,
) -> Seq<(Seq<char>, Seq<char>)>
    decreases m.len(),
{
    if m.len() == 0 {
        Seq::empty()
    } else {
        let rest = strip_prefixed(m.drop_last(), pre);
        let p = m.last();
        if p.0.len() > pre.len() && p.0.subrange(0, pre.len() as int) == pre {
            rest.push((p.0.subrange(pre.len() as int, p.0.len() as int), p.1))
        } else {
            rest
        }
    }
}

/// Collect the entries under `pre`, stripping the prefix.
pub fn strip_prefix_entries(vars: &Vec<(String, String)>, pre: &Vec<char>) -> (r: Vec<
    (String, String),
>)
    ensures
        kv_view(r@) == strip_prefixed(kv_view(vars@), pre@),
{
    let mut out: Vec<(String, String)> = Vec::new();
    let mut t: usize = 0;
    while t < vars.len()
        invariant
            t <= vars.len(),
            kv_view(out@) == strip_prefixed(kv_view(vars@).take(t as int), pre@),
        decreases vars.len() - t,
    {
        let ghost m = kv_view(vars@);
        proof {
            assert(m.take(t + 1).drop_last() =~= m.take(t as int));
            assert(m.take(t + 1).last() == m[t as int]);
        }
        let key = chars_of(vars[t].0.as_str());
        if key.len() > pre.len() && tag_at(&key, 0, pre) {
            let sub = sub_string(&key, pre.len(), key.len());
            let value_copy = {
                let v = &vars[t].1;
                v.clone()
            };
            let ghost out_before = kv_view(out@);
            out.push((sub, value_copy));
            proof {
                assert(kv_view(out@) =~~= out_before.push(
                    (m[t as int].0.subrange(pre@.len() as int, m[t as int].0.len() as int),
                    m[t as int].1),
                ));
            }
        } else {
            proof {
                if key@.len() > pre@.len() {
                    assert(!has_tag_at(key@, 0, pre@));
                }
            }
        }
        t = t + 1;
    }
    proof {
        assert(kv_view(vars@).take(vars@.len() as int) =~= kv_view(vars@));
    }
    out
}

/// The map built from the flattened pairs of the header object.
pub open spec fn config_map(s: Seq<char>, body_start: int) -> Seq<(Seq<char>, Seq<char>)> {
    let w = ws_end(s, body_start);
    if w < s.len() && s[w] == '{' {
        kv_upsert_all(Seq::empty(), obj_pairs(s, w + 1, Seq::empty()).1)
    } else {
        Seq::empty()
    }
}

/// A theming header `%%{init: ... }%%` starts at `i` and is closed.
pub open spec fn config_ok(s: Seq<char>, i: int) -> bool {
    &&& has_tag_at(s, i, "%%{init: "@)
    &&& find_tag(s, i + "%%{init: "@.len(), "}%%"@) < s.len()
}

/// Position right after the closing `}%%`.
pub open spec fn config_end(s: Seq<char>, i: int) -> int {
    find_tag(s, i + "%%{init: "@.len(), "}%%"@) + "}%%"@.len()
}

/// The theme name of a header map: the `theme` entry, or `base`.
pub open spec fn theme_of(m: Seq<(Seq<char>, Seq<char>)>) -> Seq<char> {
    match kv_get(m, "theme"@) {
        Option::Some(v) => v,
        Option::None => "base"@,
    }
}

/// The width override of a header map.
pub open spec fn width_entry(m: Seq<(Seq<char>, Seq<char>)>) -> Option<u32> {
    match kv_get(m, "width"@) {
        Option::Some(v) => width_of(v),
        Option::None => Option::None,
    }
}

/// The flattened theme variables of a header map: the entries under
/// `themeVariables.`, with that prefix stripped.
pub open spec fn variables_of(m: Seq<(Seq<char>, Seq<char>)>) -> Seq<(Seq<char>, Seq<char>)> {
    strip_prefixed(m, "themeVariables."@)
}

/// Parse the theming header starting exactly at `i`: `%%{init: ` up to the
/// first `}%%`. Yields the position after the `}%%` and the config, with
/// `theme` defaulting to `base`, the `width` override when it reads as a
/// `u32`, and the flattened `themeVariables` entries.
pub fn config_line(s: &Vec<char>, i: usize) -> (r: Option<(usize, ChartConfig)>)
    requires
        i <= s.len(),
    ensures
        r is Some <==> config_ok(s@, i as int),
        r matches Option::Some(p) ==> {
            &&& p.0 as int == config_end(s@, i as int)
            &&& i <= p.0 <= s.len()
            &&& p.1.theme@ == theme_of(config_map(s@, i + "%%{init: "@.len()))
            &&& p.1.width == width_entry(config_map(s@, i + "%%{init: "@.len()))
            &&& kv_view(p.1.theme_variables@) == variables_of(
                config_map(s@, i + "%%{init: "@.len()),
            )
        },
{
    let open_tag = chars_of("%%{init: ");
    if !tag_at(s, i, &open_tag) {
        return Option::None;
    }
    let body_start = i + open_tag.len();
    let close_tag = chars_of("}%%");
    proof {
        lemma_find_tag_bounds(s@, body_start as int, "}%%"@);
    }
    let t = seek_tag(s, body_start, &close_tag);
    if t == s.len() {
        return Option::None;
    }
    // collect the flattened pairs of the object literal
    let mut all_vars: Vec<(String, String)> = Vec::new();
    proof {
        lemma_ws_end(s@, body_start as int);
    }
    let w = skip_ws(s, body_start);
    if w < s.len() && s[w] == '{' {
        let empty_prefix: Vec<char> = Vec::new();
        proof {
            assert(empty_prefix@ =~= Seq::<char>::empty());
            assert(kv_view(all_vars@) =~= Seq::<(Seq<char>, Seq<char>)>::empty());
        }
        let _ = parse_object_body(s, w + 1, &empty_prefix, &mut all_vars);
    } else {
        proof {
            assert(kv_view(all_vars@) =~= Seq::<(Seq<char>, Seq<char>)>::empty());
        }
    }
    let ghost m = config_map(s@, body_start as int);
    proof {
        assert(kv_view(all_vars@) == m);
    }
    // theme
    let theme: String = match vars_get(&all_vars, "theme") {
        Option::Some(v) => v.clone(),
        Option::None => "base".to_owned(),
    };
    // width
    let width: Option<u32> = match vars_get(&all_vars, "width") {
        Option::Some(v) => parse_width(v.as_str()),
        Option::None => Option::None,
    };
    // theme variables
    let pre = chars_of("themeVariables.");
    let theme_variables = strip_prefix_entries(&all_vars, &pre);
    Option::Some(
        (
            t + close_tag.len(),
            ChartConfig { theme, theme_variables, width },
        ),
    )
}

/// Parse an object body (the text after the opening `{` of a
/// `themeVariables` value), folding each flattened pair into
/// `theme_variables`.
pub fn parse_theme_variables(content: &str, theme_variables: &mut Vec<(String, String)>)
    ensures
        kv_view(final(theme_variables)@) == kv_upsert_all(
            kv_view(old(theme_variables)@),
            obj_pairs(content@, 0, Seq::empty()).1,
        ),
{
    let cs = chars_of(content);
    let empty_prefix: Vec<char> = Vec::new();
    proof {
        assert(empty_prefix@ =~= Seq::<char>::empty());
    }
    let _ = parse_object_body(&cs, 0, &empty_prefix, theme_variables);
}

/// Parse a nested object body, prefixing each key with `prefix` and a dot.
pub fn parse_nested_theme_variables(
    content: &str,
    prefix: &str,
    theme_variables: &mut Vec<(String, String)>,
)
    ensures
        kv_view(final(theme_variables)@) == kv_upsert_all(
            kv_view(old(theme_variables)@),
            obj_pairs(content@, 0, prefix@ + seq!['.']).1,
        ),
{
    let cs = chars_of(content);
    let mut pre = chars_of(prefix);
    pre.push('.');
    proof {
        assert(pre@ =~= prefix@ + seq!['.']);
    }
    let _ = parse_object_body(&cs, 0, &pre, theme_variables);
}

/// Look a key up in a config's theme variables.
pub fn config_var<'a>(config: &'a ChartConfig, key: &str) -> (r: Option<&'a String>)
    ensures
        r is Some <==> kv_get(kv_view(config.theme_variables@), key@) is Some,
        r matches Option::Some(v) ==> kv_get(kv_view(config.theme_variables@), key@)
            == Option::Some(v@),
{
    vars_get(&config.theme_variables, key)
}

} // verus!
