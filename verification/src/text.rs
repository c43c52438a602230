//! Character-level scanning primitives shared by every dialect grammar.
//!
//! All parsing in this crate works over a `Vec<char>` holding the input text
//! together with a cursor index; the functions here move such cursors and are
//! specified against `scan_while`, a functional description of a maximal scan.

use vstd::prelude::*;

verus! {

/// Whitespace as the grammars understand it: space, tab, carriage return, newline.
pub open spec fn is_ws(c: char) -> bool {
    c == ' ' || c == '\t' || c == '\r' || c == '\n'
}

/// Horizontal blank space: space or tab.
pub open spec fn is_blank(c: char) -> bool {
    c == ' ' || c == '\t'
}

/// Decimal digit.
pub open spec fn is_digit(c: char) -> bool {
    48 <= c as u32 <= 57
}

/// ASCII letter.
pub open spec fn is_letter(c: char) -> bool {
    (65 <= c as u32 <= 90) || (97 <= c as u32 <= 122)
}

/// The first index at or after `i` whose character fails `p`, or the length of
/// `s` if every remaining character satisfies `p`.
pub open spec fn scan_while(s: Seq<char>, i: int, p: spec_fn(char) -> bool) -> int
    decreases s.len() - i,
{
    if i < 0 || i >= s.len() {
        i
    } else if p(s[i]) {
        scan_while(s, i + 1, p)
    } else {
        i
    }
}

pub proof fn lemma_scan_while(s: Seq<char>, i: int, p: spec_fn(char) -> bool)
    requires
        0 <= i <= s.len(),
    ensures
        i <= scan_while(s, i, p) <= s.len(),
        forall|k: int| i <= k < scan_while(s, i, p) ==> p(s[k]),
        scan_while(s, i, p) < s.len() ==> !p(s[scan_while(s, i, p)]),
    decreases s.len() - i,
{
    if i < s.len() && p(s[i]) {
        lemma_scan_while(s, i + 1, p);
    }
}

/// End of the whitespace run starting at `i`.
pub open spec fn ws_end(s: Seq<char>, i: int) -> int {
    scan_while(s, i, |c: char| is_ws(c))
}

pub proof fn lemma_ws_end(s: Seq<char>, i: int)
    requires
        0 <= i <= s.len(),
    ensures
        i <= ws_end(s, i) <= s.len(),
        forall|k: int| i <= k < ws_end(s, i) ==> is_ws(s[k]),
        ws_end(s, i) < s.len() ==> !is_ws(s[ws_end(s, i)]),
    decreases s.len() - i,
{
    if i < s.len() && is_ws(s[i]) {
        lemma_ws_end(s, i + 1);
    }
}

pub proof fn lemma_blank_end(s: Seq<char>, i: int)
    requires
        0 <= i <= s.len(),
    ensures
        i <= blank_end(s, i) <= s.len(),
        forall|k: int| i <= k < blank_end(s, i) ==> is_blank(s[k]),
        blank_end(s, i) < s.len() ==> !is_blank(s[blank_end(s, i)]),
    decreases s.len() - i,
{
    if i < s.len() && is_blank(s[i]) {
        lemma_blank_end(s, i + 1);
    }
}

pub proof fn lemma_letters_end(s: Seq<char>, i: int)
    requires
        0 <= i <= s.len(),
    ensures
        i <= letters_end(s, i) <= s.len(),
        forall|k: int| i <= k < letters_end(s, i) ==> is_letter(s[k]),
        letters_end(s, i) < s.len() ==> !is_letter(s[letters_end(s, i)]),
    decreases s.len() - i,
{
    if i < s.len() && is_letter(s[i]) {
        lemma_letters_end(s, i + 1);
    }
}

pub proof fn lemma_digits_end(s: Seq<char>, i: int)
    requires
        0 <= i <= s.len(),
    ensures
        i <= digits_end(s, i) <= s.len(),
        forall|k: int| i <= k < digits_end(s, i) ==> is_digit(s[k]),
        digits_end(s, i) < s.len() ==> !is_digit(s[digits_end(s, i)]),
    decreases s.len() - i,
{
    if i < s.len() && is_digit(s[i]) {
        lemma_digits_end(s, i + 1);
    }
}

pub proof fn lemma_find_char(s: Seq<char>, i: int, c: char)
    requires
        0 <= i <= s.len(),
    ensures
        i <= find_char(s, i, c) <= s.len(),
        forall|k: int| i <= k < find_char(s, i, c) ==> s[k] != c,
        find_char(s, i, c) < s.len() ==> s[find_char(s, i, c)] == c,
    decreases s.len() - i,
{
    if i < s.len() && s[i] != c {
        lemma_find_char(s, i + 1, c);
    }
}

pub proof fn lemma_find_any(s: Seq<char>, i: int, stops: Seq<char>)
    requires
        0 <= i <= s.len(),
    ensures
        i <= find_any(s, i, stops) <= s.len(),
        forall|k: int| i <= k < find_any(s, i, stops) ==> !stops.contains(s[k]),
        find_any(s, i, stops) < s.len() ==> stops.contains(s[find_any(s, i, stops)]),
    decreases s.len() - i,
{
    if i < s.len() && !stops.contains(s[i]) {
        lemma_find_any(s, i + 1, stops);
    }
}

/// End of the blank (space/tab) run starting at `i`.
pub open spec fn blank_end(s: Seq<char>, i: int) -> int {
    scan_while(s, i, |c: char| is_blank(c))
}

/// End of the digit run starting at `i`.
pub open spec fn digits_end(s: Seq<char>, i: int) -> int {
    scan_while(s, i, |c: char| is_digit(c))
}

/// End of the letter run starting at `i`.
pub open spec fn letters_end(s: Seq<char>, i: int) -> int {
    scan_while(s, i, |c: char| is_letter(c))
}

/// First index at or after `i` holding `c`, or the length of `s`.
pub open spec fn find_char(s: Seq<char>, i: int, c: char) -> int {
    scan_while(s, i, |x: char| x != c)
}

/// First index at or after `i` holding a character of `stops`, or the length of `s`.
pub open spec fn find_any(s: Seq<char>, i: int, stops: Seq<char>) -> int {
    scan_while(s, i, |x: char| !stops.contains(x))
}

fn ws_exec(c: char) -> (b: bool)
    ensures
        b == is_ws(c),
{
    c == ' ' || c == '\t' || c == '\r' || c == '\n'
}

fn blank_exec(c: char) -> (b: bool)
    ensures
        b == is_blank(c),
{
    c == ' ' || c == '\t'
}

pub fn digit_exec(c: char) -> (b: bool)
    ensures
        b == is_digit(c),
{
    let u = c as u32;
    48 <= u && u <= 57
}

pub fn letter_exec(c: char) -> (b: bool)
    ensures
        b == is_letter(c),
{
    let u = c as u32;
    (65 <= u && u <= 90) || (97 <= u && u <= 122)
}

/// Advance past whitespace.
pub fn skip_ws(s: &Vec<char>, i: usize) -> (j: usize)
    requires
        i <= s.len(),
    ensures
        j as int == ws_end(s@, i as int),
        i <= j <= s.len(),
{
    let mut j = i;
    while j < s.len() && ws_exec(s[j])
        invariant
            i <= j <= s.len(),
            ws_end(s@, i as int) == ws_end(s@, j as int),
        decreases s.len() - j,
    {
        j = j + 1;
    }
    proof {
        lemma_scan_while(s@, j as int, |c: char| is_ws(c));
    }
    j
}

/// Advance past spaces and tabs.
pub fn skip_blank(s: &Vec<char>, i: usize) -> (j: usize)
    requires
        i <= s.len(),
    ensures
        j as int == blank_end(s@, i as int),
        i <= j <= s.len(),
{
    let mut j = i;
    while j < s.len() && blank_exec(s[j])
        invariant
            i <= j <= s.len(),
            blank_end(s@, i as int) == blank_end(s@, j as int),
        decreases s.len() - j,
    {
        j = j + 1;
    }
    proof {
        lemma_scan_while(s@, j as int, |c: char| is_blank(c));
    }
    j
}

/// Advance past decimal digits.
pub fn skip_digits(s: &Vec<char>, i: usize) -> (j: usize)
    requires
        i <= s.len(),
    ensures
        j as int == digits_end(s@, i as int),
        i <= j <= s.len(),
{
    let mut j = i;
    while j < s.len() && digit_exec(s[j])
        invariant
            i <= j <= s.len(),
            digits_end(s@, i as int) == digits_end(s@, j as int),
        decreases s.len() - j,
    {
        j = j + 1;
    }
    proof {
        lemma_scan_while(s@, j as int, |c: char| is_digit(c));
    }
    j
}

/// Advance past ASCII letters.
pub fn skip_letters(s: &Vec<char>, i: usize) -> (j: usize)
    requires
        i <= s.len(),
    ensures
        j as int == letters_end(s@, i as int),
        i <= j <= s.len(),
{
    let mut j = i;
    while j < s.len() && letter_exec(s[j])
        invariant
            i <= j <= s.len(),
            letters_end(s@, i as int) == letters_end(s@, j as int),
        decreases s.len() - j,
    {
        j = j + 1;
    }
    proof {
        lemma_scan_while(s@, j as int, |c: char| is_letter(c));
    }
    j
}

/// Scan forward to the first occurrence of `c`.
pub fn seek_char(s: &Vec<char>, i: usize, c: char) -> (j: usize)
    requires
        i <= s.len(),
    ensures
        j as int == find_char(s@, i as int, c),
        i <= j <= s.len(),
{
    let mut j = i;
    while j < s.len() && s[j] != c
        invariant
            i <= j <= s.len(),
            find_char(s@, i as int, c) == find_char(s@, j as int, c),
        decreases s.len() - j,
    {
        j = j + 1;
    }
    proof {
        lemma_scan_while(s@, j as int, |x: char| x != c);
    }
    j
}

/// Scan forward to the first occurrence of any character of `stops`.
pub fn seek_any(s: &Vec<char>, i: usize, stops: &Vec<char>) -> (j: usize)
    requires
        i <= s.len(),
    ensures
        j as int == find_any(s@, i as int, stops@),
        i <= j <= s.len(),
{
    let mut j = i;
    while j < s.len() && !contains_char(stops, s[j])
        invariant
            i <= j <= s.len(),
            find_any(s@, i as int, stops@) == find_any(s@, j as int, stops@),
        decreases s.len() - j,
    {
        j = j + 1;
    }
    proof {
        assert(find_any(s@, j as int, stops@) == j as int);
    }
    j
}

/// Whether `v` holds the character `c`.
pub fn contains_char(v: &Vec<char>, c: char) -> (b: bool)
    ensures
        b == v@.contains(c),
{
    let mut k: usize = 0;
    while k < v.len()
        invariant
            k <= v.len(),
            forall|t: int| 0 <= t < k ==> v@[t] != c,
        decreases v.len() - k,
    {
        if v[k] == c {
            return true;
        }
        k = k + 1;
    }
    false
}

/// The tag `t` occurs in `s` at position `i`.
pub open spec fn has_tag_at(s: Seq<char>, i: int, t: Seq<char>) -> bool {
    &&& 0 <= i
    &&& i + t.len() <= s.len()
    &&& s.subrange(i, i + t.len()) == t
}

/// Whether the text of `tag` occurs in `s` at position `i`.
pub fn tag_at(s: &Vec<char>, i: usize, tag: &Vec<char>) -> (b: bool)
    requires
        i <= s.len(),
    ensures
        b == has_tag_at(s@, i as int, tag@),
{
    if s.len() - i < tag.len() {
        proof {
            assert(i + tag@.len() > s@.len());
        }
        return false;
    }
    let mut k: usize = 0;
    while k < tag.len()
        invariant
            k <= tag.len(),
            i + tag.len() <= s.len(),
            forall|t: int| 0 <= t < k ==> s@[i + t] == tag@[t],
        decreases tag.len() - k,
    {
        if s[i + k] != tag[k] {
            proof {
                assert(s@.subrange(i as int, i + tag@.len())[k as int] == s@[i + k]);
            }
            return false;
        }
        k = k + 1;
    }
    proof {
        assert(s@.subrange(i as int, i + tag@.len()) =~= tag@);
    }
    true
}

/// The characters of `s`, in order.
pub fn chars_of(s: &str) -> (v: Vec<char>)
    ensures
        v@ == s@,
{
    let n = s.unicode_len();
    let mut v: Vec<char> = Vec::new();
    let mut k: usize = 0;
    while k < n
        invariant
            k <= n,
            n == s@.len(),
            v@ == s@.subrange(0, k as int),
        decreases n - k,
    {
        let c = s.get_char(k);
        v.push(c);
        proof {
            assert(v@ =~= s@.subrange(0, k + 1));
        }
        k = k + 1;
    }
    proof {
        assert(v@ =~= s@);
    }
    v
}

/// Relies on `String`'s `FromIterator<char>` implementation: collecting
/// characters yields the string holding exactly those characters in order.
#[verifier::external_body]
pub fn string_from_chars(v: &Vec<char>) -> (r: String)
    ensures
        r@ == v@,
{
    v.iter().collect()
}

/// The text of `s` between `a` and `b`, as an owned string.
pub fn sub_string(s: &Vec<char>, a: usize, b: usize) -> (r: String)
    requires
        a <= b <= s.len(),
    ensures
        r@ == s@.subrange(a as int, b as int),
{
    let mut v: Vec<char> = Vec::new();
    let mut k = a;
    while k < b
        invariant
            a <= k <= b <= s.len(),
            v@ == s@.subrange(a as int, k as int),
        decreases b - k,
    {
        v.push(s[k]);
        proof {
            assert(v@ =~= s@.subrange(a as int, k + 1));
        }
        k = k + 1;
    }
    string_from_chars(&v)
}

/// Start of the trimmed text inside `[a, b)`: leading whitespace removed.
pub open spec fn trim_start(s: Seq<char>, a: int, b: int) -> int
    decreases b - a,
{
    if a < b && a < s.len() && 0 <= a && is_ws(s[a]) {
        trim_start(s, a + 1, b)
    } else {
        a
    }
}

/// End of the trimmed text inside `[a, b)`: trailing whitespace removed.
pub open spec fn trim_end(s: Seq<char>, a: int, b: int) -> int
    decreases b - a,
{
    if a < b && b - 1 < s.len() && 0 <= b - 1 && is_ws(s[b - 1]) {
        trim_end(s, a, b - 1)
    } else {
        b
    }
}

pub proof fn lemma_trim_start_bounds(s: Seq<char>, a: int, b: int)
    requires
        0 <= a <= b <= s.len(),
    ensures
        a <= trim_start(s, a, b) <= b,
    decreases b - a,
{
    if a < b && is_ws(s[a]) {
        lemma_trim_start_bounds(s, a + 1, b);
    }
}

pub proof fn lemma_trim_end_bounds(s: Seq<char>, a: int, b: int)
    requires
        0 <= a <= b <= s.len(),
    ensures
        a <= trim_end(s, a, b) <= b,
    decreases b - a,
{
    if a < b && is_ws(s[b - 1]) {
        lemma_trim_end_bounds(s, a, b - 1);
    }
}

/// Trim whitespace from both ends of `[a, b)`, returning the trimmed range:
/// trailing whitespace goes first, leading whitespace is then removed up to
/// the new end.
pub fn trim_range(s: &Vec<char>, a: usize, b: usize) -> (r: (usize, usize))
    requires
        a <= b <= s.len(),
    ensures
        r.1 as int == trim_end(s@, a as int, b as int),
        r.0 as int == trim_start(s@, a as int, r.1 as int),
        a <= r.0 <= r.1 <= b,
{
    proof {
        lemma_trim_end_bounds(s@, a as int, b as int);
    }
    let mut y = b;
    while y > a && ws_exec(s[y - 1])
        invariant
            a <= y <= b <= s.len(),
            trim_end(s@, a as int, b as int) == trim_end(s@, a as int, y as int),
        decreases y,
    {
        y = y - 1;
    }
    proof {
        lemma_trim_start_bounds(s@, a as int, y as int);
    }
    let mut x = a;
    while x < y && ws_exec(s[x])
        invariant
            a <= x <= y <= s.len(),
            trim_start(s@, a as int, y as int) == trim_start(s@, x as int, y as int),
        decreases y - x,
    {
        x = x + 1;
    }
    (x, y)
}

/// The case-insensitive key of a character: ASCII upper-case letters fold to
/// their lower-case code, everything else keeps its own code. Folding is
/// ASCII-only: letters outside ASCII compare by identity.
pub open spec fn lower_code(c: char) -> int {
    if 65 <= c as u32 <= 90 {
        c as u32 + 32
    } else {
        c as u32 as int
    }
}

/// Two texts are equal up to ASCII case; characters outside ASCII must
/// match exactly.
pub open spec fn eq_ignore_case(a: Seq<char>, b: Seq<char>) -> bool {
    a.len() == b.len() && forall|k: int| 0 <= k < a.len() ==> lower_code(a[k]) == lower_code(b[k])
}

fn lower_code_exec(c: char) -> (r: u32)
    ensures
        r as int == lower_code(c),
{
    let u = c as u32;
    if 65 <= u && u <= 90 {
        u + 32
    } else {
        u
    }
}

/// Compare two texts ignoring ASCII case.
pub fn chars_eq_ignore_case(a: &Vec<char>, b: &Vec<char>) -> (r: bool)
    ensures
        r == eq_ignore_case(a@, b@),
{
    if a.len() != b.len() {
        return false;
    }
    let mut k: usize = 0;
    while k < a.len()
        invariant
            k <= a.len(),
            a.len() == b.len(),
            forall|t: int| 0 <= t < k ==> lower_code(a@[t]) == lower_code(b@[t]),
        decreases a.len() - k,
    {
        if lower_code_exec(a[k]) != lower_code_exec(b[k]) {
            return false;
        }
        k = k + 1;
    }
    true
}

/// Compare the characters of two strings.
pub fn str_eq(a: &str, b: &str) -> (r: bool)
    ensures
        r == (a@ == b@),
{
    let av = chars_of(a);
    let bv = chars_of(b);
    if av.len() != bv.len() {
        return false;
    }
    let mut k: usize = 0;
    while k < av.len()
        invariant
            k <= av.len(),
            av.len() == bv.len(),
            av@ == a@,
            bv@ == b@,
            forall|t: int| 0 <= t < k ==> av@[t] == bv@[t],
        decreases av.len() - k,
    {
        if av[k] != bv[k] {
            return false;
        }
        k = k + 1;
    }
    proof {
        assert(a@ =~= b@);
    }
    true
}

/// Compare two strings ignoring ASCII case.
pub fn str_eq_ignore_case(a: &str, b: &str) -> (r: bool)
    ensures
        r == eq_ignore_case(a@, b@),
{
    let av = chars_of(a);
    let bv = chars_of(b);
    chars_eq_ignore_case(&av, &bv)
}

} // verus!
