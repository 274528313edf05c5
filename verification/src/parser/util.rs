//! The tokens of the grammar: white space and comments, names and
//! keywords, symbols. Every token function skips the white space and
//! comments in front of the token.
use crate::ast::Numeral;
use crate::text::{chars_to_string, str_to_chars};
use vstd::prelude::*;

verus! {

/// A position as a mathematical integer.
pub open spec fn opt_int(r: Option<usize>) -> Option<int> {
    match r {
        Some(e) => Some(e as int),
        None => None,
    }
}

/// White space between tokens.
pub open spec fn is_ws_char(c: char) -> bool {
    c == ' ' || c == '\t' || c == '\n' || c == '\r'
}

/// Where the white space and comments that start at `i` end. `mode` is 0
/// between tokens, 1 inside a `--` comment (which ends with the line) and
/// 2 inside a `--[[ ... ]]` comment.
pub open spec fn spec_skip_from(s: Seq<char>, i: int, mode: int) -> int
    decreases s.len() - i,
{
    if i >= s.len() {
        i
    } else if mode == 1 {
        if s[i] == '\n' {
            spec_skip_from(s, i + 1, 0)
        } else {
            spec_skip_from(s, i + 1, 1)
        }
    } else if mode == 2 {
        if i + 1 < s.len() && s[i] == ']' && s[i + 1] == ']' {
            spec_skip_from(s, i + 2, 0)
        } else {
            spec_skip_from(s, i + 1, 2)
        }
    } else if is_ws_char(s[i]) {
        spec_skip_from(s, i + 1, 0)
    } else if i + 1 < s.len() && s[i] == '-' && s[i + 1] == '-' {
        if i + 3 < s.len() && s[i + 2] == '[' && s[i + 3] == '[' {
            spec_skip_from(s, i + 4, 2)
        } else {
            spec_skip_from(s, i + 2, 1)
        }
    } else {
        i
    }
}

/// The start of the next token at or after `i`.
pub open spec fn spec_skip(s: Seq<char>, i: int) -> int {
    spec_skip_from(s, i, 0)
}

pub proof fn lemma_skip_from_range(s: Seq<char>, i: int, mode: int)
    requires
        0 <= i <= s.len(),
    ensures
        i <= spec_skip_from(s, i, mode) <= s.len(),
    decreases s.len() - i,
{
    if i < s.len() {
        if mode == 1 {
            if s[i] == '\n' {
                lemma_skip_from_range(s, i + 1, 0);
            } else {
                lemma_skip_from_range(s, i + 1, 1);
            }
        } else if mode == 2 {
            if i + 1 < s.len() && s[i] == ']' && s[i + 1] == ']' {
                lemma_skip_from_range(s, i + 2, 0);
            } else {
                lemma_skip_from_range(s, i + 1, 2);
            }
        } else if is_ws_char(s[i]) {
            lemma_skip_from_range(s, i + 1, 0);
        } else if i + 1 < s.len() && s[i] == '-' && s[i + 1] == '-' {
            if i + 3 < s.len() && s[i + 2] == '[' && s[i + 3] == '[' {
                lemma_skip_from_range(s, i + 4, 2);
            } else {
                lemma_skip_from_range(s, i + 2, 1);
            }
        }
    }
}

/// Skips white space and comments.
pub fn skip_ws(s: &Vec<char>, pos: usize) -> (p: usize)
    requires
        pos <= s@.len(),
    ensures
        p == spec_skip(s@, pos as int),
        pos <= p <= s@.len(),
{
    proof {
        lemma_skip_from_range(s@, pos as int, 0);
    }
    let mut i: usize = pos;
    let mut mode: u8 = 0;
    while i < s.len()
        invariant
            pos <= i <= s@.len(),
            mode <= 2,
            spec_skip_from(s@, i as int, mode as int) == spec_skip_from(s@, pos as int, 0),
        decreases s@.len() - i,
    {
        let c = s[i];
        if mode == 1 {
            if c == '\n' {
                mode = 0;
            }
            i = i + 1;
        } else if mode == 2 {
            if s.len() - i > 1 && c == ']' && s[i + 1] == ']' {
                mode = 0;
                i = i + 2;
            } else {
                i = i + 1;
            }
        } else if c == ' ' || c == '\t' || c == '\n' || c == '\r' {
            i = i + 1;
        } else if s.len() - i > 1 && c == '-' && s[i + 1] == '-' {
            if s.len() - i > 3 && s[i + 2] == '[' && s[i + 3] == '[' {
                mode = 2;
                i = i + 4;
            } else {
                mode = 1;
                i = i + 2;
            }
        } else {
            return i;
        }
    }
    i
}

/// A character that may start a name.
pub open spec fn is_name_start(c: char) -> bool {
    ('a' <= c && c <= 'z') || ('A' <= c && c <= 'Z') || c == '_'
}

/// A character that may continue a name.
pub open spec fn is_name_char(c: char) -> bool {
    is_name_start(c) || ('0' <= c && c <= '9')
}

/// The end of the run of name characters that starts at `i`.
pub open spec fn spec_name_end(s: Seq<char>, i: int) -> int
    decreases s.len() - i,
{
    if 0 <= i < s.len() && is_name_char(s[i]) {
        spec_name_end(s, i + 1)
    } else {
        i
    }
}

pub proof fn lemma_name_end_range(s: Seq<char>, i: int)
    requires
        0 <= i <= s.len(),
    ensures
        i <= spec_name_end(s, i) <= s.len(),
    decreases s.len() - i,
{
    if i < s.len() && is_name_char(s[i]) {
        lemma_name_end_range(s, i + 1);
    }
}

/// The reserved words of Lua, which are not names.
pub open spec fn spec_is_keyword(w: Seq<char>) -> bool {
    w == "and"@ || w == "break"@ || w == "do"@ || w == "else"@ || w == "elseif"@ || w == "end"@
        || w == "false"@ || w == "for"@ || w == "function"@ || w == "goto"@ || w == "if"@ || w
        == "in"@ || w == "local"@ || w == "nil"@ || w == "not"@ || w == "or"@ || w == "repeat"@
        || w == "return"@ || w == "then"@ || w == "true"@ || w == "until"@ || w == "while"@
}

/// The word (run of name characters) at the next token: its start and end.
pub open spec fn spec_word(s: Seq<char>, pos: int) -> (int, int) {
    let p = spec_skip(s, pos);
    (p, spec_name_end(s, p))
}

/// The next word starts after the white space and ends within the text.
pub proof fn lemma_word_range(s: Seq<char>, pos: int)
    requires
        0 <= pos <= s.len(),
    ensures
        pos <= spec_word(s, pos).0 <= spec_word(s, pos).1 <= s.len(),
{
    lemma_skip_from_range(s, pos, 0);
    lemma_name_end_range(s, spec_skip(s, pos));
}

/// The name at the next token, if it is one: a word that starts with a
/// letter or `_` and is not a reserved word.
pub open spec fn spec_name_at(s: Seq<char>, pos: int) -> Option<(Seq<char>, int)> {
    let (p, e) = spec_word(s, pos);
    if e > p && is_name_start(s[p]) && !spec_is_keyword(s.subrange(p, e)) {
        Some((s.subrange(p, e), e))
    } else {
        None
    }
}

/// Where the keyword `w` ends, if it is the next token.
pub open spec fn spec_keyword_at(s: Seq<char>, pos: int, w: Seq<char>) -> Option<int> {
    let (p, e) = spec_word(s, pos);
    if e > p && s.subrange(p, e) == w {
        Some(e)
    } else {
        None
    }
}

fn char_is_name_char(c: char) -> (r: bool)
    ensures
        r == is_name_char(c),
{
    ('a' <= c && c <= 'z') || ('A' <= c && c <= 'Z') || c == '_' || ('0' <= c && c <= '9')
}

/// The word at the next token.
fn word(s: &Vec<char>, pos: usize) -> (r: (usize, usize))
    requires
        pos <= s@.len(),
    ensures
        r.0 == spec_word(s@, pos as int).0,
        r.1 == spec_word(s@, pos as int).1,
        pos <= r.0 <= r.1 <= s@.len(),
{
    let p = skip_ws(s, pos);
    let mut e: usize = p;
    proof {
        lemma_name_end_range(s@, p as int);
    }
    while e < s.len() && char_is_name_char(s[e])
        invariant
            p <= e <= s@.len(),
            spec_name_end(s@, e as int) == spec_name_end(s@, p as int),
        decreases s@.len() - e,
    {
        e = e + 1;
    }
    (p, e)
}

/// Whether `s[a..b]` is the text `w`.
fn chars_eq(s: &Vec<char>, a: usize, b: usize, w: &str) -> (r: bool)
    requires
        a <= b <= s@.len(),
    ensures
        r == (s@.subrange(a as int, b as int) == w@),
{
    let cw = str_to_chars(w);
    if b - a != cw.len() {
        assert(s@.subrange(a as int, b as int).len() != w@.len());
        return false;
    }
    let mut i: usize = 0;
    while i < cw.len()
        invariant
            cw@ == w@,
            b - a == cw@.len(),
            a <= b <= s@.len(),
            i <= cw@.len(),
            forall|j: int| 0 <= j < i ==> s@[a + j] == cw@[j],
        decreases cw@.len() - i,
    {
        if s[a + i] != cw[i] {
            assert(s@.subrange(a as int, b as int)[i as int] != w@[i as int]);
            return false;
        }
        i = i + 1;
    }
    assert(s@.subrange(a as int, b as int) =~= w@);
    true
}

/// Whether a word is a reserved word.
fn is_keyword(s: &Vec<char>, a: usize, b: usize) -> (r: bool)
    requires
        a <= b <= s@.len(),
    ensures
        r == spec_is_keyword(s@.subrange(a as int, b as int)),
{
    chars_eq(s, a, b, "and") || chars_eq(s, a, b, "break") || chars_eq(s, a, b, "do")
        || chars_eq(s, a, b, "else") || chars_eq(s, a, b, "elseif") || chars_eq(s, a, b, "end")
        || chars_eq(s, a, b, "false") || chars_eq(s, a, b, "for") || chars_eq(
        s,
        a,
        b,
        "function",
    ) || chars_eq(s, a, b, "goto") || chars_eq(s, a, b, "if") || chars_eq(s, a, b, "in")
        || chars_eq(s, a, b, "local") || chars_eq(s, a, b, "nil") || chars_eq(s, a, b, "not")
        || chars_eq(s, a, b, "or") || chars_eq(s, a, b, "repeat") || chars_eq(s, a, b, "return")
        || chars_eq(s, a, b, "then") || chars_eq(s, a, b, "true") || chars_eq(s, a, b, "until")
        || chars_eq(s, a, b, "while")
}

/// The keyword `w`, if it is the next token; gives where it ends.
pub fn keyword(s: &Vec<char>, pos: usize, w: &str) -> (r: Option<usize>)
    requires
        pos <= s@.len(),
    ensures
        opt_int(r) == spec_keyword_at(s@, pos as int, w@),
        r matches Some(e) ==> pos < e <= s@.len(),
{
    let (p, e) = word(s, pos);
    if e > p && chars_eq(s, p, e, w) {
        Some(e)
    } else {
        None
    }
}

/// The name that is the next token, and where it ends.
pub fn identifier(s: &Vec<char>, pos: usize) -> (r: Option<(String, usize)>)
    requires
        pos <= s@.len(),
    ensures
        match spec_name_at(s@, pos as int) {
            Some((w, e)) => r matches Some((n, e2)) && n@ == w && e2 == e,
            None => r is None,
        },
        r matches Some((_, e)) ==> pos < e <= s@.len(),
{
    let (p, e) = word(s, pos);
    if e > p {
        let c = s[p];
        if (('a' <= c && c <= 'z') || ('A' <= c && c <= 'Z') || c == '_') && !is_keyword(s, p, e) {
            let w = vstd::slice::slice_subrange(s.as_slice(), p, e);
            return Some((chars_to_string(w), e));
        }
    }
    None
}

/// The one-character symbol `c`, if it is the next token.
pub open spec fn spec_sym1_at(s: Seq<char>, pos: int, c: char) -> Option<int> {
    let p = spec_skip(s, pos);
    if p < s.len() && s[p] == c {
        Some(p + 1)
    } else {
        None
    }
}

/// The two-character symbol `c1 c2`, if it is the next token.
pub open spec fn spec_sym2_at(s: Seq<char>, pos: int, c1: char, c2: char) -> Option<int> {
    let p = spec_skip(s, pos);
    if s.len() - p > 1 && s[p] == c1 && s[p + 1] == c2 {
        Some(p + 2)
    } else {
        None
    }
}

/// Matches the one-character symbol `c`.
pub fn sym1(s: &Vec<char>, pos: usize, c: char) -> (r: Option<usize>)
    requires
        pos <= s@.len(),
    ensures
        opt_int(r) == spec_sym1_at(s@, pos as int, c),
        r matches Some(e) ==> pos < e <= s@.len(),
{
    let p = skip_ws(s, pos);
    if p < s.len() && s[p] == c {
        Some(p + 1)
    } else {
        None
    }
}

/// Matches the two-character symbol `c1 c2`.
pub fn sym2(s: &Vec<char>, pos: usize, c1: char, c2: char) -> (r: Option<usize>)
    requires
        pos <= s@.len(),
    ensures
        opt_int(r) == spec_sym2_at(s@, pos as int, c1, c2),
        r matches Some(e) ==> pos < e <= s@.len(),
{
    let p = skip_ws(s, pos);
    if s.len() - p > 1 && s[p] == c1 && s[p + 1] == c2 {
        Some(p + 2)
    } else {
        None
    }
}

/// A decimal digit.
pub open spec fn is_digit(c: char) -> bool {
    '0' <= c && c <= '9'
}

/// A hexadecimal digit.
pub open spec fn is_hex_digit(c: char) -> bool {
    is_digit(c) || ('a' <= c && c <= 'f') || ('A' <= c && c <= 'F')
}

/// The value of a hexadecimal digit.
pub open spec fn spec_hex_digit_value(c: char) -> int {
    if is_digit(c) {
        c as int - '0' as int
    } else if 'a' <= c && c <= 'f' {
        c as int - 'a' as int + 10
    } else {
        c as int - 'A' as int + 10
    }
}

/// The end of the run of decimal digits that starts at `i`.
pub open spec fn spec_digits_end(s: Seq<char>, i: int) -> int
    decreases s.len() - i,
{
    if 0 <= i < s.len() && is_digit(s[i]) {
        spec_digits_end(s, i + 1)
    } else {
        i
    }
}

/// The value of the decimal digits `s[a..b]`.
pub open spec fn spec_digits_value(s: Seq<char>, a: int, b: int) -> int
    decreases b - a,
{
    if b <= a {
        0
    } else {
        spec_digits_value(s, a, b - 1) * 10 + (s[b - 1] as int - '0' as int)
    }
}

/// The end of the run of hexadecimal digits and `_` that starts at `i`.
pub open spec fn spec_hex_end(s: Seq<char>, i: int) -> int
    decreases s.len() - i,
{
    if 0 <= i < s.len() && (is_hex_digit(s[i]) || s[i] == '_') {
        spec_hex_end(s, i + 1)
    } else {
        i
    }
}

/// The value of the hexadecimal digits in `s[a..b]`; `_` is skipped.
pub open spec fn spec_hex_value(s: Seq<char>, a: int, b: int) -> int
    decreases b - a,
{
    if b <= a {
        0
    } else if s[b - 1] == '_' {
        spec_hex_value(s, a, b - 1)
    } else {
        spec_hex_value(s, a, b - 1) * 16 + spec_hex_digit_value(s[b - 1])
    }
}

/// Where the exponent (`e` or `E`, an optional sign, digits) that may
/// start at `i` ends; `i` when there is none.
pub open spec fn spec_exp_end(s: Seq<char>, i: int) -> int {
    if 0 <= i < s.len() && (s[i] == 'e' || s[i] == 'E') {
        let j = if i + 1 < s.len() && (s[i + 1] == '+' || s[i + 1] == '-') {
            i + 2
        } else {
            i + 1
        };
        let d = spec_digits_end(s, j);
        if d > j {
            d
        } else {
            i
        }
    } else {
        i
    }
}

/// The numeral that is the next token: whether it is a float, the value of
/// an integer, and where it ends. A hexadecimal integer is `0x` or `0X`
/// and hexadecimal digits, each of which may be followed by `_`. A decimal
/// numeral is a float when it has a fraction (`.`, not `..`) or an
/// exponent. An integer above `i64::MAX` is no numeral.
pub open spec fn spec_numeral_at(s: Seq<char>, pos: int) -> Option<(bool, int, int)> {
    let p = spec_skip(s, pos);
    if p + 2 < s.len() && s[p] == '0' && (s[p + 1] == 'x' || s[p + 1] == 'X') && is_hex_digit(
        s[p + 2],
    ) {
        let e = spec_hex_end(s, p + 2);
        let v = spec_hex_value(s, p + 2, e);
        if v <= i64::MAX {
            Some((false, v, e))
        } else {
            None
        }
    } else {
        let d = spec_digits_end(s, p);
        if d > p {
            if d < s.len() && s[d] == '.' && !(d + 1 < s.len() && s[d + 1] == '.') {
                Some((true, 0, spec_exp_end(s, spec_digits_end(s, d + 1))))
            } else if spec_exp_end(s, d) > d {
                Some((true, 0, spec_exp_end(s, d)))
            } else {
                let v = spec_digits_value(s, p, d);
                if v <= i64::MAX {
                    Some((false, v, d))
                } else {
                    None
                }
            }
        } else if p + 1 < s.len() && s[p] == '.' && is_digit(s[p + 1]) {
            Some((true, 0, spec_exp_end(s, spec_digits_end(s, p + 1))))
        } else {
            None
        }
    }
}

pub proof fn lemma_digits_end_range(s: Seq<char>, i: int)
    requires
        0 <= i <= s.len(),
    ensures
        i <= spec_digits_end(s, i) <= s.len(),
        forall|k: int| i <= k < spec_digits_end(s, i) ==> is_digit(#[trigger] s[k]),
    decreases s.len() - i,
{
    if i < s.len() && is_digit(s[i]) {
        lemma_digits_end_range(s, i + 1);
    }
}

pub proof fn lemma_hex_end_range(s: Seq<char>, i: int)
    requires
        0 <= i <= s.len(),
    ensures
        i <= spec_hex_end(s, i) <= s.len(),
        forall|k: int|
            i <= k < spec_hex_end(s, i) ==> is_hex_digit(#[trigger] s[k]) || s[k] == '_',
    decreases s.len() - i,
{
    if i < s.len() && (is_hex_digit(s[i]) || s[i] == '_') {
        lemma_hex_end_range(s, i + 1);
    }
}

pub(crate) proof fn lemma_digits_value_nonneg(s: Seq<char>, a: int, b: int)
    requires
        forall|k: int| a <= k < b ==> is_digit(#[trigger] s[k]),
    ensures
        spec_digits_value(s, a, b) >= 0,
    decreases b - a,
{
    if b > a {
        lemma_digits_value_nonneg(s, a, b - 1);
    }
}

proof fn lemma_hex_value_nonneg(s: Seq<char>, a: int, b: int)
    requires
        forall|k: int| a <= k < b ==> is_hex_digit(#[trigger] s[k]) || s[k] == '_',
    ensures
        spec_hex_value(s, a, b) >= 0,
    decreases b - a,
{
    if b > a {
        lemma_hex_value_nonneg(s, a, b - 1);
    }
}

fn char_is_digit(c: char) -> (r: bool)
    ensures
        r == is_digit(c),
{
    '0' <= c && c <= '9'
}

fn char_is_hex_digit(c: char) -> (r: bool)
    ensures
        r == is_hex_digit(c),
{
    ('0' <= c && c <= '9') || ('a' <= c && c <= 'f') || ('A' <= c && c <= 'F')
}

fn hex_digit_value(c: char) -> (v: i64)
    requires
        is_hex_digit(c),
    ensures
        v == spec_hex_digit_value(c),
        0 <= v < 16,
{
    if '0' <= c && c <= '9' {
        (c as u32 - '0' as u32) as i64
    } else if 'a' <= c && c <= 'f' {
        (c as u32 - 'a' as u32 + 10) as i64
    } else {
        (c as u32 - 'A' as u32 + 10) as i64
    }
}

/// The end of the digits from `i` on.
fn digits_end(s: &Vec<char>, i: usize) -> (e: usize)
    requires
        i <= s@.len(),
    ensures
        e == spec_digits_end(s@, i as int),
        i <= e <= s@.len(),
{
    proof {
        lemma_digits_end_range(s@, i as int);
    }
    let mut e = i;
    while e < s.len() && char_is_digit(s[e])
        invariant
            i <= e <= s@.len(),
            spec_digits_end(s@, e as int) == spec_digits_end(s@, i as int),
        decreases s@.len() - e,
    {
        e = e + 1;
    }
    e
}

/// Where an exponent that may start at `i` ends.
fn exp_end(s: &Vec<char>, i: usize) -> (e: usize)
    requires
        i <= s@.len(),
    ensures
        e == spec_exp_end(s@, i as int),
        i <= e <= s@.len(),
{
    if i < s.len() && (s[i] == 'e' || s[i] == 'E') {
        let j = if s.len() - i > 1 && (s[i + 1] == '+' || s[i + 1] == '-') {
            i + 2
        } else {
            i + 1
        };
        let d = digits_end(s, j);
        if d > j {
            d
        } else {
            i
        }
    } else {
        i
    }
}

/// The value of the decimal digits `s[a..b]`, if it fits in an `i64`.
pub(crate) fn digits_value(s: &Vec<char>, a: usize, b: usize) -> (r: Option<i64>)
    requires
        a <= b <= s@.len(),
        forall|k: int| a <= k < b ==> is_digit(#[trigger] s@[k]),
    ensures
        match r {
            Some(v) => v == spec_digits_value(s@, a as int, b as int),
            None => spec_digits_value(s@, a as int, b as int) > i64::MAX,
        },
{
    let mut v: i64 = 0;
    let mut i: usize = a;
    while i < b
        invariant
            a <= i <= b <= s@.len(),
            forall|k: int| a <= k < b ==> is_digit(#[trigger] s@[k]),
            v == spec_digits_value(s@, a as int, i as int),
            v >= 0,
        decreases b - i,
    {
        let d = (s[i] as u32 - '0' as u32) as i64;
        assert(is_digit(s@[i as int]));
        match v.checked_mul(10) {
            Some(m) => match m.checked_add(d) {
                Some(n) => {
                    v = n;
                },
                None => {
                    proof {
                        lemma_digits_value_big(s@, a as int, (i + 1) as int, b as int);
                    }
                    return None;
                },
            },
            None => {
                proof {
                    lemma_digits_value_big(s@, a as int, (i + 1) as int, b as int);
                }
                return None;
            },
        }
        i = i + 1;
    }
    Some(v)
}

proof fn lemma_digits_value_big(s: Seq<char>, a: int, i: int, b: int)
    requires
        a < i <= b,
        forall|k: int| a <= k < b ==> is_digit(#[trigger] s[k]),
        spec_digits_value(s, a, i - 1) * 10 + (s[i - 1] as int - '0' as int) > i64::MAX,
    ensures
        spec_digits_value(s, a, b) > i64::MAX,
    decreases b - i,
{
    if b > i {
        lemma_digits_value_big(s, a, i, b - 1);
        lemma_digits_value_nonneg(s, a, b - 1);
        assert(is_digit(s[b - 1]));
    }
}

proof fn lemma_hex_value_big(s: Seq<char>, a: int, i: int, b: int)
    requires
        a < i <= b,
        forall|k: int| a <= k < b ==> is_hex_digit(#[trigger] s[k]) || s[k] == '_',
        spec_hex_value(s, a, i) > i64::MAX,
    ensures
        spec_hex_value(s, a, b) > i64::MAX,
    decreases b - i,
{
    if b > i {
        lemma_hex_value_big(s, a, i, b - 1);
        lemma_hex_value_nonneg(s, a, b - 1);
        assert(is_hex_digit(s[b - 1]) || s[b - 1] == '_');
    }
}

/// The value of a hexadecimal integer whose digits and `_` run from `a`
/// to `b`, if it fits in an `i64`.
fn hexadecimal_value(s: &Vec<char>, a: usize, b: usize) -> (r: Option<i64>)
    requires
        a <= b <= s@.len(),
        forall|k: int| a <= k < b ==> is_hex_digit(#[trigger] s@[k]) || s@[k] == '_',
    ensures
        match r {
            Some(v) => v == spec_hex_value(s@, a as int, b as int),
            None => spec_hex_value(s@, a as int, b as int) > i64::MAX,
        },
{
    let mut v: i64 = 0;
    let mut i: usize = a;
    while i < b
        invariant
            a <= i <= b <= s@.len(),
            forall|k: int| a <= k < b ==> is_hex_digit(#[trigger] s@[k]) || s@[k] == '_',
            v == spec_hex_value(s@, a as int, i as int),
            v >= 0,
        decreases b - i,
    {
        assert(is_hex_digit(s@[i as int]) || s@[i as int] == '_');
        if s[i] != '_' {
            let d = hex_digit_value(s[i]);
            match v.checked_mul(16) {
                Some(m) => match m.checked_add(d) {
                    Some(n) => {
                        v = n;
                    },
                    None => {
                        proof {
                            lemma_hex_value_big(s@, a as int, (i + 1) as int, b as int);
                        }
                        return None;
                    },
                },
                None => {
                    proof {
                        lemma_hex_value_big(s@, a as int, (i + 1) as int, b as int);
                    }
                    return None;
                },
            }
        }
        i = i + 1;
    }
    Some(v)
}

/// The numeral that is the next token. A float keeps its text.
pub fn parse_numeral(s: &Vec<char>, pos: usize) -> (r: Option<(Numeral, usize)>)
    requires
        pos <= s@.len(),
    ensures
        match spec_numeral_at(s@, pos as int) {
            Some((true, _, e)) => r matches Some((Numeral::Float(t), e2)) && e2 == e && t@
                == s@.subrange(spec_skip(s@, pos as int), e),
            Some((false, v, e)) => r matches Some((Numeral::Integer(i), e2)) && e2 == e && i
                == v,
            None => r is None,
        },
        r matches Some((_, e)) ==> pos < e <= s@.len(),
{
    let p = skip_ws(s, pos);
    if s.len() - p > 2 && s[p] == '0' && (s[p + 1] == 'x' || s[p + 1] == 'X') && char_is_hex_digit(
        s[p + 2],
    ) {
        let mut e = p + 2;
        proof {
            lemma_hex_end_range(s@, (p + 2) as int);
        }
        while e < s.len() && (char_is_hex_digit(s[e]) || s[e] == '_')
            invariant
                p + 2 <= e <= s@.len(),
                spec_hex_end(s@, e as int) == spec_hex_end(s@, (p + 2) as int),
            decreases s@.len() - e,
        {
            e = e + 1;
        }
        return match hexadecimal_value(s, p + 2, e) {
            Some(v) => Some((Numeral::Integer(v), e)),
            None => None,
        };
    }
    let d = digits_end(s, p);
    proof {
        lemma_digits_end_range(s@, p as int);
    }
    if d > p {
        if d < s.len() && s[d] == '.' && !(s.len() - d > 1 && s[d + 1] == '.') {
            let f = digits_end(s, d + 1);
            let e = exp_end(s, f);
            let t = vstd::slice::slice_subrange(s.as_slice(), p, e);
            Some((Numeral::Float(chars_to_string(t)), e))
        } else {
            let e = exp_end(s, d);
            if e > d {
                let t = vstd::slice::slice_subrange(s.as_slice(), p, e);
                Some((Numeral::Float(chars_to_string(t)), e))
            } else {
                match digits_value(s, p, d) {
                    Some(v) => Some((Numeral::Integer(v), d)),
                    None => None,
                }
            }
        }
    } else if s.len() - p > 1 && s[p] == '.' && char_is_digit(s[p + 1]) {
        let f = digits_end(s, p + 1);
        let e = exp_end(s, f);
        let t = vstd::slice::slice_subrange(s.as_slice(), p, e);
        Some((Numeral::Float(chars_to_string(t)), e))
    } else {
        None
    }
}

/// The end of the run of white space that starts at `i`.
pub open spec fn spec_ws_end(s: Seq<char>, i: int) -> int
    decreases s.len() - i,
{
    if 0 <= i < s.len() && is_ws_char(s[i]) {
        spec_ws_end(s, i + 1)
    } else {
        i
    }
}

/// The end of the run of hexadecimal digits (no `_`) that starts at `i`.
pub open spec fn spec_hex_digits_end(s: Seq<char>, i: int) -> int
    decreases s.len() - i,
{
    if 0 <= i < s.len() && is_hex_digit(s[i]) {
        spec_hex_digits_end(s, i + 1)
    } else {
        i
    }
}

/// Whether `v` is the code of a character.
pub open spec fn is_scalar_value(v: int) -> bool {
    (0 <= v <= 0xD7FF) || (0xE000 <= v <= 0x10FFFF)
}

/// The character of a `\u{XXXX}` escape whose `{` is at `i`: one to six
/// hexadecimal digits and `}`, naming a character; and the index after `}`.
pub open spec fn spec_unicode_at(s: Seq<char>, i: int) -> Option<(char, int)> {
    if 0 <= i < s.len() && s[i] == '{' {
        let d = spec_hex_digits_end(s, i + 1);
        let v = spec_hex_value(s, i + 1, d);
        if i + 1 < d <= i + 7 && d < s.len() && s[d] == '}' && is_scalar_value(v) {
            Some((v as char, d + 1))
        } else {
            None
        }
    } else {
        None
    }
}

/// The character that a simple escape `\c` stands for.
pub open spec fn spec_escape_char(c: char) -> Option<char> {
    if c == 'n' {
        Some('\n')
    } else if c == 'r' {
        Some('\r')
    } else if c == 't' {
        Some('\t')
    } else if c == 'b' {
        Some('\x08')
    } else if c == 'f' {
        Some('\x0c')
    } else if c == '\\' {
        Some('\\')
    } else if c == '/' {
        Some('/')
    } else if c == '"' {
        Some('"')
    } else {
        None
    }
}

/// Puts one character in front of the rest of a string literal.
pub open spec fn spec_cons(c: char, rest: Option<(Seq<char>, int)>) -> Option<(Seq<char>, int)> {
    match rest {
        Some((t, e)) => Some((seq![c] + t, e)),
        None => None,
    }
}

/// The rest of a string literal from `i` (after its opening quote): its
/// text up to the closing `"` and the index after that quote. Escapes are
/// `\n \r \t \b \f \\ \/ \"`, `\u{XXXX}`, and `\` followed by white
/// space, which stands for nothing (the white space is skipped too). Any
/// other escape, or a missing closing quote, is an error.
pub open spec fn spec_string_from(s: Seq<char>, i: int) -> Option<(Seq<char>, int)>
    decreases s.len() - i,
{
    if i < 0 || i >= s.len() {
        None
    } else if s[i] == '"' {
        Some((Seq::empty(), i + 1))
    } else if s[i] == '\\' {
        if i + 1 >= s.len() {
            None
        } else {
            let c = s[i + 1];
            match spec_escape_char(c) {
                Some(x) => spec_cons(x, spec_string_from(s, i + 2)),
                None => if c == 'u' {
                    match spec_unicode_at(s, i + 2) {
                        Some((x, j)) => if j > i {
                            spec_cons(x, spec_string_from(s, j))
                        } else {
                            None
                        },
                        None => None,
                    }
                } else if is_ws_char(c) {
                    let j = spec_ws_end(s, i + 1);
                    if i < j <= s.len() {
                        spec_string_from(s, j)
                    } else {
                        None
                    }
                } else {
                    None
                },
            }
        }
    } else {
        spec_cons(s[i], spec_string_from(s, i + 1))
    }
}

/// The string literal that is the next token: its text and where it ends.
pub open spec fn spec_string_at(s: Seq<char>, pos: int) -> Option<(Seq<char>, int)> {
    let p = spec_skip(s, pos);
    if p < s.len() && s[p] == '"' {
        spec_string_from(s, p + 1)
    } else {
        None
    }
}

/// Calls `char::from_u32`. Trusted: its contract claims, as std documents,
/// that the result is the character with code `x` when `x` is a Unicode
/// scalar value (not a surrogate, at most `0x10FFFF`), and `None` otherwise.
#[verifier::external_body]
fn char_from_u32(x: u32) -> (r: Option<char>)
    ensures
        r == (if is_scalar_value(x as int) {
            Some(x as char)
        } else {
            None
        }),
{
    char::from_u32(x)
}

pub proof fn lemma_ws_end_range(s: Seq<char>, i: int)
    requires
        0 <= i <= s.len(),
    ensures
        i <= spec_ws_end(s, i) <= s.len(),
    decreases s.len() - i,
{
    if i < s.len() && is_ws_char(s[i]) {
        lemma_ws_end_range(s, i + 1);
    }
}

pub proof fn lemma_hex_digits_end_range(s: Seq<char>, i: int)
    requires
        0 <= i <= s.len(),
    ensures
        i <= spec_hex_digits_end(s, i) <= s.len(),
        forall|k: int| i <= k < spec_hex_digits_end(s, i) ==> is_hex_digit(#[trigger] s[k]),
    decreases s.len() - i,
{
    if i < s.len() && is_hex_digit(s[i]) {
        lemma_hex_digits_end_range(s, i + 1);
    }
}

proof fn lemma_hex_value_bound(s: Seq<char>, a: int, b: int)
    requires
        a <= b,
        forall|k: int| a <= k < b ==> is_hex_digit(#[trigger] s[k]),
    ensures
        0 <= spec_hex_value(s, a, b),
        b - a <= 6 ==> spec_hex_value(s, a, b) < 0x1000000,
        b - a <= 5 ==> spec_hex_value(s, a, b) < 0x100000,
        b - a <= 4 ==> spec_hex_value(s, a, b) < 0x10000,
        b - a <= 3 ==> spec_hex_value(s, a, b) < 0x1000,
        b - a <= 2 ==> spec_hex_value(s, a, b) < 0x100,
        b - a <= 1 ==> spec_hex_value(s, a, b) < 0x10,
    decreases b - a,
{
    if b > a {
        lemma_hex_value_bound(s, a, b - 1);
        assert(is_hex_digit(s[b - 1]));
    }
}

/// A `\u{XXXX}` escape whose `{` is at `i`.
fn unicode_escape(s: &Vec<char>, i: usize) -> (r: Option<(char, usize)>)
    requires
        i <= s@.len(),
    ensures
        match spec_unicode_at(s@, i as int) {
            Some((c, e)) => r matches Some((c2, e2)) && c2 == c && e2 == e,
            None => r is None,
        },
        r matches Some((_, e)) ==> i < e <= s@.len(),
{
    if i >= s.len() || s[i] != '{' {
        return None;
    }
    let mut d = i + 1;
    proof {
        lemma_hex_digits_end_range(s@, i + 1);
    }
    while d < s.len() && char_is_hex_digit(s[d])
        invariant
            i + 1 <= d <= s@.len(),
            spec_hex_digits_end(s@, d as int) == spec_hex_digits_end(s@, i + 1),
        decreases s@.len() - d,
    {
        d = d + 1;
    }
    if d <= i + 1 || d - i > 7 || d >= s.len() || s[d] != '}' {
        return None;
    }
    let mut v: u32 = 0;
    let mut k = i + 1;
    proof {
        lemma_hex_value_bound(s@, i + 1, d as int);
    }
    while k < d
        invariant
            i + 1 <= k <= d,
            d - (i + 1) <= 6,
            d < s@.len(),
            d == spec_hex_digits_end(s@, i + 1),
            forall|m: int| i + 1 <= m < d ==> is_hex_digit(#[trigger] s@[m]),
            v == spec_hex_value(s@, i + 1, k as int),
        decreases d - k,
    {
        proof {
            lemma_hex_value_bound(s@, i + 1, k + 1);
            assert(is_hex_digit(s@[k as int]));
        }
        let x = hex_digit_value(s[k]);
        v = v * 16 + (x as u32);
        k = k + 1;
    }
    match char_from_u32(v) {
        Some(c) => Some((c, d + 1)),
        None => None,
    }
}

/// The string literal that is the next token, and where it ends.
pub fn parse_string(s: &Vec<char>, pos: usize) -> (r: Option<(String, usize)>)
    requires
        pos <= s@.len(),
    ensures
        match spec_string_at(s@, pos as int) {
            Some((t, e)) => r matches Some((st, e2)) && st@ == t && e2 == e,
            None => r is None,
        },
        r matches Some((_, e)) ==> pos < e <= s@.len(),
{
    let p = skip_ws(s, pos);
    if p >= s.len() || s[p] != '"' {
        return None;
    }
    let mut out: Vec<char> = Vec::new();
    let mut i = p + 1;
    proof {
        lemma_string_from_range(s@, i as int);
        assert(out@ =~= Seq::<char>::empty());
        match spec_string_from(s@, i as int) {
            Some((t, e)) => {
                assert(out@ + t =~= t);
            },
            None => {},
        }
    }
    loop
        invariant
            pos <= p,
            p + 1 <= i <= s@.len(),
            p < s@.len(),
            spec_string_at(s@, pos as int) == spec_string_from(s@, p + 1),
            match spec_string_from(s@, i as int) {
                Some((t, e)) => spec_string_from(s@, p + 1) == Some((out@ + t, e)) && e > i,
                None => spec_string_from(s@, p + 1) is None,
            },
        decreases s@.len() - i,
    {
        if i >= s.len() {
            return None;
        }
        let c = s[i];
        if c == '"' {
            assert(out@ + Seq::<char>::empty() =~= out@);
            return Some((chars_to_string(out.as_slice()), i + 1));
        } else if c == '\\' {
            if i + 1 >= s.len() {
                return None;
            }
            let c2 = s[i + 1];
            let esc = if c2 == 'n' {
                Some('\n')
            } else if c2 == 'r' {
                Some('\r')
            } else if c2 == 't' {
                Some('\t')
            } else if c2 == 'b' {
                Some('\x08')
            } else if c2 == 'f' {
                Some('\x0c')
            } else if c2 == '\\' {
                Some('\\')
            } else if c2 == '/' {
                Some('/')
            } else if c2 == '"' {
                Some('"')
            } else {
                None
            };
            assert(esc == spec_escape_char(c2));
            match esc {
                Some(x) => {
                    proof {
                        lemma_cons_shift(out@, x, spec_string_from(s@, i + 2));
                        lemma_string_from_range(s@, i + 2);
                    }
                    out.push(x);
                    i = i + 2;
                },
                None => {
                    if c2 == 'u' {
                        match unicode_escape(s, i + 2) {
                            Some((x, j)) => {
                                proof {
                                    lemma_cons_shift(out@, x, spec_string_from(s@, j as int));
                                    lemma_string_from_range(s@, j as int);
                                }
                                out.push(x);
                                i = j;
                            },
                            None => {
                                return None;
                            },
                        }
                    } else if c2 == ' ' || c2 == '\t' || c2 == '\n' || c2 == '\r' {
                        let mut j = i + 1;
                        proof {
                            lemma_ws_end_range(s@, i + 1);
                        }
                        while j < s.len() && (s[j] == ' ' || s[j] == '\t' || s[j] == '\n' || s[j]
                            == '\r')
                            invariant
                                i + 1 <= j <= s@.len(),
                                spec_ws_end(s@, j as int) == spec_ws_end(s@, i + 1),
                            decreases s@.len() - j,
                        {
                            j = j + 1;
                        }
                        proof {
                            lemma_string_from_range(s@, j as int);
                        }
                        i = j;
                    } else {
                        return None;
                    }
                },
            }
        } else {
            proof {
                lemma_cons_shift(out@, c, spec_string_from(s@, i + 1));
                lemma_string_from_range(s@, i + 1);
            }
            out.push(c);
            i = i + 1;
        }
    }
}

proof fn lemma_string_from_range(s: Seq<char>, i: int)
    ensures
        spec_string_from(s, i) matches Some((_, e)) ==> i < e <= s.len(),
    decreases s.len() - i,
{
    if 0 <= i < s.len() && s[i] != '"' {
        if s[i] == '\\' {
            if i + 1 < s.len() {
                let c = s[i + 1];
                match spec_escape_char(c) {
                    Some(x) => {
                        lemma_string_from_range(s, i + 2);
                    },
                    None => if c == 'u' {
                        match spec_unicode_at(s, i + 2) {
                            Some((x, j)) => if j > i {
                                lemma_string_from_range(s, j);
                            },
                            None => {},
                        }
                    } else if is_ws_char(c) {
                        let j = spec_ws_end(s, i + 1);
                        if i < j <= s.len() {
                            lemma_string_from_range(s, j);
                        }
                    },
                }
            }
        } else {
            lemma_string_from_range(s, i + 1);
        }
    }
}

proof fn lemma_cons_shift(out: Seq<char>, c: char, rest: Option<(Seq<char>, int)>)
    ensures
        match spec_cons(c, rest) {
            Some((t, e)) => rest matches Some((t2, e2)) && out + t == out.push(c) + t2 && e == e2,
            None => rest is None,
        },
{
    match rest {
        Some((t2, e2)) => {
            assert(out + (seq![c] + t2) =~= out.push(c) + t2);
        },
        None => {},
    }
}


/// The first character of the next token, if any.
pub open spec fn spec_next_char(s: Seq<char>, pos: int) -> Option<char> {
    let p = spec_skip(s, pos);
    if 0 <= p < s.len() {
        Some(s[p])
    } else {
        None
    }
}

/// The next token starts with the first character of each kind of token
/// found there: a name or keyword with its first letter, a numeral with a
/// digit or `.`, a string with `"`, a symbol with itself.
pub proof fn lemma_next_char(s: Seq<char>, pos: int, w: Seq<char>, c: char, d: char)
    requires
        0 <= pos <= s.len(),
    ensures
        spec_name_at(s, pos) is Some ==> (spec_next_char(s, pos) matches Some(x) && is_name_start(x)),
        spec_keyword_at(s, pos, w) is Some && w.len() > 0 ==> (spec_next_char(s, pos) matches Some(x)
            && x == w[0] && is_name_char(x)),
        spec_numeral_at(s, pos) is Some ==> (spec_next_char(s, pos) matches Some(x) && (is_digit(x)
            || x == '.')),
        spec_string_at(s, pos) is Some ==> spec_next_char(s, pos) == Some('"'),
        (spec_sym1_at(s, pos, c) is Some) == (spec_next_char(s, pos) == Some(c)),
        spec_sym2_at(s, pos, c, d) is Some ==> spec_next_char(s, pos) == Some(c),
        spec_next_char(s, pos) matches Some(x) && !is_name_char(x) ==> spec_word(s, pos).0 == spec_word(s, pos).1,
{
    lemma_word_range(s, pos);
    let p = spec_skip(s, pos);
    if spec_keyword_at(s, pos, w) is Some && w.len() > 0 {
        let e = spec_word(s, pos).1;
        assert(s.subrange(p, e)[0] == s[p]);
    }
    if spec_numeral_at(s, pos) is Some {
        if spec_digits_end(s, p) > p {
            assert(is_digit(s[p]));
        }
    }
}

/// Skipping white space and comments twice skips no more than once.
pub proof fn lemma_skip_idem(s: Seq<char>, i: int, mode: int)
    requires
        0 <= i <= s.len(),
    ensures
        spec_skip_from(s, spec_skip_from(s, i, mode), 0) == spec_skip_from(s, i, mode),
    decreases s.len() - i,
{
    if i < s.len() {
        if mode == 1 {
            if s[i] == '\n' {
                lemma_skip_idem(s, i + 1, 0);
            } else {
                lemma_skip_idem(s, i + 1, 1);
            }
        } else if mode == 2 {
            if i + 1 < s.len() && s[i] == ']' && s[i + 1] == ']' {
                lemma_skip_idem(s, i + 2, 0);
            } else {
                lemma_skip_idem(s, i + 1, 2);
            }
        } else if is_ws_char(s[i]) {
            lemma_skip_idem(s, i + 1, 0);
        } else if i + 1 < s.len() && s[i] == '-' && s[i + 1] == '-' {
            if i + 3 < s.len() && s[i + 2] == '[' && s[i + 3] == '[' {
                lemma_skip_idem(s, i + 4, 2);
            } else {
                lemma_skip_idem(s, i + 2, 1);
            }
        }
    }
}
} // verus!
