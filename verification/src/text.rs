//! Helpers between Rust strings and character sequences, and the decimal
//! text of integers.
use vstd::prelude::*;

verus! {

/// The characters of a string, in order.
pub fn str_to_chars(s: &str) -> (v: Vec<char>)
    ensures
        v@ == s@,
{
    let mut v: Vec<char> = Vec::new();
    for c in it: s.chars()
        invariant
            v@ == it.seq().take(it.index() as int),
    {
        v.push(c);
    }
    v
}

/// Calls `String::from_iter` on the characters. Trusted: its contract claims
/// that the string's characters are exactly `v`, in order.
#[verifier::external_body]
pub(crate) fn chars_to_string(v: &[char]) -> (s: String)
    ensures
        s@ == v@,
{
    String::from_iter(v.iter())
}

/// The character of a decimal digit.
pub open spec fn spec_digit_char(d: int) -> char {
    if d == 0 { '0' }
    else if d == 1 { '1' }
    else if d == 2 { '2' }
    else if d == 3 { '3' }
    else if d == 4 { '4' }
    else if d == 5 { '5' }
    else if d == 6 { '6' }
    else if d == 7 { '7' }
    else if d == 8 { '8' }
    else { '9' }
}

/// The decimal digits of a natural number, most significant first, without
/// leading zeros (zero is the single digit `0`).
pub open spec fn spec_nat_digits(n: nat) -> Seq<char>
    decreases n,
{
    if n < 10 {
        seq![spec_digit_char(n as int)]
    } else {
        spec_nat_digits(n / 10) + seq![spec_digit_char((n % 10) as int)]
    }
}

/// The decimal text of an integer, with a leading `-` when it is negative.
pub open spec fn spec_int_text(i: int) -> Seq<char> {
    if i < 0 {
        seq!['-'] + spec_nat_digits((-i) as nat)
    } else {
        spec_nat_digits(i as nat)
    }
}

fn digit_char(d: u64) -> (c: char)
    requires
        d < 10,
    ensures
        c == spec_digit_char(d as int),
{
    if d == 0 { '0' }
    else if d == 1 { '1' }
    else if d == 2 { '2' }
    else if d == 3 { '3' }
    else if d == 4 { '4' }
    else if d == 5 { '5' }
    else if d == 6 { '6' }
    else if d == 7 { '7' }
    else if d == 8 { '8' }
    else { '9' }
}

/// Appends the decimal digits of `n` to `out`.
pub fn push_nat_digits(n: u64, out: &mut Vec<char>)
    ensures
        final(out)@ == old(out)@ + spec_nat_digits(n as nat),
    decreases n,
{
    if n >= 10 {
        push_nat_digits(n / 10, out);
    }
    let c = digit_char(n % 10);
    out.push(c);
    proof {
        if n >= 10 {
            assert(old(out)@ + spec_nat_digits(n as nat) =~= old(out)@ + spec_nat_digits((n / 10) as nat) + seq![c]);
        }
    }
}

/// The character of a hexadecimal digit (lower case).
pub open spec fn spec_hex_char(d: int) -> char {
    if d < 10 {
        spec_digit_char(d)
    } else if d == 10 {
        'a'
    } else if d == 11 {
        'b'
    } else if d == 12 {
        'c'
    } else if d == 13 {
        'd'
    } else if d == 14 {
        'e'
    } else {
        'f'
    }
}

/// The hexadecimal digits of a natural number, most significant first,
/// without leading zeros (zero is the single digit `0`).
pub open spec fn spec_hex_digits(n: nat) -> Seq<char>
    decreases n,
{
    if n < 16 {
        seq![spec_hex_char(n as int)]
    } else {
        spec_hex_digits(n / 16) + seq![spec_hex_char((n % 16) as int)]
    }
}

fn hex_char(d: u128) -> (c: char)
    requires
        d < 16,
    ensures
        c == spec_hex_char(d as int),
{
    if d < 10 {
        digit_char(d as u64)
    } else if d == 10 {
        'a'
    } else if d == 11 {
        'b'
    } else if d == 12 {
        'c'
    } else if d == 13 {
        'd'
    } else if d == 14 {
        'e'
    } else {
        'f'
    }
}

/// Appends the hexadecimal digits of `n` to `out`.
pub fn push_hex_digits(n: u128, out: &mut Vec<char>)
    ensures
        final(out)@ == old(out)@ + spec_hex_digits(n as nat),
    decreases n,
{
    if n >= 16 {
        push_hex_digits(n / 16, out);
    }
    let c = hex_char(n % 16);
    out.push(c);
    proof {
        if n >= 16 {
            assert(old(out)@ + spec_hex_digits(n as nat) =~= old(out)@ + spec_hex_digits((n / 16) as nat) + seq![c]);
        }
    }
}

/// The decimal text of an integer.
pub fn int_to_chars(i: i64) -> (v: Vec<char>)
    ensures
        v@ == spec_int_text(i as int),
{
    let mut v: Vec<char> = Vec::new();
    if i < 0 {
        v.push('-');
        let m: u64 = if i == i64::MIN { 9223372036854775808u64 } else { (0 - i) as u64 };
        push_nat_digits(m, &mut v);
        assert(v@ =~= seq!['-'] + spec_nat_digits((-(i as int)) as nat));
    } else {
        push_nat_digits(i as u64, &mut v);
        assert(v@ =~= spec_nat_digits(i as nat));
    }
    v
}

/// The decimal text of an integer, as a string.
pub fn int_to_string(i: i64) -> (s: String)
    ensures
        s@ == spec_int_text(i as int),
{
    let v = int_to_chars(i);
    chars_to_string(v.as_slice())
}

/// Appends the characters of `t` to `s`.
pub fn append_string(s: &mut String, t: &String)
    ensures
        final(s)@ == old(s)@ + t@,
{
    s.append(t.as_str());
}

} // verus!

verus! {

/// Appends the characters of `s` to `out`.
pub fn push_str(out: &mut Vec<char>, s: &str)
    ensures
        final(out)@ == old(out)@ + s@,
{
    for c in it: s.chars()
        invariant
            out@ == old(out)@ + it.seq().take(it.index() as int),
    {
        out.push(c);
    }
    assert(out@ =~= old(out)@ + s@);
}

/// Appends the characters of `s` to `out`.
pub fn push_chars(out: &mut Vec<char>, s: &Vec<char>)
    ensures
        final(out)@ == old(out)@ + s@,
{
    let mut i: usize = 0;
    while i < s.len()
        invariant
            i <= s@.len(),
            out@ == old(out)@ + s@.take(i as int),
        decreases s@.len() - i,
    {
        out.push(s[i]);
        i = i + 1;
        assert(s@.take(i as int) =~= s@.take(i - 1).push(s@[i - 1]));
    }
    assert(s@.take(s@.len() as int) =~= s@);
}

} // verus!

verus! {

/// The characters `trim` removes: ASCII white space.
pub open spec fn is_space(c: char) -> bool {
    c == ' ' || c == '\t' || c == '\n' || c == '\r' || c == '\x0b' || c == '\x0c'
}

/// The index of the first character that is not white space, from `i` on.
pub open spec fn spec_trim_start(s: Seq<char>, i: int) -> int
    decreases s.len() - i,
{
    if i >= s.len() || !is_space(s[i]) {
        i
    } else {
        spec_trim_start(s, i + 1)
    }
}

/// The index after the last character that is not white space, up to `j`.
pub open spec fn spec_trim_end(s: Seq<char>, j: int, lo: int) -> int
    decreases j - lo,
{
    if j <= lo || !is_space(s[j - 1]) {
        j
    } else {
        spec_trim_end(s, j - 1, lo)
    }
}

/// The text without leading and trailing white space.
pub open spec fn spec_trim(s: Seq<char>) -> Seq<char> {
    let a = spec_trim_start(s, 0);
    s.subrange(a, spec_trim_end(s, s.len() as int, a))
}

proof fn lemma_trim_start_range(s: Seq<char>, i: int)
    requires
        0 <= i <= s.len(),
    ensures
        i <= spec_trim_start(s, i) <= s.len(),
    decreases s.len() - i,
{
    if i < s.len() && is_space(s[i]) {
        lemma_trim_start_range(s, i + 1);
    }
}

proof fn lemma_trim_end_range(s: Seq<char>, j: int, lo: int)
    requires
        lo <= j,
    ensures
        lo <= spec_trim_end(s, j, lo) <= j,
    decreases j - lo,
{
    if j > lo && is_space(s[j - 1]) {
        lemma_trim_end_range(s, j - 1, lo);
    }
}

fn char_is_space(c: char) -> (r: bool)
    ensures
        r == is_space(c),
{
    c == ' ' || c == '\t' || c == '\n' || c == '\r' || c == '\x0b' || c == '\x0c'
}

/// `s.trim()` for ASCII white space.
pub fn trim(s: &str) -> (t: String)
    ensures
        t@ == spec_trim(s@),
{
    let v = str_to_chars(s);
    let mut a: usize = 0;
    while a < v.len() && char_is_space(v[a])
        invariant
            v@ == s@,
            a <= v@.len(),
            spec_trim_start(s@, 0) == spec_trim_start(s@, a as int),
        decreases v@.len() - a,
    {
        a = a + 1;
    }
    let mut b: usize = v.len();
    proof {
        lemma_trim_start_range(s@, 0);
    }
    while b > a && char_is_space(v[b - 1])
        invariant
            v@ == s@,
            a <= b <= v@.len(),
            spec_trim_start(s@, 0) == a,
            spec_trim_end(s@, s@.len() as int, a as int) == spec_trim_end(s@, b as int, a as int),
        decreases b - a,
    {
        b = b - 1;
    }
    let out = vstd::slice::slice_subrange(v.as_slice(), a, b);
    assert(out@ =~= spec_trim(s@));
    chars_to_string(out)
}

} // verus!
