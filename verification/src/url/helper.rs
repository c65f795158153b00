//! Code-point classes and the small predicates that the parser's states use.

use vstd::prelude::*;
use vstd::string::*;

verus! {

/// A C0 control (U+0000 to U+001F) or a space.
pub open spec fn c0_control_or_space(c: char) -> bool {
    c as u32 <= 0x20
}

/// Tab, line feed or carriage return.
pub open spec fn tab_or_newline(c: char) -> bool {
    c == '\t' || c == '\n' || c == '\r'
}

/// `A..=Z` or `a..=z`.
pub open spec fn ascii_alpha(c: char) -> bool {
    ('a' <= c && c <= 'z') || ('A' <= c && c <= 'Z')
}

/// `0..=9`.
pub open spec fn ascii_digit(c: char) -> bool {
    '0' <= c && c <= '9'
}

/// An ASCII letter or digit.
pub open spec fn ascii_alphanumeric(c: char) -> bool {
    ascii_alpha(c) || ascii_digit(c)
}

/// The lower-case form of an ASCII upper-case letter; any other code point itself.
pub open spec fn ascii_lower(c: char) -> char {
    if 'A' <= c && c <= 'Z' {
        ((c as u8) + 32) as char
    } else {
        c
    }
}

/// Two code points: an ASCII letter, then `:` or `|`.
pub open spec fn windows_drive_letter(s: Seq<char>) -> bool {
    &&& s.len() == 2
    &&& ascii_alpha(s[0])
    &&& (s[1] == ':' || s[1] == '|')
}

/// Two code points: an ASCII letter, then `:`.
pub open spec fn normalized_windows_drive_letter(s: Seq<char>) -> bool {
    &&& s.len() == 2
    &&& ascii_alpha(s[0])
    &&& s[1] == ':'
}

/// `s` begins with a drive letter that ends the string or is followed by
/// `/`, `\`, `?` or `#`.
pub open spec fn starts_with_windows_drive_letter(s: Seq<char>) -> bool {
    &&& s.len() >= 2
    &&& ascii_alpha(s[0])
    &&& (s[1] == ':' || s[1] == '|')
    &&& (s.len() == 2 || s[2] == '/' || s[2] == '\\' || s[2] == '?' || s[2] == '#')
}

/// `%2e` in either case.
pub open spec fn encoded_dot(a: char, b: char, c: char) -> bool {
    a == '%' && b == '2' && (c == 'e' || c == 'E')
}

/// `.` or `%2e` (in either case).
pub open spec fn single_dot_segment(s: Seq<char>) -> bool {
    ||| s.len() == 1 && s[0] == '.'
    ||| s.len() == 3 && encoded_dot(s[0], s[1], s[2])
}

/// `..`, or the same with either dot written `%2e` (in either case).
pub open spec fn double_dot_segment(s: Seq<char>) -> bool {
    ||| s.len() == 2 && s[0] == '.' && s[1] == '.'
    ||| s.len() == 4 && s[0] == '.' && encoded_dot(s[1], s[2], s[3])
    ||| s.len() == 4 && encoded_dot(s[0], s[1], s[2]) && s[3] == '.'
    ||| s.len() == 6 && encoded_dot(s[0], s[1], s[2]) && encoded_dot(s[3], s[4], s[5])
}

/// `s` without its leading C0 controls and spaces.
pub open spec fn trim_start(s: Seq<char>) -> Seq<char>
    decreases s.len(),
{
    if s.len() > 0 && c0_control_or_space(s[0]) {
        trim_start(s.drop_first())
    } else {
        s
    }
}

/// `s` without its trailing C0 controls and spaces.
pub open spec fn trim_end(s: Seq<char>) -> Seq<char>
    decreases s.len(),
{
    if s.len() > 0 && c0_control_or_space(s.last()) {
        trim_end(s.drop_last())
    } else {
        s
    }
}

/// `s` without any tab, line feed or carriage return.
pub open spec fn without_tab_or_newline(s: Seq<char>) -> Seq<char> {
    s.filter(|c: char| !tab_or_newline(c))
}

/// The value of a string of decimal digits.
pub open spec fn decimal_value(s: Seq<char>) -> nat
    decreases s.len(),
{
    if s.len() == 0 {
        0
    } else {
        (decimal_value(s.drop_last()) * 10 + (s.last() as u32 - '0' as u32)) as nat
    }
}

/// Whether `c` is a C0 control or a space.
pub fn is_c0_control_or_space(c: char) -> (r: bool)
    ensures
        r == c0_control_or_space(c),
{
    c as u32 <= 0x20
}

/// Whether `c` is an ASCII letter.
pub fn is_ascii_alpha(c: char) -> (r: bool)
    ensures
        r == ascii_alpha(c),
{
    ('a' <= c && c <= 'z') || ('A' <= c && c <= 'Z')
}

/// Whether `c` is an ASCII digit.
pub fn is_ascii_digit(c: char) -> (r: bool)
    ensures
        r == ascii_digit(c),
{
    '0' <= c && c <= '9'
}

/// Whether `c` is an ASCII letter or digit.
pub fn is_ascii_alphanumeric(c: char) -> (r: bool)
    ensures
        r == ascii_alphanumeric(c),
{
    is_ascii_alpha(c) || is_ascii_digit(c)
}

/// `c` in lower case, where it is an ASCII upper-case letter.
pub fn to_ascii_lower(c: char) -> (r: char)
    ensures
        r == ascii_lower(c),
{
    if 'A' <= c && c <= 'Z' {
        let v: u8 = c as u8;
        (v + 32u8) as char
    } else {
        c
    }
}

/// Whether `s` is an ASCII letter followed by `:` or `|`.
pub fn is_window_drive_letter(s: &Vec<char>) -> (r: bool)
    ensures
        r == windows_drive_letter(s@),
{
    s.len() == 2 && is_ascii_alpha(s[0]) && (s[1] == ':' || s[1] == '|')
}

/// Whether `s` is an ASCII letter followed by `:`.
pub fn is_normalized_window_drive_letter(s: &str) -> (r: bool)
    ensures
        r == normalized_windows_drive_letter(s@),
{
    if s.unicode_len() != 2 {
        return false;
    }
    is_ascii_alpha(s.get_char(0)) && s.get_char(1) == ':'
}

/// Whether the code points of `input` from `from` on begin with a drive letter.
pub fn is_start_with_windows_drive_letter(input: &Vec<char>, from: usize) -> (r: bool)
    requires
        from <= input.len(),
    ensures
        r == starts_with_windows_drive_letter(input@.subrange(from as int, input.len() as int)),
{
    let n: usize = input.len() - from;
    if n < 2 {
        return false;
    }
    let ghost rest = input@.subrange(from as int, input.len() as int);
    assert(rest[0] == input@[from as int]);
    assert(rest[1] == input@[from + 1]);
    if !(is_ascii_alpha(input[from]) && (input[from + 1] == ':' || input[from + 1] == '|')) {
        return false;
    }
    if n == 2 {
        return true;
    }
    assert(rest[2] == input@[from + 2]);
    let c = input[from + 2];
    c == '/' || c == '\\' || c == '?' || c == '#'
}

fn is_encoded_dot(a: char, b: char, c: char) -> (r: bool)
    ensures
        r == encoded_dot(a, b, c),
{
    a == '%' && b == '2' && (c == 'e' || c == 'E')
}

/// Whether `s` is `.` or `%2e`.
pub fn is_single_dot_path_segment(s: &Vec<char>) -> (r: bool)
    ensures
        r == single_dot_segment(s@),
{
    (s.len() == 1 && s[0] == '.') || (s.len() == 3 && is_encoded_dot(s[0], s[1], s[2]))
}

/// Whether `s` is `..`, with either dot possibly written `%2e`.
pub fn is_double_dot_path_segment(s: &Vec<char>) -> (r: bool)
    ensures
        r == double_dot_segment(s@),
{
    (s.len() == 2 && s[0] == '.' && s[1] == '.') || (s.len() == 4 && s[0] == '.' && is_encoded_dot(
        s[1],
        s[2],
        s[3],
    )) || (s.len() == 4 && is_encoded_dot(s[0], s[1], s[2]) && s[3] == '.') || (s.len() == 6
        && is_encoded_dot(s[0], s[1], s[2]) && is_encoded_dot(s[3], s[4], s[5]))
}

/// The bounds of `s` without its leading and trailing C0 controls and spaces.
pub fn trimmed_bounds(s: &Vec<char>) -> (r: (usize, usize))
    ensures
        r.0 <= r.1 <= s.len(),
        s@.subrange(r.0 as int, r.1 as int) == trim_end(trim_start(s@)),
{
    let n: usize = s.len();
    let mut i: usize = 0;
    assert(s@.subrange(0, n as int) =~= s@);
    while i < n && is_c0_control_or_space(s[i])
        invariant
            n == s.len(),
            i <= n,
            trim_start(s@) == trim_start(s@.subrange(i as int, n as int)),
        decreases n - i,
    {
        assert(s@.subrange(i as int, n as int).drop_first() =~= s@.subrange(i + 1, n as int));
        i += 1;
    }
    let mut j: usize = n;
    while i < j && is_c0_control_or_space(s[j - 1])
        invariant
            n == s.len(),
            i <= j <= n,
            trim_start(s@) == s@.subrange(i as int, n as int),
            trim_end(trim_start(s@)) == trim_end(s@.subrange(i as int, j as int)),
        decreases j - i,
    {
        assert(s@.subrange(i as int, j as int).drop_last() =~= s@.subrange(i as int, j - 1));
        j -= 1;
    }
    (i, j)
}

} // verus!
