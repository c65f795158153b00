//! Parsing of the host component.

use crate::text::to_chars;
use crate::url::encode::{encoded_text, PercentEncodeSet, URLPercentEncode};
use vstd::prelude::*;
use vstd::string::*;

verus! {

/// The code points that may not occur in a host.
pub open spec fn forbidden_host_code_point(c: char) -> bool {
    ||| c == '\0'
    ||| c == '\t'
    ||| c == '\n'
    ||| c == '\r'
    ||| c == ' '
    ||| c == '#'
    ||| c == '/'
    ||| c == ':'
    ||| c == '<'
    ||| c == '>'
    ||| c == '?'
    ||| c == '@'
    ||| c == '['
    ||| c == '\\'
    ||| c == ']'
    ||| c == '^'
    ||| c == '|'
}

/// Whether any code point of `s` is forbidden in a host.
pub open spec fn has_forbidden_host_code_point(s: Seq<char>) -> bool {
    exists|i: int| 0 <= i < s.len() && forbidden_host_code_point(#[trigger] s[i])
}

/// The host that `input` denotes, or `None` where it denotes none.
///
/// An input that opens with `[` is an address literal: it must close with
/// `]` and is kept as written. Any other input must be free of forbidden
/// host code points and is percent-encoded against the C0 control set.
pub open spec fn parsed_host(input: Seq<char>) -> Option<Seq<char>> {
    if input.len() > 0 && input[0] == '[' {
        if input.last() == ']' {
            Some(input)
        } else {
            None
        }
    } else if has_forbidden_host_code_point(input) {
        None
    } else {
        Some(encoded_text(input, PercentEncodeSet::C0Control))
    }
}

/// Whether the code point may not occur in a host.
pub fn is_forbidden_host_code_point(c: char) -> (r: bool)
    ensures
        r == forbidden_host_code_point(c),
{
    c == '\0' || c == '\t' || c == '\n' || c == '\r' || c == ' ' || c == '#' || c == '/' || c == ':'
        || c == '<' || c == '>' || c == '?' || c == '@' || c == '[' || c == '\\' || c == ']' || c
        == '^' || c == '|'
}

/// The parser of hosts.
pub struct HostParser;

impl HostParser {
    /// Parses a host.
    pub fn parse(input: &str) -> (r: Option<String>)
        ensures
            crate::text::opt_text(r) == parsed_host(input@),
    {
        let chars = to_chars(input);
        let n: usize = chars.len();
        if n > 0 && chars[0] == '[' {
            if chars[n - 1] == ']' {
                return Some(String::from_str(input));
            }
            return None;
        }
        let mut i: usize = 0;
        while i < n
            invariant
                n == chars.len(),
                chars@ == input@,
                !(n > 0 && chars@[0] == '['),
                i <= n,
                forall|k: int| 0 <= k < i ==> !forbidden_host_code_point(#[trigger] chars@[k]),
            decreases n - i,
        {
            if is_forbidden_host_code_point(chars[i]) {
                assert(forbidden_host_code_point(input@[i as int]));
                return None;
            }
            i += 1;
        }
        Some(URLPercentEncode::encode(input.as_bytes(), PercentEncodeSet::C0Control, false))
    }
}

} // verus!
