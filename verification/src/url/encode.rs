//! Percent-encoding of bytes against the URL percent-encode sets.

use crate::text::from_chars;
use vstd::prelude::*;
use vstd::string::*;
use vstd::utf8::encode_utf8;

verus! {

/// The sets of code points that a URL component writes as `%XX`.
#[derive(Debug, Clone, Copy, PartialEq, Eq, Structural)]
pub enum PercentEncodeSet {
    C0Control,
    Fragment,
    Query,
    SpecialQuery,
    Path,
    Userinfo,
}

/// C0 controls and everything above `~`.
pub open spec fn in_c0_control_set(b: u8) -> bool {
    b <= 0x1F || b > 0x7E
}

/// The C0 control set and space, `"`, `<`, `>`, `` ` ``.
pub open spec fn in_fragment_set(b: u8) -> bool {
    in_c0_control_set(b) || b == 0x20 || b == 0x22 || b == 0x3C || b == 0x3E || b == 0x60
}

/// The C0 control set and space, `"`, `#`, `<`, `>`.
pub open spec fn in_query_set(b: u8) -> bool {
    in_c0_control_set(b) || b == 0x20 || b == 0x22 || b == 0x23 || b == 0x3C || b == 0x3E
}

/// The query set and `'`.
pub open spec fn in_special_query_set(b: u8) -> bool {
    in_query_set(b) || b == 0x27
}

/// The query set and `?`, `^`, `` ` ``, `{`, `}`.
pub open spec fn in_path_set(b: u8) -> bool {
    in_query_set(b) || b == 0x3F || b == 0x5E || b == 0x60 || b == 0x7B || b == 0x7D
}

/// The path set and `/`, `:`, `;`, `=`, `@`, `[`, `\`, `]`, `|`.
pub open spec fn in_userinfo_set(b: u8) -> bool {
    in_path_set(b) || b == 0x2F || b == 0x3A || b == 0x3B || b == 0x3D || b == 0x40 || (0x5B <= b
        && b <= 0x5D) || b == 0x7C
}

impl PercentEncodeSet {
    /// Whether the set holds the byte `b`.
    pub open spec fn holds(self, b: u8) -> bool {
        match self {
            PercentEncodeSet::C0Control => in_c0_control_set(b),
            PercentEncodeSet::Fragment => in_fragment_set(b),
            PercentEncodeSet::Query => in_query_set(b),
            PercentEncodeSet::SpecialQuery => in_special_query_set(b),
            PercentEncodeSet::Path => in_path_set(b),
            PercentEncodeSet::Userinfo => in_userinfo_set(b),
        }
    }

    /// Whether the set holds the byte `b`.
    pub fn contains(&self, b: u8) -> (r: bool)
        ensures
            r == self.holds(b),
    {
        let c0 = b <= 0x1F || b > 0x7E;
        let query = c0 || b == 0x20 || b == 0x22 || b == 0x23 || b == 0x3C || b == 0x3E;
        let path = query || b == 0x3F || b == 0x5E || b == 0x60 || b == 0x7B || b == 0x7D;
        match self {
            PercentEncodeSet::C0Control => c0,
            PercentEncodeSet::Fragment => c0 || b == 0x20 || b == 0x22 || b == 0x3C || b == 0x3E
                || b == 0x60,
            PercentEncodeSet::Query => query,
            PercentEncodeSet::SpecialQuery => query || b == 0x27,
            PercentEncodeSet::Path => path,
            PercentEncodeSet::Userinfo => path || b == 0x2F || b == 0x3A || b == 0x3B || b == 0x3D
                || b == 0x40 || (0x5B <= b && b <= 0x5D) || b == 0x7C,
        }
    }
}

/// The upper-case hexadecimal digit for a value below 16.
pub open spec fn upper_hex_digit(n: u8) -> char {
    if n < 10 {
        (0x30 + n) as char
    } else {
        (0x37 + n) as char
    }
}

/// One byte, percent-encoded: `+` for a space where `space_as_plus` asks
/// for it, `%XX` for a byte of the set, the byte's own character otherwise.
pub open spec fn encoded_byte(b: u8, set: PercentEncodeSet, space_as_plus: bool) -> Seq<char> {
    if space_as_plus && b == 0x20 {
        seq!['+']
    } else if set.holds(b) {
        seq!['%', upper_hex_digit(b / 16), upper_hex_digit(b % 16)]
    } else {
        seq![b as char]
    }
}

/// The bytes, each percent-encoded, in order.
pub open spec fn encoded_bytes(bytes: Seq<u8>, set: PercentEncodeSet, space_as_plus: bool) -> Seq<
    char,
>
    decreases bytes.len(),
{
    if bytes.len() == 0 {
        Seq::empty()
    } else {
        encoded_bytes(bytes.drop_last(), set, space_as_plus) + encoded_byte(
            bytes.last(),
            set,
            space_as_plus,
        )
    }
}

/// The UTF-8 bytes of `chars`, percent-encoded.
pub open spec fn encoded_text(chars: Seq<char>, set: PercentEncodeSet) -> Seq<char> {
    encoded_bytes(encode_utf8(chars), set, false)
}

fn hex_digit(n: u8) -> (r: char)
    requires
        n < 16,
    ensures
        r == upper_hex_digit(n),
{
    if n < 10 {
        (0x30u8 + n) as char
    } else {
        (0x37u8 + n) as char
    }
}

/// The percent-encoder.
pub struct URLPercentEncode;

impl URLPercentEncode {
    /// Percent-encodes `bytes` against `set`.
    pub fn encode(bytes: &[u8], set: PercentEncodeSet, space_as_plus: bool) -> (r: String)
        ensures
            r@ == encoded_bytes(bytes@, set, space_as_plus),
    {
        let mut out = String::new();
        let mut i: usize = 0;
        while i < bytes.len()
            invariant
                i <= bytes.len(),
                out@ == encoded_bytes(bytes@.subrange(0, i as int), set, space_as_plus),
            decreases bytes.len() - i,
        {
            let b = bytes[i];
            let ghost next = bytes@.subrange(0, i + 1);
            assert(next.drop_last() =~= bytes@.subrange(0, i as int));
            assert(next.last() == b);
            if space_as_plus && b == 0x20 {
                out.push('+');
            } else if set.contains(b) {
                out.push('%');
                out.push(hex_digit(b / 16));
                out.push(hex_digit(b % 16));
            } else {
                out.push(b as char);
            }
            assert(out@ =~= encoded_bytes(next, set, space_as_plus));
            i += 1;
        }
        assert(bytes@.subrange(0, bytes.len() as int) =~= bytes@);
        out
    }

    /// Percent-encodes the UTF-8 bytes of one code point.
    pub fn encode_char(c: char, set: PercentEncodeSet) -> (r: String)
        ensures
            r@ == encoded_text(seq![c], set),
    {
        let mut one = String::new();
        one.push(c);
        assert(one@ =~= seq![c]);
        URLPercentEncode::encode(one.as_str().as_bytes(), set, false)
    }

    /// Percent-encodes the UTF-8 bytes of a run of code points.
    pub fn encode_chars(chars: &Vec<char>, set: PercentEncodeSet) -> (r: String)
        ensures
            r@ == encoded_text(chars@, set),
    {
        let s = from_chars(chars);
        URLPercentEncode::encode(s.as_str().as_bytes(), set, false)
    }
}

} // verus!
