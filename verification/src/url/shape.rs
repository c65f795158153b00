//! The shape of what the parser returns.
//!
//! Without a base, a URL with a special scheme other than `file` comes out
//! of the parser with every component in the form in which it is read
//! back: that is what makes parsing idempotent.

use crate::url::encode::{
    encoded_byte,
    encoded_bytes,
    encoded_text,
    upper_hex_digit,
    PercentEncodeSet,
};
use crate::url::host_parser::{
    forbidden_host_code_point,
    has_forbidden_host_code_point,
    parsed_host,
};
use crate::url::laws::{lemma_parse_well_formed, untouched};
use crate::url::machine::{
    code_point_at,
    initial_machine,
    left,
    lemma_step_consistent,
    lemma_step_progress,
    parse_result,
    preprocessed,
    rank,
    run,
    step,
    with_segment,
    Machine,
    Outcome,
};
use crate::url::parser::URLParseState;
use crate::url::helper::{
    ascii_alpha,
    ascii_alphanumeric,
    ascii_digit,
    ascii_lower,
    double_dot_segment,
    single_dot_segment,
    tab_or_newline,
    windows_drive_letter,
    without_tab_or_newline,
};
use crate::url::machine::ends_authority;
use crate::url::round_trip::{
    all_plain,
    canonical,
    file_host_reads_back,
    host_ok,
    host_reads_back,
    host_text,
    inside,
    lemma_ascii_byte,
    lemma_empty_host_reads_back,
    lemma_host_ok_parses,
    lemma_inside_prefix,
    lemma_parse_written,
    lemma_plain_host_reads_back,
    lemma_special_scheme_ok,
    plain,
    query_set,
    scheme_ok,
    segment_ok,
    segments_read_back,
    unbroken,
};
use crate::url::url::is_special_scheme;
use crate::url::url::{blank_url, PathView, UrlView};
use vstd::prelude::*;
use vstd::utf8::{encode_scalar, encode_utf8, has_width_1_encoding, is_scalar};

verus! {

/// An ASCII scalar is encoded as itself; every byte of any other scalar's
/// encoding is 0x80 or above.
proof fn lemma_scalar_bytes(v: u32)
    requires
        is_scalar(v),
    ensures
        encode_scalar(v).len() >= 1,
        v <= 0x7F ==> encode_scalar(v) == seq![v as u8],
        v > 0x7F ==> forall|k: int| 0 <= k < encode_scalar(v).len() ==> #[trigger] encode_scalar(
            v,
        )[k] >= 0x80,
{
    if has_width_1_encoding(v) {
        assert((v & 0x7F) as u8 == v as u8) by (bit_vector)
            requires
                v <= 0x7F,
        ;
        assert(encode_scalar(v) =~= seq![v as u8]);
    } else {
        let a = ((v >> 6) & 0x1F) as u8;
        let b = ((v >> 12) & 0x0F) as u8;
        let c = ((v >> 18) & 0x7) as u8;
        let d = (v & 0x3F) as u8;
        let e = ((v >> 6) & 0x3F) as u8;
        let f = ((v >> 12) & 0x3F) as u8;
        assert(0xC0u8 | a >= 0x80) by (bit_vector);
        assert(0xE0u8 | b >= 0x80) by (bit_vector);
        assert(0xF0u8 | c >= 0x80) by (bit_vector);
        assert(0x80u8 | d >= 0x80) by (bit_vector);
        assert(0x80u8 | e >= 0x80) by (bit_vector);
        assert(0x80u8 | f >= 0x80) by (bit_vector);
    }
}

/// Every byte of the encoding of a text is 0x80 or above, or is one of the
/// text's ASCII code points.
proof fn lemma_utf8_bytes(s: Seq<char>)
    ensures
        s.len() > 0 ==> encode_utf8(s).len() > 0,
        forall|k: int|
            0 <= k < encode_utf8(s).len() ==> (#[trigger] encode_utf8(s)[k]) >= 0x80 || exists|
                i: int,
            |
                0 <= i < s.len() && (#[trigger] s[i]) as u32 == encode_utf8(s)[k],
    decreases s.len(),
{
    if s.len() > 0 {
        let v = s[0] as u32;
        vstd::utf8::char_is_scalar(s[0]);
        lemma_scalar_bytes(v);
        lemma_utf8_bytes(s.drop_first());
        let head = encode_scalar(v);
        let tail = encode_utf8(s.drop_first());
        assert(encode_utf8(s) == head + tail);
        assert forall|k: int| 0 <= k < encode_utf8(s).len() implies (#[trigger] encode_utf8(
            s,
        )[k]) >= 0x80 || exists|i: int|
            0 <= i < s.len() && (#[trigger] s[i]) as u32 == encode_utf8(s)[k] by {
            let b = encode_utf8(s)[k];
            if k < head.len() {
                assert(b == head[k]);
                if v <= 0x7F {
                    assert(s[0] as u32 == b);
                }
            } else {
                assert(b == tail[k - head.len()]);
                if b < 0x80 {
                    let i = choose|i: int|
                        0 <= i < s.drop_first().len() && (#[trigger] s.drop_first()[i]) as u32
                            == b;
                    assert(s[i + 1] == s.drop_first()[i]);
                }
            }
        }
    }
}

/// `%` or an upper-case hexadecimal digit.
pub open spec fn escape_char(c: char) -> bool {
    c == '%' || ('0' <= c <= '9') || ('A' <= c <= 'F')
}

/// Every code point of the encoding of bytes is part of an escape, or is
/// one of the bytes, which the set does not hold.
proof fn lemma_encoded_bytes_chars(bytes: Seq<u8>, set: PercentEncodeSet)
    ensures
        encoded_bytes(bytes, set, false).len() >= bytes.len(),
        forall|j: int|
            0 <= j < encoded_bytes(bytes, set, false).len() ==> escape_char(
                #[trigger] encoded_bytes(bytes, set, false)[j],
            ) || exists|k: int|
                0 <= k < bytes.len() && encoded_bytes(bytes, set, false)[j] as u32 == (
                #[trigger] bytes[k]) && !set.holds(bytes[k]),
    decreases bytes.len(),
{
    if bytes.len() > 0 {
        let before = encoded_bytes(bytes.drop_last(), set, false);
        let b = bytes.last();
        let last = encoded_byte(b, set, false);
        let out = encoded_bytes(bytes, set, false);
        lemma_encoded_bytes_chars(bytes.drop_last(), set);
        assert(out == before + last);
        assert(escape_char(upper_hex_digit(b / 16)));
        assert(escape_char(upper_hex_digit(b % 16)));
        assert forall|j: int| 0 <= j < out.len() implies escape_char(#[trigger] out[j]) || exists|
            k: int,
        |
            0 <= k < bytes.len() && out[j] as u32 == (#[trigger] bytes[k]) && !set.holds(
                bytes[k],
            ) by {
            if j < before.len() {
                assert(out[j] == before[j]);
                if !escape_char(out[j]) {
                    let k = choose|k: int|
                        0 <= k < bytes.drop_last().len() && before[j] as u32 == (
                        #[trigger] bytes.drop_last()[k]) && !set.holds(bytes.drop_last()[k]);
                    assert(bytes[k] == bytes.drop_last()[k]);
                }
            } else {
                assert(out[j] == last[j - before.len()]);
                if !set.holds(b) {
                    assert(last =~= seq![b as char]);
                    assert((b as char) as u32 == b);
                    assert(bytes[bytes.len() - 1] == b);
                }
            }
        }
    }
}

/// Every code point of the encoding of a text is part of an escape, or is
/// one of the text's ASCII code points, which the set does not hold.
pub proof fn lemma_encoded_text_chars(s: Seq<char>, set: PercentEncodeSet)
    ensures
        s.len() > 0 ==> encoded_text(s, set).len() > 0,
        forall|j: int|
            0 <= j < encoded_text(s, set).len() ==> escape_char(#[trigger] encoded_text(s, set)[j])
                || exists|i: int|
                0 <= i < s.len() && encoded_text(s, set)[j] == (#[trigger] s[i]) && s[i] as u32
                    <= 0x7F && !set.holds(s[i] as u8),
{
    let bytes = encode_utf8(s);
    let out = encoded_text(s, set);
    lemma_utf8_bytes(s);
    lemma_encoded_bytes_chars(bytes, set);
    assert forall|j: int| 0 <= j < out.len() implies escape_char(#[trigger] out[j]) || exists|
        i: int,
    |
        0 <= i < s.len() && out[j] == (#[trigger] s[i]) && s[i] as u32 <= 0x7F && !set.holds(
            s[i] as u8,
        ) by {
        if !escape_char(out[j]) {
            let k = choose|k: int|
                0 <= k < bytes.len() && out[j] as u32 == (#[trigger] bytes[k]) && !set.holds(
                    bytes[k],
                );
            let b = bytes[k];
            assert(b <= 0x7E);
            let i = choose|i: int| 0 <= i < s.len() && (#[trigger] s[i]) as u32 == b;
            lemma_ascii_byte(s[i]);
            lemma_ascii_byte(out[j]);
            assert(out[j] == s[i]);
        }
    }
}

/// A set that holds the space: what it leaves as it is, is plain.
pub open spec fn holds_space(set: PercentEncodeSet) -> bool {
    set != PercentEncodeSet::C0Control
}

/// An escape is plain for every set.
proof fn lemma_escape_is_plain(c: char, set: PercentEncodeSet)
    requires
        escape_char(c),
    ensures
        plain(c, set),
        !forbidden_host_code_point(c),
        c != '/',
        c != '\\',
{
    lemma_ascii_byte(c);
}

/// Against a set that holds the space, the encoding of any text is plain.
pub proof fn lemma_encoded_text_plain(s: Seq<char>, set: PercentEncodeSet)
    requires
        holds_space(set),
    ensures
        all_plain(encoded_text(s, set), set),
{
    let out = encoded_text(s, set);
    lemma_encoded_text_chars(s, set);
    assert forall|j: int| 0 <= j < out.len() implies plain(#[trigger] out[j], set) by {
        if escape_char(out[j]) {
            lemma_escape_is_plain(out[j], set);
        } else {
            let i = choose|i: int|
                0 <= i < s.len() && out[j] == (#[trigger] s[i]) && s[i] as u32 <= 0x7F
                    && !set.holds(s[i] as u8);
            lemma_ascii_byte(s[i]);
        }
    }
}

/// Plain for the path set, and no separator: no `/`, and no `\` in a
/// special URL.
pub open spec fn path_text(s: Seq<char>, special: bool) -> bool {
    &&& all_plain(s, PercentEncodeSet::Path)
    &&& forall|i: int| 0 <= i < s.len() ==> #[trigger] s[i] != '/' && (special ==> s[i] != '\\')
}

/// The path encoding of a code point that is no separator is path text.
proof fn lemma_encoded_path_char(c: char, special: bool)
    requires
        c != '/',
        special ==> c != '\\',
    ensures
        path_text(encoded_text(seq![c], PercentEncodeSet::Path), special),
{
    let set = PercentEncodeSet::Path;
    let out = encoded_text(seq![c], set);
    lemma_encoded_text_plain(seq![c], set);
    lemma_encoded_text_chars(seq![c], set);
    assert forall|j: int| 0 <= j < out.len() implies #[trigger] out[j] != '/' && (special
        ==> out[j] != '\\') by {
        if escape_char(out[j]) {
        } else {
            let i = choose|i: int|
                0 <= i < seq![c].len() && out[j] == (#[trigger] seq![c][i]) && seq![c][i] as u32
                    <= 0x7F && !set.holds(seq![c][i] as u8);
            assert(seq![c][i] == c);
        }
    }
}

/// Path text and more path text make path text.
proof fn lemma_path_text_add(a: Seq<char>, b: Seq<char>, special: bool)
    requires
        path_text(a, special),
        path_text(b, special),
    ensures
        path_text(a + b, special),
{
    assert forall|i: int| 0 <= i < (a + b).len() implies plain(
        #[trigger] (a + b)[i],
        PercentEncodeSet::Path,
    ) && (a + b)[i] != '/' && (special ==> (a + b)[i] != '\\') by {
        if i < a.len() {
            assert((a + b)[i] == a[i]);
            assert(plain(a[i], PercentEncodeSet::Path));
        } else {
            assert((a + b)[i] == b[i - a.len()]);
            assert(plain(b[i - a.len()], PercentEncodeSet::Path));
        }
    }
}

/// Plain text and more plain text make plain text.
proof fn lemma_all_plain_add(a: Seq<char>, b: Seq<char>, set: PercentEncodeSet)
    requires
        all_plain(a, set),
        all_plain(b, set),
    ensures
        all_plain(a + b, set),
{
    assert forall|i: int| 0 <= i < (a + b).len() implies plain(#[trigger] (a + b)[i], set) by {
        if i < a.len() {
            assert((a + b)[i] == a[i]);
            assert(plain(a[i], set));
        } else {
            assert((a + b)[i] == b[i - a.len()]);
            assert(plain(b[i - a.len()], set));
        }
    }
}

/// What the host parser makes of a text without forbidden code points is
/// `host_ok`, where the text is not empty.
proof fn lemma_parsed_plain_host(buffer: Seq<char>)
    requires
        buffer.len() >= 1,
        buffer[0] != '[',
        parsed_host(buffer) is Some,
    ensures
        host_ok(parsed_host(buffer)->0),
{
    let set = PercentEncodeSet::C0Control;
    let h = encoded_text(buffer, set);
    lemma_encoded_text_chars(buffer, set);
    assert(!has_forbidden_host_code_point(buffer));
    assert forall|j: int| 0 <= j < h.len() implies 0x21 <= (#[trigger] h[j]) as u32 <= 0x7E
        && !forbidden_host_code_point(h[j]) by {
        if escape_char(h[j]) {
            lemma_escape_is_plain(h[j], set);
        } else {
            let i = choose|i: int|
                0 <= i < buffer.len() && h[j] == (#[trigger] buffer[i]) && buffer[i] as u32 <= 0x7F
                    && !set.holds(buffer[i] as u8);
            lemma_ascii_byte(buffer[i]);
            assert(!forbidden_host_code_point(buffer[i]));
        }
    }
}

/// What the host parser makes of a host text reads back, and is empty
/// only where the text is.
proof fn lemma_parsed_host_reads_back(buffer: Seq<char>, special: bool)
    requires
        special ==> buffer.len() >= 1,
        host_text(buffer, special),
        parsed_host(buffer) is Some,
    ensures
        host_reads_back(parsed_host(buffer)->0, special),
        buffer.len() >= 1 ==> parsed_host(buffer)->0.len() >= 1,
{
    if buffer.len() == 0 {
        lemma_empty_host_reads_back();
        assert(buffer =~= Seq::<char>::empty());
    } else if buffer[0] == '[' {
    } else {
        lemma_parsed_plain_host(buffer);
        lemma_plain_host_reads_back(parsed_host(buffer)->0, special);
    }
}

/// Nothing that ends the host of a `file` URL, and no tab, line feed or
/// carriage return.
pub open spec fn file_host_text(h: Seq<char>) -> bool {
    forall|i: int|
        0 <= i < h.len() ==> {
            let c = #[trigger] h[i];
            c != '/' && c != '\\' && c != '?' && c != '#' && !tab_or_newline(c)
        }
}

/// What the host parser makes of the host text of a `file` URL reads back,
/// where the text is not empty and no drive letter, and the host is not
/// `localhost`.
proof fn lemma_parsed_file_host(buffer: Seq<char>)
    requires
        buffer.len() >= 1,
        file_host_text(buffer),
        !windows_drive_letter(buffer),
        parsed_host(buffer) is Some,
        parsed_host(buffer)->0 != "localhost"@,
    ensures
        file_host_reads_back(parsed_host(buffer)->0),
{
    let h = parsed_host(buffer)->0;
    if buffer[0] == '[' {
    } else {
        lemma_parsed_plain_host(buffer);
        lemma_host_ok_parses(h);
        assert forall|i: int| 0 <= i < h.len() implies {
            let c = #[trigger] h[i];
            c != '/' && c != '\\' && c != '?' && c != '#' && !tab_or_newline(c)
        } by {
            assert(!forbidden_host_code_point(h[i]));
        }
        if h.len() == 2 {
            assert(!forbidden_host_code_point(h[1]));
        }
    }
}

/// From `p` up to what next ends an authority, the input holds no `@`.
pub open spec fn clear_of_at(input: Seq<char>, p: int, special: bool) -> bool
    decreases input.len() - p,
{
    if p < 0 || p >= input.len() {
        true
    } else if ends_authority(Some(input[p]), special) {
        true
    } else {
        input[p] != '@' && clear_of_at(input, p + 1, special)
    }
}

/// Neither `@` nor anything that ends an authority.
pub open spec fn userless(s: Seq<char>, special: bool) -> bool {
    forall|i: int|
        0 <= i < s.len() ==> (#[trigger] s[i]) != '@' && !ends_authority(Some(s[i]), special)
}

/// Where the input from `from` to `to` is userless and the authority ends
/// at `to`, the input is clear of `@` from `from` on.
proof fn lemma_clear_of_at(input: Seq<char>, from: int, to: int, special: bool)
    requires
        0 <= from <= to <= input.len(),
        userless(input.subrange(from, to), special),
        to == input.len() || ends_authority(Some(input[to]), special),
    ensures
        clear_of_at(input, from, special),
    decreases to - from,
{
    if from < to {
        let part = input.subrange(from, to);
        assert(part[0] == input[from]);
        assert forall|i: int| 0 <= i < to - from - 1 implies (#[trigger] input.subrange(
            from + 1,
            to,
        )[i]) != '@' && !ends_authority(Some(input.subrange(from + 1, to)[i]), special) by {
            assert(input.subrange(from + 1, to)[i] == part[i + 1]);
        }
        lemma_clear_of_at(input, from + 1, to, special);
    }
}

/// The scheme is special and not `file`.
pub open spec fn web_scheme(url: UrlView) -> bool {
    url.is_special() && url.scheme != "file"@
}

/// The host of the URL is as the parser leaves it.
pub open spec fn host_fine(url: UrlView) -> bool {
    url.host is Some ==> if url.scheme == "file"@ {
        url.host->0.len() >= 1 ==> file_host_reads_back(url.host->0)
    } else {
        host_reads_back(url.host->0, url.is_special())
    }
}

/// Every component of the URL is as the parser leaves it.
pub open spec fn shaped(url: UrlView) -> bool {
    &&& scheme_ok(url.scheme)
    &&& host_fine(url)
    &&& url.port is Some ==> url.scheme != "file"@ && url.host is Some && url.host->0.len() >= 1
    &&& url.path is List ==> segments_read_back(url.path->List_0, url)
    &&& url.query is Some ==> all_plain(url.query->0, query_set(url.is_special()))
    &&& url.fragment is Some ==> all_plain(url.fragment->0, PercentEncodeSet::Fragment)
    &&& web_scheme(url) ==> url.host is Some
}

/// The URL has what a URL needs to read back from its written form: a
/// host, which is not empty in a `file` URL, and at least one segment.
pub open spec fn reads_back_shape(url: UrlView) -> bool {
    &&& url.host is Some
    &&& url.path is List
    &&& url.path->List_0.len() >= 1
    &&& url.scheme == "file"@ ==> url.host->0.len() >= 1
}

/// Nothing but scheme and host has been set.
pub open spec fn bare(url: UrlView) -> bool {
    &&& url.port is None
    &&& url.path == PathView::List(Seq::empty())
    &&& url.query is None
    &&& url.fragment is None
}

/// What holds of the machine in each state, where no base was given.
pub open spec fn tidy(m: Machine, input: Seq<char>) -> bool {
    let special = m.url.is_special();
    match m.state {
        URLParseState::SchemeStart => m.url == blank_url() && !m.inside_brackets,
        URLParseState::Scheme => m.url == blank_url() && !m.inside_brackets && scheme_ok(
            m.buffer,
        ),
        URLParseState::NoScheme => m.url == blank_url(),
        URLParseState::SpecialRelativeOrAuthority => false,
        URLParseState::Relative => false,
        URLParseState::RelativeSlash => false,
        URLParseState::File => untouched(m.url) && m.url.scheme == "file"@ && m.buffer.len()
            == 0,
        URLParseState::FileSlash => bare(m.url) && m.url.scheme == "file"@ && m.url.host == Some(
            Seq::<char>::empty(),
        ) && m.buffer.len() == 0,
        URLParseState::FileHost => bare(m.url) && m.url.scheme == "file"@ && m.url.host == Some(
            Seq::<char>::empty(),
        ) && file_host_text(m.buffer),
        URLParseState::PathOrAuthority => untouched(m.url) && scheme_ok(m.url.scheme) && !special
            && !m.inside_brackets,
        URLParseState::SpecialAuthoritySlashes => untouched(m.url) && scheme_ok(m.url.scheme)
            && web_scheme(m.url) && !m.inside_brackets,
        URLParseState::SpecialAuthorityIgnoreSlashes => untouched(m.url) && scheme_ok(
            m.url.scheme,
        ) && web_scheme(m.url) && !m.inside_brackets,
        URLParseState::Authority => {
            &&& untouched(m.url)
            &&& scheme_ok(m.url.scheme)
            &&& m.url.scheme != "file"@
            &&& !m.inside_brackets
            &&& userless(m.buffer, special)
            &&& m.buffer == input.subrange(m.pointer - m.buffer.len(), m.pointer)
        },
        URLParseState::Host => reading_host(m, input),
        URLParseState::Hostname => reading_host(m, input),
        URLParseState::Port => {
            &&& bare(m.url)
            &&& scheme_ok(m.url.scheme)
            &&& m.url.scheme != "file"@
            &&& m.url.host is Some
            &&& m.url.host->0.len() >= 1
            &&& host_reads_back(m.url.host->0, special)
        },
        URLParseState::PathStart => {
            &&& shaped(m.url)
            &&& m.url.host is Some
            &&& m.url.path == PathView::List(Seq::empty())
            &&& m.url.query is None
            &&& m.url.fragment is None
            &&& m.buffer.len() == 0
        },
        URLParseState::Path => {
            &&& shaped(m.url)
            &&& m.url.path is List
            &&& m.url.query is None
            &&& m.url.fragment is None
            &&& path_text(m.buffer, special)
        },
        URLParseState::OpaquePath => shaped(m.url) && !special && m.url.path is Opaque
            && m.url.query is None && m.url.fragment is None,
        URLParseState::Query => {
            &&& shaped(m.url)
            &&& m.url.query == Some(Seq::<char>::empty())
            &&& m.url.fragment is None
            &&& web_scheme(m.url) ==> m.url.path is List && m.url.path->List_0.len() >= 1
        },
        URLParseState::Fragment => {
            &&& shaped(m.url)
            &&& web_scheme(m.url) ==> m.url.path is List && m.url.path->List_0.len() >= 1
        },
    }
}

/// What holds while the host is read: the scheme is set and not `file`, the
/// buffer is a host text, the brackets are open exactly where the buffer
/// leaves them open, and what is still to be read of the authority holds no
/// `@`.
pub open spec fn reading_host(m: Machine, input: Seq<char>) -> bool {
    &&& untouched(m.url)
    &&& scheme_ok(m.url.scheme)
    &&& m.url.scheme != "file"@
    &&& host_text(m.buffer, m.url.is_special())
    &&& m.inside_brackets == inside(m.buffer, m.buffer.len() as int)
    &&& clear_of_at(input, m.pointer, m.url.is_special())
}

/// What holds of a URL that the parser returns without a base.
pub open spec fn tidy_url(url: UrlView) -> bool {
    &&& shaped(url)
    &&& web_scheme(url) ==> url.path is List && url.path->List_0.len() >= 1
}

/// Ending a segment of path text keeps the segments as the parser leaves
/// them; where no separator ended it, there is a segment afterwards.
proof fn lemma_with_segment_ok(url: UrlView, buffer: Seq<char>, at_slash: bool)
    requires
        url.path is List,
        segments_read_back(url.path->List_0, url),
        path_text(buffer, url.is_special()),
    ensures
        with_segment(url, buffer, at_slash).path is List,
        segments_read_back(with_segment(url, buffer, at_slash).path->List_0, url),
        !at_slash ==> with_segment(url, buffer, at_slash).path->List_0.len() >= 1,
        with_segment(url, buffer, at_slash) == (UrlView {
            path: with_segment(url, buffer, at_slash).path,
            ..url
        }),
{
    let special = url.is_special();
    let before = url.path->List_0;
    let after = with_segment(url, buffer, at_slash).path->List_0;
    let empty = Seq::<char>::empty();
    assert(segment_ok(empty, special));
    assert(!windows_drive_letter(empty));
    if double_dot_segment(buffer) || single_dot_segment(buffer) {
        assert forall|i: int| 0 <= i < after.len() implies segment_ok(
            #[trigger] after[i],
            special,
        ) by {
            if i < before.len() {
                assert(segment_ok(before[i], special));
            }
        }
        let up = if double_dot_segment(buffer) {
            url.shorten_path().path->List_0
        } else {
            before
        };
        if after.len() >= 1 {
            if up.len() >= 1 {
                assert(after[0] == up[0]);
                assert(up[0] == before[0]);
            } else {
                assert(after[0] == empty);
            }
        }
    } else {
        let drive = url.scheme == "file"@ && url.path.is_empty() && windows_drive_letter(buffer);
        let segment = if drive {
            seq![buffer[0], ':']
        } else {
            buffer
        };
        assert(after == before.push(segment));
        if drive {
            assert(plain(buffer[0], PercentEncodeSet::Path));
            lemma_ascii_byte(':');
            assert(plain(':', PercentEncodeSet::Path));
            assert(segment_ok(segment, special));
        } else {
            assert(segment_ok(segment, special));
        }
        assert forall|i: int| 0 <= i < after.len() implies segment_ok(
            #[trigger] after[i],
            special,
        ) by {
            if i < before.len() {
                assert(segment_ok(before[i], special));
            }
        }
        if before.len() >= 1 {
            assert(after[0] == before[0]);
        }
    }
}

/// The step of `m` keeps the machine tidy, and where it ends the parse,
/// the URL is tidy.
pub open spec fn stays_tidy(m: Machine, input: Seq<char>) -> bool {
    match step(m, input, None) {
        Outcome::Failure => true,
        Outcome::Again(n) => tidy(n, input),
        Outcome::Advance(n) => if n.pointer >= input.len() {
            tidy_url(n.url)
        } else {
            tidy(n.advanced(), input)
        },
    }
}

/// The lower-case form of a code point of a scheme is a code point of a
/// scheme as the parser leaves it.
proof fn lemma_scheme_char(c: char)
    requires
        ascii_alphanumeric(c) || c == '+' || c == '-' || c == '.',
    ensures
        ({
            let l = ascii_lower(c);
            ('a' <= l <= 'z') || ascii_digit(l) || l == '+' || l == '-' || l == '.'
        }),
        ascii_alpha(c) ==> 'a' <= ascii_lower(c) <= 'z',
{
    if 'A' <= c <= 'Z' {
        lemma_ascii_byte(c);
        let u = (c as u8 + 32) as u8;
        assert(0x61 <= u <= 0x7A);
        assert((u as char) as u32 == u);
    }
}

/// The scheme states keep the machine tidy.
proof fn lemma_scheme_step_tidy(m: Machine, input: Seq<char>)
    requires
        m.state == URLParseState::SchemeStart || m.state == URLParseState::Scheme,
        tidy(m, input),
        m.consistent(input),
    ensures
        stays_tidy(m, input),
{
    let c = code_point_at(input, m.pointer);
    if m.state == URLParseState::SchemeStart {
        if c is Some && ascii_alpha(c->0) {
            lemma_scheme_char(c->0);
            assert(m.buffer.push(ascii_lower(c->0)) =~= seq![ascii_lower(c->0)]);
        }
    } else {
        if c is Some && (ascii_alphanumeric(c->0) || c->0 == '+' || c->0 == '-' || c->0 == '.') {
            lemma_scheme_char(c->0);
            let grown = m.buffer.push(ascii_lower(c->0));
            assert forall|i: int| 0 <= i < grown.len() implies {
                let l = #[trigger] grown[i];
                ('a' <= l <= 'z') || ascii_digit(l) || l == '+' || l == '-' || l == '.'
            } by {
                if i < m.buffer.len() {
                    assert(grown[i] == m.buffer[i]);
                }
            }
            assert(grown[0] == m.buffer[0]);
        } else if c == Some(':') {
            assert(segments_read_back(Seq::<Seq<char>>::empty(), UrlView {
                scheme: m.buffer,
                ..m.url
            }));
        }
    }
}

/// The host state keeps the machine tidy.
proof fn lemma_host_step_tidy(m: Machine, input: Seq<char>)
    requires
        m.state == URLParseState::Host || m.state == URLParseState::Hostname,
        tidy(m, input),
        m.consistent(input),
        unbroken(input),
    ensures
        stays_tidy(m, input),
{
    let c = code_point_at(input, m.pointer);
    let special = m.url.is_special();
    assert(reading_host(m, input));
    if c == Some(':') && !m.inside_brackets {
        if m.buffer.len() >= 1 && parsed_host(m.buffer) is Some {
            lemma_parsed_host_reads_back(m.buffer, special);
        }
        assert(stays_tidy(m, input));
    } else if ends_authority(c, special) {
        if !(special && m.buffer.len() == 0) && parsed_host(m.buffer) is Some {
            lemma_parsed_host_reads_back(m.buffer, special);
            assert(segments_read_back(Seq::<Seq<char>>::empty(), m.url));
        }
        assert(stays_tidy(m, input));
    } else {
        let x = c->0;
        let grown = m.buffer.push(x);
        let n = m.buffer.len() as int;
        assert(x == input[m.pointer]);
        assert(!tab_or_newline(x));
        assert(x != '@');
        assert(clear_of_at(input, m.pointer + 1, special));
        lemma_inside_prefix(grown, m.buffer, n);
        assert forall|i: int| 0 <= i < grown.len() implies {
            let d = #[trigger] grown[i];
            &&& d != '/'
            &&& d != '?'
            &&& d != '#'
            &&& (special ==> d != '\\')
            &&& d != '@'
            &&& !tab_or_newline(d)
            &&& (d == ':' ==> inside(grown, i))
        } by {
            if i < n {
                lemma_inside_prefix(grown, m.buffer, i);
                assert(grown[i] == m.buffer[i]);
            } else {
                assert(grown[i] == x);
            }
        }
        assert(host_text(grown, special));
        assert(grown[n] == x);
        let flag = if x == '[' {
            true
        } else if x == ']' {
            false
        } else {
            m.inside_brackets
        };
        assert(inside(grown, n + 1) == flag);
        let next = Machine { inside_brackets: flag, buffer: grown, ..m };
        assert(step(m, input, None) == Outcome::Advance(next));
        assert(reading_host(next.advanced(), input));
        assert(stays_tidy(m, input));
    }
}

/// The authority state keeps the machine tidy.
proof fn lemma_authority_step_tidy(m: Machine, input: Seq<char>)
    requires
        m.state == URLParseState::Authority,
        tidy(m, input),
        m.consistent(input),
        unbroken(input),
    ensures
        stays_tidy(m, input),
{
    let c = code_point_at(input, m.pointer);
    let special = m.url.is_special();
    let from = m.pointer - m.buffer.len();
    if c == Some('@') {
        assert(input.subrange(m.pointer + 1, m.pointer + 1) =~= Seq::<char>::empty());
    } else if ends_authority(c, special) {
        if !(m.at_sign_seen && m.buffer.len() == 0) {
            lemma_clear_of_at(input, from, m.pointer, special);
            assert(host_text(Seq::<char>::empty(), special));
        }
    } else {
        let x = c->0;
        let grown = m.buffer.push(x);
        assert(grown =~= input.subrange(from, m.pointer + 1));
        assert forall|i: int| 0 <= i < grown.len() implies (#[trigger] grown[i]) != '@'
            && !ends_authority(Some(grown[i]), special) by {
            if i < m.buffer.len() {
                assert(grown[i] == m.buffer[i]);
            }
        }
    }
}

/// The file host state keeps the machine tidy.
proof fn lemma_file_host_step_tidy(m: Machine, input: Seq<char>)
    requires
        m.state == URLParseState::FileHost,
        tidy(m, input),
        m.consistent(input),
        unbroken(input),
    ensures
        stays_tidy(m, input),
{
    let c = code_point_at(input, m.pointer);
    reveal_strlit("file");
    assert(is_special_scheme(m.url.scheme));
    lemma_special_scheme_ok(m.url.scheme);
    assert(segments_read_back(Seq::<Seq<char>>::empty(), m.url));
    if c is None || c == Some('/') || c == Some('\\') || c == Some('?') || c == Some('#') {
        if windows_drive_letter(m.buffer) {
            let b = m.buffer;
            assert forall|i: int| 0 <= i < b.len() implies plain(
                #[trigger] b[i],
                PercentEncodeSet::Path,
            ) && b[i] != '/' && b[i] != '\\' by {
                lemma_ascii_byte(b[i]);
            }
            assert(path_text(m.buffer, true));
        } else if m.buffer.len() == 0 {
            assert(m.buffer =~= Seq::<char>::empty());
            assert(path_text(m.buffer, true));
        } else if parsed_host(m.buffer) is Some {
            if parsed_host(m.buffer)->0 != "localhost"@ {
                lemma_parsed_file_host(m.buffer);
            }
        }
        assert(stays_tidy(m, input));
    } else {
        let x = c->0;
        let grown = m.buffer.push(x);
        assert(x == input[m.pointer]);
        assert forall|i: int| 0 <= i < grown.len() implies {
            let d = #[trigger] grown[i];
            d != '/' && d != '\\' && d != '?' && d != '#' && !tab_or_newline(d)
        } by {
            if i < m.buffer.len() {
                assert(grown[i] == m.buffer[i]);
            }
        }
        assert(stays_tidy(m, input));
    }
}

/// The path state keeps the machine tidy.
proof fn lemma_path_step_tidy(m: Machine, input: Seq<char>)
    requires
        m.state == URLParseState::Path,
        tidy(m, input),
        m.consistent(input),
    ensures
        stays_tidy(m, input),
{
    let c = code_point_at(input, m.pointer);
    let special = m.url.is_special();
    let at_slash = c == Some('/') || (special && c == Some('\\'));
    if c is None || at_slash || c == Some('?') || c == Some('#') {
        lemma_with_segment_ok(m.url, m.buffer, at_slash);
        assert(path_text(Seq::<char>::empty(), special));
        assert(all_plain(Seq::<char>::empty(), query_set(special)));
        assert(all_plain(Seq::<char>::empty(), PercentEncodeSet::Fragment));
    } else {
        lemma_encoded_path_char(c->0, special);
        lemma_path_text_add(m.buffer, encoded_text(seq![c->0], PercentEncodeSet::Path), special);
    }
}

/// A step without a base keeps the machine tidy.
pub proof fn lemma_step_tidy(m: Machine, input: Seq<char>)
    requires
        tidy(m, input),
        m.consistent(input),
        unbroken(input),
    ensures
        stays_tidy(m, input),
{
    let c = code_point_at(input, m.pointer);
    let special = m.url.is_special();
    match m.state {
        URLParseState::SchemeStart => {
            lemma_scheme_step_tidy(m, input);
        },
        URLParseState::Scheme => {
            lemma_scheme_step_tidy(m, input);
        },
        URLParseState::NoScheme => {
            assert(stays_tidy(m, input));
        },
        URLParseState::File => {
            reveal_strlit("file");
            assert(is_special_scheme(m.url.scheme));
            lemma_special_scheme_ok(m.url.scheme);
            assert(m.buffer =~= Seq::<char>::empty());
            assert(path_text(m.buffer, true));
            assert(file_host_text(m.buffer));
            assert(segments_read_back(Seq::<Seq<char>>::empty(), m.url));
            assert(stays_tidy(m, input));
        },
        URLParseState::SpecialRelativeOrAuthority => {
            assert(stays_tidy(m, input));
        },
        URLParseState::SpecialAuthoritySlashes => {
            assert(stays_tidy(m, input));
        },
        URLParseState::PathOrAuthority => {
            assert(m.buffer =~= Seq::<char>::empty());
            if c == Some('/') {
                assert(m.buffer =~= input.subrange(m.pointer + 1, m.pointer + 1));
            }
            assert(path_text(m.buffer, special));
            assert(segments_read_back(Seq::<Seq<char>>::empty(), m.url));
            assert(stays_tidy(m, input));
        },
        URLParseState::OpaquePath => {
            assert(all_plain(Seq::<char>::empty(), query_set(special)));
            assert(all_plain(Seq::<char>::empty(), PercentEncodeSet::Fragment));
            assert(stays_tidy(m, input));
        },
        URLParseState::Fragment => {
            if c is Some && m.url.fragment is Some {
                lemma_encoded_text_plain(seq![c->0], PercentEncodeSet::Fragment);
                lemma_all_plain_add(
                    m.url.fragment->0,
                    encoded_text(seq![c->0], PercentEncodeSet::Fragment),
                    PercentEncodeSet::Fragment,
                );
            }
            assert(stays_tidy(m, input));
        },
        URLParseState::Relative => {
            assert(stays_tidy(m, input));
        },
        URLParseState::SpecialAuthorityIgnoreSlashes => {
            assert(m.buffer =~= input.subrange(m.pointer, m.pointer));
            assert(stays_tidy(m, input));
        },
        URLParseState::Authority => {
            lemma_authority_step_tidy(m, input);
        },
        URLParseState::Path => {
            lemma_path_step_tidy(m, input);
        },
        URLParseState::RelativeSlash => {
            assert(stays_tidy(m, input));
        },
        URLParseState::Query => {
            lemma_encoded_text_plain(m.buffer, query_set(special));
            assert(Seq::<char>::empty() + encoded_text(m.buffer, query_set(special))
                =~= encoded_text(m.buffer, query_set(special)));
            assert(all_plain(Seq::<char>::empty(), PercentEncodeSet::Fragment));
            assert(stays_tidy(m, input));
        },
        URLParseState::Host => {
            lemma_host_step_tidy(m, input);
        },
        URLParseState::Hostname => {
            lemma_host_step_tidy(m, input);
        },
        URLParseState::FileHost => {
            lemma_file_host_step_tidy(m, input);
        },
        URLParseState::Port => {
            assert(segments_read_back(Seq::<Seq<char>>::empty(), m.url));
            assert(stays_tidy(m, input));
        },
        URLParseState::PathStart => {
            assert(m.buffer =~= Seq::<char>::empty());
            assert(path_text(m.buffer, special));
            assert(all_plain(Seq::<char>::empty(), query_set(special)));
            assert(all_plain(Seq::<char>::empty(), PercentEncodeSet::Fragment));
            assert(stays_tidy(m, input));
        },
        URLParseState::FileSlash => {
            assert(m.buffer =~= Seq::<char>::empty());
            assert(path_text(m.buffer, true));
            assert(file_host_text(m.buffer));
            reveal_strlit("file");
            assert(is_special_scheme(m.url.scheme));
            lemma_special_scheme_ok(m.url.scheme);
            assert(segments_read_back(Seq::<Seq<char>>::empty(), m.url));
            assert(stays_tidy(m, input));
        },
    }
}

/// A tidy machine without a base ends with a tidy URL.
pub proof fn lemma_run_tidy(m: Machine, input: Seq<char>)
    requires
        tidy(m, input),
        m.consistent(input),
        unbroken(input),
    ensures
        run(m, input, None) is Some ==> tidy_url(run(m, input, None)->0),
    decreases rank(m.state), left(input, m.pointer),
{
    lemma_step_progress(m, input, None);
    lemma_step_consistent(m, input, None);
    lemma_step_tidy(m, input);
    match step(m, input, None) {
        Outcome::Failure => {},
        Outcome::Again(n) => {
            lemma_run_tidy(n, input);
        },
        Outcome::Advance(n) => {
            if n.pointer < input.len() {
                lemma_run_tidy(n.advanced(), input);
            }
        },
    }
}

/// What is left where tabs and line ends are removed is unbroken.
pub proof fn lemma_removed_unbroken(s: Seq<char>)
    ensures
        unbroken(without_tab_or_newline(s)),
    decreases s.len(),
{
    reveal(Seq::filter);
    if s.len() > 0 {
        lemma_removed_unbroken(s.drop_last());
        let before = without_tab_or_newline(s.drop_last());
        let all = without_tab_or_newline(s);
        assert forall|i: int| 0 <= i < all.len() implies !tab_or_newline(#[trigger] all[i]) by {
            if i < before.len() {
                assert(all[i] == before[i]);
            }
        }
    }
}

/// What the parser returns without a base is tidy.
pub proof fn lemma_parsed_is_tidy(raw: Seq<char>)
    ensures
        parse_result(raw, None) is Some ==> tidy_url(parse_result(raw, None)->0),
{
    lemma_removed_unbroken(crate::url::helper::trim_end(crate::url::helper::trim_start(raw)));
    lemma_run_tidy(initial_machine(), preprocessed(raw));
}

/// Without a base, a parsed URL that has a host, which is not empty in a
/// `file` URL, and at least one path segment is canonical.
pub proof fn lemma_parsed_is_canonical(raw: Seq<char>)
    requires
        parse_result(raw, None) is Some,
        reads_back_shape(parse_result(raw, None)->0),
    ensures
        canonical(parse_result(raw, None)->0),
{
    lemma_parsed_is_tidy(raw);
    lemma_parse_well_formed(raw, None);
}

/// Parsing is idempotent: where an input parses, without a base, to a URL
/// that has a host, which is not empty in a `file` URL, and at least one
/// path segment, parsing what that URL is written as gives the same URL.
pub proof fn lemma_parse_is_idempotent(raw: Seq<char>)
    requires
        parse_result(raw, None) is Some,
        reads_back_shape(parse_result(raw, None)->0),
    ensures
        parse_result(parse_result(raw, None)->0.serialized(), None) == parse_result(raw, None),
{
    lemma_parsed_is_canonical(raw);
    lemma_parse_written(parse_result(raw, None)->0);
}

/// Without a base, every parsed URL with a special scheme other than
/// `file` has a host and at least one path segment: parsing it is
/// idempotent.
pub proof fn lemma_parse_web_is_idempotent(raw: Seq<char>)
    requires
        parse_result(raw, None) is Some,
        web_scheme(parse_result(raw, None)->0),
    ensures
        reads_back_shape(parse_result(raw, None)->0),
        parse_result(parse_result(raw, None)->0.serialized(), None) == parse_result(raw, None),
{
    lemma_parsed_is_tidy(raw);
    lemma_parse_is_idempotent(raw);
}

} // verus!
