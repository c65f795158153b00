//! Parsing what was written out.
//!
//! A URL that is [`canonical`] reads back from its written form as itself:
//! the lemmas of this module follow the machine over the written form,
//! component by component.

use crate::url::encode::{encoded_byte, encoded_bytes, encoded_text, PercentEncodeSet};
use crate::url::helper::{
    ascii_digit,
    ascii_lower,
    c0_control_or_space,
    decimal_value,
    double_dot_segment,
    normalized_windows_drive_letter,
    single_dot_segment,
    tab_or_newline,
    trim_end,
    trim_start,
    windows_drive_letter,
    without_tab_or_newline,
};
use crate::url::host_parser::{
    forbidden_host_code_point,
    has_forbidden_host_code_point,
    parsed_host,
};
use crate::url::machine::{
    code_point_at,
    initial_machine,
    parse_result,
    parsed_port,
    preprocessed,
    run,
    step,
    with_segment,
    Machine,
    Outcome,
};
use crate::url::parser::URLParseState;
use crate::url::url::{
    decimal_digits,
    default_port,
    digit_char,
    is_special_scheme,
    join_segments,
    port_text,
    prefixed,
    PathView,
    UrlView,
};
use vstd::prelude::*;
use vstd::utf8::{encode_utf8, is_ascii_chars, is_ascii_chars_encode_utf8};

verus! {

/// A printable ASCII code point that the set does not hold: percent-encoding
/// against the set leaves it as it is.
pub open spec fn plain(c: char, set: PercentEncodeSet) -> bool {
    0x21 <= c as u32 <= 0x7E && !set.holds(c as u8)
}

/// Every code point of `s` is plain for the set.
pub open spec fn all_plain(s: Seq<char>, set: PercentEncodeSet) -> bool {
    forall|i: int| 0 <= i < s.len() ==> plain(#[trigger] s[i], set)
}

/// An ASCII code point is its own byte.
pub proof fn lemma_ascii_byte(c: char)
    requires
        c as u32 <= 0x7F,
    ensures
        '\0' <= c <= '\u{7f}',
        (c as u8) as char == c,
        (c as u8) as u32 == c as u32,
{
    let u = c as u32;
    vstd::utf8::char_u32_cast(c, u);
    assert(u as char == c);
    assert(c as u8 == u as u8);
    assert((u as u8) as u32 == u);
}

/// A plain code point is an ASCII code point, and is its own byte.
proof fn lemma_plain_is_ascii(c: char, set: PercentEncodeSet)
    requires
        plain(c, set),
    ensures
        '\0' <= c <= '\u{7f}',
        (c as u8) as char == c,
        (c as u8) as u32 == c as u32,
{
    lemma_ascii_byte(c);
}

/// Bytes that stand for plain code points encode to those code points.
proof fn lemma_encoded_plain_bytes(bytes: Seq<u8>, s: Seq<char>, set: PercentEncodeSet)
    requires
        bytes.len() == s.len(),
        forall|i: int| 0 <= i < s.len() ==> s[i] as u8 == #[trigger] bytes[i],
        all_plain(s, set),
    ensures
        encoded_bytes(bytes, set, false) == s,
    decreases bytes.len(),
{
    if bytes.len() == 0 {
        assert(s =~= Seq::<char>::empty());
    } else {
        let n = bytes.len() - 1;
        lemma_encoded_plain_bytes(bytes.drop_last(), s.drop_last(), set);
        assert(plain(s[n], set));
        assert(bytes[n] == s[n] as u8);
        lemma_plain_is_ascii(s[n], set);
        assert(encoded_byte(bytes[n], set, false) =~= seq![s[n]]);
        assert(s =~= s.drop_last() + seq![s[n]]);
    }
}

/// Percent-encoding leaves a text of plain code points as it is.
pub proof fn lemma_encoded_plain_text(s: Seq<char>, set: PercentEncodeSet)
    requires
        all_plain(s, set),
    ensures
        encoded_text(s, set) == s,
{
    assert(is_ascii_chars(s)) by {
        assert forall|i: int| 0 <= i < s.len() implies '\0' <= #[trigger] s[i] <= '\u{7f}' by {
            assert(plain(s[i], set));
            lemma_plain_is_ascii(s[i], set);
        }
    }
    is_ascii_chars_encode_utf8(s);
    lemma_encoded_plain_bytes(encode_utf8(s), s, set);
}

/// Percent-encoding leaves a plain code point as it is.
pub proof fn lemma_encoded_plain_char(c: char, set: PercentEncodeSet)
    requires
        plain(c, set),
    ensures
        encoded_text(seq![c], set) == seq![c],
{
    lemma_encoded_plain_text(seq![c], set);
}

/// What `run` does in one step.
pub proof fn lemma_run_unfolds(m: Machine, input: Seq<char>, base: Option<UrlView>)
    ensures
        run(m, input, base) == match step(m, input, base) {
            Outcome::Failure => None::<UrlView>,
            Outcome::Again(n) => run(n, input, base),
            Outcome::Advance(n) => if n.pointer >= input.len() {
                Some(n.url)
            } else {
                run(n.advanced(), input, base)
            },
        },
{
}

/// The fragment state takes every code point to the end of input; plain
/// ones go into the fragment as they are.
pub proof fn lemma_fragment_scan(m: Machine, input: Seq<char>, f: Seq<char>)
    requires
        m.state == URLParseState::Fragment,
        m.url.fragment is Some,
        0 <= m.pointer,
        input.skip(m.pointer) == f,
        m.pointer <= input.len(),
        all_plain(f, PercentEncodeSet::Fragment),
    ensures
        run(m, input, None) == Some(
            UrlView { fragment: Some(m.url.fragment->0 + f), ..m.url },
        ),
    decreases f.len(),
{
    lemma_run_unfolds(m, input, None);
    if f.len() == 0 {
        assert(m.pointer == input.len());
        assert(m.url.fragment->0 + f =~= m.url.fragment->0);
    } else {
        let c = input[m.pointer];
        assert(c == f[0]);
        assert(plain(f[0], PercentEncodeSet::Fragment));
        lemma_encoded_plain_char(c, PercentEncodeSet::Fragment);
        let n = Machine {
            url: UrlView { fragment: Some(m.url.fragment->0 + seq![c]), ..m.url },
            ..m
        };
        assert(step(m, input, None) == Outcome::Advance(n));
        let rest = f.drop_first();
        assert(input.skip(m.pointer + 1) =~= rest);
        assert forall|i: int| 0 <= i < rest.len() implies plain(
            #[trigger] rest[i],
            PercentEncodeSet::Fragment,
        ) by {
            assert(rest[i] == f[i + 1]);
        }
        lemma_fragment_scan(n.advanced(), input, rest);
        assert(m.url.fragment->0 + seq![c] + rest =~= m.url.fragment->0 + f);
    }
}

/// Where the input from `p` on is `x` and then `rest`, and `x` is not
/// empty, the code point at `p` is the first of `x`, and the input from the
/// next place on is the rest of `x` and then `rest`.
pub proof fn lemma_skip_head(input: Seq<char>, p: int, x: Seq<char>, rest: Seq<char>)
    requires
        0 <= p <= input.len(),
        input.skip(p) == x + rest,
        x.len() > 0,
    ensures
        p < input.len(),
        code_point_at(input, p) == Some(x[0]),
        input.skip(p + 1) == x.drop_first() + rest,
{
    assert(input.skip(p).len() == x.len() + rest.len());
    assert(input.skip(p)[0] == x[0]);
    assert(input.skip(p + 1) =~= input.skip(p).drop_first());
    assert((x + rest).drop_first() =~= x.drop_first() + rest);
}

/// The set against which the query of a URL is percent-encoded.
pub open spec fn query_set(special: bool) -> PercentEncodeSet {
    if special {
        PercentEncodeSet::SpecialQuery
    } else {
        PercentEncodeSet::Query
    }
}

/// The query state collects plain code points up to `#` or the end of
/// input; they become the query as they are, and the fragment follows.
pub proof fn lemma_query_scan(
    m: Machine,
    input: Seq<char>,
    q: Seq<char>,
    fragment: Option<Seq<char>>,
)
    requires
        m.state == URLParseState::Query,
        m.url.query is Some,
        m.url.fragment is None,
        0 <= m.pointer <= input.len(),
        input.skip(m.pointer) == q + prefixed(seq!['#'], fragment),
        all_plain(m.buffer, query_set(m.url.is_special())),
        all_plain(q, query_set(m.url.is_special())),
        fragment is Some ==> all_plain(fragment->0, PercentEncodeSet::Fragment),
    ensures
        run(m, input, None) == Some(
            UrlView { query: Some(m.url.query->0 + m.buffer + q), fragment, ..m.url },
        ),
    decreases q.len(),
{
    lemma_run_unfolds(m, input, None);
    let tail = prefixed(seq!['#'], fragment);
    if q.len() == 0 {
        assert(q + tail =~= tail);
        lemma_encoded_plain_text(m.buffer, query_set(m.url.is_special()));
        assert(m.url.query->0 + m.buffer + q =~= m.url.query->0 + m.buffer);
        match fragment {
            Some(f) => {
                assert(tail =~= seq!['#'] + f);
                lemma_skip_head(input, m.pointer, seq!['#'], f);
                assert(seq!['#'].drop_first() + f =~= f);
                let n = Machine {
                    url: UrlView {
                        query: Some(m.url.query->0 + m.buffer),
                        fragment: Some(Seq::empty()),
                        ..m.url
                    },
                    buffer: Seq::empty(),
                    state: URLParseState::Fragment,
                    ..m
                };
                assert(step(m, input, None) == Outcome::Advance(n));
                lemma_fragment_scan(n.advanced(), input, f);
                assert(Seq::<char>::empty() + f =~= f);
            },
            None => {
                assert(input.skip(m.pointer).len() == 0);
                assert(m.pointer == input.len());
            },
        }
    } else {
        lemma_skip_head(input, m.pointer, q, tail);
        let c = q[0];
        assert(plain(c, query_set(m.url.is_special())));
        assert(c != '#');
        let n = Machine { buffer: m.buffer.push(c), ..m };
        assert(step(m, input, None) == Outcome::Advance(n));
        let rest = q.drop_first();
        assert forall|i: int| 0 <= i < rest.len() implies plain(
            #[trigger] rest[i],
            query_set(m.url.is_special()),
        ) by {
            assert(rest[i] == q[i + 1]);
        }
        assert forall|i: int| 0 <= i < n.buffer.len() implies plain(
            #[trigger] n.buffer[i],
            query_set(m.url.is_special()),
        ) by {
            if i < m.buffer.len() {
                assert(n.buffer[i] == m.buffer[i]);
            }
        }
        lemma_query_scan(n.advanced(), input, rest, fragment);
        assert(m.url.query->0 + n.buffer + rest =~= m.url.query->0 + m.buffer + q);
    }
}

/// A segment as the parser leaves it: plain code points that are no
/// separators (`/`, and `\` in a special URL), and no dot segment.
pub open spec fn segment_ok(s: Seq<char>, special: bool) -> bool {
    &&& all_plain(s, PercentEncodeSet::Path)
    &&& forall|i: int| 0 <= i < s.len() ==> #[trigger] s[i] != '/' && (special ==> s[i] != '\\')
    &&& !single_dot_segment(s)
    &&& !double_dot_segment(s)
}

/// Every segment is as the parser leaves it, and a `file` URL does not
/// open with a drive letter that is not normalized.
pub open spec fn segments_read_back(segments: Seq<Seq<char>>, url: UrlView) -> bool {
    &&& forall|i: int|
        0 <= i < segments.len() ==> segment_ok(#[trigger] segments[i], url.is_special())
    &&& url.scheme == "file"@ && segments.len() >= 1 && windows_drive_letter(segments[0])
        ==> normalized_windows_drive_letter(segments[0])
}

/// `/` and a segment, for each segment from number `k` on.
pub open spec fn tail_text(segments: Seq<Seq<char>>, k: int) -> Seq<char>
    decreases segments.len() - k,
{
    if k < 0 || k >= segments.len() {
        Seq::empty()
    } else {
        seq!['/'] + segments[k] + tail_text(segments, k + 1)
    }
}

/// What follows the path in a written URL: `?` and the query, `#` and the
/// fragment, where there are any.
pub open spec fn after_path(query: Option<Seq<char>>, fragment: Option<Seq<char>>) -> Seq<char> {
    prefixed(seq!['?'], query) + prefixed(seq!['#'], fragment)
}

/// The path state collects the segments one by one, and the query and the
/// fragment follow.
pub proof fn lemma_path_scan(
    m: Machine,
    input: Seq<char>,
    segments: Seq<Seq<char>>,
    k: int,
    j: int,
    query: Option<Seq<char>>,
    fragment: Option<Seq<char>>,
)
    requires
        m.state == URLParseState::Path,
        m.url.query is None,
        m.url.fragment is None,
        0 <= k < segments.len(),
        0 <= j <= segments[k].len(),
        m.url.path == PathView::List(segments.take(k)),
        m.buffer == segments[k].take(j),
        0 <= m.pointer <= input.len(),
        input.skip(m.pointer) == segments[k].skip(j) + (tail_text(segments, k + 1) + after_path(
            query,
            fragment,
        )),
        segments_read_back(segments, m.url),
        query is Some ==> all_plain(query->0, query_set(m.url.is_special())),
        fragment is Some ==> all_plain(fragment->0, PercentEncodeSet::Fragment),
    ensures
        run(m, input, None) == Some(
            UrlView { path: PathView::List(segments), query, fragment, ..m.url },
        ),
    decreases segments.len() - k, segments[k].len() - j, 1int,
{
    let seg = segments[k];
    let after = tail_text(segments, k + 1) + after_path(query, fragment);
    assert(segment_ok(seg, m.url.is_special()));
    if j < seg.len() {
        lemma_run_unfolds(m, input, None);
        lemma_skip_head(input, m.pointer, seg.skip(j), after);
        let c = seg[j];
        assert(seg.skip(j)[0] == c);
        assert(plain(c, PercentEncodeSet::Path));
        assert(c != '/' && (m.url.is_special() ==> c != '\\'));
        assert(c != '?' && c != '#');
        lemma_encoded_plain_char(c, PercentEncodeSet::Path);
        let n = Machine { buffer: m.buffer + seq![c], ..m };
        assert(step(m, input, None) == Outcome::Advance(n));
        assert(n.buffer =~= seg.take(j + 1));
        assert(seg.skip(j).drop_first() =~= seg.skip(j + 1));
        lemma_path_scan(n.advanced(), input, segments, k, j + 1, query, fragment);
    } else {
        assert(seg.take(j) =~= seg);
        assert(seg.skip(j) + after =~= after);
        lemma_segment_end(m, input, segments, k, query, fragment);
    }
}

/// The URL after the segment with number `k` has ended.
pub open spec fn with_segments(url: UrlView, segments: Seq<Seq<char>>, k: int) -> UrlView {
    UrlView { path: PathView::List(segments.take(k + 1)), ..url }
}

/// Ending a segment that reads back adds it to the path as it is.
proof fn lemma_segment_added(url: UrlView, segments: Seq<Seq<char>>, k: int, at_slash: bool)
    requires
        0 <= k < segments.len(),
        url.path == PathView::List(segments.take(k)),
        segments_read_back(segments, url),
    ensures
        with_segment(url, segments[k], at_slash) == with_segments(url, segments, k),
{
    let seg = segments[k];
    assert(segment_ok(seg, url.is_special()));
    assert(segments.take(k).push(seg) =~= segments.take(k + 1));
    assert(url.path.is_empty() == (k == 0));
    if url.scheme == "file"@ && k == 0 && windows_drive_letter(seg) {
        assert(normalized_windows_drive_letter(segments[0]));
        assert(seq![seg[0], ':'] =~= seg);
    }
}

/// At the end of a segment the path state adds it to the path and goes on
/// with the next segment, the query, the fragment, or the end of input.
proof fn lemma_segment_end(
    m: Machine,
    input: Seq<char>,
    segments: Seq<Seq<char>>,
    k: int,
    query: Option<Seq<char>>,
    fragment: Option<Seq<char>>,
)
    requires
        m.state == URLParseState::Path,
        m.url.query is None,
        m.url.fragment is None,
        0 <= k < segments.len(),
        m.url.path == PathView::List(segments.take(k)),
        m.buffer == segments[k],
        0 <= m.pointer <= input.len(),
        input.skip(m.pointer) == tail_text(segments, k + 1) + after_path(query, fragment),
        segments_read_back(segments, m.url),
        query is Some ==> all_plain(query->0, query_set(m.url.is_special())),
        fragment is Some ==> all_plain(fragment->0, PercentEncodeSet::Fragment),
    ensures
        run(m, input, None) == Some(
            UrlView { path: PathView::List(segments), query, fragment, ..m.url },
        ),
    decreases segments.len() - k, 0int, 0int,
{
    lemma_run_unfolds(m, input, None);
    let after = tail_text(segments, k + 1) + after_path(query, fragment);
    let grown = with_segments(m.url, segments, k);
    lemma_segment_added(m.url, segments, k, true);
    lemma_segment_added(m.url, segments, k, false);
    if k + 1 < segments.len() {
        let next = segments[k + 1];
        let further = tail_text(segments, k + 2) + after_path(query, fragment);
        assert(after =~= seq!['/'] + (next + further));
        lemma_skip_head(input, m.pointer, seq!['/'], next + further);
        assert(seq!['/'].drop_first() + (next + further) =~= next.skip(0) + further);
        let n = Machine { url: grown, buffer: Seq::empty(), ..m };
        assert(step(m, input, None) == Outcome::Advance(n));
        assert(next.take(0) =~= Seq::<char>::empty());
        lemma_path_scan(n.advanced(), input, segments, k + 1, 0, query, fragment);
    } else {
        assert(segments.take(k + 1) =~= segments);
        assert(tail_text(segments, k + 1) =~= Seq::<char>::empty());
        assert(after =~= after_path(query, fragment));
        lemma_last_segment_end(m, input, grown, query, fragment);
    }
}

/// At the end of the last segment the path state goes on with the query,
/// the fragment, or the end of input.
proof fn lemma_last_segment_end(
    m: Machine,
    input: Seq<char>,
    grown: UrlView,
    query: Option<Seq<char>>,
    fragment: Option<Seq<char>>,
)
    requires
        m.state == URLParseState::Path,
        m.url.query is None,
        m.url.fragment is None,
        with_segment(m.url, m.buffer, false) == grown,
        grown == (UrlView { path: grown.path, ..m.url }),
        0 <= m.pointer <= input.len(),
        input.skip(m.pointer) == after_path(query, fragment),
        query is Some ==> all_plain(query->0, query_set(m.url.is_special())),
        fragment is Some ==> all_plain(fragment->0, PercentEncodeSet::Fragment),
    ensures
        run(m, input, None) == Some(UrlView { query, fragment, ..grown }),
{
    lemma_run_unfolds(m, input, None);
    let after = after_path(query, fragment);
    match query {
        Some(q) => {
            let tail = prefixed(seq!['#'], fragment);
            assert(after =~= seq!['?'] + (q + tail));
            lemma_skip_head(input, m.pointer, seq!['?'], q + tail);
            assert(seq!['?'].drop_first() + (q + tail) =~= q + tail);
            let n = Machine {
                url: UrlView { query: Some(Seq::empty()), ..grown },
                buffer: Seq::empty(),
                state: URLParseState::Query,
                ..m
            };
            assert(step(m, input, None) == Outcome::Advance(n));
            assert(all_plain(Seq::<char>::empty(), query_set(m.url.is_special())));
            lemma_query_scan(n.advanced(), input, q, fragment);
            assert(Seq::<char>::empty() + Seq::<char>::empty() + q =~= q);
        },
        None => {
            match fragment {
                Some(f) => {
                    assert(after =~= seq!['#'] + f);
                    lemma_skip_head(input, m.pointer, seq!['#'], f);
                    assert(seq!['#'].drop_first() + f =~= f);
                    let n = Machine {
                        url: UrlView { fragment: Some(Seq::empty()), ..grown },
                        buffer: Seq::empty(),
                        state: URLParseState::Fragment,
                        ..m
                    };
                    assert(step(m, input, None) == Outcome::Advance(n));
                    lemma_fragment_scan(n.advanced(), input, f);
                    assert(Seq::<char>::empty() + f =~= f);
                },
                None => {
                    assert(after =~= Seq::<char>::empty());
                    assert(input.skip(m.pointer).len() == 0);
                    assert(m.pointer == input.len());
                    let n = Machine { url: grown, buffer: Seq::empty(), ..m };
                    assert(step(m, input, None) == Outcome::Advance(n));
                },
            }
        },
    }
}

/// The path-start state steps over the `/` that opens
/// the path.
pub proof fn lemma_path_start(
    m: Machine,
    input: Seq<char>,
    segments: Seq<Seq<char>>,
    query: Option<Seq<char>>,
    fragment: Option<Seq<char>>,
)
    requires
        m.state == URLParseState::PathStart,
        m.url.query is None,
        m.url.fragment is None,
        m.url.path == PathView::List(Seq::empty()),
        m.buffer.len() == 0,
        segments.len() >= 1,
        0 <= m.pointer <= input.len(),
        input.skip(m.pointer) == tail_text(segments, 0) + after_path(query, fragment),
        segments_read_back(segments, m.url),
        query is Some ==> all_plain(query->0, query_set(m.url.is_special())),
        fragment is Some ==> all_plain(fragment->0, PercentEncodeSet::Fragment),
    ensures
        run(m, input, None) == Some(
            UrlView { path: PathView::List(segments), query, fragment, ..m.url },
        ),
{
    lemma_run_unfolds(m, input, None);
    let first = segments[0];
    let further = tail_text(segments, 1) + after_path(query, fragment);
    assert(tail_text(segments, 0) + after_path(query, fragment) =~= seq!['/'] + (first + further));
    lemma_skip_head(input, m.pointer, seq!['/'], first + further);
    assert(seq!['/'].drop_first() + (first + further) =~= first.skip(0) + further);
    let n = Machine { state: URLParseState::Path, ..m };
    assert(step(m, input, None) == Outcome::Advance(n));
    assert(segments.take(0) =~= Seq::<Seq<char>>::empty());
    assert(n.advanced().buffer =~= first.take(0));
    lemma_path_scan(n.advanced(), input, segments, 0, 0, query, fragment);
}

/// The digits of a number are digits, and their value is the number.
pub proof fn lemma_decimal_digits(n: nat)
    ensures
        decimal_digits(n).len() >= 1,
        forall|i: int| 0 <= i < decimal_digits(n).len() ==> ascii_digit(
            #[trigger] decimal_digits(n)[i],
        ),
        decimal_value(decimal_digits(n)) == n,
    decreases n,
{
    let d = decimal_digits(n);
    if n < 10 {
        assert(d =~= seq![digit_char(n)]);
        assert(d.drop_last() =~= Seq::<char>::empty());
        assert(decimal_value(d.drop_last()) == 0);
        assert(d.last() == digit_char(n));
        assert(digit_char(n) as u32 == 0x30 + n);
    } else {
        lemma_decimal_digits(n / 10);
        let before = decimal_digits(n / 10);
        assert(d == before.push(digit_char(n % 10)));
        assert(d.drop_last() =~= before);
        assert(d.last() == digit_char(n % 10));
        assert(digit_char(n % 10) as u32 == 0x30 + n % 10);
        assert forall|i: int| 0 <= i < d.len() implies ascii_digit(#[trigger] d[i]) by {
            if i < before.len() {
                assert(d[i] == before[i]);
            }
        }
    }
}

/// The port state collects digits up to the `/` that opens the path, and
/// keeps the port that they denote where it is not the scheme's default.
pub proof fn lemma_port_scan(
    m: Machine,
    input: Seq<char>,
    digits: Seq<char>,
    j: int,
    rest: Seq<char>,
    port: u16,
)
    requires
        m.state == URLParseState::Port,
        0 <= j <= digits.len(),
        digits.len() >= 1,
        m.buffer == digits.take(j),
        0 <= m.pointer <= input.len(),
        input.skip(m.pointer) == digits.skip(j) + rest,
        rest.len() > 0,
        rest[0] == '/',
        forall|i: int| 0 <= i < digits.len() ==> ascii_digit(#[trigger] digits[i]),
        decimal_value(digits) == port,
        default_port(m.url.scheme) != Some(port),
    ensures
        run(m, input, None) == run(
            Machine {
                url: UrlView { port: Some(port), ..m.url },
                buffer: Seq::empty(),
                state: URLParseState::PathStart,
                pointer: m.pointer + digits.len() - j,
                ..m
            },
            input,
            None,
        ),
    decreases digits.len() - j,
{
    lemma_run_unfolds(m, input, None);
    if j < digits.len() {
        lemma_skip_head(input, m.pointer, digits.skip(j), rest);
        let c = digits[j];
        assert(digits.skip(j)[0] == c);
        assert(ascii_digit(c));
        let n = Machine { buffer: m.buffer.push(c), ..m };
        assert(step(m, input, None) == Outcome::Advance(n));
        assert(n.buffer =~= digits.take(j + 1));
        assert(digits.skip(j).drop_first() =~= digits.skip(j + 1));
        lemma_port_scan(n.advanced(), input, digits, j + 1, rest, port);
    } else {
        assert(digits.take(j) =~= digits);
        assert(digits.skip(j) + rest =~= rest);
        lemma_skip_head(input, m.pointer, rest, Seq::empty());
        assert(rest + Seq::<char>::empty() =~= rest);
        assert(code_point_at(input, m.pointer) == Some('/'));
        assert(parsed_port(digits) == Some(port));
    }
}

/// A host as the parser leaves it where it is no address literal: printable
/// ASCII code points, none of them forbidden in a host, at least one.
pub open spec fn host_ok(h: Seq<char>) -> bool {
    &&& h.len() >= 1
    &&& forall|i: int|
        0 <= i < h.len() ==> 0x21 <= (#[trigger] h[i]) as u32 <= 0x7E && !forbidden_host_code_point(
            h[i],
        )
}

/// A host that is `host_ok` parses as itself.
pub proof fn lemma_host_ok_parses(h: Seq<char>)
    requires
        host_ok(h),
    ensures
        parsed_host(h) == Some(h),
{
    assert(!forbidden_host_code_point(h[0]));
    assert(h[0] != '[');
    assert(!has_forbidden_host_code_point(h));
    assert forall|i: int| 0 <= i < h.len() implies plain(
        #[trigger] h[i],
        PercentEncodeSet::C0Control,
    ) by {
        lemma_ascii_byte(h[i]);
    }
    lemma_encoded_plain_text(h, PercentEncodeSet::C0Control);
}

/// Whether the code point at `i` of `h` stands inside brackets: the last
/// bracket before it, if any, is an opening one.
pub open spec fn inside(h: Seq<char>, i: int) -> bool
    decreases i,
{
    if i <= 0 || i > h.len() {
        false
    } else if h[i - 1] == '[' {
        true
    } else if h[i - 1] == ']' {
        false
    } else {
        inside(h, i - 1)
    }
}

/// Whether brackets are open at a place depends on what stands before the
/// place only.
pub proof fn lemma_inside_prefix(h: Seq<char>, g: Seq<char>, i: int)
    requires
        0 <= i <= h.len(),
        i <= g.len(),
        forall|k: int| 0 <= k < i ==> h[k] == g[k],
    ensures
        inside(h, i) == inside(g, i),
    decreases i,
{
    if i > 0 {
        lemma_inside_prefix(h, g, i - 1);
    }
}

/// A text that can stand as a host in an authority: nothing in it ends the
/// authority (`/`, `?`, `#`, and `\` in a special URL), it holds no `@`
/// and no tab, line feed or carriage return, and every `:` in it stands
/// inside brackets.
pub open spec fn host_text(h: Seq<char>, special: bool) -> bool {
    forall|i: int|
        0 <= i < h.len() ==> {
            let c = #[trigger] h[i];
            &&& c != '/'
            &&& c != '?'
            &&& c != '#'
            &&& (special ==> c != '\\')
            &&& c != '@'
            &&& !tab_or_newline(c)
            &&& (c == ':' ==> inside(h, i))
        }
}

/// A host as the parser leaves it: a host text that closes the brackets it
/// opens, that the host parser leaves as it is, and that is not empty in
/// a special URL.
pub open spec fn host_reads_back(h: Seq<char>, special: bool) -> bool {
    &&& special ==> h.len() >= 1
    &&& host_text(h, special)
    &&& !inside(h, h.len() as int)
    &&& parsed_host(h) == Some(h)
}

/// The empty host reads back where the URL is not special.
pub proof fn lemma_empty_host_reads_back()
    ensures
        host_reads_back(Seq::empty(), false),
{
    let h = Seq::<char>::empty();
    assert(!has_forbidden_host_code_point(h));
    assert(all_plain(h, PercentEncodeSet::C0Control));
    lemma_encoded_plain_text(h, PercentEncodeSet::C0Control);
}

/// Brackets are never open in a text without brackets.
pub proof fn lemma_no_brackets(h: Seq<char>, i: int)
    requires
        0 <= i <= h.len(),
        forall|k: int| 0 <= k < h.len() ==> #[trigger] h[k] != '[',
    ensures
        !inside(h, i),
    decreases i,
{
    if i > 0 {
        lemma_no_brackets(h, i - 1);
    }
}

/// A host that is `host_ok` reads back.
pub proof fn lemma_plain_host_reads_back(h: Seq<char>, special: bool)
    requires
        host_ok(h),
    ensures
        host_reads_back(h, special),
{
    lemma_host_ok_parses(h);
    assert forall|k: int| 0 <= k < h.len() implies #[trigger] h[k] != '[' by {
        assert(!forbidden_host_code_point(h[k]));
    }
    lemma_no_brackets(h, h.len() as int);
    assert forall|i: int| 0 <= i < h.len() implies {
        let c = #[trigger] h[i];
        &&& c != '/'
        &&& c != '?'
        &&& c != '#'
        &&& (special ==> c != '\\')
        &&& c != '@'
        &&& !tab_or_newline(c)
        &&& (c == ':' ==> inside(h, i))
    } by {
        assert(!forbidden_host_code_point(h[i]));
    }
}

/// The host state collects the host up to `:` or the `/` that opens the
/// path.
pub proof fn lemma_host_scan(m: Machine, input: Seq<char>, h: Seq<char>, j: int, rest: Seq<char>)
    requires
        m.state == URLParseState::Host,
        host_reads_back(h, m.url.is_special()),
        0 <= j <= h.len(),
        m.buffer == h.take(j),
        m.inside_brackets == inside(h, j),
        0 <= m.pointer <= input.len(),
        input.skip(m.pointer) == h.skip(j) + rest,
        rest.len() > 0,
        rest[0] == '/' || (rest[0] == ':' && h.len() >= 1),
    ensures
        run(m, input, None) == run(
            Machine {
                url: UrlView { host: Some(h), ..m.url },
                buffer: Seq::empty(),
                inside_brackets: false,
                state: if rest[0] == ':' {
                    URLParseState::Port
                } else {
                    URLParseState::PathStart
                },
                pointer: if rest[0] == ':' {
                    m.pointer + h.len() - j + 1
                } else {
                    m.pointer + h.len() - j
                },
                ..m
            },
            input,
            None,
        ),
    decreases h.len() - j,
{
    lemma_run_unfolds(m, input, None);
    if j < h.len() {
        lemma_skip_head(input, m.pointer, h.skip(j), rest);
        let c = h[j];
        assert(h.skip(j)[0] == c);
        let n = Machine { inside_brackets: inside(h, j + 1), buffer: m.buffer.push(c), ..m };
        assert(step(m, input, None) == Outcome::Advance(n));
        assert(n.buffer =~= h.take(j + 1));
        assert(h.skip(j).drop_first() =~= h.skip(j + 1));
        lemma_host_scan(n.advanced(), input, h, j + 1, rest);
    } else {
        assert(h.take(j) =~= h);
        assert(h.skip(j) + rest =~= rest);
        lemma_skip_head(input, m.pointer, rest, Seq::empty());
        assert(rest + Seq::<char>::empty() =~= rest);
        if rest[0] == ':' {
            let n = Machine {
                url: UrlView { host: Some(h), ..m.url },
                buffer: Seq::empty(),
                state: URLParseState::Port,
                ..m
            };
            assert(step(m, input, None) == Outcome::Advance(n));
        } else {
            let n = Machine {
                url: UrlView { host: Some(h), ..m.url },
                buffer: Seq::empty(),
                state: URLParseState::PathStart,
                ..m
            };
            assert(step(m, input, None) == Outcome::Again(n));
        }
    }
}

/// No `@` and nothing that ends an authority.
pub open spec fn authority_text(a: Seq<char>, special: bool) -> bool {
    forall|i: int|
        0 <= i < a.len() ==> (#[trigger] a[i]) != '@' && a[i] != '/' && a[i] != '?' && a[i] != '#'
            && (special ==> a[i] != '\\')
}

/// The authority state reads to the `/` that opens the path and then goes
/// back to where the authority began.
pub proof fn lemma_authority_scan(
    m: Machine,
    input: Seq<char>,
    a: Seq<char>,
    j: int,
    rest: Seq<char>,
)
    requires
        m.state == URLParseState::Authority,
        !m.at_sign_seen,
        authority_text(a, m.url.is_special()),
        0 <= j <= a.len(),
        m.buffer == a.take(j),
        j <= m.pointer <= input.len(),
        input.skip(m.pointer) == a.skip(j) + rest,
        rest.len() > 0,
        rest[0] == '/',
    ensures
        run(m, input, None) == run(
            Machine {
                buffer: Seq::empty(),
                state: URLParseState::Host,
                pointer: m.pointer - j,
                ..m
            },
            input,
            None,
        ),
    decreases a.len() - j,
{
    lemma_run_unfolds(m, input, None);
    if j < a.len() {
        lemma_skip_head(input, m.pointer, a.skip(j), rest);
        let c = a[j];
        assert(a.skip(j)[0] == c);
        let n = Machine { buffer: m.buffer.push(c), ..m };
        assert(step(m, input, None) == Outcome::Advance(n));
        assert(n.buffer =~= a.take(j + 1));
        assert(a.skip(j).drop_first() =~= a.skip(j + 1));
        lemma_authority_scan(n.advanced(), input, a, j + 1, rest);
    } else {
        assert(a.take(j) =~= a);
        assert(a.skip(j) + rest =~= rest);
        lemma_skip_head(input, m.pointer, rest, Seq::empty());
        assert(rest + Seq::<char>::empty() =~= rest);
        let n = Machine {
            pointer: m.pointer - (m.buffer.len() + 1),
            buffer: Seq::empty(),
            state: URLParseState::Host,
            ..m
        };
        assert(step(m, input, None) == Outcome::Advance(n));
        assert(n.pointer < input.len());
    }
}

/// A scheme as the parser leaves it: a lower-case letter, then lower-case
/// letters, digits, `+`, `-` and `.`.
pub open spec fn scheme_ok(s: Seq<char>) -> bool {
    &&& s.len() >= 1
    &&& 'a' <= s[0] <= 'z'
    &&& forall|i: int|
        0 <= i < s.len() ==> {
            let c = #[trigger] s[i];
            ('a' <= c <= 'z') || ascii_digit(c) || c == '+' || c == '-' || c == '.'
        }
}

/// The scheme state collects the scheme up to `:`.
pub proof fn lemma_scheme_scan(m: Machine, input: Seq<char>, s: Seq<char>, j: int, rest: Seq<char>)
    requires
        m.state == URLParseState::Scheme,
        scheme_ok(s),
        1 <= j <= s.len(),
        m.buffer == s.take(j),
        0 <= m.pointer <= input.len(),
        input.skip(m.pointer) == s.skip(j) + rest,
    ensures
        run(m, input, None) == run(
            Machine { buffer: s, pointer: m.pointer + s.len() - j, ..m },
            input,
            None,
        ),
    decreases s.len() - j,
{
    if j < s.len() {
        lemma_run_unfolds(m, input, None);
        lemma_skip_head(input, m.pointer, s.skip(j), rest);
        let c = s[j];
        assert(s.skip(j)[0] == c);
        assert(ascii_lower(c) == c);
        let n = Machine { buffer: m.buffer.push(c), ..m };
        assert(step(m, input, None) == Outcome::Advance(n));
        assert(n.buffer =~= s.take(j + 1));
        assert(s.skip(j).drop_first() =~= s.skip(j + 1));
        lemma_scheme_scan(n.advanced(), input, s, j + 1, rest);
    } else {
        assert(s.take(j) =~= s);
    }
}

/// Where the input from `p` on is `x` and then `rest`, the input from
/// behind `x` on is `rest`.
pub proof fn lemma_skip_past(input: Seq<char>, p: int, x: Seq<char>, rest: Seq<char>)
    requires
        0 <= p <= input.len(),
        input.skip(p) == x + rest,
    ensures
        p + x.len() <= input.len(),
        input.skip(p + x.len()) == rest,
{
    assert(input.skip(p).len() == x.len() + rest.len());
    assert(input.skip(p + x.len()) =~= input.skip(p).skip(x.len() as int));
    assert((x + rest).skip(x.len() as int) =~= rest);
}

/// A list that opens with `first` and goes on with at least one more
/// segment joins to `first`, `/`, and what the others join to.
pub proof fn lemma_join_first(segments: Seq<Seq<char>>)
    requires
        segments.len() >= 2,
    ensures
        join_segments(segments) == segments[0] + seq!['/'] + join_segments(segments.drop_first()),
    decreases segments.len(),
{
    let rest = segments.drop_first();
    if segments.len() == 2 {
        assert(segments.drop_last() =~= seq![segments[0]]);
        assert(join_segments(segments.drop_last()) == segments[0]);
        assert(join_segments(rest) == segments[1]);
        assert(join_segments(segments) =~= segments[0] + seq!['/'] + segments[1]);
    } else {
        lemma_join_first(segments.drop_last());
        assert(segments.drop_last().drop_first() =~= rest.drop_last());
        assert(segments.drop_last()[0] == segments[0]);
        assert(rest.last() == segments.last());
        assert(join_segments(rest) == join_segments(rest.drop_last()).push('/') + rest.last());
        assert(join_segments(segments) =~= segments[0] + seq!['/'] + join_segments(rest));
    }
}

/// `/` and the joined segments from number `k` on are the tail text from `k` on.
pub proof fn lemma_tail_text(segments: Seq<Seq<char>>, k: int)
    requires
        0 <= k < segments.len(),
    ensures
        tail_text(segments, k) == seq!['/'] + join_segments(segments.skip(k)),
    decreases segments.len() - k,
{
    let from = segments.skip(k);
    if k == segments.len() - 1 {
        assert(from =~= seq![segments[k]]);
        assert(tail_text(segments, k + 1) =~= Seq::<char>::empty());
        assert(tail_text(segments, k) =~= seq!['/'] + segments[k]);
    } else {
        lemma_tail_text(segments, k + 1);
        lemma_join_first(from);
        assert(from.drop_first() =~= segments.skip(k + 1));
        assert(from[0] == segments[k]);
        assert(tail_text(segments, k) =~= seq!['/'] + join_segments(from));
    }
}

/// Every code point is a printable ASCII code point.
pub open spec fn printable(s: Seq<char>) -> bool {
    forall|i: int| 0 <= i < s.len() ==> 0x21 <= (#[trigger] s[i]) as u32 <= 0x7E
}

/// Two printable texts make a printable text.
pub proof fn lemma_printable_add(a: Seq<char>, b: Seq<char>)
    requires
        printable(a),
        printable(b),
    ensures
        printable(a + b),
{
    assert forall|i: int| 0 <= i < (a + b).len() implies 0x21 <= (#[trigger] (a + b)[i]) as u32
        <= 0x7E by {
        if i < a.len() {
            assert((a + b)[i] == a[i]);
        } else {
            assert((a + b)[i] == b[i - a.len()]);
        }
    }
}

/// The tail text of plain segments is printable.
pub proof fn lemma_tail_text_printable(segments: Seq<Seq<char>>, k: int, special: bool)
    requires
        0 <= k <= segments.len(),
        forall|i: int| 0 <= i < segments.len() ==> segment_ok(#[trigger] segments[i], special),
    ensures
        printable(tail_text(segments, k)),
    decreases segments.len() - k,
{
    if k < segments.len() {
        lemma_tail_text_printable(segments, k + 1, special);
        assert(segment_ok(segments[k], special));
        assert(printable(segments[k])) by {
            assert forall|i: int| 0 <= i < segments[k].len() implies 0x21 <= (
            #[trigger] segments[k][i]) as u32 <= 0x7E by {
                assert(plain(segments[k][i], PercentEncodeSet::Path));
            }
        }
        assert(printable(seq!['/']));
        lemma_printable_add(seq!['/'], segments[k]);
        lemma_printable_add(seq!['/'] + segments[k], tail_text(segments, k + 1));
    }
}

/// Plain text is printable.
pub proof fn lemma_plain_printable(s: Seq<char>, set: PercentEncodeSet)
    requires
        all_plain(s, set),
    ensures
        printable(s),
{
    assert forall|i: int| 0 <= i < s.len() implies 0x21 <= (#[trigger] s[i]) as u32 <= 0x7E by {
        assert(plain(s[i], set));
    }
}

/// No code point is a tab, a line feed or a carriage return.
pub open spec fn unbroken(s: Seq<char>) -> bool {
    forall|i: int| 0 <= i < s.len() ==> !tab_or_newline(#[trigger] s[i])
}

/// A printable text is unbroken.
pub proof fn lemma_printable_unbroken(s: Seq<char>)
    requires
        printable(s),
    ensures
        unbroken(s),
{
    assert forall|i: int| 0 <= i < s.len() implies !tab_or_newline(#[trigger] s[i]) by {
        assert(0x21 <= s[i] as u32);
    }
}

/// Two unbroken texts make an unbroken text.
pub proof fn lemma_unbroken_add(a: Seq<char>, b: Seq<char>)
    requires
        unbroken(a),
        unbroken(b),
    ensures
        unbroken(a + b),
{
    assert forall|i: int| 0 <= i < (a + b).len() implies !tab_or_newline(
        #[trigger] (a + b)[i],
    ) by {
        if i < a.len() {
            assert((a + b)[i] == a[i]);
        } else {
            assert((a + b)[i] == b[i - a.len()]);
        }
    }
}

/// An unbroken text that neither opens nor closes with a C0 control or a
/// space is its own preprocessed form.
pub proof fn lemma_preprocessed_same(s: Seq<char>)
    requires
        unbroken(s),
        s.len() > 0 ==> !c0_control_or_space(s[0]) && !c0_control_or_space(s.last()),
    ensures
        preprocessed(s) == s,
{
    assert(trim_start(s) == s);
    assert(trim_end(s) == s);
    lemma_nothing_to_remove(s);
}

/// An unbroken text loses nothing where tabs and line ends are removed.
pub proof fn lemma_nothing_to_remove(s: Seq<char>)
    requires
        unbroken(s),
    ensures
        without_tab_or_newline(s) == s,
    decreases s.len(),
{
    reveal(Seq::filter);
    if s.len() > 0 {
        assert forall|i: int| 0 <= i < s.drop_last().len() implies !tab_or_newline(
            #[trigger] s.drop_last()[i],
        ) by {
            assert(s.drop_last()[i] == s[i]);
        }
        lemma_nothing_to_remove(s.drop_last());
        assert(!tab_or_newline(s.last()));
        assert(s.drop_last().push(s.last()) =~= s);
    } else {
        assert(without_tab_or_newline(s) =~= s);
    }
}

/// The special schemes are made of lower-case letters.
pub proof fn lemma_special_scheme_ok(scheme: Seq<char>)
    requires
        is_special_scheme(scheme),
    ensures
        scheme_ok(scheme),
{
    reveal_strlit("ftp");
    reveal_strlit("file");
    reveal_strlit("http");
    reveal_strlit("https");
    reveal_strlit("ws");
    reveal_strlit("wss");
}

/// The host of a `file` URL as the parser leaves it where it is not
/// empty: it holds nothing that ends the host and no tab, line feed or
/// carriage return, it is no drive letter and not `localhost`, and the host
/// parser leaves it as it is.
pub open spec fn file_host_reads_back(h: Seq<char>) -> bool {
    &&& h.len() >= 1
    &&& forall|i: int|
        0 <= i < h.len() ==> {
            let c = #[trigger] h[i];
            c != '/' && c != '\\' && c != '?' && c != '#' && !tab_or_newline(c)
        }
    &&& !windows_drive_letter(h)
    &&& h != "localhost"@
    &&& parsed_host(h) == Some(h)
}

/// A URL that reads back from its written form as itself: a scheme as the
/// parser leaves it; a host that reads back; a port, if any, that is not
/// the scheme's default and that follows a host that is not empty; at
/// least one segment, each as the parser leaves it; and a query and a
/// fragment of plain code points. A `file` URL has a host that is not
/// empty, and no port.
pub open spec fn canonical(u: UrlView) -> bool {
    &&& scheme_ok(u.scheme)
    &&& u.host is Some
    &&& if u.scheme == "file"@ {
        file_host_reads_back(u.host->0) && u.port is None
    } else {
        host_reads_back(u.host->0, u.is_special())
    }
    &&& u.port is Some ==> u.port != default_port(u.scheme) && u.host->0.len() >= 1
    &&& u.path is List
    &&& u.path->List_0.len() >= 1
    &&& segments_read_back(u.path->List_0, u)
    &&& u.query is Some ==> all_plain(u.query->0, query_set(u.is_special()))
    &&& u.fragment is Some ==> all_plain(u.fragment->0, PercentEncodeSet::Fragment)
}

/// The authority of a canonical URL as it is written: the host, and `:`
/// and the port where there is one.
pub open spec fn authority_of(u: UrlView) -> Seq<char> {
    u.host->0 + port_text(u.port)
}

/// What follows the authority of a canonical URL as it is written.
pub open spec fn behind_authority(u: UrlView) -> Seq<char> {
    tail_text(u.path->List_0, 0) + after_path(u.query, u.fragment)
}

/// The written form of a canonical URL, piece by piece.
proof fn lemma_written_form(u: UrlView)
    requires
        canonical(u),
    ensures
        u.serialized() == u.scheme + (seq![':', '/', '/'] + (authority_of(u) + behind_authority(
            u,
        ))),
        u.scheme != "file"@ ==> authority_text(authority_of(u), u.is_special()),
        u.port is Some ==> port_text(u.port) == seq![':'] + decimal_digits(u.port->0 as nat),
        u.port is None ==> port_text(u.port) == Seq::<char>::empty(),
        tail_text(u.path->List_0, 0).len() > 0,
        tail_text(u.path->List_0, 0)[0] == '/',
{
    let segments = u.path->List_0;
    let h = u.host->0;
    let sep = seq![':', '/', '/'];
    let pt = port_text(u.port);
    let a = h + pt;
    let rest = behind_authority(u);
    reveal_strlit("://");
    assert("://"@ =~= sep);
    lemma_tail_text(segments, 0);
    assert(segments.skip(0) =~= segments);
    assert(prefixed(Seq::empty(), u.host) =~= h);
    assert(u.serialized() =~= u.scheme + (sep + (a + rest)));
    if u.scheme == "file"@ {
    } else if u.port is Some {
        lemma_decimal_digits(u.port->0 as nat);
        let digits = decimal_digits(u.port->0 as nat);
        assert forall|i: int| 0 <= i < a.len() implies (#[trigger] a[i]) != '@' && a[i] != '/'
            && a[i] != '?' && a[i] != '#' && (u.is_special() ==> a[i] != '\\') by {
            if i < h.len() {
                assert(a[i] == h[i]);
            } else if i == h.len() {
                assert(a[i] == ':');
            } else {
                assert(a[i] == digits[i - h.len() - 1]);
                assert(ascii_digit(digits[i - h.len() - 1]));
            }
        }
    } else {
        assert(a =~= h);
        assert forall|i: int| 0 <= i < a.len() implies (#[trigger] a[i]) != '@' && a[i] != '/'
            && a[i] != '?' && a[i] != '#' && (u.is_special() ==> a[i] != '\\') by {
            assert(a[i] == h[i]);
        }
    }
}

/// The text of a port is printable.
proof fn lemma_port_text_printable(port: Option<u16>)
    ensures
        printable(port_text(port)),
{
    if port is Some {
        lemma_decimal_digits(port->0 as nat);
        let digits = decimal_digits(port->0 as nat);
        assert(printable(digits)) by {
            assert forall|i: int| 0 <= i < digits.len() implies 0x21 <= (
            #[trigger] digits[i]) as u32 <= 0x7E by {
                assert(ascii_digit(digits[i]));
            }
        }
        assert(printable(seq![':']));
        lemma_printable_add(seq![':'], digits);
    }
}

/// What follows the path of a URL is printable, where query and fragment
/// are plain.
proof fn lemma_after_path_printable(
    query: Option<Seq<char>>,
    fragment: Option<Seq<char>>,
    special: bool,
)
    requires
        query is Some ==> all_plain(query->0, query_set(special)),
        fragment is Some ==> all_plain(fragment->0, PercentEncodeSet::Fragment),
    ensures
        printable(after_path(query, fragment)),
{
    assert(printable(prefixed(seq!['?'], query))) by {
        if query is Some {
            lemma_plain_printable(query->0, query_set(special));
            assert(printable(seq!['?']));
            lemma_printable_add(seq!['?'], query->0);
        }
    }
    assert(printable(prefixed(seq!['#'], fragment))) by {
        if fragment is Some {
            lemma_plain_printable(fragment->0, PercentEncodeSet::Fragment);
            assert(printable(seq!['#']));
            lemma_printable_add(seq!['#'], fragment->0);
        }
    }
    lemma_printable_add(prefixed(seq!['?'], query), prefixed(seq!['#'], fragment));
}

/// A text made of a scheme, `://`, an unbroken text and a printable text
/// that is not empty is its own preprocessed form.
proof fn lemma_written_preprocessed(scheme: Seq<char>, a: Seq<char>, rest: Seq<char>)
    requires
        scheme_ok(scheme),
        unbroken(a),
        printable(rest),
        rest.len() > 0,
    ensures
        preprocessed(scheme + (seq![':', '/', '/'] + (a + rest))) == scheme + (seq![
            ':',
            '/',
            '/',
        ] + (a + rest)),
{
    let sep = seq![':', '/', '/'];
    let all = scheme + (sep + (a + rest));
    assert(printable(scheme)) by {
        assert forall|i: int| 0 <= i < scheme.len() implies 0x21 <= (#[trigger] scheme[i]) as u32
            <= 0x7E by {}
    }
    assert(printable(sep));
    lemma_printable_unbroken(scheme);
    lemma_printable_unbroken(sep);
    lemma_printable_unbroken(rest);
    lemma_unbroken_add(a, rest);
    lemma_unbroken_add(sep, a + rest);
    lemma_unbroken_add(scheme, sep + (a + rest));
    assert(all[0] == scheme[0]);
    assert(all.last() == rest.last());
    assert(0x21 <= rest.last() as u32);
    lemma_preprocessed_same(all);
}

/// The authority of a canonical URL is unbroken, and what follows it is
/// printable.
proof fn lemma_written_parts(u: UrlView)
    requires
        canonical(u),
    ensures
        unbroken(authority_of(u)),
        printable(behind_authority(u)),
{
    let h = u.host->0;
    assert(unbroken(h)) by {
        assert forall|i: int| 0 <= i < h.len() implies !tab_or_newline(#[trigger] h[i]) by {}
    }
    lemma_port_text_printable(u.port);
    lemma_printable_unbroken(port_text(u.port));
    lemma_unbroken_add(h, port_text(u.port));
    lemma_tail_text_printable(u.path->List_0, 0, u.is_special());
    lemma_after_path_printable(u.query, u.fragment, u.is_special());
    lemma_printable_add(tail_text(u.path->List_0, 0), after_path(u.query, u.fragment));
}

/// The machine behind the scheme and `://` of a URL other than a `file`
/// URL.
pub open spec fn behind_scheme(scheme: Seq<char>) -> Machine {
    Machine {
        url: UrlView { scheme, ..initial_machine().url },
        state: URLParseState::Authority,
        pointer: scheme.len() as int + 3,
        ..initial_machine()
    }
}

/// From the first code point to behind `://`.
proof fn lemma_read_scheme(input: Seq<char>, scheme: Seq<char>, tail: Seq<char>)
    requires
        scheme_ok(scheme),
        scheme != "file"@,
        input == scheme + (seq![':', '/', '/'] + tail),
        is_special_scheme(scheme) ==> tail.len() > 0 && tail[0] != '/' && tail[0] != '\\',
    ensures
        run(initial_machine(), input, None) == run(behind_scheme(scheme), input, None),
        input.skip(scheme.len() as int + 3) == tail,
        scheme.len() + 3 <= input.len(),
{
    let sep = seq![':', '/', '/'];
    let m0 = initial_machine();
    lemma_run_unfolds(m0, input, None);
    assert(input.skip(0) =~= input);
    lemma_skip_head(input, 0, scheme, sep + tail);
    let m1 = Machine { buffer: seq![scheme[0]], state: URLParseState::Scheme, ..m0 };
    assert(ascii_lower(scheme[0]) == scheme[0]);
    assert(m0.buffer.push(scheme[0]) =~= seq![scheme[0]]);
    assert(step(m0, input, None) == Outcome::Advance(m1));
    assert(run(m0, input, None) == run(m1.advanced(), input, None));
    assert(scheme.drop_first() =~= scheme.skip(1));
    assert(m1.advanced().buffer =~= scheme.take(1));
    lemma_scheme_scan(m1.advanced(), input, scheme, 1, sep + tail);
    let m2 = Machine { buffer: scheme, pointer: scheme.len() as int, ..m1 };
    assert(run(m0, input, None) == run(m2, input, None));
    lemma_skip_past(input, 0, scheme, sep + tail);
    if is_special_scheme(scheme) {
        lemma_colon_and_slashes(m2, input, tail);
    } else {
        lemma_colon_and_slashes_plain(m2, input, tail);
    }
}

/// From the colon behind a special scheme to behind `://`.
proof fn lemma_colon_and_slashes(m: Machine, input: Seq<char>, tail: Seq<char>)
    requires
        m == (Machine {
            buffer: m.buffer,
            state: URLParseState::Scheme,
            pointer: m.buffer.len() as int,
            ..initial_machine()
        }),
        is_special_scheme(m.buffer),
        m.buffer != "file"@,
        m.pointer <= input.len(),
        input.skip(m.pointer) == seq![':', '/', '/'] + tail,
        tail.len() > 0,
        tail[0] != '/',
        tail[0] != '\\',
    ensures
        run(m, input, None) == run(behind_scheme(m.buffer), input, None),
        input.skip(m.buffer.len() as int + 3) == tail,
        m.buffer.len() + 3 <= input.len(),
{
    let sep = seq![':', '/', '/'];
    lemma_run_unfolds(m, input, None);
    lemma_skip_head(input, m.pointer, sep, tail);
    let m3 = Machine {
        url: UrlView { scheme: m.buffer, ..m.url },
        buffer: Seq::empty(),
        state: URLParseState::SpecialAuthoritySlashes,
        ..m
    };
    assert(step(m, input, None) == Outcome::Advance(m3));
    let m3 = m3.advanced();
    lemma_run_unfolds(m3, input, None);
    lemma_skip_head(input, m3.pointer, sep.drop_first(), tail);
    assert(sep.drop_first()[0] == '/');
    lemma_skip_head(input, m3.pointer + 1, sep.drop_first().drop_first(), tail);
    assert(sep.drop_first().drop_first()[0] == '/');
    assert(sep.drop_first().drop_first().drop_first() + tail =~= tail);
    let m4 = Machine {
        state: URLParseState::SpecialAuthorityIgnoreSlashes,
        pointer: m3.pointer + 1,
        ..m3
    };
    assert(step(m3, input, None) == Outcome::Advance(m4));
    let m4 = m4.advanced();
    lemma_run_unfolds(m4, input, None);
    lemma_skip_head(input, m4.pointer, tail, Seq::empty());
    assert(tail + Seq::<char>::empty() =~= tail);
    let m5 = Machine { state: URLParseState::Authority, ..m4 };
    assert(step(m4, input, None) == Outcome::Again(m5));
    assert(m5 == behind_scheme(m.buffer));
}

/// From the colon behind a scheme that is not special to behind `://`.
proof fn lemma_colon_and_slashes_plain(m: Machine, input: Seq<char>, tail: Seq<char>)
    requires
        m == (Machine {
            buffer: m.buffer,
            state: URLParseState::Scheme,
            pointer: m.buffer.len() as int,
            ..initial_machine()
        }),
        !is_special_scheme(m.buffer),
        m.pointer <= input.len(),
        input.skip(m.pointer) == seq![':', '/', '/'] + tail,
    ensures
        run(m, input, None) == run(behind_scheme(m.buffer), input, None),
        input.skip(m.buffer.len() as int + 3) == tail,
        m.buffer.len() + 3 <= input.len(),
{
    let sep = seq![':', '/', '/'];
    lemma_run_unfolds(m, input, None);
    lemma_skip_head(input, m.pointer, sep, tail);
    lemma_skip_head(input, m.pointer + 1, sep.drop_first(), tail);
    assert(sep.drop_first()[0] == '/');
    lemma_skip_head(input, m.pointer + 2, sep.drop_first().drop_first(), tail);
    assert(sep.drop_first().drop_first()[0] == '/');
    assert(sep.drop_first().drop_first().drop_first() + tail =~= tail);
    let m3 = Machine {
        url: UrlView { scheme: m.buffer, ..m.url },
        buffer: Seq::empty(),
        state: URLParseState::PathOrAuthority,
        pointer: m.pointer + 1,
        ..m
    };
    assert(step(m, input, None) == Outcome::Advance(m3));
    let m3 = m3.advanced();
    lemma_run_unfolds(m3, input, None);
    let m4 = Machine { state: URLParseState::Authority, ..m3 };
    assert(step(m3, input, None) == Outcome::Advance(m4));
    assert(m4.advanced() == behind_scheme(m.buffer));
}

/// A canonical URL reads back from its written form as itself.
pub proof fn lemma_parse_written(u: UrlView)
    requires
        canonical(u),
    ensures
        parse_result(u.serialized(), None) == Some(u),
{
    lemma_written_form(u);
    lemma_written_parts(u);
    lemma_written_preprocessed(u.scheme, authority_of(u), behind_authority(u));
    if u.scheme == "file"@ {
        lemma_run_written_file(u);
    } else {
        lemma_run_written(u);
    }
}

/// The machine reads the written form of a canonical URL that is no `file`
/// URL as the URL.
proof fn lemma_run_written(u: UrlView)
    requires
        canonical(u),
        u.scheme != "file"@,
        u.serialized() == u.scheme + (seq![':', '/', '/'] + (authority_of(u) + behind_authority(
            u,
        ))),
        authority_text(authority_of(u), u.is_special()),
        u.port is Some ==> port_text(u.port) == seq![':'] + decimal_digits(u.port->0 as nat),
        u.port is None ==> port_text(u.port) == Seq::<char>::empty(),
        tail_text(u.path->List_0, 0).len() > 0,
        tail_text(u.path->List_0, 0)[0] == '/',
    ensures
        run(initial_machine(), u.serialized(), None) == Some(u),
{
    let tail = authority_of(u) + behind_authority(u);
    assert(tail[0] == (if u.host->0.len() > 0 {
        u.host->0[0]
    } else {
        '/'
    }));
    lemma_read_scheme(u.serialized(), u.scheme, tail);
    lemma_read_authority_and_path(u, u.serialized());
}

/// The machine reads the written form of a canonical `file` URL as the URL.
proof fn lemma_run_written_file(u: UrlView)
    requires
        canonical(u),
        u.scheme == "file"@,
        u.serialized() == u.scheme + (seq![':', '/', '/'] + (authority_of(u) + behind_authority(
            u,
        ))),
        tail_text(u.path->List_0, 0).len() > 0,
        tail_text(u.path->List_0, 0)[0] == '/',
    ensures
        run(initial_machine(), u.serialized(), None) == Some(u),
{
    let tail = authority_of(u) + behind_authority(u);
    assert(authority_of(u) =~= u.host->0);
    lemma_read_file_scheme(u.serialized(), tail);
    lemma_read_file_host_and_path(u, u.serialized());
}

/// The machine behind `file://`.
pub open spec fn behind_file_scheme() -> Machine {
    Machine {
        url: UrlView { scheme: "file"@, host: Some(Seq::empty()), ..initial_machine().url },
        state: URLParseState::FileHost,
        pointer: 7,
        ..initial_machine()
    }
}

/// From the first code point to behind `file://`.
proof fn lemma_read_file_scheme(input: Seq<char>, tail: Seq<char>)
    requires
        input == "file"@ + (seq![':', '/', '/'] + tail),
    ensures
        run(initial_machine(), input, None) == run(behind_file_scheme(), input, None),
        input.skip(7) == tail,
        7 <= input.len(),
{
    let scheme = "file"@;
    let sep = seq![':', '/', '/'];
    reveal_strlit("file");
    assert(is_special_scheme(scheme));
    lemma_special_scheme_ok(scheme);
    let m0 = initial_machine();
    lemma_run_unfolds(m0, input, None);
    assert(input.skip(0) =~= input);
    lemma_skip_head(input, 0, scheme, sep + tail);
    let m1 = Machine { buffer: seq![scheme[0]], state: URLParseState::Scheme, ..m0 };
    assert(ascii_lower(scheme[0]) == scheme[0]);
    assert(m0.buffer.push(scheme[0]) =~= seq![scheme[0]]);
    assert(step(m0, input, None) == Outcome::Advance(m1));
    assert(scheme.drop_first() =~= scheme.skip(1));
    assert(m1.advanced().buffer =~= scheme.take(1));
    lemma_scheme_scan(m1.advanced(), input, scheme, 1, sep + tail);
    let m2 = Machine { buffer: scheme, pointer: 4, ..m1 };
    assert(run(m0, input, None) == run(m2, input, None));
    lemma_skip_past(input, 0, scheme, sep + tail);
    lemma_file_slashes(m2, input, tail);
}

/// From the colon behind `file` to behind `file://`.
proof fn lemma_file_slashes(m: Machine, input: Seq<char>, tail: Seq<char>)
    requires
        m == (Machine {
            buffer: "file"@,
            state: URLParseState::Scheme,
            pointer: 4,
            ..initial_machine()
        }),
        m.pointer <= input.len(),
        input.skip(m.pointer) == seq![':', '/', '/'] + tail,
    ensures
        run(m, input, None) == run(behind_file_scheme(), input, None),
        input.skip(7) == tail,
        7 <= input.len(),
{
    let sep = seq![':', '/', '/'];
    lemma_run_unfolds(m, input, None);
    lemma_skip_head(input, 4, sep, tail);
    lemma_skip_head(input, 5, sep.drop_first(), tail);
    assert(sep.drop_first()[0] == '/');
    lemma_skip_head(input, 6, sep.drop_first().drop_first(), tail);
    assert(sep.drop_first().drop_first()[0] == '/');
    assert(sep.drop_first().drop_first().drop_first() + tail =~= tail);
    let m3 = Machine {
        url: UrlView { scheme: "file"@, ..m.url },
        buffer: Seq::empty(),
        state: URLParseState::File,
        ..m
    };
    assert(step(m, input, None) == Outcome::Advance(m3));
    let m3 = m3.advanced();
    lemma_run_unfolds(m3, input, None);
    let m4 = Machine {
        url: UrlView { host: Some(Seq::empty()), ..m3.url },
        state: URLParseState::FileSlash,
        ..m3
    };
    assert(step(m3, input, None) == Outcome::Advance(m4));
    let m4 = m4.advanced();
    lemma_run_unfolds(m4, input, None);
    let m5 = Machine { state: URLParseState::FileHost, ..m4 };
    assert(step(m4, input, None) == Outcome::Advance(m5));
    assert(m5.advanced() == behind_file_scheme());
}

/// The file host state collects the host up to the `/` that opens the path.
proof fn lemma_file_host_scan(m: Machine, input: Seq<char>, h: Seq<char>, j: int, rest: Seq<char>)
    requires
        m.state == URLParseState::FileHost,
        file_host_reads_back(h),
        0 <= j <= h.len(),
        m.buffer == h.take(j),
        0 <= m.pointer <= input.len(),
        input.skip(m.pointer) == h.skip(j) + rest,
        rest.len() > 0,
        rest[0] == '/',
    ensures
        run(m, input, None) == run(
            Machine {
                url: UrlView { host: Some(h), ..m.url },
                buffer: Seq::empty(),
                state: URLParseState::PathStart,
                pointer: m.pointer + h.len() - j,
                ..m
            },
            input,
            None,
        ),
    decreases h.len() - j,
{
    lemma_run_unfolds(m, input, None);
    if j < h.len() {
        lemma_skip_head(input, m.pointer, h.skip(j), rest);
        let c = h[j];
        assert(h.skip(j)[0] == c);
        let n = Machine { buffer: m.buffer.push(c), ..m };
        assert(step(m, input, None) == Outcome::Advance(n));
        assert(n.buffer =~= h.take(j + 1));
        assert(h.skip(j).drop_first() =~= h.skip(j + 1));
        lemma_file_host_scan(n.advanced(), input, h, j + 1, rest);
    } else {
        assert(h.take(j) =~= h);
        assert(h.skip(j) + rest =~= rest);
        lemma_skip_head(input, m.pointer, rest, Seq::empty());
        assert(rest + Seq::<char>::empty() =~= rest);
        let n = Machine {
            url: UrlView { host: Some(h), ..m.url },
            buffer: Seq::empty(),
            state: URLParseState::PathStart,
            ..m
        };
        assert(step(m, input, None) == Outcome::Again(n));
    }
}

/// From behind `file://` to the end of a canonical URL's written form.
proof fn lemma_read_file_host_and_path(u: UrlView, input: Seq<char>)
    requires
        canonical(u),
        u.scheme == "file"@,
        7 <= input.len(),
        input.skip(7) == u.host->0 + behind_authority(u),
        tail_text(u.path->List_0, 0).len() > 0,
        tail_text(u.path->List_0, 0)[0] == '/',
    ensures
        run(behind_file_scheme(), input, None) == Some(u),
{
    let h = u.host->0;
    let rest = behind_authority(u);
    let m = behind_file_scheme();
    assert(rest[0] == '/');
    assert(m.buffer =~= h.take(0));
    assert(h + rest =~= h.skip(0) + rest);
    lemma_file_host_scan(m, input, h, 0, rest);
    lemma_skip_past(input, 7, h, rest);
    let n = Machine {
        url: UrlView { host: Some(h), ..m.url },
        buffer: Seq::empty(),
        state: URLParseState::PathStart,
        pointer: 7 + h.len() as int,
        ..m
    };
    assert(run(m, input, None) == run(n, input, None));
    lemma_read_path(n, input, u);
}

/// From behind `://` to the end of a canonical URL's written form.
proof fn lemma_read_authority_and_path(u: UrlView, input: Seq<char>)
    requires
        canonical(u),
        u.scheme != "file"@,
        u.scheme.len() + 3 <= input.len(),
        input.skip(u.scheme.len() as int + 3) == authority_of(u) + behind_authority(u),
        authority_text(authority_of(u), u.is_special()),
        u.port is Some ==> port_text(u.port) == seq![':'] + decimal_digits(u.port->0 as nat),
        u.port is None ==> port_text(u.port) == Seq::<char>::empty(),
        tail_text(u.path->List_0, 0).len() > 0,
        tail_text(u.path->List_0, 0)[0] == '/',
    ensures
        run(behind_scheme(u.scheme), input, None) == Some(u),
{
    let h = u.host->0;
    let segments = u.path->List_0;
    let pt = port_text(u.port);
    let rest = behind_authority(u);
    let m4 = behind_scheme(u.scheme);
    assert(rest[0] == '/');
    lemma_read_authority(m4, input, h, pt, rest);
    let hosted = UrlView { host: Some(h), ..m4.url };
    let at = m4.pointer + h.len();
    assert((h + pt) + rest =~= h + (pt + rest));
    lemma_skip_past(input, m4.pointer, h, pt + rest);
    if u.port is Some {
        let port = u.port->0;
        let digits = decimal_digits(port as nat);
        assert(pt + rest =~= seq![':'] + (digits + rest));
        lemma_skip_past(input, at, seq![':'], digits + rest);
        let m7 = Machine { url: hosted, state: URLParseState::Port, pointer: at + 1, ..m4 };
        lemma_read_port(m7, input, port, rest);
        let m8 = Machine {
            url: UrlView { port: Some(port), ..hosted },
            state: URLParseState::PathStart,
            pointer: at + 1 + digits.len(),
            ..m4
        };
        assert(run(m4, input, None) == run(m8, input, None));
        lemma_read_path(m8, input, u);
    } else {
        let m7 = Machine { url: hosted, state: URLParseState::PathStart, pointer: at, ..m4 };
        assert(pt + rest =~= rest);
        assert(run(m4, input, None) == run(m7, input, None));
        lemma_read_path(m7, input, u);
    }
}

/// From the `/` that opens the path to the end of a URL's written form.
proof fn lemma_read_path(m: Machine, input: Seq<char>, u: UrlView)
    requires
        u.path is List,
        u.path->List_0.len() >= 1,
        segments_read_back(u.path->List_0, u),
        u.query is Some ==> all_plain(u.query->0, query_set(u.is_special())),
        u.fragment is Some ==> all_plain(u.fragment->0, PercentEncodeSet::Fragment),
        m.state == URLParseState::PathStart,
        m.url == (UrlView {
            path: PathView::List(Seq::empty()),
            query: None,
            fragment: None,
            ..u
        }),
        m.buffer.len() == 0,
        0 <= m.pointer <= input.len(),
        input.skip(m.pointer) == tail_text(u.path->List_0, 0) + after_path(u.query, u.fragment),
    ensures
        run(m, input, None) == Some(u),
{
    lemma_path_start(m, input, u.path->List_0, u.query, u.fragment);
}

/// From behind `://`: the authority is read once to its end and then
/// again as the host, up to `:` or the `/` that opens the path.
proof fn lemma_read_authority(
    m: Machine,
    input: Seq<char>,
    h: Seq<char>,
    pt: Seq<char>,
    rest: Seq<char>,
)
    requires
        m == behind_scheme(m.url.scheme),
        host_reads_back(h, m.url.is_special()),
        authority_text(h + pt, m.url.is_special()),
        m.pointer <= input.len(),
        input.skip(m.pointer) == (h + pt) + rest,
        rest.len() > 0,
        rest[0] == '/',
        pt.len() == 0 || (pt[0] == ':' && h.len() >= 1),
    ensures
        run(m, input, None) == run(
            Machine {
                url: UrlView { host: Some(h), ..m.url },
                state: if pt.len() > 0 {
                    URLParseState::Port
                } else {
                    URLParseState::PathStart
                },
                pointer: if pt.len() > 0 {
                    m.pointer + h.len() + 1
                } else {
                    m.pointer + h.len()
                },
                ..m
            },
            input,
            None,
        ),
{
    let a = h + pt;
    assert(m.buffer =~= a.take(0));
    assert(a.skip(0) =~= a);
    lemma_authority_scan(m, input, a, 0, rest);
    let m6 = Machine { buffer: Seq::empty(), state: URLParseState::Host, ..m };
    assert(run(m, input, None) == run(m6, input, None));
    assert(a + rest =~= h.skip(0) + (pt + rest));
    assert(m6.buffer =~= h.take(0));
    assert((pt + rest)[0] == (if pt.len() > 0 {
        ':'
    } else {
        '/'
    }));
    lemma_host_scan(m6, input, h, 0, pt + rest);
}

/// From behind the `:` of the port to the `/` that opens the path.
proof fn lemma_read_port(m: Machine, input: Seq<char>, port: u16, rest: Seq<char>)
    requires
        m.state == URLParseState::Port,
        m.buffer.len() == 0,
        0 <= m.pointer <= input.len(),
        input.skip(m.pointer) == decimal_digits(port as nat) + rest,
        rest.len() > 0,
        rest[0] == '/',
        default_port(m.url.scheme) != Some(port),
    ensures
        run(m, input, None) == run(
            Machine {
                url: UrlView { port: Some(port), ..m.url },
                state: URLParseState::PathStart,
                pointer: m.pointer + decimal_digits(port as nat).len(),
                ..m
            },
            input,
            None,
        ),
        input.skip(m.pointer + decimal_digits(port as nat).len()) == rest,
        m.pointer + decimal_digits(port as nat).len() <= input.len(),
{
    let digits = decimal_digits(port as nat);
    lemma_decimal_digits(port as nat);
    assert(digits + rest =~= digits.skip(0) + rest);
    assert(m.buffer =~= digits.take(0));
    lemma_port_scan(m, input, digits, 0, rest, port);
    lemma_skip_past(input, m.pointer, digits, rest);
    assert(m.buffer =~= Seq::<char>::empty());
    assert(Machine {
        url: UrlView { port: Some(port), ..m.url },
        buffer: Seq::<char>::empty(),
        state: URLParseState::PathStart,
        pointer: m.pointer + digits.len() - 0,
        ..m
    } == Machine {
        url: UrlView { port: Some(port), ..m.url },
        state: URLParseState::PathStart,
        pointer: m.pointer + digits.len(),
        ..m
    });
}

} // verus!
