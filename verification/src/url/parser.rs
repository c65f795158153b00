//! The URL parser.

use crate::text::{copy_opt_text, from_chars, opt_text, same_text, to_chars, from_chars_range};
use crate::url::encode::{PercentEncodeSet, URLPercentEncode};
use crate::url::helper::{
    ascii_digit,
    decimal_value,
    is_ascii_alpha,
    is_ascii_alphanumeric,
    is_ascii_digit,
    is_double_dot_path_segment,
    is_normalized_window_drive_letter,
    is_single_dot_path_segment,
    is_start_with_windows_drive_letter,
    is_window_drive_letter,
    to_ascii_lower,
    trimmed_bounds,
    without_tab_or_newline,
};
use crate::url::host_parser::HostParser;
use crate::url::laws::{lemma_parse_well_formed, usable_base};
use crate::url::machine;
use crate::url::machine::{
    code_point_at,
    extended,
    followed_by_slash,
    followed_by_two_slashes,
    inherited_drive_letter,
    initial_machine,
    left,
    lemma_step_consistent,
    lemma_step_progress,
    parse_result,
    parsed_port,
    rank,
    rest_of,
    run,
    with_segment,
    Machine,
    Outcome,
};
use crate::url::url::{opt_url, Url, UrlPath};
use regex::Regex;
use vstd::prelude::*;
use vstd::string::*;

verus! {

/// The states of the parser.
#[derive(Debug, Clone, Copy, PartialEq, Eq, Structural)]
pub enum URLParseState {
    SchemeStart,
    Scheme,
    NoScheme,
    File,
    SpecialRelativeOrAuthority,
    SpecialAuthoritySlashes,
    PathOrAuthority,
    OpaquePath,
    Fragment,
    Relative,
    SpecialAuthorityIgnoreSlashes,
    Authority,
    Path,
    RelativeSlash,
    Query,
    Host,
    Hostname,
    FileHost,
    Port,
    PathStart,
    FileSlash,
}

/// A parse in progress.
struct ParserState {
    url: Url,
    state: URLParseState,
    buffer: Vec<char>,
    at_sign_seen: bool,
    inside_brackets: bool,
    password_token_seen: bool,
    pointer: usize,
}

impl View for ParserState {
    type V = Machine;

    closed spec fn view(&self) -> Machine {
        Machine {
            url: self.url@,
            state: self.state,
            buffer: self.buffer@,
            at_sign_seen: self.at_sign_seen,
            inside_brackets: self.inside_brackets,
            password_token_seen: self.password_token_seen,
            pointer: self.pointer as int,
        }
    }
}

/// What one handler decided.
enum Step {
    Failure,
    Again(ParserState),
    Advance(ParserState),
}

impl View for Step {
    type V = Outcome;

    closed spec fn view(&self) -> Outcome {
        match self {
            Step::Failure => Outcome::Failure,
            Step::Again(m) => Outcome::Again(m@),
            Step::Advance(m) => Outcome::Advance(m@),
        }
    }
}

/// `Regex::new` and `Regex::replace_all` of the crate `regex`, for the one
/// pattern and the one replacement that the parser uses. The pattern, the
/// character class of tab, carriage return and line feed, is one that
/// `Regex::new` accepts. With it and with nothing as the replacement,
/// `replace_all` hands back the haystack without those three code points,
/// the others in their order. Nothing of this is proved here.
#[verifier::external_body]
fn replace_all(pattern: &str, haystack: &str, replacement: &str) -> (r: String)
    requires
        pattern@ == "[\\t\\r\\n]"@,
        replacement@ == ""@,
    ensures
        r@ == without_tab_or_newline(haystack@),
{
    Regex::new(pattern).unwrap().replace_all(haystack, replacement).into_owned()
}

fn at(c: Option<char>, x: char) -> (r: bool)
    ensures
        r == (c == Some(x)),
{
    match c {
        Some(y) => y == x,
        None => false,
    }
}

fn ends_authority(c: Option<char>, special: bool) -> (r: bool)
    ensures
        r == machine::ends_authority(c, special),
{
    match c {
        None => true,
        Some(x) => x == '/' || x == '?' || x == '#' || (special && x == '\\'),
    }
}

fn next_is_slash(input: &Vec<char>, pointer: usize) -> (r: bool)
    requires
        pointer < input.len(),
    ensures
        r == followed_by_slash(input@, pointer as int),
        r ==> pointer + 1 < usize::MAX,
{
    pointer + 1 < input.len() && input[pointer + 1] == '/'
}

fn next_two_are_slashes(input: &Vec<char>, pointer: usize) -> (r: bool)
    requires
        pointer < input.len(),
    ensures
        r == followed_by_two_slashes(input@, pointer as int),
{
    input.len() - pointer > 2 && input[pointer + 1] == '/' && input[pointer + 2] == '/'
}

fn extend_chars(v: &mut Vec<char>, s: &str)
    ensures
        final(v)@ == old(v)@ + s@,
{
    let mut t = to_chars(s);
    v.append(&mut t);
}

fn extend_opt(text: &mut Option<String>, more: &str)
    ensures
        opt_text(*final(text)) == extended(opt_text(*old(text)), more@),
{
    match text {
        Some(t) => {
            t.append(more);
        },
        None => {},
    }
}

fn contains_colon(v: &Vec<char>) -> (r: bool)
    ensures
        r == v@.contains(':'),
{
    let mut i: usize = 0;
    while i < v.len()
        invariant
            i <= v.len(),
            forall|k: int| 0 <= k < i ==> v@[k] != ':',
        decreases v.len() - i,
    {
        if v[i] == ':' {
            return true;
        }
        i += 1;
    }
    false
}

/// Appending a digit never lowers the value.
proof fn lemma_decimal_value_grows(s: Seq<char>, i: int)
    requires
        0 <= i <= s.len(),
        forall|k: int| 0 <= k < s.len() ==> ascii_digit(#[trigger] s[k]),
    ensures
        decimal_value(s.subrange(0, i)) <= decimal_value(s),
    decreases s.len() - i,
{
    if i == s.len() {
        assert(s.subrange(0, i) =~= s);
    } else {
        let t = s.subrange(0, i + 1);
        assert(t.drop_last() =~= s.subrange(0, i));
        assert(t.last() == s[i]);
        lemma_decimal_value_grows(s, i + 1);
    }
}

fn parse_port(buffer: &Vec<char>) -> (r: Option<u16>)
    ensures
        r == parsed_port(buffer@),
{
    let mut value: u32 = 0;
    let mut i: usize = 0;
    while i < buffer.len()
        invariant
            i <= buffer.len(),
            forall|k: int| 0 <= k < i ==> ascii_digit(#[trigger] buffer@[k]),
            value == decimal_value(buffer@.subrange(0, i as int)),
            value <= 65535,
        decreases buffer.len() - i,
    {
        let c = buffer[i];
        if !is_ascii_digit(c) {
            return None;
        }
        let ghost t = buffer@.subrange(0, i + 1);
        assert(t.drop_last() =~= buffer@.subrange(0, i as int));
        assert(t.last() == c);
        let next: u32 = value * 10 + (c as u32 - '0' as u32);
        if next > 65535 {
            proof {
                if forall|k: int| 0 <= k < buffer@.len() ==> ascii_digit(#[trigger] buffer@[k]) {
                    lemma_decimal_value_grows(buffer@, i + 1);
                }
            }
            return None;
        }
        value = next;
        i += 1;
    }
    assert(buffer@.subrange(0, buffer.len() as int) =~= buffer@);
    Some(value as u16)
}

fn default_port_of(scheme: &String) -> (r: Option<u16>)
    ensures
        r == crate::url::url::default_port(scheme@),
{
    let s = scheme.as_str();
    if same_text(s, "ftp") {
        Some(21)
    } else if same_text(s, "http") {
        Some(80)
    } else if same_text(s, "https") {
        Some(443)
    } else if same_text(s, "ws") {
        Some(80)
    } else if same_text(s, "wss") {
        Some(443)
    } else {
        None
    }
}

/// Ends the segment collected in `buffer`.
fn end_segment(url: &mut Url, buffer: &Vec<char>, at_slash: bool)
    ensures
        final(url)@ == with_segment(old(url)@, buffer@, at_slash),
{
    if is_double_dot_path_segment(buffer) {
        url.shorten_path();
        if !at_slash {
            url.path.push_empty();
        }
    } else if is_single_dot_path_segment(buffer) {
        if !at_slash {
            url.path.push_empty();
        }
    } else {
        let is_file = same_text(url.scheme.as_str(), "file");
        if is_file && url.path.is_empty() && is_window_drive_letter(buffer) {
            let mut segment = String::new();
            segment.push(buffer[0]);
            segment.push(':');
            assert(segment@ =~= seq![buffer@[0], ':']);
            url.path.append(segment.as_str());
        } else {
            let segment = from_chars(buffer);
            url.path.append(segment.as_str());
        }
    }
}

impl ParserState {
    fn new() -> (r: Self)
        ensures
            r@ == initial_machine(),
    {
        ParserState {
            url: Url::new(),
            state: URLParseState::SchemeStart,
            buffer: Vec::new(),
            at_sign_seen: false,
            inside_brackets: false,
            password_token_seen: false,
            pointer: 0,
        }
    }
}

/// The parser of URLs.
pub struct URLParser;

impl URLParser {
    fn scheme_start(m: ParserState, c: Option<char>) -> (r: Step)
        ensures
            r@ == machine::scheme_start(m@, c),
    {
        let mut m = m;
        if let Some(x) = c {
            if is_ascii_alpha(x) {
                m.buffer.push(to_ascii_lower(x));
                m.state = URLParseState::Scheme;
                return Step::Advance(m);
            }
        }
        m.state = URLParseState::NoScheme;
        Step::Again(m)
    }

    fn scheme(m: ParserState, c: Option<char>, input: &Vec<char>, base: &Option<Url>) -> (r: Step)
        requires
            c == code_point_at(input@, m@.pointer),
        ensures
            r@ == machine::scheme(m@, c, input@, opt_url(*base)),
    {
        let mut m = m;
        if let Some(x) = c {
            if is_ascii_alphanumeric(x) || x == '+' || x == '-' || x == '.' {
                m.buffer.push(to_ascii_lower(x));
                return Step::Advance(m);
            }
            if x == ':' {
                m.url.scheme = from_chars(&m.buffer);
                m.buffer.clear();
                let same_as_base = match base {
                    Some(b) => same_text(b.scheme.as_str(), m.url.scheme.as_str()),
                    None => false,
                };
                if same_text(m.url.scheme.as_str(), "file") {
                    m.state = URLParseState::File;
                } else if m.url.is_special() && same_as_base && !next_two_are_slashes(
                    input,
                    m.pointer,
                ) {
                    m.state = URLParseState::SpecialRelativeOrAuthority;
                } else if m.url.is_special() {
                    m.state = URLParseState::SpecialAuthoritySlashes;
                } else if next_is_slash(input, m.pointer) {
                    m.state = URLParseState::PathOrAuthority;
                    m.pointer = m.pointer + 1;
                } else {
                    m.url.path = UrlPath::Opaque(String::new());
                    m.state = URLParseState::OpaquePath;
                }
                return Step::Advance(m);
            }
        }
        m.buffer.clear();
        m.state = URLParseState::NoScheme;
        m.pointer = 0;
        Step::Again(m)
    }

    fn no_scheme(m: ParserState, c: Option<char>, base: &Option<Url>) -> (r: Step)
        ensures
            r@ == machine::no_scheme(m@, c, opt_url(*base)),
    {
        let mut m = m;
        match base {
            None => Step::Failure,
            Some(b) => {
                if b.has_opaque_path() {
                    if at(c, '#') {
                        m.url.scheme = b.scheme.clone();
                        m.url.path = b.path.duplicate();
                        m.url.query = copy_opt_text(&b.query);
                        m.url.fragment = Some(String::new());
                        m.state = URLParseState::Fragment;
                        Step::Advance(m)
                    } else {
                        Step::Failure
                    }
                } else if !same_text(b.scheme.as_str(), "file") {
                    m.state = URLParseState::Relative;
                    Step::Again(m)
                } else {
                    m.state = URLParseState::File;
                    Step::Again(m)
                }
            },
        }
    }

    fn special_relative_or_authority(m: ParserState, c: Option<char>, input: &Vec<char>) -> (r:
        Step)
        requires
            c == code_point_at(input@, m@.pointer),
        ensures
            r@ == machine::special_relative_or_authority(m@, c, input@),
    {
        let mut m = m;
        if at(c, '/') && next_is_slash(input, m.pointer) {
            m.state = URLParseState::SpecialAuthorityIgnoreSlashes;
            m.pointer = m.pointer + 1;
            Step::Advance(m)
        } else {
            m.state = URLParseState::Relative;
            Step::Again(m)
        }
    }

    fn path_or_authority(m: ParserState, c: Option<char>) -> (r: Step)
        ensures
            r@ == machine::path_or_authority(m@, c),
    {
        let mut m = m;
        if at(c, '/') {
            m.state = URLParseState::Authority;
            Step::Advance(m)
        } else {
            m.state = URLParseState::Path;
            Step::Again(m)
        }
    }

    fn relative(m: ParserState, c: Option<char>, base: &Option<Url>) -> (r: Step)
        ensures
            r@ == machine::relative(m@, c, opt_url(*base)),
    {
        let mut m = m;
        match base {
            None => Step::Failure,
            Some(b) => {
                m.url.scheme = b.scheme.clone();
                if at(c, '/') || (m.url.is_special() && at(c, '\\')) {
                    m.state = URLParseState::RelativeSlash;
                    return Step::Advance(m);
                }
                m.url.host = copy_opt_text(&b.host);
                m.url.port = b.port;
                m.url.path = b.path.duplicate();
                m.url.query = copy_opt_text(&b.query);
                if at(c, '?') {
                    m.url.query = Some(String::new());
                    m.state = URLParseState::Query;
                    Step::Advance(m)
                } else if at(c, '#') {
                    m.url.fragment = Some(String::new());
                    m.state = URLParseState::Fragment;
                    Step::Advance(m)
                } else if c.is_some() {
                    m.url.query = None;
                    m.url.shorten_path();
                    m.state = URLParseState::Path;
                    Step::Again(m)
                } else {
                    Step::Advance(m)
                }
            },
        }
    }

    fn relative_slash(m: ParserState, c: Option<char>, base: &Option<Url>) -> (r: Step)
        ensures
            r@ == machine::relative_slash(m@, c, opt_url(*base)),
    {
        let mut m = m;
        match base {
            None => Step::Failure,
            Some(b) => {
                if m.url.is_special() && (at(c, '/') || at(c, '\\')) {
                    m.state = URLParseState::SpecialAuthorityIgnoreSlashes;
                    Step::Advance(m)
                } else if at(c, '/') {
                    m.state = URLParseState::Authority;
                    Step::Advance(m)
                } else {
                    m.url.host = copy_opt_text(&b.host);
                    m.url.port = b.port;
                    m.state = URLParseState::Path;
                    Step::Again(m)
                }
            },
        }
    }

    fn special_authority_slashes(m: ParserState, c: Option<char>, input: &Vec<char>) -> (r: Step)
        requires
            c == code_point_at(input@, m@.pointer),
        ensures
            r@ == machine::special_authority_slashes(m@, c, input@),
    {
        let mut m = m;
        if at(c, '/') && next_is_slash(input, m.pointer) {
            m.state = URLParseState::SpecialAuthorityIgnoreSlashes;
            m.pointer = m.pointer + 1;
            Step::Advance(m)
        } else {
            m.state = URLParseState::SpecialAuthorityIgnoreSlashes;
            Step::Again(m)
        }
    }

    fn special_authority_ignore_slashes(m: ParserState, c: Option<char>) -> (r: Step)
        ensures
            r@ == machine::special_authority_ignore_slashes(m@, c),
    {
        let mut m = m;
        if !at(c, '/') && !at(c, '\\') {
            m.state = URLParseState::Authority;
            Step::Again(m)
        } else {
            Step::Advance(m)
        }
    }

    fn authority(m: ParserState, c: Option<char>) -> (r: Step)
        requires
            m@.buffer.len() + 1 <= m@.pointer,
        ensures
            r@ == machine::authority(m@, c),
    {
        let mut m = m;
        if at(c, '@') {
            if m.at_sign_seen {
                let mut userinfo: Vec<char> = Vec::new();
                extend_chars(&mut userinfo, "%40");
                userinfo.append(&mut m.buffer);
                m.buffer = userinfo;
            }
            m.at_sign_seen = true;
            if !m.password_token_seen && contains_colon(&m.buffer) {
                m.password_token_seen = true;
            }
            m.buffer.clear();
            Step::Advance(m)
        } else if ends_authority(c, m.url.is_special()) {
            if m.at_sign_seen && m.buffer.len() == 0 {
                return Step::Failure;
            }
            m.pointer = m.pointer - (m.buffer.len() + 1);
            m.buffer.clear();
            m.state = URLParseState::Host;
            Step::Advance(m)
        } else {
            match c {
                Some(x) => {
                    m.buffer.push(x);
                },
                None => {},
            }
            Step::Advance(m)
        }
    }

    fn host(m: ParserState, c: Option<char>) -> (r: Step)
        ensures
            r@ == machine::host(m@, c),
    {
        let mut m = m;
        if at(c, ':') && !m.inside_brackets {
            if m.buffer.len() == 0 {
                return Step::Failure;
            }
            let text = from_chars(&m.buffer);
            match HostParser::parse(text.as_str()) {
                None => Step::Failure,
                Some(h) => {
                    m.url.host = Some(h);
                    m.buffer.clear();
                    m.state = URLParseState::Port;
                    Step::Advance(m)
                },
            }
        } else if ends_authority(c, m.url.is_special()) {
            if m.url.is_special() && m.buffer.len() == 0 {
                return Step::Failure;
            }
            let text = from_chars(&m.buffer);
            match HostParser::parse(text.as_str()) {
                None => Step::Failure,
                Some(h) => {
                    m.url.host = Some(h);
                    m.buffer.clear();
                    m.state = URLParseState::PathStart;
                    Step::Again(m)
                },
            }
        } else {
            match c {
                Some(x) => {
                    if x == '[' {
                        m.inside_brackets = true;
                    } else if x == ']' {
                        m.inside_brackets = false;
                    }
                    m.buffer.push(x);
                },
                None => {},
            }
            Step::Advance(m)
        }
    }

    fn port(m: ParserState, c: Option<char>) -> (r: Step)
        ensures
            r@ == machine::port(m@, c),
    {
        let mut m = m;
        if let Some(x) = c {
            if is_ascii_digit(x) {
                m.buffer.push(x);
                return Step::Advance(m);
            }
        }
        if ends_authority(c, m.url.is_special()) {
            if m.buffer.len() > 0 {
                match parse_port(&m.buffer) {
                    None => {
                        return Step::Failure;
                    },
                    Some(p) => {
                        let implied = default_port_of(&m.url.scheme);
                        let is_default = match implied {
                            Some(d) => d == p,
                            None => false,
                        };
                        m.url.port = if is_default {
                            None
                        } else {
                            Some(p)
                        };
                        m.buffer.clear();
                    },
                }
            }
            m.state = URLParseState::PathStart;
            Step::Again(m)
        } else {
            Step::Failure
        }
    }

    fn file(m: ParserState, c: Option<char>, input: &Vec<char>, base: &Option<Url>) -> (r: Step)
        requires
            c == code_point_at(input@, m@.pointer),
        ensures
            r@ == machine::file(m@, c, input@, opt_url(*base)),
    {
        let mut m = m;
        m.url.scheme = String::from_str("file");
        m.url.host = Some(String::new());
        if at(c, '/') || at(c, '\\') {
            m.state = URLParseState::FileSlash;
            return Step::Advance(m);
        }
        if let Some(b) = base {
            if same_text(b.scheme.as_str(), "file") {
                m.url.host = copy_opt_text(&b.host);
                m.url.path = b.path.duplicate();
                m.url.query = copy_opt_text(&b.query);
                if at(c, '?') {
                    m.url.query = Some(String::new());
                    m.state = URLParseState::Query;
                    return Step::Advance(m);
                } else if at(c, '#') {
                    m.url.fragment = Some(String::new());
                    m.state = URLParseState::Fragment;
                    return Step::Advance(m);
                } else if c.is_some() {
                    m.url.query = None;
                    if is_start_with_windows_drive_letter(input, m.pointer) {
                        m.url.path = UrlPath::List(Vec::new());
                        assert(crate::text::texts(Seq::<String>::empty()) =~= Seq::<
                            Seq<char>,
                        >::empty());
                    } else {
                        m.url.shorten_path();
                    }
                    m.state = URLParseState::Path;
                    return Step::Again(m);
                } else {
                    return Step::Advance(m);
                }
            }
        }
        m.state = URLParseState::Path;
        Step::Again(m)
    }

    fn base_drive_letter(b: &Url, input: &Vec<char>, pointer: usize) -> (r: Option<String>)
        requires
            pointer <= input.len(),
        ensures
            opt_text(r) == inherited_drive_letter(b@, rest_of(input@, pointer as int)),
    {
        match &b.path {
            UrlPath::List(l) => {
                if !is_start_with_windows_drive_letter(input, pointer) && l.len() > 0
                    && is_normalized_window_drive_letter(l[0].as_str()) {
                    Some(l[0].clone())
                } else {
                    None
                }
            },
            UrlPath::Opaque(_) => None,
        }
    }

    fn file_slash(m: ParserState, c: Option<char>, input: &Vec<char>, base: &Option<Url>) -> (r:
        Step)
        requires
            c == code_point_at(input@, m@.pointer),
            m@.pointer <= input@.len(),
        ensures
            r@ == machine::file_slash(m@, c, input@, opt_url(*base)),
    {
        let mut m = m;
        if at(c, '/') || at(c, '\\') {
            m.state = URLParseState::FileHost;
            return Step::Advance(m);
        }
        if let Some(b) = base {
            if same_text(b.scheme.as_str(), "file") {
                m.url.host = copy_opt_text(&b.host);
                match URLParser::base_drive_letter(b, input, m.pointer) {
                    Some(d) => {
                        m.url.path.append(d.as_str());
                    },
                    None => {},
                }
            }
        }
        m.state = URLParseState::Path;
        Step::Again(m)
    }

    fn file_host(m: ParserState, c: Option<char>) -> (r: Step)
        ensures
            r@ == machine::file_host(m@, c),
    {
        let mut m = m;
        let at_end = match c {
            None => true,
            Some(x) => x == '/' || x == '\\' || x == '?' || x == '#',
        };
        if at_end {
            if is_window_drive_letter(&m.buffer) {
                m.state = URLParseState::Path;
                Step::Again(m)
            } else if m.buffer.len() == 0 {
                m.url.host = Some(String::new());
                m.state = URLParseState::Path;
                Step::Again(m)
            } else {
                let text = from_chars(&m.buffer);
                match HostParser::parse(text.as_str()) {
                    None => Step::Failure,
                    Some(h) => {
                        if same_text(h.as_str(), "localhost") {
                            m.url.host = Some(String::new());
                        } else {
                            m.url.host = Some(h);
                        }
                        m.buffer.clear();
                        m.state = URLParseState::PathStart;
                        Step::Again(m)
                    },
                }
            }
        } else {
            match c {
                Some(x) => {
                    m.buffer.push(x);
                },
                None => {},
            }
            Step::Advance(m)
        }
    }

    fn path_start(m: ParserState, c: Option<char>) -> (r: Step)
        ensures
            r@ == machine::path_start(m@, c),
    {
        let mut m = m;
        if m.url.is_special() {
            m.state = URLParseState::Path;
            if at(c, '/') || at(c, '\\') {
                Step::Advance(m)
            } else {
                Step::Again(m)
            }
        } else if at(c, '?') {
            m.url.query = Some(String::new());
            m.state = URLParseState::Query;
            Step::Advance(m)
        } else if at(c, '#') {
            m.url.fragment = Some(String::new());
            m.state = URLParseState::Fragment;
            Step::Advance(m)
        } else if c.is_some() {
            m.state = URLParseState::Path;
            if at(c, '/') {
                Step::Advance(m)
            } else {
                Step::Again(m)
            }
        } else {
            Step::Advance(m)
        }
    }

    fn path(m: ParserState, c: Option<char>) -> (r: Step)
        ensures
            r@ == machine::path(m@, c),
    {
        let mut m = m;
        let at_slash = at(c, '/') || (m.url.is_special() && at(c, '\\'));
        if c.is_none() || at_slash || at(c, '?') || at(c, '#') {
            end_segment(&mut m.url, &m.buffer, at_slash);
            m.buffer.clear();
            if at(c, '?') {
                m.url.query = Some(String::new());
                m.state = URLParseState::Query;
            } else if at(c, '#') {
                m.url.fragment = Some(String::new());
                m.state = URLParseState::Fragment;
            }
            Step::Advance(m)
        } else {
            match c {
                Some(x) => {
                    let encoded = URLPercentEncode::encode_char(x, PercentEncodeSet::Path);
                    extend_chars(&mut m.buffer, encoded.as_str());
                },
                None => {},
            }
            Step::Advance(m)
        }
    }

    fn opaque_path(m: ParserState, c: Option<char>) -> (r: Step)
        ensures
            r@ == machine::opaque_path(m@, c),
    {
        let mut m = m;
        if at(c, '?') {
            m.url.query = Some(String::new());
            m.state = URLParseState::Query;
        } else if at(c, '#') {
            m.url.fragment = Some(String::new());
            m.state = URLParseState::Fragment;
        } else {
            match c {
                Some(x) => {
                    let encoded = URLPercentEncode::encode_char(x, PercentEncodeSet::C0Control);
                    m.url.path.append(encoded.as_str());
                },
                None => {},
            }
        }
        Step::Advance(m)
    }

    fn query(m: ParserState, c: Option<char>) -> (r: Step)
        ensures
            r@ == machine::query(m@, c),
    {
        let mut m = m;
        if at(c, '#') || c.is_none() {
            let set = if m.url.is_special() {
                PercentEncodeSet::SpecialQuery
            } else {
                PercentEncodeSet::Query
            };
            let encoded = URLPercentEncode::encode_chars(&m.buffer, set);
            extend_opt(&mut m.url.query, encoded.as_str());
            m.buffer.clear();
            if at(c, '#') {
                m.url.fragment = Some(String::new());
                m.state = URLParseState::Fragment;
            }
            Step::Advance(m)
        } else {
            match c {
                Some(x) => {
                    m.buffer.push(x);
                },
                None => {},
            }
            Step::Advance(m)
        }
    }

    fn fragment(m: ParserState, c: Option<char>) -> (r: Step)
        ensures
            r@ == machine::fragment(m@, c),
    {
        let mut m = m;
        match c {
            Some(x) => {
                let encoded = URLPercentEncode::encode_char(x, PercentEncodeSet::Fragment);
                extend_opt(&mut m.url.fragment, encoded.as_str());
            },
            None => {},
        }
        Step::Advance(m)
    }

    /// Resolves `raw_input` against `base`.
    ///
    /// The result is the URL that the state machine of [`machine`] ends
    /// with on the preprocessed input, or `None` where one of its handlers
    /// fails. Given a well-formed base, or none, every URL returned is well
    /// formed: a special scheme comes with a segment list.
    pub fn parse(raw_input: &str, base: Option<Url>) -> (r: Option<Url>)
        ensures
            opt_url(r) == parse_result(raw_input@, opt_url(base)),
            usable_base(opt_url(base)) && r is Some ==> r->0@.well_formed(),
    {
        proof {
            if usable_base(opt_url(base)) {
                lemma_parse_well_formed(raw_input@, opt_url(base));
            }
        }
        URLParser::simple_parse(raw_input, base)
    }

    fn simple_parse(p_input: &str, base: Option<Url>) -> (r: Option<Url>)
        ensures
            opt_url(r) == parse_result(p_input@, opt_url(base)),
    {
        let raw = to_chars(p_input);
        let (from, to) = trimmed_bounds(&raw);
        let trimmed = from_chars_range(&raw, from, to);
        let cleaned = replace_all("[\\t\\r\\n]", trimmed.as_str(), "");
        let input = to_chars(cleaned.as_str());

        let mut m = ParserState::new();
        loop
            invariant
                m@.consistent(input@),
                run(m@, input@, opt_url(base)) == parse_result(p_input@, opt_url(base)),
            decreases rank(m@.state), left(input@, m@.pointer),
        {
            proof {
                lemma_step_progress(m@, input@, opt_url(base));
                lemma_step_consistent(m@, input@, opt_url(base));
            }
            match URLParser::step(m, &input, &base) {
                Step::Failure => {
                    return None;
                },
                Step::Again(n) => {
                    m = n;
                },
                Step::Advance(n) => {
                    if n.pointer >= input.len() {
                        return Some(n.url);
                    }
                    m = n;
                    m.pointer = m.pointer + 1;
                },
            }
        }
    }

    /// Runs the handler of the current state on the code point under the pointer.
    fn step(m: ParserState, input: &Vec<char>, base: &Option<Url>) -> (r: Step)
        requires
            m@.pointer <= input@.len(),
            m@.state == URLParseState::Authority ==> m@.buffer.len() + 1 <= m@.pointer,
        ensures
            r@ == machine::step(m@, input@, opt_url(*base)),
    {
        let c = if m.pointer < input.len() {
            Some(input[m.pointer])
        } else {
            None
        };
        match m.state {
            URLParseState::SchemeStart => URLParser::scheme_start(m, c),
            URLParseState::Scheme => URLParser::scheme(m, c, input, base),
            URLParseState::NoScheme => URLParser::no_scheme(m, c, base),
            URLParseState::File => URLParser::file(m, c, input, base),
            URLParseState::SpecialRelativeOrAuthority => URLParser::special_relative_or_authority(
                m,
                c,
                input,
            ),
            URLParseState::SpecialAuthoritySlashes => URLParser::special_authority_slashes(
                m,
                c,
                input,
            ),
            URLParseState::PathOrAuthority => URLParser::path_or_authority(m, c),
            URLParseState::OpaquePath => URLParser::opaque_path(m, c),
            URLParseState::Fragment => URLParser::fragment(m, c),
            URLParseState::Relative => URLParser::relative(m, c, base),
            URLParseState::SpecialAuthorityIgnoreSlashes => {
                URLParser::special_authority_ignore_slashes(m, c)
            },
            URLParseState::Authority => URLParser::authority(m, c),
            URLParseState::Path => URLParser::path(m, c),
            URLParseState::RelativeSlash => URLParser::relative_slash(m, c, base),
            URLParseState::Query => URLParser::query(m, c),
            URLParseState::Host => URLParser::host(m, c),
            URLParseState::Hostname => URLParser::host(m, c),
            URLParseState::FileHost => URLParser::file_host(m, c),
            URLParseState::Port => URLParser::port(m, c),
            URLParseState::PathStart => URLParser::path_start(m, c),
            URLParseState::FileSlash => URLParser::file_slash(m, c, input, base),
        }
    }
}

} // verus!
