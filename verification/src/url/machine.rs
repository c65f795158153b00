//! The parser as a state machine over code points.
//!
//! A [`Machine`] is the whole state of a parse in progress. [`step`] runs the
//! handler of the current state on the code point under the pointer, and
//! [`run`] repeats it until the input is used up or a handler fails.
//! [`parse_result`] is what the parser returns for an input and a base.

use crate::url::encode::{encoded_text, PercentEncodeSet};
use crate::url::helper::{
    ascii_alpha,
    ascii_alphanumeric,
    ascii_digit,
    ascii_lower,
    decimal_value,
    double_dot_segment,
    normalized_windows_drive_letter,
    single_dot_segment,
    starts_with_windows_drive_letter,
    trim_end,
    trim_start,
    windows_drive_letter,
    without_tab_or_newline,
};
use crate::url::host_parser::parsed_host;
use crate::url::parser::URLParseState;
use crate::url::url::{blank_url, default_port, PathView, UrlView};
use vstd::prelude::*;

verus! {

/// The state of a parse in progress.
pub struct Machine {
    pub url: UrlView,
    pub state: URLParseState,
    pub buffer: Seq<char>,
    pub at_sign_seen: bool,
    pub inside_brackets: bool,
    pub password_token_seen: bool,
    pub pointer: int,
}

/// What one handler decides.
pub enum Outcome {
    /// The input is no URL.
    Failure,
    /// Run the next handler on the code point under the pointer as it now stands.
    Again(Machine),
    /// Move the pointer on by one, or stop where it stands at the end of input.
    Advance(Machine),
}

/// The machine before the first code point.
pub open spec fn initial_machine() -> Machine {
    Machine {
        url: blank_url(),
        state: URLParseState::SchemeStart,
        buffer: Seq::empty(),
        at_sign_seen: false,
        inside_brackets: false,
        password_token_seen: false,
        pointer: 0,
    }
}

/// The code point under the pointer, or `None` past the end of input.
pub open spec fn code_point_at(input: Seq<char>, pointer: int) -> Option<char> {
    if 0 <= pointer < input.len() {
        Some(input[pointer])
    } else {
        None
    }
}

/// The code point after the one under the pointer is `/`.
pub open spec fn followed_by_slash(input: Seq<char>, pointer: int) -> bool {
    code_point_at(input, pointer + 1) == Some('/')
}

/// The two code points after the one under the pointer are `//`.
pub open spec fn followed_by_two_slashes(input: Seq<char>, pointer: int) -> bool {
    code_point_at(input, pointer + 1) == Some('/') && code_point_at(input, pointer + 2) == Some('/')
}

/// The input from the pointer on.
pub open spec fn rest_of(input: Seq<char>, pointer: int) -> Seq<char> {
    if 0 <= pointer <= input.len() {
        input.subrange(pointer, input.len() as int)
    } else {
        Seq::empty()
    }
}

/// The end of input, `/`, `?`, `#`, or `\` in a special URL: what ends an
/// authority, a host or a port.
pub open spec fn ends_authority(c: Option<char>, special: bool) -> bool {
    ||| c is None
    ||| c == Some('/')
    ||| c == Some('?')
    ||| c == Some('#')
    ||| (special && c == Some('\\'))
}

/// The port that a string of digits denotes: `None` for anything but
/// digits and for a value above 65535.
pub open spec fn parsed_port(s: Seq<char>) -> Option<u16> {
    if (forall|i: int| 0 <= i < s.len() ==> ascii_digit(#[trigger] s[i])) && decimal_value(s)
        <= 65535 {
        Some(decimal_value(s) as u16)
    } else {
        None
    }
}

/// `text` extended by `more`, where there is a text.
pub open spec fn extended(text: Option<Seq<char>>, more: Seq<char>) -> Option<Seq<char>> {
    match text {
        Some(t) => Some(t + more),
        None => None,
    }
}

/// Scheme start: an ASCII letter opens the scheme, in lower case; anything
/// else is read again as an input without scheme.
pub open spec fn scheme_start(m: Machine, c: Option<char>) -> Outcome {
    if c is Some && ascii_alpha(c->0) {
        Outcome::Advance(
            Machine { buffer: m.buffer.push(ascii_lower(c->0)), state: URLParseState::Scheme, ..m },
        )
    } else {
        Outcome::Again(Machine { state: URLParseState::NoScheme, ..m })
    }
}

/// Scheme: letters, digits, `+`, `-` and `.` extend the scheme, in lower
/// case. `:` ends it, and the scheme decides how the rest is read: a `file`
/// URL goes on in the file state; a special URL whose scheme is that of the
/// base, and which does not go on with `//`, goes on as relative or
/// authority; any other special URL goes on with the authority slashes;
/// before a `/`, any other URL steps over it and goes on as path or
/// authority; the rest has an opaque path. Anything else makes the whole
/// input be read again, from its start, as an input without scheme.
pub open spec fn scheme(m: Machine, c: Option<char>, input: Seq<char>, base: Option<UrlView>) -> Outcome {
    if c is Some && (ascii_alphanumeric(c->0) || c->0 == '+' || c->0 == '-' || c->0 == '.') {
        Outcome::Advance(Machine { buffer: m.buffer.push(ascii_lower(c->0)), ..m })
    } else if c == Some(':') {
        let url = UrlView { scheme: m.buffer, ..m.url };
        let n = Machine { url, buffer: Seq::empty(), ..m };
        if url.scheme == "file"@ {
            Outcome::Advance(Machine { state: URLParseState::File, ..n })
        } else if url.is_special() && base is Some && base->0.scheme == url.scheme
            && !followed_by_two_slashes(input, m.pointer) {
            Outcome::Advance(Machine { state: URLParseState::SpecialRelativeOrAuthority, ..n })
        } else if url.is_special() {
            Outcome::Advance(Machine { state: URLParseState::SpecialAuthoritySlashes, ..n })
        } else if followed_by_slash(input, m.pointer) {
            Outcome::Advance(
                Machine { state: URLParseState::PathOrAuthority, pointer: m.pointer + 1, ..n },
            )
        } else {
            Outcome::Advance(
                Machine {
                    url: UrlView { path: PathView::Opaque(Seq::empty()), ..url },
                    state: URLParseState::OpaquePath,
                    ..n
                },
            )
        }
    } else {
        Outcome::Again(
            Machine { buffer: Seq::empty(), state: URLParseState::NoScheme, pointer: 0, ..m },
        )
    }
}

/// No scheme: without a base the input is no URL. A base with an opaque
/// path lends scheme, path and query to an input that is a fragment only,
/// and makes any other input fail. Any other base makes the input relative
/// to it: to a `file` base in the file state, to another in the relative
/// state.
pub open spec fn no_scheme(m: Machine, c: Option<char>, base: Option<UrlView>) -> Outcome {
    match base {
        None => Outcome::Failure,
        Some(b) => {
            if b.has_opaque_path() {
                if c == Some('#') {
                    Outcome::Advance(
                        Machine {
                            url: UrlView {
                                scheme: b.scheme,
                                path: b.path,
                                query: b.query,
                                fragment: Some(Seq::empty()),
                                ..m.url
                            },
                            state: URLParseState::Fragment,
                            ..m
                        },
                    )
                } else {
                    Outcome::Failure
                }
            } else if b.scheme != "file"@ {
                Outcome::Again(Machine { state: URLParseState::Relative, ..m })
            } else {
                Outcome::Again(Machine { state: URLParseState::File, ..m })
            }
        },
    }
}

/// Special relative or authority: `//` opens an authority; anything else is
/// relative to the base.
pub open spec fn special_relative_or_authority(
    m: Machine,
    c: Option<char>,
    input: Seq<char>,
) -> Outcome {
    if c == Some('/') && followed_by_slash(input, m.pointer) {
        Outcome::Advance(
            Machine {
                state: URLParseState::SpecialAuthorityIgnoreSlashes,
                pointer: m.pointer + 1,
                ..m
            },
        )
    } else {
        Outcome::Again(Machine { state: URLParseState::Relative, ..m })
    }
}

/// Path or authority: a second `/` opens an authority; anything else
/// belongs to the path.
pub open spec fn path_or_authority(m: Machine, c: Option<char>) -> Outcome {
    if c == Some('/') {
        Outcome::Advance(Machine { state: URLParseState::Authority, ..m })
    } else {
        Outcome::Again(Machine { state: URLParseState::Path, ..m })
    }
}

/// Relative: the URL takes the scheme of the base. A slash (`\` too, in a
/// special URL) goes on in the relative slash state. Else the URL takes
/// host, port, path and query of the base as well; `?` then opens a new
/// query, `#` a fragment, and any other code point is read again as path,
/// the query dropped and the path shortened by its last segment. At the end
/// of input the URL is that of the base without its fragment.
pub open spec fn relative(m: Machine, c: Option<char>, base: Option<UrlView>) -> Outcome {
    match base {
        None => Outcome::Failure,
        Some(b) => {
            let url = UrlView { scheme: b.scheme, ..m.url };
            if c == Some('/') || (url.is_special() && c == Some('\\')) {
                Outcome::Advance(Machine { url, state: URLParseState::RelativeSlash, ..m })
            } else {
                let inherited = UrlView {
                    host: b.host,
                    port: b.port,
                    path: b.path,
                    query: b.query,
                    ..url
                };
                if c == Some('?') {
                    Outcome::Advance(
                        Machine {
                            url: UrlView { query: Some(Seq::empty()), ..inherited },
                            state: URLParseState::Query,
                            ..m
                        },
                    )
                } else if c == Some('#') {
                    Outcome::Advance(
                        Machine {
                            url: UrlView { fragment: Some(Seq::empty()), ..inherited },
                            state: URLParseState::Fragment,
                            ..m
                        },
                    )
                } else if c is Some {
                    Outcome::Again(
                        Machine {
                            url: UrlView { query: None, ..inherited }.shorten_path(),
                            state: URLParseState::Path,
                            ..m
                        },
                    )
                } else {
                    Outcome::Advance(Machine { url: inherited, ..m })
                }
            }
        },
    }
}

/// Relative slash: in a special URL a second slash, `/` or `\`, opens an
/// authority behind any further slashes; in another URL a second `/` opens
/// an authority. Anything else is read again as path, under the host and
/// port of the base.
pub open spec fn relative_slash(m: Machine, c: Option<char>, base: Option<UrlView>) -> Outcome {
    match base {
        None => Outcome::Failure,
        Some(b) => {
            if m.url.is_special() && (c == Some('/') || c == Some('\\')) {
                Outcome::Advance(
                    Machine { state: URLParseState::SpecialAuthorityIgnoreSlashes, ..m },
                )
            } else if c == Some('/') {
                Outcome::Advance(Machine { state: URLParseState::Authority, ..m })
            } else {
                Outcome::Again(
                    Machine {
                        url: UrlView { host: b.host, port: b.port, ..m.url },
                        state: URLParseState::Path,
                        ..m
                    },
                )
            }
        },
    }
}

/// Special authority slashes: `//` is stepped over; anything else is read
/// again behind the slashes that are missing.
pub open spec fn special_authority_slashes(m: Machine, c: Option<char>, input: Seq<char>) -> Outcome {
    if c == Some('/') && followed_by_slash(input, m.pointer) {
        Outcome::Advance(
            Machine {
                state: URLParseState::SpecialAuthorityIgnoreSlashes,
                pointer: m.pointer + 1,
                ..m
            },
        )
    } else {
        Outcome::Again(Machine { state: URLParseState::SpecialAuthorityIgnoreSlashes, ..m })
    }
}

/// Special authority ignore slashes: further slashes are skipped; anything
/// else is read again as authority.
pub open spec fn special_authority_ignore_slashes(m: Machine, c: Option<char>) -> Outcome {
    if c != Some('/') && c != Some('\\') {
        Outcome::Again(Machine { state: URLParseState::Authority, ..m })
    } else {
        Outcome::Advance(m)
    }
}

/// Authority: `@` ends the user information, which is dropped: the buffer,
/// with `%40` put before it where an `@` was seen before, says whether a
/// password was given (a `:` in it), and is emptied. The end of input, `/`,
/// `?`, `#`, or `\` in a special URL, ends the authority: the input is no
/// URL where an `@` was seen and nothing follows it; else the pointer goes
/// back by the length of the buffer and one, and what was read is read
/// again as host. Anything else is collected.
pub open spec fn authority(m: Machine, c: Option<char>) -> Outcome {
    if c == Some('@') {
        let userinfo = if m.at_sign_seen {
            "%40"@ + m.buffer
        } else {
            m.buffer
        };
        Outcome::Advance(
            Machine {
                at_sign_seen: true,
                password_token_seen: m.password_token_seen || userinfo.contains(':'),
                buffer: Seq::empty(),
                ..m
            },
        )
    } else if ends_authority(c, m.url.is_special()) {
        if m.at_sign_seen && m.buffer.len() == 0 {
            Outcome::Failure
        } else {
            Outcome::Advance(
                Machine {
                    pointer: m.pointer - (m.buffer.len() + 1),
                    buffer: Seq::empty(),
                    state: URLParseState::Host,
                    ..m
                },
            )
        }
    } else {
        Outcome::Advance(Machine { buffer: m.buffer.push(c->0), ..m })
    }
}

/// Host: `:` outside brackets ends the host and opens the port; an empty
/// host is no host. The end of input, `/`, `?`, `#`, or `\` in a special
/// URL, ends the host and is read again as the start of the path; a
/// special URL must not have an empty host. In both cases the input is no
/// URL where the host parser finds none. Anything else is collected, `[`
/// and `]` opening and closing the brackets.
pub open spec fn host(m: Machine, c: Option<char>) -> Outcome {
    if c == Some(':') && !m.inside_brackets {
        if m.buffer.len() == 0 {
            Outcome::Failure
        } else {
            match parsed_host(m.buffer) {
                None => Outcome::Failure,
                Some(h) => Outcome::Advance(
                    Machine {
                        url: UrlView { host: Some(h), ..m.url },
                        buffer: Seq::empty(),
                        state: URLParseState::Port,
                        ..m
                    },
                ),
            }
        }
    } else if ends_authority(c, m.url.is_special()) {
        if m.url.is_special() && m.buffer.len() == 0 {
            Outcome::Failure
        } else {
            match parsed_host(m.buffer) {
                None => Outcome::Failure,
                Some(h) => Outcome::Again(
                    Machine {
                        url: UrlView { host: Some(h), ..m.url },
                        buffer: Seq::empty(),
                        state: URLParseState::PathStart,
                        ..m
                    },
                ),
            }
        }
    } else {
        let inside_brackets = if c == Some('[') {
            true
        } else if c == Some(']') {
            false
        } else {
            m.inside_brackets
        };
        Outcome::Advance(Machine { inside_brackets, buffer: m.buffer.push(c->0), ..m })
    }
}

/// Port: digits are collected. The end of input, `/`, `?`, `#`, or `\` in
/// a special URL, ends the port and is read again as the start of the
/// path: the digits, if any, must denote a port, which is kept unless it is
/// the default of the scheme. Anything else makes the input fail.
pub open spec fn port(m: Machine, c: Option<char>) -> Outcome {
    if c is Some && ascii_digit(c->0) {
        Outcome::Advance(Machine { buffer: m.buffer.push(c->0), ..m })
    } else if ends_authority(c, m.url.is_special()) {
        if m.buffer.len() > 0 {
            match parsed_port(m.buffer) {
                None => Outcome::Failure,
                Some(p) => {
                    let kept = if default_port(m.url.scheme) == Some(p) {
                        None
                    } else {
                        Some(p)
                    };
                    Outcome::Again(
                        Machine {
                            url: UrlView { port: kept, ..m.url },
                            buffer: Seq::empty(),
                            state: URLParseState::PathStart,
                            ..m
                        },
                    )
                },
            }
        } else {
            Outcome::Again(Machine { state: URLParseState::PathStart, ..m })
        }
    } else {
        Outcome::Failure
    }
}

/// File: the scheme is `file` and the host empty. A slash goes on in the
/// file slash state. Else a `file` base lends host, path and query; `?`
/// then opens a new query, `#` a fragment, and any other code point is
/// read again as path, the query dropped and the path shortened by its
/// last segment, or emptied where the input goes on with a drive letter.
/// At the end of input the URL is that of the base without its fragment.
/// Without a `file` base the code point is read again as path.
pub open spec fn file(m: Machine, c: Option<char>, input: Seq<char>, base: Option<UrlView>) -> Outcome {
    let url = UrlView { scheme: "file"@, host: Some(Seq::empty()), ..m.url };
    if c == Some('/') || c == Some('\\') {
        Outcome::Advance(Machine { url, state: URLParseState::FileSlash, ..m })
    } else if base is Some && base->0.scheme == "file"@ {
        let b = base->0;
        let inherited = UrlView { host: b.host, path: b.path, query: b.query, ..url };
        if c == Some('?') {
            Outcome::Advance(
                Machine {
                    url: UrlView { query: Some(Seq::empty()), ..inherited },
                    state: URLParseState::Query,
                    ..m
                },
            )
        } else if c == Some('#') {
            Outcome::Advance(
                Machine {
                    url: UrlView { fragment: Some(Seq::empty()), ..inherited },
                    state: URLParseState::Fragment,
                    ..m
                },
            )
        } else if c is Some {
            let cleared = UrlView { query: None, ..inherited };
            let url = if starts_with_windows_drive_letter(rest_of(input, m.pointer)) {
                UrlView { path: PathView::List(Seq::empty()), ..cleared }
            } else {
                cleared.shorten_path()
            };
            Outcome::Again(Machine { url, state: URLParseState::Path, ..m })
        } else {
            Outcome::Advance(Machine { url: inherited, ..m })
        }
    } else {
        Outcome::Again(Machine { url, state: URLParseState::Path, ..m })
    }
}

/// The base's drive letter, where a `file` base has one as its first
/// segment and the input from the pointer on does not bring its own.
pub open spec fn inherited_drive_letter(b: UrlView, rest: Seq<char>) -> Option<Seq<char>> {
    match b.path {
        PathView::List(l) => if !starts_with_windows_drive_letter(rest) && l.len() > 0
            && normalized_windows_drive_letter(l[0]) {
            Some(l[0])
        } else {
            None
        },
        PathView::Opaque(_) => None,
    }
}

/// File slash: a second slash opens the host. Anything else is read again
/// as path; a `file` base then lends its host, and its drive letter where
/// the input brings none.
pub open spec fn file_slash(m: Machine, c: Option<char>, input: Seq<char>, base: Option<UrlView>) -> Outcome {
    if c == Some('/') || c == Some('\\') {
        Outcome::Advance(Machine { state: URLParseState::FileHost, ..m })
    } else {
        let url = if base is Some && base->0.scheme == "file"@ {
            let hosted = UrlView { host: base->0.host, ..m.url };
            match inherited_drive_letter(base->0, rest_of(input, m.pointer)) {
                Some(d) => UrlView { path: hosted.path.append(d), ..hosted },
                None => hosted,
            }
        } else {
            m.url
        };
        Outcome::Again(Machine { url, state: URLParseState::Path, ..m })
    }
}

/// File host: the end of input, `/`, `\`, `?` or `#` ends the host and is
/// read again. A drive letter is no host: it stays in the buffer and
/// opens the path. An empty host leaves the host empty, and the code point
/// that ended it opens the path. Any other host goes through the host
/// parser, `localhost` becomes the empty host, and the path starts. Anything
/// else is collected.
pub open spec fn file_host(m: Machine, c: Option<char>) -> Outcome {
    if c is None || c == Some('/') || c == Some('\\') || c == Some('?') || c == Some('#') {
        if windows_drive_letter(m.buffer) {
            Outcome::Again(Machine { state: URLParseState::Path, ..m })
        } else if m.buffer.len() == 0 {
            Outcome::Again(
                Machine {
                    url: UrlView { host: Some(Seq::empty()), ..m.url },
                    state: URLParseState::Path,
                    ..m
                },
            )
        } else {
            match parsed_host(m.buffer) {
                None => Outcome::Failure,
                Some(h) => {
                    let h = if h == "localhost"@ {
                        Seq::empty()
                    } else {
                        h
                    };
                    Outcome::Again(
                        Machine {
                            url: UrlView { host: Some(h), ..m.url },
                            buffer: Seq::empty(),
                            state: URLParseState::PathStart,
                            ..m
                        },
                    )
                },
            }
        }
    } else {
        Outcome::Advance(Machine { buffer: m.buffer.push(c->0), ..m })
    }
}

/// Path start: in a special URL a slash is stepped over and anything else
/// read again as path. In another URL `?` opens the query, `#` the
/// fragment, `/` is stepped over, and anything else is read again as path;
/// at the end of input the path stays empty.
pub open spec fn path_start(m: Machine, c: Option<char>) -> Outcome {
    let n = Machine { state: URLParseState::Path, ..m };
    if m.url.is_special() {
        if c == Some('/') || c == Some('\\') {
            Outcome::Advance(n)
        } else {
            Outcome::Again(n)
        }
    } else if c == Some('?') {
        Outcome::Advance(
            Machine {
                url: UrlView { query: Some(Seq::empty()), ..m.url },
                state: URLParseState::Query,
                ..m
            },
        )
    } else if c == Some('#') {
        Outcome::Advance(
            Machine {
                url: UrlView { fragment: Some(Seq::empty()), ..m.url },
                state: URLParseState::Fragment,
                ..m
            },
        )
    } else if c is Some {
        if c == Some('/') {
            Outcome::Advance(n)
        } else {
            Outcome::Again(n)
        }
    } else {
        Outcome::Advance(m)
    }
}

/// The URL after the segment collected in `buffer` has ended; `at_slash`
/// says whether a separator ended it.
pub open spec fn with_segment(url: UrlView, buffer: Seq<char>, at_slash: bool) -> UrlView {
    if double_dot_segment(buffer) {
        let up = url.shorten_path();
        if at_slash {
            up
        } else {
            UrlView { path: up.path.push_empty(), ..up }
        }
    } else if single_dot_segment(buffer) {
        if at_slash {
            url
        } else {
            UrlView { path: url.path.push_empty(), ..url }
        }
    } else {
        let segment = if url.scheme == "file"@ && url.path.is_empty() && windows_drive_letter(
            buffer,
        ) {
            seq![buffer[0], ':']
        } else {
            buffer
        };
        UrlView { path: url.path.append(segment), ..url }
    }
}

/// Path: the end of input, `/`, `\` in a special URL, `?` or `#` ends the
/// segment in the buffer, as [`with_segment`] says; `?` then opens the
/// query and `#` the fragment. Anything else is collected, percent-encoded
/// against the path set.
pub open spec fn path(m: Machine, c: Option<char>) -> Outcome {
    let at_slash = c == Some('/') || (m.url.is_special() && c == Some('\\'));
    if c is None || at_slash || c == Some('?') || c == Some('#') {
        let url = with_segment(m.url, m.buffer, at_slash);
        if c == Some('?') {
            Outcome::Advance(
                Machine {
                    url: UrlView { query: Some(Seq::empty()), ..url },
                    buffer: Seq::empty(),
                    state: URLParseState::Query,
                    ..m
                },
            )
        } else if c == Some('#') {
            Outcome::Advance(
                Machine {
                    url: UrlView { fragment: Some(Seq::empty()), ..url },
                    buffer: Seq::empty(),
                    state: URLParseState::Fragment,
                    ..m
                },
            )
        } else {
            Outcome::Advance(Machine { url, buffer: Seq::empty(), ..m })
        }
    } else {
        Outcome::Advance(
            Machine {
                buffer: m.buffer + encoded_text(seq![c->0], PercentEncodeSet::Path),
                ..m
            },
        )
    }
}

/// Opaque path: `?` opens the query and `#` the fragment; anything else
/// goes to the path, percent-encoded against the C0 control set.
pub open spec fn opaque_path(m: Machine, c: Option<char>) -> Outcome {
    if c == Some('?') {
        Outcome::Advance(
            Machine {
                url: UrlView { query: Some(Seq::empty()), ..m.url },
                state: URLParseState::Query,
                ..m
            },
        )
    } else if c == Some('#') {
        Outcome::Advance(
            Machine {
                url: UrlView { fragment: Some(Seq::empty()), ..m.url },
                state: URLParseState::Fragment,
                ..m
            },
        )
    } else if c is Some {
        Outcome::Advance(
            Machine {
                url: UrlView {
                    path: m.url.path.append(encoded_text(seq![c->0], PercentEncodeSet::C0Control)),
                    ..m.url
                },
                ..m
            },
        )
    } else {
        Outcome::Advance(m)
    }
}

/// Query: `#` or the end of input ends the query: the buffer goes to the
/// query, percent-encoded against the special-query set in a special URL
/// and against the query set in another, and `#` opens the fragment.
/// Anything else is collected.
pub open spec fn query(m: Machine, c: Option<char>) -> Outcome {
    if c == Some('#') || c is None {
        let set = if m.url.is_special() {
            PercentEncodeSet::SpecialQuery
        } else {
            PercentEncodeSet::Query
        };
        let url = UrlView { query: extended(m.url.query, encoded_text(m.buffer, set)), ..m.url };
        if c == Some('#') {
            Outcome::Advance(
                Machine {
                    url: UrlView { fragment: Some(Seq::empty()), ..url },
                    buffer: Seq::empty(),
                    state: URLParseState::Fragment,
                    ..m
                },
            )
        } else {
            Outcome::Advance(Machine { url, buffer: Seq::empty(), ..m })
        }
    } else {
        Outcome::Advance(Machine { buffer: m.buffer.push(c->0), ..m })
    }
}

/// Fragment: every code point goes to the fragment, percent-encoded against
/// the fragment set.
pub open spec fn fragment(m: Machine, c: Option<char>) -> Outcome {
    if c is Some {
        Outcome::Advance(
            Machine {
                url: UrlView {
                    fragment: extended(
                        m.url.fragment,
                        encoded_text(seq![c->0], PercentEncodeSet::Fragment),
                    ),
                    ..m.url
                },
                ..m
            },
        )
    } else {
        Outcome::Advance(m)
    }
}

/// The handler of the machine's state, run on the code point under its pointer.
pub open spec fn step(m: Machine, input: Seq<char>, base: Option<UrlView>) -> Outcome {
    let c = code_point_at(input, m.pointer);
    match m.state {
        URLParseState::SchemeStart => scheme_start(m, c),
        URLParseState::Scheme => scheme(m, c, input, base),
        URLParseState::NoScheme => no_scheme(m, c, base),
        URLParseState::File => file(m, c, input, base),
        URLParseState::SpecialRelativeOrAuthority => special_relative_or_authority(m, c, input),
        URLParseState::SpecialAuthoritySlashes => special_authority_slashes(m, c, input),
        URLParseState::PathOrAuthority => path_or_authority(m, c),
        URLParseState::OpaquePath => opaque_path(m, c),
        URLParseState::Fragment => fragment(m, c),
        URLParseState::Relative => relative(m, c, base),
        URLParseState::SpecialAuthorityIgnoreSlashes => special_authority_ignore_slashes(m, c),
        URLParseState::Authority => authority(m, c),
        URLParseState::Path => path(m, c),
        URLParseState::RelativeSlash => relative_slash(m, c, base),
        URLParseState::Query => query(m, c),
        URLParseState::Host => host(m, c),
        URLParseState::Hostname => host(m, c),
        URLParseState::FileHost => file_host(m, c),
        URLParseState::Port => port(m, c),
        URLParseState::PathStart => path_start(m, c),
        URLParseState::FileSlash => file_slash(m, c, input, base),
    }
}

/// How far a state is from the end of a parse: a handler that hands over
/// without moving the pointer hands over to a state of lower rank.
pub open spec fn rank(state: URLParseState) -> nat {
    match state {
        URLParseState::SchemeStart => 20,
        URLParseState::Scheme => 19,
        URLParseState::NoScheme => 18,
        URLParseState::SpecialRelativeOrAuthority => 17,
        URLParseState::Relative => 16,
        URLParseState::RelativeSlash => 15,
        URLParseState::SpecialAuthoritySlashes => 14,
        URLParseState::SpecialAuthorityIgnoreSlashes => 13,
        URLParseState::PathOrAuthority => 12,
        URLParseState::Authority => 11,
        URLParseState::Host => 10,
        URLParseState::Hostname => 10,
        URLParseState::Port => 9,
        URLParseState::File => 8,
        URLParseState::FileSlash => 7,
        URLParseState::FileHost => 6,
        URLParseState::PathStart => 5,
        URLParseState::Path => 4,
        URLParseState::OpaquePath => 3,
        URLParseState::Query => 2,
        URLParseState::Fragment => 1,
    }
}

/// The number of code points from the pointer to the end of input.
pub open spec fn left(input: Seq<char>, pointer: int) -> nat {
    if pointer <= input.len() {
        (input.len() - pointer) as nat
    } else {
        0
    }
}

/// Every step either fails, hands over to a state of lower rank, or keeps
/// the state and the pointer, which then moves on.
pub proof fn lemma_step_progress(m: Machine, input: Seq<char>, base: Option<UrlView>)
    ensures
        match step(m, input, base) {
            Outcome::Failure => true,
            Outcome::Again(n) => rank(n.state) < rank(m.state),
            Outcome::Advance(n) => rank(n.state) < rank(m.state) || (n.state == m.state
                && n.pointer == m.pointer),
        },
{
    let c = code_point_at(input, m.pointer);
    match m.state {
        URLParseState::SchemeStart => {},
        URLParseState::Scheme => {},
        URLParseState::NoScheme => {},
        URLParseState::File => {},
        URLParseState::SpecialRelativeOrAuthority => {},
        URLParseState::SpecialAuthoritySlashes => {},
        URLParseState::PathOrAuthority => {},
        URLParseState::OpaquePath => {},
        URLParseState::Fragment => {},
        URLParseState::Relative => {},
        URLParseState::SpecialAuthorityIgnoreSlashes => {},
        URLParseState::Authority => {},
        URLParseState::Path => {},
        URLParseState::RelativeSlash => {},
        URLParseState::Query => {},
        URLParseState::Host => {},
        URLParseState::Hostname => {},
        URLParseState::FileHost => {},
        URLParseState::Port => {},
        URLParseState::PathStart => {},
        URLParseState::FileSlash => {},
    }
}

/// The states that are entered and left with an empty buffer.
pub open spec fn keeps_buffer_empty(state: URLParseState) -> bool {
    ||| state == URLParseState::SchemeStart
    ||| state == URLParseState::NoScheme
    ||| state == URLParseState::SpecialRelativeOrAuthority
    ||| state == URLParseState::SpecialAuthoritySlashes
    ||| state == URLParseState::SpecialAuthorityIgnoreSlashes
    ||| state == URLParseState::PathOrAuthority
    ||| state == URLParseState::Relative
    ||| state == URLParseState::RelativeSlash
}

/// The states that are only entered after a code point has been read.
pub open spec fn past_first_code_point(state: URLParseState) -> bool {
    ||| state == URLParseState::SpecialRelativeOrAuthority
    ||| state == URLParseState::SpecialAuthoritySlashes
    ||| state == URLParseState::SpecialAuthorityIgnoreSlashes
    ||| state == URLParseState::PathOrAuthority
    ||| state == URLParseState::RelativeSlash
    ||| state == URLParseState::Authority
}

impl Machine {
    /// The pointer is within the input or just past it, and the authority
    /// buffer holds fewer code points than were read: the pointer can
    /// always be moved back by the buffer's length and one.
    pub open spec fn consistent(self, input: Seq<char>) -> bool {
        &&& 0 <= self.pointer <= input.len()
        &&& keeps_buffer_empty(self.state) ==> self.buffer.len() == 0
        &&& past_first_code_point(self.state) ==> self.pointer >= 1
        &&& self.state == URLParseState::Authority ==> self.buffer.len() + 1 <= self.pointer
    }

    /// The machine with its pointer moved on by one.
    pub open spec fn advanced(self) -> Machine {
        Machine { pointer: self.pointer + 1, ..self }
    }
}

/// A step of a consistent machine leaves a consistent machine.
pub proof fn lemma_step_consistent(m: Machine, input: Seq<char>, base: Option<UrlView>)
    requires
        m.consistent(input),
    ensures
        match step(m, input, base) {
            Outcome::Failure => true,
            Outcome::Again(n) => n.consistent(input),
            Outcome::Advance(n) => 0 <= n.pointer <= input.len() && (n.pointer < input.len()
                ==> n.advanced().consistent(input)),
        },
{
    let c = code_point_at(input, m.pointer);
    match m.state {
        URLParseState::SchemeStart => {},
        URLParseState::Scheme => {},
        URLParseState::NoScheme => {},
        URLParseState::File => {},
        URLParseState::SpecialRelativeOrAuthority => {},
        URLParseState::SpecialAuthoritySlashes => {},
        URLParseState::PathOrAuthority => {},
        URLParseState::OpaquePath => {},
        URLParseState::Fragment => {},
        URLParseState::Relative => {},
        URLParseState::SpecialAuthorityIgnoreSlashes => {},
        URLParseState::Authority => {},
        URLParseState::Path => {},
        URLParseState::RelativeSlash => {},
        URLParseState::Query => {},
        URLParseState::Host => {},
        URLParseState::Hostname => {},
        URLParseState::FileHost => {},
        URLParseState::Port => {},
        URLParseState::PathStart => {},
        URLParseState::FileSlash => {},
    }
}

/// The URL that the machine ends with, or `None` where a handler fails.
pub open spec fn run(m: Machine, input: Seq<char>, base: Option<UrlView>) -> Option<UrlView>
    decreases rank(m.state), left(input, m.pointer),
{
    match step(m, input, base) {
        Outcome::Failure => None,
        Outcome::Again(n) => {
            proof {
                lemma_step_progress(m, input, base);
            }
            run(n, input, base)
        },
        Outcome::Advance(n) => {
            if n.pointer >= input.len() {
                Some(n.url)
            } else {
                proof {
                    lemma_step_progress(m, input, base);
                }
                run(n.advanced(), input, base)
            }
        },
    }
}

/// The input as the machine reads it: without leading and trailing C0
/// controls and spaces, and without any tab, line feed or carriage return.
pub open spec fn preprocessed(raw: Seq<char>) -> Seq<char> {
    without_tab_or_newline(trim_end(trim_start(raw)))
}

/// The URL that `raw` denotes against `base`, or `None` where it denotes none.
pub open spec fn parse_result(raw: Seq<char>, base: Option<UrlView>) -> Option<UrlView> {
    run(initial_machine(), preprocessed(raw), base)
}

} // verus!
