//! The URL record.

use crate::text::{
    copy_texts,
    lemma_texts_drop_last,
    lemma_texts_push,
    opt_text,
    same_text,
    texts,
};
use crate::url::helper::{is_normalized_window_drive_letter, normalized_windows_drive_letter};
use vstd::prelude::*;
use vstd::string::*;

verus! {

/// A resolved URL.
#[derive(Debug, Clone)]
pub struct Url {
    pub scheme: String,
    pub host: Option<String>,
    pub port: Option<u16>,
    pub path: UrlPath,
    pub query: Option<String>,
    pub fragment: Option<String>,
}

/// A URL's path: one opaque string, or a list of segments.
#[derive(Debug, Clone)]
pub enum UrlPath {
    Opaque(String),
    List(Vec<String>),
}

/// The mathematical value of a [`UrlPath`].
pub enum PathView {
    Opaque(Seq<char>),
    List(Seq<Seq<char>>),
}

/// The mathematical value of a [`Url`].
pub struct UrlView {
    pub scheme: Seq<char>,
    pub host: Option<Seq<char>>,
    pub port: Option<u16>,
    pub path: PathView,
    pub query: Option<Seq<char>>,
    pub fragment: Option<Seq<char>>,
}

impl View for UrlPath {
    type V = PathView;

    open spec fn view(&self) -> PathView {
        match self {
            UrlPath::Opaque(s) => PathView::Opaque(s@),
            UrlPath::List(v) => PathView::List(texts(v@)),
        }
    }
}

impl View for Url {
    type V = UrlView;

    open spec fn view(&self) -> UrlView {
        UrlView {
            scheme: self.scheme@,
            host: opt_text(self.host),
            port: self.port,
            path: self.path@,
            query: opt_text(self.query),
            fragment: opt_text(self.fragment),
        }
    }
}

/// The view of an optional URL.
pub open spec fn opt_url(u: Option<Url>) -> Option<UrlView> {
    match u {
        Some(v) => Some(v@),
        None => None,
    }
}

/// The URL that parsing starts from: everything empty or absent.
pub open spec fn blank_url() -> UrlView {
    UrlView {
        scheme: Seq::empty(),
        host: None,
        port: None,
        path: PathView::List(Seq::empty()),
        query: None,
        fragment: None,
    }
}

/// Whether `scheme` is one of ftp, file, http, https, ws, wss.
pub open spec fn is_special_scheme(scheme: Seq<char>) -> bool {
    ||| scheme == "ftp"@
    ||| scheme == "file"@
    ||| scheme == "http"@
    ||| scheme == "https"@
    ||| scheme == "ws"@
    ||| scheme == "wss"@
}

/// The port that a special scheme implies; `file` and other schemes imply none.
pub open spec fn default_port(scheme: Seq<char>) -> Option<u16> {
    if scheme == "ftp"@ {
        Some(21u16)
    } else if scheme == "http"@ {
        Some(80u16)
    } else if scheme == "https"@ {
        Some(443u16)
    } else if scheme == "ws"@ {
        Some(80u16)
    } else if scheme == "wss"@ {
        Some(443u16)
    } else {
        None
    }
}

/// The segments joined by `/`.
pub open spec fn join_segments(segments: Seq<Seq<char>>) -> Seq<char>
    decreases segments.len(),
{
    if segments.len() == 0 {
        Seq::empty()
    } else if segments.len() == 1 {
        segments[0]
    } else {
        join_segments(segments.drop_last()).push('/') + segments.last()
    }
}

/// The decimal digit for a value below ten.
pub open spec fn digit_char(d: nat) -> char {
    (0x30 + d) as char
}

/// `n` written in decimal digits, without leading zeros.
pub open spec fn decimal_digits(n: nat) -> Seq<char>
    decreases n,
{
    if n < 10 {
        seq![digit_char(n)]
    } else {
        decimal_digits(n / 10).push(digit_char(n % 10))
    }
}

/// `prefix` and the text, where there is a text; nothing where there is none.
pub open spec fn prefixed(prefix: Seq<char>, text: Option<Seq<char>>) -> Seq<char> {
    match text {
        Some(t) => prefix + t,
        None => Seq::empty(),
    }
}

/// `:` and the port in decimal digits, where there is a port.
pub open spec fn port_text(port: Option<u16>) -> Seq<char> {
    match port {
        Some(p) => seq![':'] + decimal_digits(p as nat),
        None => Seq::empty(),
    }
}

impl PathView {
    /// The path as one string.
    pub open spec fn text(self) -> Seq<char> {
        match self {
            PathView::Opaque(s) => s,
            PathView::List(l) => join_segments(l),
        }
    }

    /// A list gains `child` as its last segment; an opaque path is extended by it.
    pub open spec fn append(self, child: Seq<char>) -> PathView {
        match self {
            PathView::Opaque(s) => PathView::Opaque(s + child),
            PathView::List(l) => PathView::List(l.push(child)),
        }
    }

    /// A list gains an empty last segment; an opaque path is unchanged.
    pub open spec fn push_empty(self) -> PathView {
        match self {
            PathView::Opaque(s) => self,
            PathView::List(l) => PathView::List(l.push(Seq::empty())),
        }
    }

    /// No segments, or no text.
    pub open spec fn is_empty(self) -> bool {
        match self {
            PathView::Opaque(s) => s.len() == 0,
            PathView::List(l) => l.len() == 0,
        }
    }
}

impl UrlView {
    /// The scheme is one of the special ones.
    pub open spec fn is_special(self) -> bool {
        is_special_scheme(self.scheme)
    }

    /// The path is one opaque string.
    pub open spec fn has_opaque_path(self) -> bool {
        self.path is Opaque
    }

    /// The path without its last segment. A `file` URL whose path is a lone
    /// drive letter keeps it; an opaque or empty path is unchanged.
    pub open spec fn shorten_path(self) -> UrlView {
        match self.path {
            PathView::Opaque(_) => self,
            PathView::List(l) => {
                if self.scheme == "file"@ && l.len() == 1 && normalized_windows_drive_letter(
                    l[0],
                ) {
                    self
                } else if l.len() == 0 {
                    self
                } else {
                    UrlView { path: PathView::List(l.drop_last()), ..self }
                }
            },
        }
    }

    /// The URL written out: the scheme, `://`, the host, `:` and the port
    /// where there is one, `/`, the path, then `?` and the query and `#` and
    /// the fragment where there are any.
    pub open spec fn serialized(self) -> Seq<char> {
        self.scheme + "://"@ + prefixed(Seq::empty(), self.host) + port_text(self.port) + seq!['/']
            + self.path.text() + prefixed(seq!['?'], self.query) + prefixed(
            seq!['#'],
            self.fragment,
        )
    }

    /// What every URL that the parser returns satisfies: a special scheme
    /// comes with a segment list and never with its own default port, and a
    /// `file` URL has a host.
    pub open spec fn well_formed(self) -> bool {
        &&& self.is_special() ==> self.path is List
        &&& self.is_special() && self.port is Some ==> self.port != default_port(self.scheme)
        &&& self.scheme == "file"@ ==> self.host is Some
    }
}

impl Url {
    /// A URL with an empty scheme, an empty segment list and nothing else.
    pub fn new() -> (r: Self)
        ensures
            r@ == blank_url(),
    {
        let r = Self {
            scheme: String::new(),
            host: None,
            port: None,
            path: UrlPath::List(Vec::new()),
            query: None,
            fragment: None,
        };
        assert(texts(Seq::<String>::empty()) =~= Seq::<Seq<char>>::empty());
        r
    }

    /// Whether the scheme is one of ftp, file, http, https, ws, wss.
    pub fn is_special(&self) -> (r: bool)
        ensures
            r == self@.is_special(),
    {
        let s = self.scheme.as_str();
        same_text(s, "ftp") || same_text(s, "file") || same_text(s, "http") || same_text(s, "https")
            || same_text(s, "ws") || same_text(s, "wss")
    }

    /// Whether the path is one opaque string.
    pub fn has_opaque_path(&self) -> (r: bool)
        ensures
            r == self@.has_opaque_path(),
    {
        match self.path {
            UrlPath::Opaque(_) => true,
            _ => false,
        }
    }

    /// The URL written out, as [`UrlView::serialized`] says.
    pub fn to_string(&self) -> (r: String)
        ensures
            r@ == self@.serialized(),
    {
        let mut out = self.scheme.clone();
        out.append("://");
        if let Some(host) = &self.host {
            out.append(host.as_str());
        }
        assert(out@ =~= self@.scheme + "://"@ + prefixed(Seq::empty(), self@.host));
        if let Some(port) = self.port {
            out.push(':');
            let digits = decimal_text(port);
            out.append(digits.as_str());
        }
        assert(out@ =~= self@.scheme + "://"@ + prefixed(Seq::empty(), self@.host) + port_text(
            self@.port,
        ));
        out.push('/');
        let path = self.path.as_str();
        out.append(path.as_str());
        let ghost upto_path = self@.scheme + "://"@ + prefixed(Seq::empty(), self@.host)
            + port_text(self@.port) + seq!['/'] + self@.path.text();
        assert(out@ =~= upto_path);
        if let Some(query) = &self.query {
            out.push('?');
            out.append(query.as_str());
        }
        assert(out@ =~= upto_path + prefixed(seq!['?'], self@.query));
        if let Some(fragment) = &self.fragment {
            out.push('#');
            out.append(fragment.as_str());
        }
        assert(out@ =~= upto_path + prefixed(seq!['?'], self@.query) + prefixed(
            seq!['#'],
            self@.fragment,
        ));
        out
    }

    /// Removes the last path segment, unless the URL is a `file` URL whose
    /// path is exactly one normalized drive letter.
    pub fn shorten_path(&mut self)
        ensures
            final(self)@ == old(self)@.shorten_path(),
    {
        let is_file = same_text(self.scheme.as_str(), "file");
        match &mut self.path {
            UrlPath::List(path) => {
                if is_file && path.len() == 1 && is_normalized_window_drive_letter(path[0].as_str()) {
                    return ;
                }
                if path.len() > 0 {
                    proof {
                        lemma_texts_drop_last(path@);
                    }
                    path.pop();
                }
            },
            UrlPath::Opaque(_) => {},
        }
    }
}

impl UrlPath {
    /// Adds `child_path` as the last segment of a list, or to the end of an
    /// opaque path.
    pub fn append(&mut self, child_path: &str)
        ensures
            final(self)@ == old(self)@.append(child_path@),
    {
        match self {
            UrlPath::List(path) => {
                let ghost before = path@;
                let seg = String::from_str(child_path);
                proof {
                    lemma_texts_push(before, seg);
                }
                path.push(seg);
            },
            UrlPath::Opaque(path) => {
                path.append(child_path);
            },
        }
    }

    /// Adds an empty last segment to a list; leaves an opaque path as it is.
    pub fn push_empty(&mut self)
        ensures
            final(self)@ == old(self)@.push_empty(),
    {
        match self {
            UrlPath::List(path) => {
                let seg = String::new();
                proof {
                    lemma_texts_push(path@, seg);
                }
                path.push(seg);
            },
            UrlPath::Opaque(_) => {},
        }
    }

    /// A copy of the path.
    pub fn duplicate(&self) -> (r: UrlPath)
        ensures
            r@ == self@,
    {
        match self {
            UrlPath::List(path) => UrlPath::List(copy_texts(path)),
            UrlPath::Opaque(path) => UrlPath::Opaque(path.clone()),
        }
    }

    /// Whether a list has no segment, or an opaque path no text.
    pub fn is_empty(&self) -> (r: bool)
        ensures
            r == self@.is_empty(),
    {
        match self {
            UrlPath::List(list) => list.len() == 0,
            UrlPath::Opaque(path) => path.as_str().unicode_len() == 0,
        }
    }

    /// The path as one string: the segments of a list joined by `/`, or the
    /// opaque text.
    pub fn as_str(&self) -> (r: String)
        ensures
            r@ == self@.text(),
    {
        match self {
            UrlPath::List(path) => {
                let mut out = String::new();
                let mut i: usize = 0;
                while i < path.len()
                    invariant
                        i <= path.len(),
                        out@ == join_segments(texts(path@).subrange(0, i as int)),
                    decreases path.len() - i,
                {
                    let ghost next = texts(path@).subrange(0, i + 1);
                    assert(next.drop_last() =~= texts(path@).subrange(0, i as int));
                    assert(next.last() == path@[i as int]@);
                    if i > 0 {
                        out.push('/');
                    }
                    out.append(path[i].as_str());
                    assert(out@ =~= join_segments(next));
                    i += 1;
                }
                assert(texts(path@).subrange(0, path.len() as int) =~= texts(path@));
                out
            },
            UrlPath::Opaque(path) => path.clone(),
        }
    }
}

impl PartialEq<&str> for UrlPath {
    /// Whether the path, as one string, reads `other`.
    fn eq(&self, other: &&str) -> (r: bool) {
        let s = self.as_str();
        same_text(s.as_str(), *other)
    }
}

impl vstd::std_specs::cmp::PartialEqSpecImpl<&str> for UrlPath {
    open spec fn obeys_eq_spec() -> bool {
        true
    }

    open spec fn eq_spec(&self, other: &&str) -> bool {
        self@.text() == other@
    }
}

/// `n` in decimal digits.
pub fn decimal_text(n: u16) -> (r: String)
    ensures
        r@ == decimal_digits(n as nat),
    decreases n,
{
    let d = (n % 10) as u8;
    if n < 10 {
        let mut out = String::new();
        out.push((0x30u8 + d) as char);
        assert(out@ =~= seq![digit_char(n as nat)]);
        out
    } else {
        let mut out = decimal_text(n / 10);
        out.push((0x30u8 + d) as char);
        out
    }
}

} // verus!
