//! What holds of every parse.

use crate::url::machine::{
    code_point_at,
    initial_machine,
    left,
    lemma_step_consistent,
    lemma_step_progress,
    parse_result,
    preprocessed,
    rank,
    run,
    step,
    Machine,
    Outcome,
};
use crate::url::parser::URLParseState;
use crate::url::url::{blank_url, PathView, UrlView};
use vstd::prelude::*;

verus! {

/// Nothing but the scheme has been set.
pub open spec fn untouched(url: UrlView) -> bool {
    &&& url.host is None
    &&& url.port is None
    &&& url.path == PathView::List(Seq::empty())
    &&& url.query is None
    &&& url.fragment is None
}

/// No base, or a well-formed one.
pub open spec fn usable_base(base: Option<UrlView>) -> bool {
    base is Some ==> base->0.well_formed()
}

/// What holds of the URL under construction in each state.
pub open spec fn sound(m: Machine, base: Option<UrlView>) -> bool {
    match m.state {
        URLParseState::SchemeStart => m.url == blank_url(),
        URLParseState::Scheme => m.url == blank_url(),
        URLParseState::NoScheme => m.url == blank_url(),
        URLParseState::SpecialRelativeOrAuthority => untouched(m.url) && base is Some
            && base->0.scheme != "file"@ && m.url.scheme != "file"@,
        URLParseState::Relative => untouched(m.url) && base is Some && base->0.scheme != "file"@,
        URLParseState::RelativeSlash => untouched(m.url) && base is Some && m.url.scheme
            == base->0.scheme && m.url.scheme != "file"@,
        URLParseState::SpecialAuthoritySlashes => untouched(m.url) && m.url.scheme != "file"@,
        URLParseState::SpecialAuthorityIgnoreSlashes => untouched(m.url) && m.url.scheme
            != "file"@,
        URLParseState::PathOrAuthority => untouched(m.url) && !m.url.is_special(),
        URLParseState::Authority => untouched(m.url) && m.url.scheme != "file"@,
        URLParseState::Host => untouched(m.url) && m.url.scheme != "file"@,
        URLParseState::Hostname => untouched(m.url) && m.url.scheme != "file"@,
        URLParseState::Port => m.url.port is None && m.url.path is List && m.url.scheme
            != "file"@,
        URLParseState::File => untouched(m.url),
        URLParseState::FileSlash => m.url.scheme == "file"@ && m.url.host is Some
            && m.url.port is None && m.url.path is List,
        URLParseState::FileHost => m.url.scheme == "file"@ && m.url.host is Some
            && m.url.port is None && m.url.path is List,
        URLParseState::PathStart => m.url.well_formed(),
        URLParseState::Path => m.url.well_formed(),
        URLParseState::OpaquePath => m.url.well_formed(),
        URLParseState::Query => m.url.well_formed(),
        URLParseState::Fragment => m.url.well_formed(),
    }
}

/// The step of `m` keeps the machine sound, and where it ends the parse,
/// the URL is well formed.
pub open spec fn stays_sound(m: Machine, input: Seq<char>, base: Option<UrlView>) -> bool {
    match step(m, input, base) {
        Outcome::Failure => true,
        Outcome::Again(n) => sound(n, base),
        Outcome::Advance(n) => if n.pointer >= input.len() {
            n.url.well_formed()
        } else {
            sound(n.advanced(), base)
        },
    }
}

/// A step keeps the machine sound, and where it ends the parse, the URL is
/// well formed.
pub proof fn lemma_step_sound(m: Machine, input: Seq<char>, base: Option<UrlView>)
    requires
        sound(m, base),
        m.consistent(input),
        usable_base(base),
    ensures
        stays_sound(m, input, base),
{
    let c = code_point_at(input, m.pointer);
    match m.state {
        URLParseState::SchemeStart => {
            assert(stays_sound(m, input, base));
        },
        URLParseState::Scheme => {
            assert(stays_sound(m, input, base));
        },
        URLParseState::NoScheme => {
            assert(stays_sound(m, input, base));
        },
        URLParseState::File => {
            assert(stays_sound(m, input, base));
        },
        URLParseState::SpecialRelativeOrAuthority => {
            assert(stays_sound(m, input, base));
        },
        URLParseState::SpecialAuthoritySlashes => {
            assert(stays_sound(m, input, base));
        },
        URLParseState::PathOrAuthority => {
            assert(stays_sound(m, input, base));
        },
        URLParseState::OpaquePath => {
            assert(stays_sound(m, input, base));
        },
        URLParseState::Fragment => {
            assert(stays_sound(m, input, base));
        },
        URLParseState::Relative => {
            assert(stays_sound(m, input, base));
        },
        URLParseState::SpecialAuthorityIgnoreSlashes => {
            assert(stays_sound(m, input, base));
        },
        URLParseState::Authority => {
            assert(stays_sound(m, input, base));
        },
        URLParseState::Path => {
            assert(stays_sound(m, input, base));
        },
        URLParseState::RelativeSlash => {
            assert(stays_sound(m, input, base));
        },
        URLParseState::Query => {
            assert(stays_sound(m, input, base));
        },
        URLParseState::Host => {
            assert(stays_sound(m, input, base));
        },
        URLParseState::Hostname => {
            assert(stays_sound(m, input, base));
        },
        URLParseState::FileHost => {
            assert(stays_sound(m, input, base));
        },
        URLParseState::Port => {
            assert(stays_sound(m, input, base));
        },
        URLParseState::PathStart => {
            assert(stays_sound(m, input, base));
        },
        URLParseState::FileSlash => {
            assert(stays_sound(m, input, base));
        },
    }
}

/// A sound machine ends with a well-formed URL.
pub proof fn lemma_run_well_formed(m: Machine, input: Seq<char>, base: Option<UrlView>)
    requires
        sound(m, base),
        m.consistent(input),
        usable_base(base),
    ensures
        run(m, input, base) is Some ==> run(m, input, base)->0.well_formed(),
    decreases rank(m.state), left(input, m.pointer),
{
    lemma_step_progress(m, input, base);
    lemma_step_consistent(m, input, base);
    lemma_step_sound(m, input, base);
    match step(m, input, base) {
        Outcome::Failure => {},
        Outcome::Again(n) => {
            lemma_run_well_formed(n, input, base);
        },
        Outcome::Advance(n) => {
            if n.pointer < input.len() {
                lemma_run_well_formed(n.advanced(), input, base);
            }
        },
    }
}

/// Every URL that the parser returns, given no base or a well-formed one,
/// is well formed: a special scheme comes with a segment list and without
/// its default port, and a `file` URL has a host.
pub proof fn lemma_parse_well_formed(raw: Seq<char>, base: Option<UrlView>)
    requires
        usable_base(base),
    ensures
        parse_result(raw, base) is Some ==> parse_result(raw, base)->0.well_formed(),
{
    lemma_run_well_formed(initial_machine(), preprocessed(raw), base);
}

/// A parsed URL with a special scheme has a segment list for its path.
pub proof fn lemma_special_has_segments(raw: Seq<char>, base: Option<UrlView>)
    requires
        usable_base(base),
        parse_result(raw, base) is Some,
        parse_result(raw, base)->0.is_special(),
    ensures
        parse_result(raw, base)->0.path is List,
{
    lemma_parse_well_formed(raw, base);
}

/// Shortening leaves a `file` URL alone whose path is one normalized drive
/// letter.
pub proof fn lemma_shorten_keeps_drive_letter(url: UrlView, letter: Seq<char>)
    requires
        url.scheme == "file"@,
        url.path == PathView::List(seq![letter]),
        crate::url::helper::normalized_windows_drive_letter(letter),
    ensures
        url.shorten_path() == url,
{
}

} // verus!
