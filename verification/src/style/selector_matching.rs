//! Selector matching: whether a selector matches an element, and how
//! specific it is.
//!
//! A selector is a compound of simple selectors, all of which an element
//! must match. Selectors with combinators are not part of this engine.

use crate::dom::element::{lower_text, lowercased, value_of, Element, ElementView};
use crate::style::cascade::Specificity;
use crate::text::{same_text, to_chars};
use vstd::prelude::*;
use vstd::string::*;

verus! {

/// One condition on an element.
#[derive(Debug, Clone)]
pub enum SimpleSelector {
    /// `*`: any element.
    Universal,
    /// `name`: an element with the tag name, in any case.
    Type(String),
    /// `#id`: an element whose `id` attribute is the id.
    Id(String),
    /// `.class`: an element whose `class` attribute holds the class as one
    /// of its words.
    Class(String),
    /// `[name]`: an element with the attribute.
    Attribute(String),
}

/// The mathematical value of a [`SimpleSelector`].
pub enum SimpleView {
    Universal,
    Type(Seq<char>),
    Id(Seq<char>),
    Class(Seq<char>),
    Attribute(Seq<char>),
}

impl View for SimpleSelector {
    type V = SimpleView;

    open spec fn view(&self) -> SimpleView {
        match self {
            SimpleSelector::Universal => SimpleView::Universal,
            SimpleSelector::Type(s) => SimpleView::Type(s@),
            SimpleSelector::Id(s) => SimpleView::Id(s@),
            SimpleSelector::Class(s) => SimpleView::Class(s@),
            SimpleSelector::Attribute(s) => SimpleView::Attribute(s@),
        }
    }
}

/// A compound selector.
#[derive(Debug, Clone)]
pub struct Selector {
    pub parts: Vec<SimpleSelector>,
}

impl View for Selector {
    type V = Seq<SimpleView>;

    open spec fn view(&self) -> Seq<SimpleView> {
        Seq::new(self.parts@.len(), |i: int| self.parts@[i]@)
    }
}

/// Space, tab, line feed, form feed or carriage return.
pub open spec fn space(c: char) -> bool {
    c == ' ' || c == '\t' || c == '\n' || c == '\u{c}' || c == '\r'
}

/// Whether `word` stands in `text` at `i` as a whole word: with the start
/// of the text or a space before it, and the end or a space behind it.
pub open spec fn word_at(text: Seq<char>, word: Seq<char>, i: int) -> bool {
    &&& 0 <= i
    &&& i + word.len() <= text.len()
    &&& text.subrange(i, i + word.len()) == word
    &&& (i == 0 || space(text[i - 1]))
    &&& (i + word.len() == text.len() || space(text[i + word.len()]))
}

/// Whether `word`, which is not empty and holds no space, is one of the
/// words of `text`.
pub open spec fn has_word(text: Seq<char>, word: Seq<char>) -> bool {
    &&& word.len() > 0
    &&& forall|k: int| 0 <= k < word.len() ==> !space(#[trigger] word[k])
    &&& exists|i: int| #[trigger] word_at(text, word, i)
}

/// Whether the element meets the condition.
pub open spec fn simple_matches(selector: SimpleView, element: ElementView) -> bool {
    match selector {
        SimpleView::Universal => true,
        SimpleView::Type(name) => element.tag_name == lowercased(name),
        SimpleView::Id(id) => value_of(element.attributes, "id"@) == Some(id),
        SimpleView::Class(class) => match value_of(element.attributes, "class"@) {
            Some(v) => has_word(v, class),
            None => false,
        },
        SimpleView::Attribute(name) => value_of(element.attributes, name) is Some,
    }
}

/// Whether the element meets every condition of the selector.
pub open spec fn matches(selector: Seq<SimpleView>, element: ElementView) -> bool {
    forall|i: int| 0 <= i < selector.len() ==> simple_matches(#[trigger] selector[i], element)
}

/// The number of id selectors among the first `n` parts.
pub open spec fn id_count(selector: Seq<SimpleView>, n: int) -> nat
    decreases n,
{
    if n <= 0 || n > selector.len() {
        0
    } else {
        id_count(selector, n - 1) + (if selector[n - 1] is Id {
            1nat
        } else {
            0nat
        })
    }
}

/// The number of class and attribute selectors among the first `n` parts.
pub open spec fn class_count(selector: Seq<SimpleView>, n: int) -> nat
    decreases n,
{
    if n <= 0 || n > selector.len() {
        0
    } else {
        class_count(selector, n - 1) + (if selector[n - 1] is Class || selector[n
            - 1] is Attribute {
            1nat
        } else {
            0nat
        })
    }
}

/// The number of type selectors among the first `n` parts.
pub open spec fn type_count(selector: Seq<SimpleView>, n: int) -> nat
    decreases n,
{
    if n <= 0 || n > selector.len() {
        0
    } else {
        type_count(selector, n - 1) + (if selector[n - 1] is Type {
            1nat
        } else {
            0nat
        })
    }
}

/// No count is above the number of parts counted.
pub proof fn lemma_counts_bounded(selector: Seq<SimpleView>, n: int)
    requires
        0 <= n <= selector.len(),
    ensures
        id_count(selector, n) <= n,
        class_count(selector, n) <= n,
        type_count(selector, n) <= n,
    decreases n,
{
    if n > 0 {
        lemma_counts_bounded(selector, n - 1);
    }
}

/// How specific the selector is.
pub open spec fn specificity_of(selector: Seq<SimpleView>) -> Specificity {
    let n = selector.len() as int;
    Specificity {
        ids: id_count(selector, n) as usize,
        classes: class_count(selector, n) as usize,
        types: type_count(selector, n) as usize,
    }
}

fn is_space(c: char) -> (r: bool)
    ensures
        r == space(c),
{
    c == ' ' || c == '\t' || c == '\n' || c == '\u{c}' || c == '\r'
}

fn stands_at(text: &Vec<char>, word: &Vec<char>, i: usize) -> (r: bool)
    requires
        i + word.len() <= text.len(),
    ensures
        r == word_at(text@, word@, i as int),
{
    if i > 0 && !is_space(text[i - 1]) {
        return false;
    }
    if i + word.len() < text.len() && !is_space(text[i + word.len()]) {
        return false;
    }
    let mut k: usize = 0;
    while k < word.len()
        invariant
            k <= word.len(),
            i + word.len() <= text.len(),
            forall|j: int| 0 <= j < k ==> text@[i + j] == word@[j],
        decreases word.len() - k,
    {
        if text[i + k] != word[k] {
            assert(text@.subrange(i as int, i + word.len())[k as int] == text@[i + k]);
            return false;
        }
        k += 1;
    }
    assert(text@.subrange(i as int, i + word.len()) =~= word@);
    true
}

/// Whether `word` is one of the words of `text`.
pub fn holds_word(text: &str, word: &str) -> (r: bool)
    ensures
        r == has_word(text@, word@),
{
    let t = to_chars(text);
    let w = to_chars(word);
    if w.len() == 0 {
        return false;
    }
    let mut k: usize = 0;
    while k < w.len()
        invariant
            k <= w.len(),
            w@ == word@,
            forall|j: int| 0 <= j < k ==> !space(#[trigger] w@[j]),
        decreases w.len() - k,
    {
        if is_space(w[k]) {
            assert(space(word@[k as int]));
            return false;
        }
        k += 1;
    }
    if w.len() > t.len() {
        assert forall|i: int| !#[trigger] word_at(t@, w@, i) by {}
        return false;
    }
    let last: usize = t.len() - w.len();
    let mut i: usize = 0;
    while i <= last
        invariant
            i <= last + 1,
            w.len() >= 1,
            last + w.len() == t.len(),
            w@ == word@,
            t@ == text@,
            forall|j: int| 0 <= j < w.len() ==> !space(#[trigger] w@[j]),
            forall|j: int| 0 <= j < i ==> !#[trigger] word_at(t@, w@, j),
        decreases last + 1 - i,
    {
        if stands_at(&t, &w, i) {
            return true;
        }
        i += 1;
    }
    assert forall|j: int| !#[trigger] word_at(t@, w@, j) by {
        if 0 <= j <= last {
        }
    }
    false
}

impl SimpleSelector {
    /// Whether the element meets the condition.
    pub fn matches(&self, element: &Element) -> (r: bool)
        ensures
            r == simple_matches(self@, element@),
    {
        match self {
            SimpleSelector::Universal => true,
            SimpleSelector::Type(name) => {
                let wanted = lower_text(name.as_str());
                same_text(element.tag_name().as_str(), wanted.as_str())
            },
            SimpleSelector::Id(id) => match element.get_attribute("id") {
                Some(v) => same_text(v.as_str(), id.as_str()),
                None => false,
            },
            SimpleSelector::Class(class) => match element.get_attribute("class") {
                Some(v) => holds_word(v.as_str(), class.as_str()),
                None => false,
            },
            SimpleSelector::Attribute(name) => element.get_attribute(name.as_str()).is_some(),
        }
    }
}

impl Selector {
    /// How specific the selector is.
    pub fn specificity(&self) -> (r: Specificity)
        ensures
            r == specificity_of(self@),
    {
        let mut ids: usize = 0;
        let mut classes: usize = 0;
        let mut types: usize = 0;
        let mut i: usize = 0;
        while i < self.parts.len()
            invariant
                i <= self.parts.len(),
                self@.len() == self.parts.len(),
                ids == id_count(self@, i as int),
                classes == class_count(self@, i as int),
                types == type_count(self@, i as int),
            decreases self.parts.len() - i,
        {
            proof {
                lemma_counts_bounded(self@, i as int);
                assert(self@[i as int] == self.parts@[i as int]@);
            }
            match &self.parts[i] {
                SimpleSelector::Id(_) => {
                    ids += 1;
                },
                SimpleSelector::Class(_) => {
                    classes += 1;
                },
                SimpleSelector::Attribute(_) => {
                    classes += 1;
                },
                SimpleSelector::Type(_) => {
                    types += 1;
                },
                SimpleSelector::Universal => {},
            }
            i += 1;
        }
        Specificity { ids, classes, types }
    }

    /// Whether the selector matches the element, and if so, how specific
    /// it is.
    pub fn matches(&self, element: &Element) -> (r: Option<Specificity>)
        ensures
            r == matched(self@, element@),
    {
        let mut i: usize = 0;
        while i < self.parts.len()
            invariant
                i <= self.parts.len(),
                self@.len() == self.parts.len(),
                forall|k: int| 0 <= k < i ==> simple_matches(#[trigger] self@[k], element@),
            decreases self.parts.len() - i,
        {
            assert(self@[i as int] == self.parts@[i as int]@);
            if !self.parts[i].matches(element) {
                return None;
            }
            i += 1;
        }
        Some(self.specificity())
    }
}

/// The specificity of the selector where it matches the element; `None`
/// where it does not.
pub open spec fn matched(selector: Seq<SimpleView>, element: ElementView) -> Option<Specificity> {
    if matches(selector, element) {
        Some(specificity_of(selector))
    } else {
        None
    }
}

/// The views of a list of selectors.
pub open spec fn selector_views(selectors: Seq<Selector>) -> Seq<Seq<SimpleView>> {
    Seq::new(selectors.len(), |i: int| selectors[i]@)
}

/// The specificity with which the first `n` of the selectors match the
/// element: that of the first among the most specific that match; `None`
/// where none matches.
pub open spec fn best_match(selectors: Seq<Seq<SimpleView>>, element: ElementView, n: int) -> Option<
    Specificity,
>
    decreases n,
{
    if n <= 0 || n > selectors.len() {
        None
    } else {
        let before = best_match(selectors, element, n - 1);
        match matched(selectors[n - 1], element) {
            Some(s) => match before {
                Some(b) => if b.below(s) {
                    Some(s)
                } else {
                    Some(b)
                },
                None => Some(s),
            },
            None => before,
        }
    }
}

/// The best match is the specificity of a selector that matches, no
/// selector that matches is above it, and there is one exactly where a
/// selector matches.
pub proof fn lemma_best_match(selectors: Seq<Seq<SimpleView>>, element: ElementView, n: int)
    requires
        0 <= n <= selectors.len(),
    ensures
        best_match(selectors, element, n) is Some <==> exists|i: int|
            0 <= i < n && matches(#[trigger] selectors[i], element),
        best_match(selectors, element, n) is Some ==> exists|i: int|
            0 <= i < n && #[trigger] matched(selectors[i], element) == best_match(
                selectors,
                element,
                n,
            ),
        forall|i: int|
            0 <= i < n && matches(#[trigger] selectors[i], element) ==> best_match(
                selectors,
                element,
                n,
            ) is Some && !best_match(selectors, element, n)->0.below(specificity_of(selectors[i])),
    decreases n,
{
    if n > 0 {
        lemma_best_match(selectors, element, n - 1);
        let before = best_match(selectors, element, n - 1);
        let now = best_match(selectors, element, n);
        if matches(selectors[n - 1], element) {
            assert(matched(selectors[n - 1], element) is Some);
        }
        if now is Some {
            if matched(selectors[n - 1], element) == now {
            } else {
                let i = choose|i: int|
                    0 <= i < n - 1 && #[trigger] matched(selectors[i], element) == before;
                assert(matched(selectors[i], element) == now);
            }
        }
        assert forall|i: int| 0 <= i < n && matches(#[trigger] selectors[i], element) implies now
            is Some && !now->0.below(specificity_of(selectors[i])) by {
            if i < n - 1 {
                assert(before is Some);
            }
        }
    }
}

/// Whether a rule with the given selectors matches the element, and with
/// which specificity: that of the most specific of its selectors that
/// match.
pub fn rule_matches(selectors: &Vec<Selector>, element: &Element) -> (r: Option<Specificity>)
    ensures
        r == best_match(selector_views(selectors@), element@, selectors.len() as int),
{
    let mut best: Option<Specificity> = None;
    let mut i: usize = 0;
    while i < selectors.len()
        invariant
            i <= selectors.len(),
            best == best_match(selector_views(selectors@), element@, i as int),
        decreases selectors.len() - i,
    {
        assert(selector_views(selectors@)[i as int] == selectors@[i as int]@);
        match selectors[i].matches(element) {
            Some(s) => {
                let better = match best {
                    Some(b) => b.is_below(&s),
                    None => true,
                };
                if better {
                    best = Some(s);
                }
            },
            None => {},
        }
        i += 1;
    }
    best
}

} // verus!
