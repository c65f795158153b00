//! An element: its tag name, its attributes, and its payload.

use crate::dom::elements::html_elements::{
    HTMLAnchorElement,
    HTMLBodyElement,
    HTMLDivElement,
    HTMLHeadElement,
    HTMLHtmlElement,
    HTMLLinkElement,
    HTMLTitleElement,
    HTMLUnknownElement,
};
use crate::dom::elements::{ElementData, ElementDataView, ElementKind};
use crate::dom::node::NodeRef;
use crate::text::{from_chars, same_text, to_chars};
use crate::url::helper::{ascii_lower, to_ascii_lower};
use vstd::prelude::*;
use vstd::string::*;

verus! {

/// One attribute.
#[derive(Debug)]
pub struct Attribute {
    pub name: String,
    pub value: String,
}

/// An element.
#[derive(Debug)]
pub struct Element {
    tag_name: String,
    attributes: Vec<Attribute>,
    data: ElementData,
}

/// The mathematical value of an [`Element`]: the tag name, the attributes
/// as pairs of name and value in the order in which they were first set,
/// and the payload.
pub struct ElementView {
    pub tag_name: Seq<char>,
    pub attributes: Seq<(Seq<char>, Seq<char>)>,
    pub data: ElementDataView,
}

/// `s` with its ASCII upper-case letters in lower case.
pub open spec fn lowercased(s: Seq<char>) -> Seq<char> {
    Seq::new(s.len(), |i: int| ascii_lower(s[i]))
}

/// Which known element a lower-case tag name denotes.
pub open spec fn kind_of_tag(tag: Seq<char>) -> ElementKind {
    if tag == "a"@ {
        ElementKind::Anchor
    } else if tag == "body"@ {
        ElementKind::Body
    } else if tag == "div"@ {
        ElementKind::Div
    } else if tag == "head"@ {
        ElementKind::Head
    } else if tag == "html"@ {
        ElementKind::Html
    } else if tag == "link"@ {
        ElementKind::Link
    } else if tag == "title"@ {
        ElementKind::Title
    } else {
        ElementKind::Unknown
    }
}

/// The place of the attribute called `name`, if there is one.
pub open spec fn position_of(attributes: Seq<(Seq<char>, Seq<char>)>, name: Seq<char>) -> Option<
    int,
>
    decreases attributes.len(),
{
    if attributes.len() == 0 {
        None
    } else {
        match position_of(attributes.drop_last(), name) {
            Some(i) => Some(i),
            None => if attributes.last().0 == name {
                Some(attributes.len() - 1)
            } else {
                None
            },
        }
    }
}

/// The value of the attribute called `name`, if there is one.
pub open spec fn value_of(attributes: Seq<(Seq<char>, Seq<char>)>, name: Seq<char>) -> Option<
    Seq<char>,
> {
    match position_of(attributes, name) {
        Some(i) => Some(attributes[i].1),
        None => None,
    }
}

/// The attributes after `name` has been set to `value`: an attribute of
/// that name keeps its place and takes the value, a new name goes last.
pub open spec fn with_attribute(
    attributes: Seq<(Seq<char>, Seq<char>)>,
    name: Seq<char>,
    value: Seq<char>,
) -> Seq<(Seq<char>, Seq<char>)> {
    match position_of(attributes, name) {
        Some(i) => attributes.update(i, (name, value)),
        None => attributes.push((name, value)),
    }
}

/// No two attributes have the same name.
pub open spec fn distinct_names(attributes: Seq<(Seq<char>, Seq<char>)>) -> bool {
    forall|i: int, j: int|
        0 <= i < j < attributes.len() ==> (#[trigger] attributes[i]).0 != (
        #[trigger] attributes[j]).0
}

/// Where `position_of` finds a name, the name is there and nowhere before;
/// where it finds none, the name is nowhere.
pub proof fn lemma_position_of(attributes: Seq<(Seq<char>, Seq<char>)>, name: Seq<char>)
    ensures
        match position_of(attributes, name) {
            Some(i) => 0 <= i < attributes.len() && attributes[i].0 == name && forall|j: int|
                0 <= j < i ==> (#[trigger] attributes[j]).0 != name,
            None => forall|j: int| 0 <= j < attributes.len() ==> (#[trigger] attributes[j]).0 != name,
        },
    decreases attributes.len(),
{
    if attributes.len() > 0 {
        lemma_position_of(attributes.drop_last(), name);
        assert forall|j: int| 0 <= j < attributes.len() - 1 implies attributes.drop_last()[j]
            == attributes[j] by {}
        match position_of(attributes.drop_last(), name) {
            Some(i) => {
                assert(attributes.drop_last()[i] == attributes[i]);
                assert forall|j: int| 0 <= j < i implies (#[trigger] attributes[j]).0 != name by {
                    assert(attributes.drop_last()[j] == attributes[j]);
                }
            },
            None => {
                assert forall|j: int| 0 <= j < attributes.len() - 1 implies (
                #[trigger] attributes[j]).0 != name by {
                    assert(attributes.drop_last()[j] == attributes[j]);
                }
            },
        }
    }
}

/// The first place that holds `name` is what `position_of` finds.
pub proof fn lemma_position_of_first(
    attributes: Seq<(Seq<char>, Seq<char>)>,
    name: Seq<char>,
    i: int,
)
    requires
        0 <= i < attributes.len(),
        attributes[i].0 == name,
        forall|j: int| 0 <= j < i ==> (#[trigger] attributes[j]).0 != name,
    ensures
        position_of(attributes, name) == Some(i),
{
    lemma_position_of(attributes, name);
}

/// Setting an attribute keeps the names distinct; the attribute then has
/// the value, and every other attribute has the value it had.
pub proof fn lemma_with_attribute(
    attributes: Seq<(Seq<char>, Seq<char>)>,
    name: Seq<char>,
    value: Seq<char>,
    other: Seq<char>,
)
    requires
        distinct_names(attributes),
    ensures
        distinct_names(with_attribute(attributes, name, value)),
        value_of(with_attribute(attributes, name, value), name) == Some(value),
        other != name ==> value_of(with_attribute(attributes, name, value), other) == value_of(
            attributes,
            other,
        ),
{
    let after = with_attribute(attributes, name, value);
    lemma_position_of(attributes, name);
    lemma_position_of(attributes, other);
    lemma_position_of(after, name);
    lemma_position_of(after, other);
    match position_of(attributes, name) {
        Some(i) => {
            assert(after[i] == (name, value));
            assert forall|a: int, b: int| 0 <= a < b < after.len() implies (#[trigger] after[a]).0
                != (#[trigger] after[b]).0 by {
                assert(attributes[a].0 != attributes[b].0);
            }
            lemma_position_of_first(after, name, i);
            if other != name {
                match position_of(attributes, other) {
                    Some(k) => {
                        assert(after[k] == attributes[k]);
                        assert forall|j: int| 0 <= j < k implies (#[trigger] after[j]).0
                            != other by {
                            assert(attributes[j].0 != other);
                        }
                        lemma_position_of_first(after, other, k);
                    },
                    None => {
                        assert forall|j: int| 0 <= j < after.len() implies (#[trigger] after[j]).0
                            != other by {
                            assert(attributes[j].0 != other);
                        }
                    },
                }
            }
        },
        None => {
            let n = attributes.len() as int;
            assert(after[n] == (name, value));
            assert forall|a: int, b: int| 0 <= a < b < after.len() implies (#[trigger] after[a]).0
                != (#[trigger] after[b]).0 by {
                if b < n {
                    assert(attributes[a].0 != attributes[b].0);
                } else {
                    assert(after[a] == attributes[a]);
                }
            }
            assert forall|j: int| 0 <= j < n implies (#[trigger] after[j]).0 != name by {
                assert(after[j] == attributes[j]);
            }
            lemma_position_of_first(after, name, n);
            if other != name {
                match position_of(attributes, other) {
                    Some(k) => {
                        assert(after[k] == attributes[k]);
                        assert forall|j: int| 0 <= j < k implies (#[trigger] after[j]).0
                            != other by {
                            assert(after[j] == attributes[j]);
                        }
                        lemma_position_of_first(after, other, k);
                    },
                    None => {
                        assert forall|j: int| 0 <= j < after.len() implies (#[trigger] after[j]).0
                            != other by {
                            if j < n {
                                assert(after[j] == attributes[j]);
                            }
                        }
                    },
                }
            }
        },
    }
}

/// The views of a list of attributes.
pub open spec fn pairs(attributes: Seq<Attribute>) -> Seq<(Seq<char>, Seq<char>)> {
    Seq::new(attributes.len(), |i: int| (attributes[i].name@, attributes[i].value@))
}

impl View for Element {
    type V = ElementView;

    closed spec fn view(&self) -> ElementView {
        ElementView {
            tag_name: self.tag_name@,
            attributes: pairs(self.attributes@),
            data: self.data@,
        }
    }
}

impl ElementView {
    /// The element with the given tag name as it is made: no attributes,
    /// the payload that belongs to the name, and no document.
    pub open spec fn fresh(tag_name: Seq<char>) -> ElementView {
        ElementView {
            tag_name,
            attributes: Seq::empty(),
            data: ElementDataView {
                kind: kind_of_tag(tag_name),
                tag: tag_name,
                owner_document: None,
                href: None,
                rel: None,
                text: Seq::empty(),
            },
        }
    }

    /// The element after its attribute `name` has been set to `value`.
    pub open spec fn with_attribute_set(self, name: Seq<char>, value: Seq<char>) -> ElementView {
        ElementView {
            attributes: with_attribute(self.attributes, name, value),
            data: self.data.on_attribute_change(name, value),
            ..self
        }
    }

    /// The attribute names are distinct, and the payload is the one for the tag.
    pub open spec fn well_formed(self) -> bool {
        &&& distinct_names(self.attributes)
        &&& self.data.kind == kind_of_tag(self.tag_name)
        &&& self.data.tag == self.tag_name
    }
}

/// `s` with its ASCII upper-case letters in lower case.
pub fn lower_text(s: &str) -> (r: String)
    ensures
        r@ == lowercased(s@),
{
    let chars = to_chars(s);
    let mut out: Vec<char> = Vec::new();
    let mut i: usize = 0;
    while i < chars.len()
        invariant
            i <= chars.len(),
            out.len() == i,
            forall|k: int| 0 <= k < i ==> out@[k] == ascii_lower(chars@[k]),
        decreases chars.len() - i,
    {
        out.push(to_ascii_lower(chars[i]));
        i += 1;
    }
    assert(out@ =~= lowercased(s@));
    from_chars(&out)
}

impl Element {
    /// Every element is well formed.
    #[verifier::type_invariant]
    pub open spec fn sound(self) -> bool {
        self@.well_formed()
    }

    /// An element with the given tag name, in lower case, no attributes,
    /// and the payload that belongs to the name, in no document.
    pub fn new(tag_name: &str) -> (r: Element)
        ensures
            r@ == ElementView::fresh(lowercased(tag_name@)),
            r@.well_formed(),
    {
        let tag = lower_text(tag_name);
        let t = tag.as_str();
        let data = if same_text(t, "a") {
            ElementData::Anchor(HTMLAnchorElement::new())
        } else if same_text(t, "body") {
            ElementData::Body(HTMLBodyElement::new())
        } else if same_text(t, "div") {
            ElementData::Div(HTMLDivElement::new())
        } else if same_text(t, "head") {
            ElementData::Head(HTMLHeadElement::new())
        } else if same_text(t, "html") {
            ElementData::Html(HTMLHtmlElement::new())
        } else if same_text(t, "link") {
            ElementData::Link(HTMLLinkElement::new())
        } else if same_text(t, "title") {
            ElementData::Title(HTMLTitleElement::new())
        } else {
            ElementData::Unknown(HTMLUnknownElement::new(t))
        };
        let r = Element { tag_name: tag, attributes: Vec::new(), data };
        assert(r@.attributes =~= Seq::empty());
        r
    }

    /// The tag name.
    pub fn tag_name(&self) -> (r: String)
        ensures
            r@ == self@.tag_name,
    {
        self.tag_name.clone()
    }

    /// The payload.
    pub fn data(&self) -> (r: &ElementData)
        ensures
            r@ == self@.data,
    {
        &self.data
    }

    fn find(&self, name: &str) -> (r: Option<usize>)
        ensures
            match r {
                Some(i) => position_of(self@.attributes, name@) == Some(i as int) && i
                    < self.attributes.len(),
                None => position_of(self@.attributes, name@) is None,
            },
    {
        let mut i: usize = 0;
        while i < self.attributes.len()
            invariant
                i <= self.attributes.len(),
                forall|j: int| 0 <= j < i ==> (#[trigger] pairs(self.attributes@)[j]).0 != name@,
            decreases self.attributes.len() - i,
        {
            if same_text(self.attributes[i].name.as_str(), name) {
                proof {
                    lemma_position_of_first(pairs(self.attributes@), name@, i as int);
                }
                return Some(i);
            }
            i += 1;
        }
        proof {
            lemma_position_of(pairs(self.attributes@), name@);
        }
        None
    }

    /// The value of the attribute called `name`.
    pub fn get_attribute(&self, name: &str) -> (r: Option<String>)
        ensures
            crate::text::opt_text(r) == value_of(self@.attributes, name@),
    {
        match self.find(name) {
            Some(i) => Some(self.attributes[i].value.clone()),
            None => None,
        }
    }

    /// The names of the attributes, in the order in which they were first set.
    pub fn attribute_names(&self) -> (r: Vec<String>)
        ensures
            r.len() == self@.attributes.len(),
            forall|i: int| 0 <= i < r.len() ==> r@[i]@ == (#[trigger] self@.attributes[i]).0,
    {
        let mut names: Vec<String> = Vec::new();
        let mut i: usize = 0;
        while i < self.attributes.len()
            invariant
                i <= self.attributes.len(),
                names.len() == i,
                forall|k: int| 0 <= k < i ==> names@[k]@ == (#[trigger] pairs(self.attributes@)[k]).0,
            decreases self.attributes.len() - i,
        {
            names.push(self.attributes[i].name.clone());
            i += 1;
        }
        names
    }

    fn with_attribute(self, name: &str, value: &str) -> (r: Element)
        ensures
            r@ == self@.with_attribute_set(name@, value@),
    {
        proof {
            use_type_invariant(&self);
            lemma_with_attribute(self@.attributes, name@, value@, name@);
        }
        let ghost before = self@;
        let found = self.find(name);
        let Element { tag_name, attributes, data } = self;
        let mut attributes = attributes;
        let mut data = data;
        let attribute = Attribute { name: String::from_str(name), value: String::from_str(value) };
        match found {
            Some(i) => {
                attributes.set(i, attribute);
            },
            None => {
                attributes.push(attribute);
            },
        }
        assert(pairs(attributes@) =~= with_attribute(before.attributes, name@, value@));
        data.handle_attribute_change(name, value);
        Element { tag_name, attributes, data }
    }

    fn inserted(self, document: NodeRef) -> (r: Element)
        ensures
            r@ == (ElementView { data: self@.data.on_inserted(document), ..self@ }),
    {
        proof {
            use_type_invariant(&self);
        }
        let Element { tag_name, attributes, data } = self;
        let mut data = data;
        data.handle_on_inserted(document);
        Element { tag_name, attributes, data }
    }

    /// Sets the attribute called `name` to `value` and tells the payload.
    pub fn set_attribute(&mut self, name: &str, value: &str)
        ensures
            final(self)@ == old(self)@.with_attribute_set(name@, value@),
    {
        let mut taken = Element::new("");
        core::mem::swap(self, &mut taken);
        *self = taken.with_attribute(name, value);
    }

    /// Tells the payload that the element has been inserted into `document`.
    pub fn set_owner_document(&mut self, document: NodeRef)
        ensures
            final(self)@ == (ElementView {
                data: old(self)@.data.on_inserted(document),
                ..old(self)@
            }),
    {
        let mut taken = Element::new("");
        core::mem::swap(self, &mut taken);
        *self = taken.inserted(document);
    }
}

} // verus!
