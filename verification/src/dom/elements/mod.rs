//! Elements: the closed set of known elements and what each observes.

pub mod html_elements;

use crate::dom::elements::html_elements::{
    HTMLAnchorElement,
    HTMLBodyElement,
    HTMLDivElement,
    HTMLHeadElement,
    HTMLHtmlElement,
    HTMLLinkElement,
    HTMLTitleElement,
    HTMLUnknownElement,
};
use crate::dom::node::NodeRef;
use crate::text::{opt_text, same_text};
use vstd::prelude::*;
use vstd::string::*;

verus! {

/// The payload of an element node: one of the known elements, or an unknown one.
#[derive(Debug)]
pub enum ElementData {
    Anchor(HTMLAnchorElement),
    Body(HTMLBodyElement),
    Div(HTMLDivElement),
    Head(HTMLHeadElement),
    Html(HTMLHtmlElement),
    Title(HTMLTitleElement),
    Unknown(HTMLUnknownElement),
    Link(HTMLLinkElement),
}

/// What every element can tell of itself.
pub trait ElementMethods {
    /// The element's tag name.
    spec fn tag(&self) -> Seq<char>;

    /// The element's tag name.
    fn tag_name(&self) -> (r: String)
        ensures
            r@ == self.tag(),
    ;
}

impl ElementMethods for HTMLAnchorElement {
    open spec fn tag(&self) -> Seq<char> {
        "a"@
    }

    fn tag_name(&self) -> (r: String) {
        String::from_str("a")
    }
}

impl ElementMethods for HTMLBodyElement {
    open spec fn tag(&self) -> Seq<char> {
        "body"@
    }

    fn tag_name(&self) -> (r: String) {
        String::from_str("body")
    }
}

impl ElementMethods for HTMLDivElement {
    open spec fn tag(&self) -> Seq<char> {
        "div"@
    }

    fn tag_name(&self) -> (r: String) {
        String::from_str("div")
    }
}

impl ElementMethods for HTMLHeadElement {
    open spec fn tag(&self) -> Seq<char> {
        "head"@
    }

    fn tag_name(&self) -> (r: String) {
        String::from_str("head")
    }
}

impl ElementMethods for HTMLHtmlElement {
    open spec fn tag(&self) -> Seq<char> {
        "html"@
    }

    fn tag_name(&self) -> (r: String) {
        String::from_str("html")
    }
}

impl ElementMethods for HTMLLinkElement {
    open spec fn tag(&self) -> Seq<char> {
        "link"@
    }

    fn tag_name(&self) -> (r: String) {
        String::from_str("link")
    }
}

impl ElementMethods for HTMLTitleElement {
    open spec fn tag(&self) -> Seq<char> {
        "title"@
    }

    fn tag_name(&self) -> (r: String) {
        String::from_str("title")
    }
}

impl ElementMethods for HTMLUnknownElement {
    open spec fn tag(&self) -> Seq<char> {
        self.name@
    }

    fn tag_name(&self) -> (r: String) {
        self.name.clone()
    }
}

impl ElementMethods for ElementData {
    open spec fn tag(&self) -> Seq<char> {
        match self {
            ElementData::Anchor(e) => e.tag(),
            ElementData::Body(e) => e.tag(),
            ElementData::Div(e) => e.tag(),
            ElementData::Head(e) => e.tag(),
            ElementData::Html(e) => e.tag(),
            ElementData::Title(e) => e.tag(),
            ElementData::Unknown(e) => e.tag(),
            ElementData::Link(e) => e.tag(),
        }
    }

    fn tag_name(&self) -> (r: String) {
        match self {
            ElementData::Anchor(e) => e.tag_name(),
            ElementData::Body(e) => e.tag_name(),
            ElementData::Div(e) => e.tag_name(),
            ElementData::Head(e) => e.tag_name(),
            ElementData::Html(e) => e.tag_name(),
            ElementData::Title(e) => e.tag_name(),
            ElementData::Unknown(e) => e.tag_name(),
            ElementData::Link(e) => e.tag_name(),
        }
    }
}

/// Which of the known elements a payload is.
#[derive(Debug, Clone, Copy, PartialEq, Eq, Structural)]
pub enum ElementKind {
    Anchor,
    Body,
    Div,
    Head,
    Html,
    Title,
    Unknown,
    Link,
}

/// The mathematical value of an [`ElementData`].
pub struct ElementDataView {
    pub kind: ElementKind,
    pub tag: Seq<char>,
    pub owner_document: Option<NodeRef>,
    pub href: Option<Seq<char>>,
    pub rel: Option<Seq<char>>,
    pub text: Seq<char>,
}

impl ElementDataView {
    /// The payload after the attribute `attr` has been set to `value`: an
    /// anchor takes note of `href`, a link of `href` and `rel`, and no other
    /// element of anything.
    pub open spec fn on_attribute_change(self, attr: Seq<char>, value: Seq<char>) -> Self {
        match self.kind {
            ElementKind::Anchor => if attr == "href"@ {
                ElementDataView { href: Some(value), ..self }
            } else {
                self
            },
            ElementKind::Link => if attr == "href"@ {
                ElementDataView { href: Some(value), ..self }
            } else if attr == "rel"@ {
                ElementDataView { rel: Some(value), ..self }
            } else {
                self
            },
            _ => self,
        }
    }

    /// The payload after its element has been inserted into `document`.
    pub open spec fn on_inserted(self, document: NodeRef) -> Self {
        ElementDataView { owner_document: Some(document), ..self }
    }
}

impl View for ElementData {
    type V = ElementDataView;

    open spec fn view(&self) -> ElementDataView {
        match self {
            ElementData::Anchor(e) => ElementDataView {
                kind: ElementKind::Anchor,
                tag: e.tag(),
                owner_document: e.html_element.owner_document,
                href: opt_text(e.href),
                rel: None,
                text: Seq::empty(),
            },
            ElementData::Body(e) => ElementDataView {
                kind: ElementKind::Body,
                tag: e.tag(),
                owner_document: e.html_element.owner_document,
                href: None,
                rel: None,
                text: Seq::empty(),
            },
            ElementData::Div(e) => ElementDataView {
                kind: ElementKind::Div,
                tag: e.tag(),
                owner_document: e.html_element.owner_document,
                href: None,
                rel: None,
                text: Seq::empty(),
            },
            ElementData::Head(e) => ElementDataView {
                kind: ElementKind::Head,
                tag: e.tag(),
                owner_document: e.html_element.owner_document,
                href: None,
                rel: None,
                text: Seq::empty(),
            },
            ElementData::Html(e) => ElementDataView {
                kind: ElementKind::Html,
                tag: e.tag(),
                owner_document: e.html_element.owner_document,
                href: None,
                rel: None,
                text: Seq::empty(),
            },
            ElementData::Title(e) => ElementDataView {
                kind: ElementKind::Title,
                tag: e.tag(),
                owner_document: e.html_element.owner_document,
                href: None,
                rel: None,
                text: e.text@,
            },
            ElementData::Unknown(e) => ElementDataView {
                kind: ElementKind::Unknown,
                tag: e.tag(),
                owner_document: e.html_element.owner_document,
                href: None,
                rel: None,
                text: Seq::empty(),
            },
            ElementData::Link(e) => ElementDataView {
                kind: ElementKind::Link,
                tag: e.tag(),
                owner_document: e.html_element.owner_document,
                href: opt_text(e.href),
                rel: opt_text(e.rel),
                text: Seq::empty(),
            },
        }
    }
}

impl ElementData {
    /// Tells the element that its attribute `attr` now has the value `value`.
    pub fn handle_attribute_change(&mut self, attr: &str, value: &str)
        ensures
            final(self)@ == old(self)@.on_attribute_change(attr@, value@),
    {
        match self {
            ElementData::Anchor(e) => {
                if same_text(attr, "href") {
                    e.href = Some(String::from_str(value));
                }
            },
            ElementData::Link(e) => {
                if same_text(attr, "href") {
                    e.href = Some(String::from_str(value));
                } else if same_text(attr, "rel") {
                    e.rel = Some(String::from_str(value));
                }
            },
            _ => {},
        }
    }

    /// Tells the element that it has been inserted into `document`.
    pub fn handle_on_inserted(&mut self, document: NodeRef)
        ensures
            final(self)@ == old(self)@.on_inserted(document),
    {
        match self {
            ElementData::Anchor(e) => {
                e.html_element.owner_document = Some(document);
            },
            ElementData::Body(e) => {
                e.html_element.owner_document = Some(document);
            },
            ElementData::Div(e) => {
                e.html_element.owner_document = Some(document);
            },
            ElementData::Head(e) => {
                e.html_element.owner_document = Some(document);
            },
            ElementData::Html(e) => {
                e.html_element.owner_document = Some(document);
            },
            ElementData::Title(e) => {
                e.html_element.owner_document = Some(document);
            },
            ElementData::Unknown(e) => {
                e.html_element.owner_document = Some(document);
            },
            ElementData::Link(e) => {
                e.html_element.owner_document = Some(document);
            },
        }
    }
}

} // verus!
