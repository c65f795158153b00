//! The known elements.

use crate::dom::node::NodeRef;
use vstd::prelude::*;
use vstd::string::*;

verus! {

/// What every element keeps: the document that it was inserted into.
#[derive(Debug)]
pub struct HTMLElement {
    pub owner_document: Option<NodeRef>,
}

impl HTMLElement {
    /// An element that is in no document.
    pub fn new() -> (r: HTMLElement)
        ensures
            r.owner_document is None,
    {
        HTMLElement { owner_document: None }
    }
}

/// `a`: remembers where it points.
#[derive(Debug)]
pub struct HTMLAnchorElement {
    pub html_element: HTMLElement,
    pub href: Option<String>,
}

/// `body`.
#[derive(Debug)]
pub struct HTMLBodyElement {
    pub html_element: HTMLElement,
}

/// `div`.
#[derive(Debug)]
pub struct HTMLDivElement {
    pub html_element: HTMLElement,
}

/// `head`.
#[derive(Debug)]
pub struct HTMLHeadElement {
    pub html_element: HTMLElement,
}

/// `html`.
#[derive(Debug)]
pub struct HTMLHtmlElement {
    pub html_element: HTMLElement,
}

/// `link`: remembers its relation and where it points.
#[derive(Debug)]
pub struct HTMLLinkElement {
    pub html_element: HTMLElement,
    pub rel: Option<String>,
    pub href: Option<String>,
}

/// `title`: carries the document's title.
#[derive(Debug)]
pub struct HTMLTitleElement {
    pub html_element: HTMLElement,
    pub text: String,
}

/// Any other element, under the name it was written with.
#[derive(Debug)]
pub struct HTMLUnknownElement {
    pub html_element: HTMLElement,
    pub name: String,
}

impl HTMLAnchorElement {
    /// The element as it is made: in no document.
    pub fn new() -> (r: Self)
        ensures
            r.html_element.owner_document is None,
            r.href is None,
    {
        HTMLAnchorElement { html_element: HTMLElement::new(), href: None }
    }
}

impl HTMLBodyElement {
    /// The element as it is made: in no document.
    pub fn new() -> (r: Self)
        ensures
            r.html_element.owner_document is None,
    {
        HTMLBodyElement { html_element: HTMLElement::new() }
    }
}

impl HTMLDivElement {
    /// The element as it is made: in no document.
    pub fn new() -> (r: Self)
        ensures
            r.html_element.owner_document is None,
    {
        HTMLDivElement { html_element: HTMLElement::new() }
    }
}

impl HTMLHeadElement {
    /// The element as it is made: in no document.
    pub fn new() -> (r: Self)
        ensures
            r.html_element.owner_document is None,
    {
        HTMLHeadElement { html_element: HTMLElement::new() }
    }
}

impl HTMLHtmlElement {
    /// The element as it is made: in no document.
    pub fn new() -> (r: Self)
        ensures
            r.html_element.owner_document is None,
    {
        HTMLHtmlElement { html_element: HTMLElement::new() }
    }
}

impl HTMLLinkElement {
    /// The element as it is made: in no document.
    pub fn new() -> (r: Self)
        ensures
            r.html_element.owner_document is None,
            r.rel is None,
            r.href is None,
    {
        HTMLLinkElement { html_element: HTMLElement::new(), rel: None, href: None }
    }
}

impl HTMLTitleElement {
    /// The element as it is made: in no document.
    pub fn new() -> (r: Self)
        ensures
            r.html_element.owner_document is None,
            r.text@ == Seq::<char>::empty(),
    {
        HTMLTitleElement { html_element: HTMLElement::new(), text: String::new() }
    }

    /// The title's text.
    pub fn text(&self) -> (r: String)
        ensures
            r@ == self.text@,
    {
        self.text.clone()
    }

    /// Replaces the title's text.
    pub fn set_text(&mut self, text: &str)
        ensures
            final(self).text@ == text@,
            final(self).html_element == old(self).html_element,
    {
        self.text = String::from_str(text);
    }
}

impl HTMLUnknownElement {
    /// The element with the given name, in no document.
    pub fn new(name: &str) -> (r: Self)
        ensures
            r.html_element.owner_document is None,
            r.name@ == name@,
    {
        HTMLUnknownElement { html_element: HTMLElement::new(), name: String::from_str(name) }
    }
}

} // verus!
