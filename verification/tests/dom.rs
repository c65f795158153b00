use render_core::dom::character_data::CharacterData;
use render_core::dom::element::Element;
use render_core::dom::elements::{ElementData, ElementMethods};
use render_core::dom::elements::html_elements::{HTMLAnchorElement, HTMLTitleElement, HTMLUnknownElement};
use render_core::dom::node::{Dom, NodeRef, NodeType, WeakNodeRef};

#[test]
fn node_type_codes() {
    assert_eq!(NodeType::Element.value(), 1);
    assert_eq!(NodeType::Text.value(), 3);
    assert_eq!(NodeType::CDataSection.value(), 4);
    assert_eq!(NodeType::ProcessingInstruction.value(), 7);
    assert_eq!(NodeType::Comment.value(), 8);
    assert_eq!(NodeType::Document.value(), 9);
    assert_eq!(NodeType::DocumentType.value(), 10);
    assert_eq!(NodeType::DocumentFragment.value(), 11);
}

#[test]
fn a_new_node_has_no_links() {
    let mut dom = Dom::new();
    let node = dom.create_node(NodeType::Document);

    assert_eq!(dom.len(), 1);
    assert_eq!(node.node_type(&dom), NodeType::Document);
    assert_eq!(node.parent(&dom), None);
    assert_eq!(node.first_child(&dom), None);
    assert_eq!(node.last_child(&dom), None);
    assert_eq!(node.next_sibling(&dom), None);
    assert_eq!(node.prev_sibling(&dom), None);
}

#[test]
fn appended_children_form_a_doubly_linked_list() {
    let mut dom = Dom::new();
    let parent = dom.create_element("div");
    let a = dom.create_element("a");
    let b = dom.create_text("b".to_string());
    let c = dom.create_node(NodeType::Comment);

    assert!(dom.append_child(parent, a));
    assert_eq!(parent.first_child(&dom), Some(a));
    assert_eq!(parent.last_child(&dom), Some(a));
    assert!(dom.append_child(parent, b));
    assert!(dom.append_child(parent, c));

    assert_eq!(parent.first_child(&dom), Some(a));
    assert_eq!(parent.last_child(&dom), Some(c));
    for child in [a, b, c] {
        assert_eq!(child.parent(&dom), Some(parent));
    }
    assert_eq!(a.prev_sibling(&dom), None);
    assert_eq!(a.next_sibling(&dom), Some(b));
    assert_eq!(b.prev_sibling(&dom), Some(a));
    assert_eq!(b.next_sibling(&dom), Some(c));
    assert_eq!(c.prev_sibling(&dom), Some(b));
    assert_eq!(c.next_sibling(&dom), None);
    assert_eq!(parent.parent(&dom), None);
}

#[test]
fn a_parented_node_is_not_appended_again() {
    let mut dom = Dom::new();
    let first = dom.create_element("div");
    let second = dom.create_element("div");
    let child = dom.create_element("span");
    assert!(dom.append_child(first, child));

    assert!(!dom.append_child(second, child));
    assert!(!dom.append_child(first, child));
    assert!(!dom.append_child(first, first));
    assert!(!dom.append_child(first, NodeRef(99)));
    assert!(!dom.append_child(NodeRef(99), second));

    assert_eq!(child.parent(&dom), Some(first));
    assert_eq!(second.first_child(&dom), None);
    assert_eq!(first.last_child(&dom), Some(child));
    assert_eq!(child.next_sibling(&dom), None);
}

#[test]
fn weak_handles() {
    let mut dom = Dom::new();
    let node = dom.create_node(NodeType::Text);

    assert_eq!(node.downgrade(), WeakNodeRef(node.0));
    assert_eq!(node.downgrade().upgrade(&dom), Some(node));
    assert_eq!(WeakNodeRef(5).upgrade(&dom), None);
    assert_eq!(NodeRef(5).parent(&dom), None);
    assert_eq!(NodeRef(5).first_child(&dom), None);
}

#[test]
fn tag_names_and_text() {
    let mut dom = Dom::new();
    let div = dom.create_element("DIV");
    let custom = dom.create_element("My-Widget");
    let text = dom.create_text("hello".to_string());

    assert_eq!(dom.tag_name(div), Some("div".to_string()));
    assert_eq!(dom.tag_name(custom), Some("my-widget".to_string()));
    assert_eq!(dom.tag_name(text), None);
    assert_eq!(dom.tag_name(NodeRef(17)), None);
    assert_eq!(dom.characters(text), Some("hello".to_string()));
    assert_eq!(dom.characters(div), None);
    assert_eq!(div.node_type(&dom), NodeType::Element);
    assert_eq!(text.node_type(&dom), NodeType::Text);
}

#[test]
fn character_data() {
    let mut data = CharacterData::new("hello".to_string());

    assert_eq!(data.node.node_type, NodeType::Text);
    assert!(data.node.parent_node.is_none());
    assert!(data.node.first_child.is_none());
    assert_eq!(data.data(), "hello");
    data.append_data(" world");
    assert_eq!(data.data(), "hello world");
}

#[test]
fn tag_names_of_the_known_elements() {
    for tag in ["a", "body", "div", "head", "html", "link", "title"] {
        let element = Element::new(tag);
        assert_eq!(element.tag_name(), tag);
        assert_eq!(element.data().tag_name(), tag);
        assert!(!matches!(element.data(), ElementData::Unknown(_)));
    }
    let element = Element::new("Blink");
    assert_eq!(element.tag_name(), "blink");
    assert_eq!(element.data().tag_name(), "blink");
    assert!(matches!(element.data(), ElementData::Unknown(_)));
    assert_eq!(HTMLAnchorElement::new().tag_name(), "a");
    assert_eq!(HTMLUnknownElement::new("x").tag_name(), "x");
}

#[test]
fn attributes_keep_their_order_and_overwrite() {
    let mut element = Element::new("a");
    assert_eq!(element.get_attribute("href"), None);

    element.set_attribute("id", "first");
    element.set_attribute("href", "/one");
    element.set_attribute("class", "x");
    element.set_attribute("href", "/two");

    assert_eq!(element.get_attribute("id"), Some("first".to_string()));
    assert_eq!(element.get_attribute("href"), Some("/two".to_string()));
    assert_eq!(element.get_attribute("class"), Some("x".to_string()));
    assert_eq!(element.get_attribute("HREF"), None);
    assert_eq!(element.attribute_names(), vec!["id", "href", "class"]);
}

#[test]
fn elements_observe_their_attributes() {
    let mut anchor = Element::new("a");
    anchor.set_attribute("href", "/one");
    anchor.set_attribute("rel", "next");
    match anchor.data() {
        ElementData::Anchor(a) => assert_eq!(a.href, Some("/one".to_string())),
        _ => unreachable!(),
    }

    let mut link = Element::new("link");
    link.set_attribute("rel", "stylesheet");
    link.set_attribute("href", "/style.css");
    link.set_attribute("media", "print");
    match link.data() {
        ElementData::Link(l) => {
            assert_eq!(l.rel, Some("stylesheet".to_string()));
            assert_eq!(l.href, Some("/style.css".to_string()));
        }
        _ => unreachable!(),
    }

    let mut data = ElementData::Title(HTMLTitleElement::new());
    data.handle_attribute_change("href", "/x");
    match &data {
        ElementData::Title(t) => assert_eq!(t.text(), ""),
        _ => unreachable!(),
    }
}

#[test]
fn elements_remember_their_document() {
    let mut data = ElementData::Anchor(HTMLAnchorElement::new());
    data.handle_on_inserted(NodeRef(3));
    match &data {
        ElementData::Anchor(a) => assert_eq!(a.html_element.owner_document, Some(NodeRef(3))),
        _ => unreachable!(),
    }

    let mut title = HTMLTitleElement::new();
    title.set_text("Home");
    let mut data = ElementData::Title(title);
    data.handle_on_inserted(NodeRef(0));
    match &data {
        ElementData::Title(t) => {
            assert_eq!(t.html_element.owner_document, Some(NodeRef(0)));
            assert_eq!(t.text(), "Home");
        }
        _ => unreachable!(),
    }
}

fn children(dom: &Dom, parent: NodeRef) -> Vec<NodeRef> {
    let mut out = Vec::new();
    let mut at = parent.first_child(dom);
    while let Some(node) = at {
        out.push(node);
        at = node.next_sibling(dom);
    }
    out
}

fn children_backwards(dom: &Dom, parent: NodeRef) -> Vec<NodeRef> {
    let mut out = Vec::new();
    let mut at = parent.last_child(dom);
    while let Some(node) = at {
        out.push(node);
        at = node.prev_sibling(dom);
    }
    out
}

fn family() -> (Dom, NodeRef, NodeRef, NodeRef, NodeRef) {
    let mut dom = Dom::new();
    let parent = dom.create_element("div");
    let a = dom.create_element("a");
    let b = dom.create_element("b");
    let c = dom.create_element("c");
    dom.append_child(parent, a);
    dom.append_child(parent, b);
    dom.append_child(parent, c);
    (dom, parent, a, b, c)
}

#[test]
fn removing_the_middle_child_links_its_neighbours() {
    let (mut dom, parent, a, b, c) = family();

    assert!(dom.remove_child(b));

    assert_eq!(children(&dom, parent), vec![a, c]);
    assert_eq!(children_backwards(&dom, parent), vec![c, a]);
    assert_eq!(b.parent(&dom), None);
    assert_eq!(b.prev_sibling(&dom), None);
    assert_eq!(b.next_sibling(&dom), None);
    assert_eq!(a.parent(&dom), Some(parent));
    assert_eq!(c.parent(&dom), Some(parent));
}

#[test]
fn removing_the_ends_moves_the_parents_links() {
    let (mut dom, parent, a, b, c) = family();

    assert!(dom.remove_child(a));
    assert_eq!(children(&dom, parent), vec![b, c]);
    assert_eq!(children_backwards(&dom, parent), vec![c, b]);
    assert_eq!(b.prev_sibling(&dom), None);

    assert!(dom.remove_child(c));
    assert_eq!(children(&dom, parent), vec![b]);
    assert_eq!(children_backwards(&dom, parent), vec![b]);
    assert_eq!(b.next_sibling(&dom), None);

    assert!(dom.remove_child(b));
    assert_eq!(children(&dom, parent), vec![]);
    assert_eq!(parent.first_child(&dom), None);
    assert_eq!(parent.last_child(&dom), None);
}

#[test]
fn a_node_without_parent_is_not_removed() {
    let (mut dom, parent, a, b, c) = family();

    assert!(!dom.remove_child(parent));
    assert!(!dom.remove_child(NodeRef(42)));
    assert!(dom.remove_child(b));
    assert!(!dom.remove_child(b));

    assert_eq!(children(&dom, parent), vec![a, c]);
}

#[test]
fn a_removed_node_keeps_its_children_and_can_be_appended_again() {
    let (mut dom, parent, a, b, c) = family();
    let inner = dom.create_text("x".to_string());
    assert!(dom.append_child(b, inner));

    assert!(dom.remove_child(b));
    assert_eq!(children(&dom, b), vec![inner]);
    assert_eq!(inner.parent(&dom), Some(b));

    assert!(dom.append_child(a, b));
    assert_eq!(children(&dom, a), vec![b]);
    assert_eq!(children(&dom, parent), vec![a, c]);
    assert_eq!(b.parent(&dom), Some(a));
}

#[test]
fn insert_before_places_the_child_before_the_reference() {
    let (mut dom, parent, a, b, c) = family();
    let first = dom.create_element("x");
    let middle = dom.create_element("y");

    assert!(dom.insert_before(parent, first, a));
    assert!(dom.insert_before(parent, middle, c));

    assert_eq!(children(&dom, parent), vec![first, a, b, middle, c]);
    assert_eq!(children_backwards(&dom, parent), vec![c, middle, b, a, first]);
    assert_eq!(first.parent(&dom), Some(parent));
    assert_eq!(middle.parent(&dom), Some(parent));
    assert_eq!(parent.first_child(&dom), Some(first));
    assert_eq!(parent.last_child(&dom), Some(c));
}

#[test]
fn insert_before_refuses_what_does_not_fit() {
    let (mut dom, parent, a, b, c) = family();
    let other = dom.create_element("div");
    let stray = dom.create_element("x");
    let fresh = dom.create_element("y");

    assert!(!dom.insert_before(parent, b, a));
    assert!(!dom.insert_before(parent, fresh, stray));
    assert!(!dom.insert_before(other, fresh, a));
    assert!(!dom.insert_before(parent, parent, a));
    assert!(!dom.insert_before(parent, fresh, parent));
    assert!(!dom.insert_before(parent, fresh, NodeRef(77)));
    assert!(!dom.insert_before(parent, NodeRef(77), a));
    assert!(!dom.insert_before(NodeRef(77), fresh, a));

    assert_eq!(children(&dom, parent), vec![a, b, c]);
    assert_eq!(fresh.parent(&dom), None);
}

fn owner(dom: &Dom, node: NodeRef) -> Option<NodeRef> {
    match dom.element(node).unwrap().data() {
        ElementData::Anchor(e) => e.html_element.owner_document,
        ElementData::Body(e) => e.html_element.owner_document,
        ElementData::Div(e) => e.html_element.owner_document,
        ElementData::Head(e) => e.html_element.owner_document,
        ElementData::Html(e) => e.html_element.owner_document,
        ElementData::Title(e) => e.html_element.owner_document,
        ElementData::Unknown(e) => e.html_element.owner_document,
        ElementData::Link(e) => e.html_element.owner_document,
    }
}

#[test]
fn an_element_inserted_into_a_document_is_told() {
    let mut dom = Dom::new();
    let document = dom.create_node(NodeType::Document);
    let html = dom.create_element("html");
    let body = dom.create_element("body");
    let link = dom.create_element("link");
    let text = dom.create_text("x".to_string());

    assert_eq!(dom.document(document), Some(document));
    assert_eq!(dom.document(html), None);

    assert!(dom.append_child(document, html));
    assert_eq!(owner(&dom, html), Some(document));
    assert_eq!(dom.document(html), Some(document));

    assert!(dom.append_child(html, body));
    assert_eq!(owner(&dom, body), Some(document));
    assert!(dom.insert_before(html, link, body));
    assert_eq!(owner(&dom, link), Some(document));
    assert!(dom.append_child(body, text));
    assert_eq!(dom.document(text), Some(document));
    assert_eq!(dom.characters(text), Some("x".to_string()));
}

#[test]
fn an_element_inserted_into_a_detached_tree_is_not_told() {
    let mut dom = Dom::new();
    let document = dom.create_node(NodeType::Document);
    let div = dom.create_element("div");
    let a = dom.create_element("a");

    assert!(dom.append_child(div, a));
    assert_eq!(owner(&dom, a), None);
    assert_eq!(dom.document(a), None);

    assert!(dom.append_child(document, div));
    assert_eq!(owner(&dom, div), Some(document));
    assert_eq!(owner(&dom, a), None);
    assert_eq!(dom.document(a), Some(document));
}

#[test]
fn attributes_of_elements_in_the_table() {
    let mut dom = Dom::new();
    let a = dom.create_element("A");
    let text = dom.create_text("x".to_string());

    assert!(dom.set_attribute(a, "href", "/one"));
    assert!(dom.set_attribute(a, "id", "x"));
    assert!(dom.set_attribute(a, "href", "/two"));
    assert!(!dom.set_attribute(text, "href", "/one"));
    assert!(!dom.set_attribute(NodeRef(9), "href", "/one"));

    let element = dom.element(a).unwrap();
    assert_eq!(element.tag_name(), "a");
    assert_eq!(element.get_attribute("href"), Some("/two".to_string()));
    assert_eq!(element.attribute_names(), vec!["href", "id"]);
    match element.data() {
        ElementData::Anchor(e) => assert_eq!(e.href, Some("/two".to_string())),
        _ => unreachable!(),
    }
    assert!(dom.element(text).is_none());
}
