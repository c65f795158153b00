use render_core::dom::node::{Dom, NodeRef, NodeType};
use render_core::html::tree_builder::list_of_active_formatting_elements::{
    Entry, ListOfActiveFormattingElements,
};

fn entries(list: &ListOfActiveFormattingElements) -> Vec<Entry> {
    (0..list.len()).map(|i| list.get(i).unwrap()).collect()
}

struct Fixture {
    dom: Dom,
    a: NodeRef,
    b: NodeRef,
    c: NodeRef,
    list: ListOfActiveFormattingElements,
}

fn marker_a_b_marker_c() -> Fixture {
    let mut dom = Dom::new();
    let a = dom.create_element("A");
    let b = dom.create_element("B");
    let c = dom.create_element("C");
    let mut list = ListOfActiveFormattingElements::new();
    list.add_marker();
    list.push(a);
    list.push(b);
    list.add_marker();
    list.push(c);
    Fixture { dom, a, b, c, list }
}

#[test]
fn a_new_list_is_empty() {
    let list = ListOfActiveFormattingElements::new();
    assert_eq!(list.len(), 0);
    assert_eq!(list.get(0), None);
}

#[test]
fn clear_up_to_last_marker_removes_the_innermost_scope() {
    let mut f = marker_a_b_marker_c();

    f.list.clear_up_to_last_marker();

    assert_eq!(
        entries(&f.list),
        vec![Entry::Marker, Entry::Element(f.a), Entry::Element(f.b)]
    );

    f.list.clear_up_to_last_marker();
    assert_eq!(entries(&f.list), vec![]);
}

#[test]
fn clear_up_to_last_marker_without_marker_removes_everything() {
    let mut dom = Dom::new();
    let a = dom.create_element("b");
    let mut list = ListOfActiveFormattingElements::new();
    list.push(a);
    list.push(a);

    list.clear_up_to_last_marker();

    assert_eq!(list.len(), 0);
}

#[test]
fn search_stops_at_the_last_marker() {
    let f = marker_a_b_marker_c();

    assert_eq!(f.list.get_element_after_last_marker(&f.dom, "a"), None);
    assert_eq!(f.list.get_element_after_last_marker(&f.dom, "c"), Some(f.c));
    assert_eq!(f.list.get_element_after_last_marker(&f.dom, "C"), None);
}

#[test]
fn search_finds_the_topmost_element_of_the_name() {
    let mut dom = Dom::new();
    let first = dom.create_element("b");
    let i = dom.create_element("i");
    let second = dom.create_element("b");
    let text = dom.create_node(NodeType::Text);
    let mut list = ListOfActiveFormattingElements::new();
    list.add_marker();
    list.push(first);
    list.push(i);
    list.push(second);
    list.push(text);

    assert_eq!(list.get_element_after_last_marker(&dom, "b"), Some(second));
    assert_eq!(list.get_element_after_last_marker(&dom, "i"), Some(i));
    assert_eq!(list.get_element_after_last_marker(&dom, "u"), None);
    assert_ne!(first, second);
}

#[test]
fn remove_element_removes_one_entry_and_keeps_the_order() {
    let mut f = marker_a_b_marker_c();

    f.list.remove_element(&f.b);

    assert_eq!(
        entries(&f.list),
        vec![Entry::Marker, Entry::Element(f.a), Entry::Marker, Entry::Element(f.c)]
    );
    assert!(!f.list.contains_node(&f.b));
}

#[test]
fn remove_element_takes_the_topmost_of_two() {
    let mut f = marker_a_b_marker_c();
    f.list.push(f.a);

    f.list.remove_element(&f.a);

    assert_eq!(
        entries(&f.list),
        vec![
            Entry::Marker,
            Entry::Element(f.a),
            Entry::Element(f.b),
            Entry::Marker,
            Entry::Element(f.c)
        ]
    );
}

#[test]
fn contains_and_index_go_by_identity() {
    let mut f = marker_a_b_marker_c();
    let other_a = f.dom.create_element("a");

    assert!(f.list.contains_node(&f.a));
    assert!(!f.list.contains_node(&other_a));
    assert_eq!(f.list.get_index_of_node(&f.a), Some(1));
    assert_eq!(f.list.get_index_of_node(&f.c), Some(4));
    assert_eq!(f.list.get_index_of_node(&other_a), None);

    f.list.push(f.a);
    assert_eq!(f.list.get_index_of_node(&f.a), Some(5));
}
