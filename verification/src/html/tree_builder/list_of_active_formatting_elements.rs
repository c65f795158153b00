//! The list of active formatting elements.
//!
//! The list holds formatting elements in the order in which they were
//! opened, interleaved with markers. What lies above the last marker
//! belongs to the innermost scope.

use crate::dom::node::{Dom, DomView, NodeRef};
use crate::text::same_text;
use vstd::prelude::*;
use vstd::string::*;

verus! {

/// An entry of the list.
#[derive(Debug, Clone, Copy, PartialEq, Eq, Structural)]
pub enum Entry {
    Element(NodeRef),
    Marker,
}

/// The list of active formatting elements.
#[derive(Debug)]
pub struct ListOfActiveFormattingElements {
    entries: Vec<Entry>,
}

impl View for ListOfActiveFormattingElements {
    type V = Seq<Entry>;

    closed spec fn view(&self) -> Seq<Entry> {
        self.entries@
    }
}

/// The place of the last marker, or -1 where there is none.
pub open spec fn last_marker(entries: Seq<Entry>) -> int
    decreases entries.len(),
{
    if entries.len() == 0 {
        -1
    } else if entries.last() == Entry::Marker {
        entries.len() - 1
    } else {
        last_marker(entries.drop_last())
    }
}

/// The entries below the last marker; none where there is no marker.
pub open spec fn cleared_up_to_last_marker(entries: Seq<Entry>) -> Seq<Entry> {
    if last_marker(entries) >= 0 {
        entries.subrange(0, last_marker(entries))
    } else {
        Seq::empty()
    }
}

/// The last place that holds `node`, or -1 where none does.
pub open spec fn last_index_of(entries: Seq<Entry>, node: NodeRef) -> int
    decreases entries.len(),
{
    if entries.len() == 0 {
        -1
    } else if entries.last() == Entry::Element(node) {
        entries.len() - 1
    } else {
        last_index_of(entries.drop_last(), node)
    }
}

/// The topmost element with the tag name `tag` above the last marker.
pub open spec fn element_after_last_marker(entries: Seq<Entry>, dom: DomView, tag: Seq<char>) -> Option<
    NodeRef,
>
    decreases entries.len(),
{
    if entries.len() == 0 {
        None
    } else {
        match entries.last() {
            Entry::Marker => None,
            Entry::Element(node) => if dom.tag_of(node.0 as int) == Some(tag) {
                Some(node)
            } else {
                element_after_last_marker(entries.drop_last(), dom, tag)
            },
        }
    }
}

/// `last_marker` names a marker with no marker above it, or is -1 where the
/// list holds no marker.
pub proof fn lemma_last_marker(entries: Seq<Entry>)
    ensures
        -1 <= last_marker(entries) < entries.len(),
        last_marker(entries) >= 0 ==> entries[last_marker(entries)] == Entry::Marker,
        forall|i: int| last_marker(entries) < i < entries.len() ==> entries[i] != Entry::Marker,
    decreases entries.len(),
{
    if entries.len() > 0 && entries.last() != Entry::Marker {
        lemma_last_marker(entries.drop_last());
        assert forall|i: int| last_marker(entries) < i < entries.len() implies entries[i]
            != Entry::Marker by {
            if i < entries.len() - 1 {
                assert(entries.drop_last()[i] == entries[i]);
            }
        }
    }
}

/// `last_index_of` names a place that holds the node with no such place
/// above it, or is -1 where the list does not hold the node.
pub proof fn lemma_last_index_of(entries: Seq<Entry>, node: NodeRef)
    ensures
        -1 <= last_index_of(entries, node) < entries.len(),
        last_index_of(entries, node) >= 0 ==> entries[last_index_of(entries, node)]
            == Entry::Element(node),
        forall|i: int|
            last_index_of(entries, node) < i < entries.len() ==> entries[i] != Entry::Element(node),
        last_index_of(entries, node) >= 0 <==> entries.contains(Entry::Element(node)),
    decreases entries.len(),
{
    if entries.len() > 0 && entries.last() != Entry::Element(node) {
        lemma_last_index_of(entries.drop_last(), node);
        assert forall|i: int| last_index_of(entries, node) < i < entries.len() implies entries[i]
            != Entry::Element(node) by {
            if i < entries.len() - 1 {
                assert(entries.drop_last()[i] == entries[i]);
            }
        }
        if last_index_of(entries, node) >= 0 {
            assert(entries.drop_last()[last_index_of(entries, node)] == entries[last_index_of(
                entries,
                node,
            )]);
        }
    }
    if last_index_of(entries, node) >= 0 {
        assert(entries[last_index_of(entries, node)] == Entry::Element(node));
    } else {
        assert forall|i: int| 0 <= i < entries.len() implies entries[i] != Entry::Element(
            node,
        ) by {}
    }
}

/// Removing the one entry that holds a node takes one entry away, leaves
/// the list without the node, and keeps every other entry in its order:
/// what stood before the entry stays where it was, and what stood after it
/// moves down by one.
pub proof fn lemma_remove_only_entry(entries: Seq<Entry>, node: NodeRef, at: int)
    requires
        0 <= at < entries.len(),
        entries[at] == Entry::Element(node),
        forall|i: int| 0 <= i < entries.len() && i != at ==> entries[i] != Entry::Element(node),
    ensures
        last_index_of(entries, node) == at,
        entries.remove(at).len() == entries.len() - 1,
        !entries.remove(at).contains(Entry::Element(node)),
        forall|i: int| 0 <= i < at ==> entries.remove(at)[i] == entries[i],
        forall|i: int| at <= i < entries.len() - 1 ==> entries.remove(at)[i] == entries[i + 1],
{
    lemma_last_index_of(entries, node);
    let after = entries.remove(at);
    assert forall|i: int| 0 <= i < after.len() implies after[i] != Entry::Element(node) by {
        if i < at {
            assert(after[i] == entries[i]);
        } else {
            assert(after[i] == entries[i + 1]);
        }
    }
}

impl ListOfActiveFormattingElements {
    /// An empty list.
    pub fn new() -> (r: Self)
        ensures
            r@ == Seq::<Entry>::empty(),
    {
        Self { entries: Vec::new() }
    }

    /// The number of entries.
    pub fn len(&self) -> (r: usize)
        ensures
            r == self@.len(),
    {
        self.entries.len()
    }

    /// The entry at `index`.
    pub fn get(&self, index: usize) -> (r: Option<Entry>)
        ensures
            r == (if index < self@.len() {
                Some(self@[index as int])
            } else {
                None
            }),
    {
        if index < self.entries.len() {
            Some(self.entries[index])
        } else {
            None
        }
    }

    /// Puts `element` on top of the list.
    pub fn push(&mut self, element: NodeRef)
        ensures
            final(self)@ == old(self)@.push(Entry::Element(element)),
    {
        self.entries.push(Entry::Element(element));
    }

    /// Puts a marker on top of the list.
    pub fn add_marker(&mut self)
        ensures
            final(self)@ == old(self)@.push(Entry::Marker),
    {
        self.entries.push(Entry::Marker);
    }

    /// Removes the entries from the top down to the last marker, the marker
    /// included; removes every entry where there is no marker.
    pub fn clear_up_to_last_marker(&mut self)
        ensures
            final(self)@ == cleared_up_to_last_marker(old(self)@),
    {
        proof {
            lemma_last_marker(self@);
        }
        let ghost start = self@;
        assert(start.subrange(0, start.len() as int) =~= start);
        loop
            invariant_except_break
                last_marker(start) < self.entries@.len() <= start.len(),
                self.entries@ == start.subrange(0, self.entries@.len() as int),
            invariant
                -1 <= last_marker(start) < start.len(),
                forall|i: int| last_marker(start) < i < start.len() ==> start[i] != Entry::Marker,
                last_marker(start) >= 0 ==> start[last_marker(start)] == Entry::Marker,
            ensures
                self.entries@ == cleared_up_to_last_marker(start),
            decreases self.entries@.len(),
        {
            let ghost before = self.entries@;
            match self.entries.pop() {
                Some(entry) => {
                    assert(self.entries@ =~= start.subrange(0, before.len() - 1));
                    assert(entry == start[before.len() - 1]);
                    match entry {
                        Entry::Marker => {
                            break ;
                        },
                        _ => {},
                    }
                },
                None => {
                    assert(self.entries@ =~= Seq::<Entry>::empty());
                    break ;
                },
            }
        }
    }

    /// The topmost element above the last marker whose tag name is
    /// `element`; `None` where a marker, or the bottom, comes first.
    pub fn get_element_after_last_marker(&self, dom: &Dom, element: &str) -> (r: Option<NodeRef>)
        ensures
            r == element_after_last_marker(self@, dom@, element@),
    {
        let mut i: usize = self.entries.len();
        assert(self@.subrange(0, i as int) =~= self@);
        while i > 0
            invariant
                i <= self.entries.len(),
                element_after_last_marker(self@, dom@, element@) == element_after_last_marker(
                    self@.subrange(0, i as int),
                    dom@,
                    element@,
                ),
            decreases i,
        {
            let ghost prefix = self@.subrange(0, i as int);
            assert(prefix.last() == self@[i - 1]);
            assert(prefix.drop_last() =~= self@.subrange(0, i - 1));
            match self.entries[i - 1] {
                Entry::Marker => {
                    return None;
                },
                Entry::Element(node) => {
                    let matches = match dom.tag_name(node) {
                        Some(name) => same_text(name.as_str(), element),
                        None => false,
                    };
                    if matches {
                        return Some(node);
                    }
                },
            }
            i -= 1;
        }
        None
    }

    /// The last place that holds `node`.
    pub fn get_index_of_node(&self, node: &NodeRef) -> (r: Option<usize>)
        ensures
            match r {
                Some(i) => i == last_index_of(self@, *node),
                None => last_index_of(self@, *node) == -1,
            },
    {
        let mut i: usize = self.entries.len();
        assert(self@.subrange(0, i as int) =~= self@);
        while i > 0
            invariant
                i <= self.entries.len(),
                last_index_of(self@, *node) == last_index_of(self@.subrange(0, i as int), *node),
            decreases i,
        {
            let ghost prefix = self@.subrange(0, i as int);
            assert(prefix.last() == self@[i - 1]);
            assert(prefix.drop_last() =~= self@.subrange(0, i - 1));
            match self.entries[i - 1] {
                Entry::Element(el) => {
                    if el == *node {
                        return Some(i - 1);
                    }
                },
                Entry::Marker => {},
            }
            i -= 1;
        }
        None
    }

    /// Whether the list holds `node`.
    pub fn contains_node(&self, node: &NodeRef) -> (r: bool)
        ensures
            r == self@.contains(Entry::Element(*node)),
    {
        proof {
            lemma_last_index_of(self@, *node);
        }
        self.get_index_of_node(node).is_some()
    }

    /// Removes the topmost entry that holds `element`; the others keep
    /// their order.
    pub fn remove_element(&mut self, element: &NodeRef)
        requires
            old(self)@.contains(Entry::Element(*element)),
        ensures
            final(self)@ == old(self)@.remove(last_index_of(old(self)@, *element)),
    {
        proof {
            lemma_last_index_of(self@, *element);
        }
        match self.get_index_of_node(element) {
            Some(i) => {
                self.entries.remove(i);
            },
            None => {},
        }
    }
}

} // verus!
