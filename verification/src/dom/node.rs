//! Nodes and the table that owns them.
//!
//! A [`Dom`] owns every node of a document. A [`NodeRef`] names a node by
//! its place in the table, so two handles denote the same node exactly when
//! they are equal. Parent, last-child and previous-sibling links are kept as
//! [`WeakNodeRef`]s: they name a node without owning it.
//!
//! Every table is well formed, as [`DomView::well_formed`] says: the
//! operations of the table keep it so.

use crate::dom::element::{lowercased, Element, ElementView};
use crate::text::opt_text;
use vstd::prelude::*;
use vstd::string::*;

verus! {

/// The kinds of node.
#[derive(Debug, Clone, Copy, PartialEq, Eq, Structural)]
pub enum NodeType {
    Element,
    Text,
    CDataSection,
    ProcessingInstruction,
    Comment,
    Document,
    DocumentType,
    DocumentFragment,
}

impl NodeType {
    /// The number that the DOM standard gives to the kind.
    pub open spec fn code(self) -> int {
        match self {
            NodeType::Element => 1,
            NodeType::Text => 3,
            NodeType::CDataSection => 4,
            NodeType::ProcessingInstruction => 7,
            NodeType::Comment => 8,
            NodeType::Document => 9,
            NodeType::DocumentType => 10,
            NodeType::DocumentFragment => 11,
        }
    }

    /// The number that the DOM standard gives to the kind.
    pub fn value(&self) -> (r: u8)
        ensures
            r == self.code(),
    {
        match self {
            NodeType::Element => 1,
            NodeType::Text => 3,
            NodeType::CDataSection => 4,
            NodeType::ProcessingInstruction => 7,
            NodeType::Comment => 8,
            NodeType::Document => 9,
            NodeType::DocumentType => 10,
            NodeType::DocumentFragment => 11,
        }
    }
}

/// An owning handle to a node.
#[derive(Debug, Clone, Copy, PartialEq, Eq, Structural)]
pub struct NodeRef(pub usize);

/// A handle that names a node without owning it.
#[derive(Debug, Clone, Copy, PartialEq, Eq, Structural)]
pub struct WeakNodeRef(pub usize);

/// A node: its kind and its links into the tree.
#[derive(Debug, Clone, Copy)]
pub struct Node {
    pub node_type: NodeType,
    pub parent_node: Option<WeakNodeRef>,
    pub first_child: Option<NodeRef>,
    pub last_child: Option<WeakNodeRef>,
    pub next_sibling: Option<NodeRef>,
    pub prev_sibling: Option<WeakNodeRef>,
}

/// The place that a strong link names.
pub open spec fn strong(link: Option<NodeRef>) -> Option<int> {
    match link {
        Some(r) => Some(r.0 as int),
        None => None,
    }
}

/// The place that a weak link names.
pub open spec fn weak(link: Option<WeakNodeRef>) -> Option<int> {
    match link {
        Some(r) => Some(r.0 as int),
        None => None,
    }
}

/// Strong links that name the same place are the same link.
pub proof fn lemma_same_strong(a: Option<NodeRef>, b: Option<NodeRef>)
    requires
        strong(a) == strong(b),
    ensures
        a == b,
{
    if a is Some {
        let x = a.unwrap();
        let y = b.unwrap();
        assert(x.0 == y.0);
    }
}

/// Weak links that name the same place are the same link.
pub proof fn lemma_same_weak(a: Option<WeakNodeRef>, b: Option<WeakNodeRef>)
    requires
        weak(a) == weak(b),
    ensures
        a == b,
{
    if a is Some {
        let x = a.unwrap();
        let y = b.unwrap();
        assert(x.0 == y.0);
    }
}

impl Node {
    /// Whether the node has no link at all.
    pub open spec fn detached(self) -> bool {
        &&& self.parent_node is None
        &&& self.first_child is None
        &&& self.last_child is None
        &&& self.next_sibling is None
        &&& self.prev_sibling is None
    }

    /// A node of the given kind with no links.
    pub fn new(node_type: NodeType) -> (r: Node)
        ensures
            r.node_type == node_type,
            r.detached(),
    {
        Node {
            node_type,
            parent_node: None,
            first_child: None,
            last_child: None,
            next_sibling: None,
            prev_sibling: None,
        }
    }
}

/// What a node carries besides its links.
#[derive(Debug)]
pub enum Payload {
    /// Nothing.
    Empty,
    /// An element.
    Element(Element),
    /// The text of a text, comment, CDATA or processing-instruction node.
    Characters(String),
}

/// The mathematical value of a [`Payload`].
pub enum PayloadView {
    Empty,
    Element(ElementView),
    Characters(Seq<char>),
}

impl View for Payload {
    type V = PayloadView;

    open spec fn view(&self) -> PayloadView {
        match self {
            Payload::Empty => PayloadView::Empty,
            Payload::Element(e) => PayloadView::Element(e@),
            Payload::Characters(s) => PayloadView::Characters(s@),
        }
    }
}

/// The views of a list of payloads.
pub open spec fn payload_views(payloads: Seq<Payload>) -> Seq<PayloadView> {
    Seq::new(payloads.len(), |i: int| payloads[i]@)
}

/// Whether a node of the kind carries text.
pub open spec fn carries_characters(node_type: NodeType) -> bool {
    ||| node_type == NodeType::Text
    ||| node_type == NodeType::Comment
    ||| node_type == NodeType::CDataSection
    ||| node_type == NodeType::ProcessingInstruction
}

/// The table of a document's nodes.
pub struct Dom {
    nodes: Vec<Node>,
    payloads: Vec<Payload>,
    children: Ghost<Seq<Seq<int>>>,
}

/// The mathematical value of a [`Dom`]: the nodes, what each carries, and
/// for each node the places of its children in document order.
pub struct DomView {
    pub nodes: Seq<Node>,
    pub payloads: Seq<PayloadView>,
    pub children: Seq<Seq<int>>,
}

impl DomView {
    /// The table without nodes.
    pub open spec fn empty() -> DomView {
        DomView { nodes: Seq::empty(), payloads: Seq::empty(), children: Seq::empty() }
    }

    /// Whether `i` is the place of a node.
    pub open spec fn has(self, i: int) -> bool {
        0 <= i < self.nodes.len()
    }

    /// The first of `list`, if any.
    pub open spec fn head(list: Seq<int>) -> Option<int> {
        if list.len() > 0 {
            Some(list[0])
        } else {
            None
        }
    }

    /// The last of `list`, if any.
    pub open spec fn tail(list: Seq<int>) -> Option<int> {
        if list.len() > 0 {
            Some(list.last())
        } else {
            None
        }
    }

    /// The child with number `k` of the node at `p` is linked to `p` as its
    /// parent and to its neighbours in the list as its siblings.
    pub open spec fn child_linked(self, p: int, k: int) -> bool {
        let list = self.children[p];
        let c = list[k];
        &&& self.has(c)
        &&& weak(self.nodes[c].parent_node) == Some(p)
        &&& weak(self.nodes[c].prev_sibling) == (if k > 0 {
            Some(list[k - 1])
        } else {
            None
        })
        &&& strong(self.nodes[c].next_sibling) == (if k + 1 < list.len() {
            Some(list[k + 1])
        } else {
            None
        })
    }

    /// The node at `p` holds its children once each, and its first-child
    /// and last-child links name the ends of the list.
    pub open spec fn parent_linked(self, p: int) -> bool {
        &&& self.children[p].no_duplicates()
        &&& strong(self.nodes[p].first_child) == Self::head(self.children[p])
        &&& weak(self.nodes[p].last_child) == Self::tail(self.children[p])
    }

    /// The node at `c` is among the children of its parent, or has neither
    /// parent nor siblings.
    pub open spec fn placed(self, c: int) -> bool {
        match self.nodes[c].parent_node {
            Some(p) => self.has(p.0 as int) && self.children[p.0 as int].contains(c),
            None => self.nodes[c].prev_sibling is None && self.nodes[c].next_sibling is None,
        }
    }

    /// What the node at `i` carries fits its kind: an element payload is
    /// carried by an element node and is well formed, and text is carried
    /// by a node of a kind that has text.
    pub open spec fn payload_fits(self, i: int) -> bool {
        match self.payloads[i] {
            PayloadView::Empty => true,
            PayloadView::Element(e) => self.nodes[i].node_type == NodeType::Element
                && e.well_formed(),
            PayloadView::Characters(_) => carries_characters(self.nodes[i].node_type),
        }
    }

    /// What the node at `i` carries; nothing where `i` is no node.
    pub open spec fn payload_at(self, i: int) -> PayloadView {
        if self.has(i) && i < self.payloads.len() {
            self.payloads[i]
        } else {
            PayloadView::Empty
        }
    }

    /// The tag name of the element at `i`; `None` where `i` is no element.
    pub open spec fn tag_of(self, i: int) -> Option<Seq<char>> {
        match self.payload_at(i) {
            PayloadView::Element(e) => Some(e.tag_name),
            _ => None,
        }
    }

    /// The text that the node at `i` carries; `None` where it carries none.
    pub open spec fn characters_of(self, i: int) -> Option<Seq<char>> {
        match self.payload_at(i) {
            PayloadView::Characters(s) => Some(s),
            _ => None,
        }
    }

    /// The tree invariant: every node but a root is held exactly once by its
    /// parent, and the children of a node form a doubly linked list from
    /// the parent's first child to its last.
    pub open spec fn well_formed(self) -> bool {
        &&& self.children.len() == self.nodes.len()
        &&& self.payloads.len() == self.nodes.len()
        &&& forall|i: int| self.has(i) ==> #[trigger] self.payload_fits(i)
        &&& forall|p: int, k: int|
            self.has(p) && 0 <= k < self.children[p].len() ==> #[trigger] self.child_linked(p, k)
        &&& forall|p: int| self.has(p) ==> #[trigger] self.parent_linked(p)
        &&& forall|c: int| self.has(c) ==> #[trigger] self.placed(c)
    }

    /// The place of the parent of the node at `i`.
    pub open spec fn parent(self, i: int) -> Option<int> {
        if self.has(i) {
            weak(self.nodes[i].parent_node)
        } else {
            None
        }
    }

    /// The links follow from the children: two well-formed tables with the
    /// same kinds of nodes and the same children of every node have the
    /// same nodes.
    pub proof fn lemma_links_follow(self, other: DomView)
        requires
            self.well_formed(),
            other.well_formed(),
            self.children == other.children,
            self.kinds() == other.kinds(),
        ensures
            self.nodes == other.nodes,
    {
        assert(self.nodes.len() == other.nodes.len()) by {
            assert(self.kinds().len() == other.kinds().len());
        }
        assert forall|i: int| 0 <= i < self.nodes.len() implies self.nodes[i]
            == other.nodes[i] by {
            let a = self.nodes[i];
            let b = other.nodes[i];
            assert(self.kinds()[i] == a.node_type);
            assert(other.kinds()[i] == b.node_type);
            assert(self.parent_linked(i));
            assert(other.parent_linked(i));
            assert(self.placed(i));
            assert(other.placed(i));
            match a.parent_node {
                Some(p) => {
                    let k = self.children[p.0 as int].index_of(i);
                    assert(self.child_linked(p.0 as int, k));
                    assert(other.child_linked(p.0 as int, k));
                },
                None => {
                    match b.parent_node {
                        Some(q) => {
                            let k = other.children[q.0 as int].index_of(i);
                            assert(self.child_linked(q.0 as int, k));
                        },
                        None => {},
                    }
                },
            }
            lemma_same_weak(a.parent_node, b.parent_node);
            lemma_same_weak(a.prev_sibling, b.prev_sibling);
            lemma_same_weak(a.last_child, b.last_child);
            lemma_same_strong(a.next_sibling, b.next_sibling);
            lemma_same_strong(a.first_child, b.first_child);
        }
        assert(self.nodes =~= other.nodes);
    }

    /// Once the climb has reached a node without parent, it stays there.
    pub proof fn lemma_climb_stays(self, i: int, reached: nat, steps: nat)
        requires
            reached <= steps,
            self.parent(self.climb(i, reached)) is None,
        ensures
            self.climb(i, steps) == self.climb(i, reached),
        decreases steps,
    {
        if steps > reached {
            self.lemma_climb_stays(i, reached, (steps - 1) as nat);
        }
    }

    /// The kinds of the nodes.
    pub open spec fn kinds(self) -> Seq<NodeType> {
        Seq::new(self.nodes.len(), |i: int| self.nodes[i].node_type)
    }

    /// The node reached from the node at `i` by going to the parent `steps`
    /// times, or as often as there is a parent.
    pub open spec fn climb(self, i: int, steps: nat) -> int
        decreases steps,
    {
        if steps == 0 {
            i
        } else {
            let j = self.climb(i, (steps - 1) as nat);
            match self.parent(j) {
                Some(q) => q,
                None => j,
            }
        }
    }

    /// The document that the node at `i` is connected to: the node that is
    /// reached by going to the parent as often as there are nodes, where
    /// that node is a document.
    pub open spec fn document_of(self, i: int) -> Option<int> {
        let root = self.climb(i, self.nodes.len());
        if self.has(root) && self.nodes[root].node_type == NodeType::Document {
            Some(root)
        } else {
            None
        }
    }

    /// The table after the node at `c` has been told that it was inserted
    /// into `document`: an element takes note of the document, and nothing
    /// changes where there is no document or `c` is no element.
    pub open spec fn told(self, c: int, document: Option<int>) -> DomView {
        match document {
            Some(d) => match self.payloads[c] {
                PayloadView::Element(e) => DomView {
                    payloads: self.payloads.update(
                        c,
                        PayloadView::Element(
                            ElementView { data: e.data.on_inserted(NodeRef(d as usize)), ..e },
                        ),
                    ),
                    ..self
                },
                _ => self,
            },
            None => self,
        }
    }

    /// Whether the node at `c` can be taken from its parent: it is a node
    /// of the table and has a parent.
    pub open spec fn can_remove(self, c: int) -> bool {
        self.has(c) && self.nodes[c].parent_node is Some
    }

    /// The children of every node after the node at `c` has been taken
    /// from its parent.
    pub open spec fn children_without(self, c: int) -> Seq<Seq<int>> {
        let p = self.parent(c)->0;
        let list = self.children[p];
        self.children.update(p, list.remove(list.index_of(c)))
    }

    /// Whether the node at `c` can become the child of the node at `p`
    /// that stands before the node at `r`: `c` can become a child of `p`,
    /// and `r` is a child of `p`.
    pub open spec fn can_insert_before(self, p: int, c: int, r: int) -> bool {
        self.can_append(p, c) && self.has(r) && self.parent(r) == Some(p)
    }

    /// The children of every node after the node at `c` has become the
    /// child of the node at `p` that stands before the node at `r`.
    pub open spec fn children_with(self, p: int, c: int, r: int) -> Seq<Seq<int>> {
        let list = self.children[p];
        self.children.update(p, list.insert(list.index_of(r), c))
    }

    /// The table after the node at `c` has become the child of the node at
    /// `p` that stands before the node at `r`.
    pub open spec fn with_inserted(self, p: int, c: int, r: int) -> DomView {
        let prev = self.nodes[r].prev_sibling;
        let linked = Node {
            parent_node: Some(WeakNodeRef(p as usize)),
            prev_sibling: prev,
            next_sibling: Some(NodeRef(r as usize)),
            ..self.nodes[c]
        };
        let nodes = self.nodes.update(c, linked);
        let nodes = nodes.update(
            r,
            Node { prev_sibling: Some(WeakNodeRef(c as usize)), ..nodes[r] },
        );
        let nodes = match prev {
            Some(l) => nodes.update(
                l.0 as int,
                Node { next_sibling: Some(NodeRef(c as usize)), ..nodes[l.0 as int] },
            ),
            None => nodes.update(p, Node { first_child: Some(NodeRef(c as usize)), ..nodes[p] }),
        };
        DomView { nodes, payloads: self.payloads, children: self.children_with(p, c, r) }
    }

    /// Making a node the last child of another keeps the table well formed.
    pub proof fn lemma_appended_well_formed(self, p: int, c: int)
        requires
            self.well_formed(),
            self.can_append(p, c),
            self.nodes.len() <= usize::MAX,
        ensures
            self.with_appended(p, c).well_formed(),
            self.with_appended(p, c).kinds() == self.kinds(),
    {
        let before = self;
        let after = self.with_appended(p, c);
        let last = self.nodes[p].last_child;
        let old_list = before.children[p];
        let new_list = after.children[p];
        assert(before.parent_linked(p));
        assert(before.placed(c));
        if last is Some {
            assert(before.child_linked(p, old_list.len() - 1));
        }
        assert(after.nodes.len() == before.nodes.len());
        assert(after.kinds() =~= before.kinds());
        assert forall|q: int, k: int|
            before.has(q) && 0 <= k < before.children[q].len() implies before.children[q][k]
            != c by {
            assert(before.child_linked(q, k));
        }
        assert forall|i: int| after.has(i) implies #[trigger] after.payload_fits(i) by {
            assert(before.payload_fits(i));
        }
        assert forall|q: int, k: int|
            after.has(q) && 0 <= k < after.children[q].len() implies #[trigger] after.child_linked(
            q,
            k,
        ) by {
            if q == p && k == old_list.len() {
            } else {
                assert(before.child_linked(q, k));
                if q == p {
                    assert(new_list[k] == old_list[k]);
                }
            }
        }
        assert forall|q: int| after.has(q) implies #[trigger] after.parent_linked(q) by {
            assert(before.parent_linked(q));
            if q == p {
                assert forall|i: int, j: int|
                    0 <= i < new_list.len() && 0 <= j < new_list.len() && i != j implies new_list[i]
                    != new_list[j] by {
                    if i < old_list.len() && j < old_list.len() {
                        assert(old_list[i] != old_list[j]);
                    }
                }
            }
        }
        assert forall|d: int| after.has(d) implies #[trigger] after.placed(d) by {
            assert(before.placed(d));
            if d == c {
                assert(new_list[old_list.len() as int] == c);
            } else {
                match before.nodes[d].parent_node {
                    Some(q) => {
                        let k = choose|k: int|
                            0 <= k < before.children[q.0 as int].len()
                                && before.children[q.0 as int][k] == d;
                        if q.0 as int == p {
                            assert(new_list[k] == d);
                        }
                    },
                    None => {
                        if last is Some && d == last.unwrap().0 as int {
                            assert(before.child_linked(p, old_list.len() - 1));
                        }
                    },
                }
            }
        }
    }

    /// Making a node the child of another before one of its children keeps
    /// the table well formed.
    pub proof fn lemma_inserted_well_formed(self, p: int, c: int, t: int)
        requires
            self.well_formed(),
            self.can_insert_before(p, c, t),
            self.nodes.len() <= usize::MAX,
        ensures
            self.with_inserted(p, c, t).well_formed(),
            self.with_inserted(p, c, t).kinds() == self.kinds(),
    {
        let before = self;
        let after = self.with_inserted(p, c, t);
        let prev = self.nodes[t].prev_sibling;
        let list = before.children[p];
        let k = list.index_of(t);
        let grown = after.children[p];
        assert(before.placed(t));
        assert(list.contains(t));
        assert(0 <= k < list.len() && list[k] == t);
        assert(before.child_linked(p, k));
        assert(before.parent_linked(p));
        assert(before.placed(c));
        if k > 0 {
            assert(before.child_linked(p, k - 1));
        }
        assert(after.nodes.len() == before.nodes.len());
        assert(after.kinds() =~= before.kinds());
        assert forall|q: int, j: int|
            before.has(q) && 0 <= j < before.children[q].len() implies before.children[q][j]
            != c by {
            assert(before.child_linked(q, j));
        }
        assert forall|i: int| 0 <= i < grown.len() implies grown[i] == (if i < k {
            list[i]
        } else if i == k {
            c
        } else {
            list[i - 1]
        }) by {}
        assert forall|q: int, j: int|
            before.has(q) && q != p && 0 <= j < before.children[q].len() implies (
            #[trigger] before.children[q][j]) != t && (prev is Some ==> before.children[q][j]
                != prev.unwrap().0 as int) by {
            assert(before.child_linked(q, j));
        }
        assert forall|i: int| after.has(i) implies #[trigger] after.payload_fits(i) by {
            assert(before.payload_fits(i));
        }
        assert forall|q: int, j: int|
            after.has(q) && 0 <= j < after.children[q].len() implies #[trigger] after.child_linked(
            q,
            j,
        ) by {
            if q == p {
                if j < k {
                    assert(before.child_linked(p, j));
                    assert(list[j] != list[k]);
                    if j + 1 < k {
                        assert(list[j] != list[k - 1]);
                    }
                } else if j == k {
                } else {
                    assert(before.child_linked(p, j - 1));
                    if j - 1 > k {
                        assert(list[j - 1] != list[k]);
                    }
                    if k > 0 {
                        assert(list[j - 1] != list[k - 1]);
                    }
                }
            } else {
                assert(before.child_linked(q, j));
            }
        }
        assert forall|q: int| after.has(q) implies #[trigger] after.parent_linked(q) by {
            assert(before.parent_linked(q));
            if q == p {
                assert forall|i: int, j: int|
                    0 <= i < grown.len() && 0 <= j < grown.len() && i != j implies grown[i]
                    != grown[j] by {
                    if i != k && j != k {
                        let a = if i < k {
                            i
                        } else {
                            i - 1
                        };
                        let b = if j < k {
                            j
                        } else {
                            j - 1
                        };
                        assert(list[a] != list[b]);
                    }
                }
            }
        }
        assert forall|d: int| after.has(d) implies #[trigger] after.placed(d) by {
            assert(before.placed(d));
            if d == c {
                assert(grown[k] == c);
            } else {
                match before.nodes[d].parent_node {
                    Some(q) => {
                        let at = choose|at: int|
                            0 <= at < before.children[q.0 as int].len()
                                && before.children[q.0 as int][at] == d;
                        if q.0 as int == p {
                            if at < k {
                                assert(grown[at] == d);
                            } else {
                                assert(grown[at + 1] == d);
                            }
                        }
                    },
                    None => {
                        if prev is Some && d == prev.unwrap().0 as int {
                            assert(false);
                        }
                    },
                }
            }
        }
    }

    /// Replacing what an element carries by a well-formed element keeps
    /// the table well formed.
    pub proof fn lemma_element_replaced(self, c: int, e: ElementView)
        requires
            self.well_formed(),
            self.has(c),
            self.payloads[c] is Element,
            e.well_formed(),
        ensures
            (DomView {
                payloads: self.payloads.update(c, PayloadView::Element(e)),
                ..self
            }).well_formed(),
    {
        let before = self;
        let after = DomView { payloads: self.payloads.update(c, PayloadView::Element(e)), ..self };
        assert forall|i: int| after.has(i) implies #[trigger] after.payload_fits(i) by {
            assert(before.payload_fits(i));
        }
        assert forall|p: int, k: int|
            after.has(p) && 0 <= k < after.children[p].len() implies #[trigger] after.child_linked(
            p,
            k,
        ) by {
            assert(before.child_linked(p, k));
        }
        assert forall|p: int| after.has(p) implies #[trigger] after.parent_linked(p) by {
            assert(before.parent_linked(p));
        }
        assert forall|d: int| after.has(d) implies #[trigger] after.placed(d) by {
            assert(before.placed(d));
        }
    }

    /// The table after the node at `c` has been taken from its parent: its
    /// neighbours are linked to each other, the parent's first-child and
    /// last-child links skip it, and it has neither parent nor siblings.
    pub open spec fn with_removed(self, c: int) -> DomView {
        let node = self.nodes[c];
        let p = self.parent(c)->0;
        let prev = node.prev_sibling;
        let next = node.next_sibling;
        let nodes = self.nodes.update(
            c,
            Node { parent_node: None, prev_sibling: None, next_sibling: None, ..node },
        );
        let nodes = match prev {
            Some(l) => nodes.update(l.0 as int, Node { next_sibling: next, ..nodes[l.0 as int] }),
            None => nodes,
        };
        let nodes = match next {
            Some(r) => nodes.update(r.0 as int, Node { prev_sibling: prev, ..nodes[r.0 as int] }),
            None => nodes,
        };
        let holder = Node {
            first_child: if prev is None {
                next
            } else {
                nodes[p].first_child
            },
            last_child: if next is None {
                prev
            } else {
                nodes[p].last_child
            },
            ..nodes[p]
        };
        DomView {
            nodes: nodes.update(p, holder),
            payloads: self.payloads,
            children: self.children_without(c),
        }
    }

    /// Where the node at `c` stands among the children of its parent, and
    /// what its sibling links name.
    pub proof fn lemma_place_of(self, c: int)
        requires
            self.well_formed(),
            self.can_remove(c),
        ensures
            ({
                let p = self.parent(c)->0;
                let list = self.children[p];
                let k = list.index_of(c);
                &&& self.has(p)
                &&& 0 <= k < list.len()
                &&& list[k] == c
                &&& list.no_duplicates()
                &&& weak(self.nodes[c].prev_sibling) == (if k > 0 {
                    Some(list[k - 1])
                } else {
                    None
                })
                &&& strong(self.nodes[c].next_sibling) == (if k + 1 < list.len() {
                    Some(list[k + 1])
                } else {
                    None
                })
                &&& forall|i: int| 0 <= i < list.len() ==> self.has(#[trigger] list[i])
            }),
    {
        let p = self.parent(c)->0;
        let list = self.children[p];
        assert(self.placed(c));
        assert(list.contains(c));
        let k = list.index_of(c);
        assert(self.child_linked(p, k));
        assert(self.parent_linked(p));
        assert forall|i: int| 0 <= i < list.len() implies self.has(#[trigger] list[i]) by {
            assert(self.child_linked(p, i));
        }
    }

    /// No node is a child of two nodes.
    pub proof fn lemma_one_parent(self, q: int, j: int, p: int, k: int)
        requires
            self.well_formed(),
            self.has(q),
            self.has(p),
            0 <= j < self.children[q].len(),
            0 <= k < self.children[p].len(),
            self.children[q][j] == self.children[p][k],
        ensures
            q == p,
            j == k,
    {
        assert(self.child_linked(q, j));
        assert(self.child_linked(p, k));
        assert(self.parent_linked(p));
    }

    /// Taking a node from its parent keeps the children of every node
    /// linked to it and to each other.
    proof fn lemma_removed_children_linked(self, c: int, q: int, j: int)
        requires
            self.well_formed(),
            self.can_remove(c),
            self.has(q),
            0 <= j < self.with_removed(c).children[q].len(),
        ensures
            self.with_removed(c).child_linked(q, j),
    {
        let p = self.parent(c)->0;
        let list = self.children[p];
        let k = list.index_of(c);
        let after = self.with_removed(c);
        self.lemma_place_of(c);
        if q == p {
            let from = if j < k {
                j
            } else {
                j + 1
            };
            assert(after.children[p][j] == list[from]);
            assert(self.child_linked(p, from));
            assert(list[from] != list[k]);
            if k > 0 && from != k - 1 {
                assert(list[from] != list[k - 1]);
            }
            if k + 1 < list.len() && from != k + 1 {
                assert(list[from] != list[k + 1]);
            }
            if j > 0 {
                assert(after.children[p][j - 1] == list[if j - 1 < k {
                    j - 1
                } else {
                    j
                }]);
            }
            if j + 1 < after.children[p].len() {
                assert(after.children[p][j + 1] == list[if j + 1 < k {
                    j + 1
                } else {
                    j + 2
                }]);
            }
        } else {
            assert(self.child_linked(q, j));
            let d = self.children[q][j];
            assert(after.children[q][j] == d);
            if d == c {
                self.lemma_one_parent(q, j, p, k);
            }
            if k > 0 && d == list[k - 1] {
                self.lemma_one_parent(q, j, p, k - 1);
            }
            if k + 1 < list.len() && d == list[k + 1] {
                self.lemma_one_parent(q, j, p, k + 1);
            }
        }
    }

    /// Taking a node from its parent keeps every node's first-child and
    /// last-child links at the ends of its children.
    proof fn lemma_removed_parent_linked(self, c: int, q: int)
        requires
            self.well_formed(),
            self.can_remove(c),
            self.has(q),
        ensures
            self.with_removed(c).parent_linked(q),
    {
        let p = self.parent(c)->0;
        let list = self.children[p];
        let k = list.index_of(c);
        let after = self.with_removed(c);
        self.lemma_place_of(c);
        assert(self.parent_linked(q));
        if q == p {
            let rest = after.children[p];
            assert forall|i: int, j: int|
                0 <= i < rest.len() && 0 <= j < rest.len() && i != j implies rest[i]
                != rest[j] by {
                let a = if i < k {
                    i
                } else {
                    i + 1
                };
                let b = if j < k {
                    j
                } else {
                    j + 1
                };
                assert(rest[i] == list[a]);
                assert(rest[j] == list[b]);
                assert(list[a] != list[b]);
            }
            if rest.len() > 0 {
                assert(rest[0] == list[if k == 0 {
                    1int
                } else {
                    0int
                }]);
                assert(rest.last() == list[if k == list.len() - 1 {
                    list.len() - 2
                } else {
                    list.len() - 1
                }]);
            }
        }
    }

    /// Taking a node from its parent keeps every other node among the
    /// children of its parent, and leaves the node without parent and
    /// siblings.
    proof fn lemma_removed_placed(self, c: int, d: int)
        requires
            self.well_formed(),
            self.can_remove(c),
            self.has(d),
        ensures
            self.with_removed(c).placed(d),
    {
        let p = self.parent(c)->0;
        let list = self.children[p];
        let k = list.index_of(c);
        let after = self.with_removed(c);
        self.lemma_place_of(c);
        assert(self.placed(d));
        if d != c {
            if k > 0 {
                assert(self.child_linked(p, k - 1));
            }
            if k + 1 < list.len() {
                assert(self.child_linked(p, k + 1));
            }
            match self.nodes[d].parent_node {
                Some(q) => {
                    let at = self.children[q.0 as int].index_of(d);
                    assert(self.children[q.0 as int][at] == d);
                    if q.0 as int == p {
                        assert(at != k);
                        assert(after.children[p][if at < k {
                            at
                        } else {
                            at - 1
                        }] == d);
                    } else {
                        assert(after.children[q.0 as int][at] == d);
                    }
                },
                None => {},
            }
        }
    }

    /// Taking a node from its parent keeps the table well formed.
    pub proof fn lemma_removed_well_formed(self, c: int)
        requires
            self.well_formed(),
            self.can_remove(c),
        ensures
            self.with_removed(c).well_formed(),
            self.with_removed(c).kinds() == self.kinds(),
    {
        let after = self.with_removed(c);
        self.lemma_place_of(c);
        assert(after.kinds() =~= self.kinds());
        assert forall|i: int| after.has(i) implies #[trigger] after.payload_fits(i) by {
            assert(self.payload_fits(i));
        }
        assert forall|q: int, j: int|
            after.has(q) && 0 <= j < after.children[q].len() implies #[trigger] after.child_linked(
            q,
            j,
        ) by {
            self.lemma_removed_children_linked(c, q, j);
        }
        assert forall|q: int| after.has(q) implies #[trigger] after.parent_linked(q) by {
            self.lemma_removed_parent_linked(c, q);
        }
        assert forall|d: int| after.has(d) implies #[trigger] after.placed(d) by {
            self.lemma_removed_placed(c, d);
        }
    }

    /// The table with one more node, detached, of the given kind and with
    /// the given payload.
    pub open spec fn with_node(self, node_type: NodeType, payload: PayloadView) -> DomView {
        DomView {
            nodes: self.nodes.push(
                Node {
                    node_type,
                    parent_node: None,
                    first_child: None,
                    last_child: None,
                    next_sibling: None,
                    prev_sibling: None,
                },
            ),
            payloads: self.payloads.push(payload),
            children: self.children.push(Seq::empty()),
        }
    }

    /// Whether the node at `c` can become the last child of the node at
    /// `p`: both are nodes of the table, they differ, and `c` has no parent.
    pub open spec fn can_append(self, p: int, c: int) -> bool {
        &&& self.has(p)
        &&& self.has(c)
        &&& p != c
        &&& self.nodes[c].parent_node is None
    }

    /// The table after the node at `c` has become the last child of the
    /// node at `p`.
    pub open spec fn with_appended(self, p: int, c: int) -> DomView {
        let last = self.nodes[p].last_child;
        let linked = Node {
            parent_node: Some(WeakNodeRef(p as usize)),
            prev_sibling: last,
            next_sibling: None,
            ..self.nodes[c]
        };
        let nodes = self.nodes.update(c, linked);
        let nodes = match last {
            Some(l) => nodes.update(
                l.0 as int,
                Node { next_sibling: Some(NodeRef(c as usize)), ..nodes[l.0 as int] },
            ),
            None => nodes,
        };
        let parent = Node {
            first_child: if last is None {
                Some(NodeRef(c as usize))
            } else {
                nodes[p].first_child
            },
            last_child: Some(WeakNodeRef(c as usize)),
            ..nodes[p]
        };
        DomView {
            nodes: nodes.update(p, parent),
            payloads: self.payloads,
            children: self.children.update(p, self.children[p].push(c)),
        }
    }
}

/// What an element is told.
enum ElementChange<'a> {
    /// That it was inserted into a document.
    Inserted(NodeRef),
    /// That an attribute was set to a value.
    Attribute(&'a str, &'a str),
}

/// The mathematical value of an [`ElementChange`].
pub enum ChangeView {
    Inserted(NodeRef),
    Attribute(Seq<char>, Seq<char>),
}

impl View for ElementChange<'_> {
    type V = ChangeView;

    closed spec fn view(&self) -> ChangeView {
        match self {
            ElementChange::Inserted(d) => ChangeView::Inserted(*d),
            ElementChange::Attribute(n, v) => ChangeView::Attribute(n@, v@),
        }
    }
}

impl ChangeView {
    /// The element after it has been told.
    pub open spec fn applied(self, e: ElementView) -> ElementView {
        match self {
            ChangeView::Inserted(d) => ElementView { data: e.data.on_inserted(d), ..e },
            ChangeView::Attribute(n, v) => e.with_attribute_set(n, v),
        }
    }
}

impl DomView {
    /// The table after the element at `c` has been told of a change;
    /// nothing changes where `c` is no element.
    pub open spec fn changed(self, c: int, change: ChangeView) -> DomView {
        match self.payloads[c] {
            PayloadView::Element(e) => DomView {
                payloads: self.payloads.update(c, PayloadView::Element(change.applied(e))),
                ..self
            },
            _ => self,
        }
    }
}

impl View for Dom {
    type V = DomView;

    closed spec fn view(&self) -> DomView {
        DomView {
            nodes: self.nodes@,
            payloads: payload_views(self.payloads@),
            children: self.children@,
        }
    }
}

impl Dom {
    /// Every table is well formed.
    #[verifier::type_invariant]
    pub open spec fn sound(self) -> bool {
        self@.well_formed()
    }

    /// An empty table.
    pub fn new() -> (r: Dom)
        ensures
            r@ == DomView::empty(),
            r@.well_formed(),
    {
        let r = Dom { nodes: Vec::new(), payloads: Vec::new(), children: Ghost(Seq::empty()) };
        assert(r@.payloads =~= Seq::empty());
        r
    }

    /// The number of nodes.
    pub fn len(&self) -> (r: usize)
        ensures
            r == self@.nodes.len(),
    {
        self.nodes.len()
    }

    fn add(&mut self, node_type: NodeType, payload: Payload) -> (r: NodeRef)
        requires
            old(self)@.with_node(node_type, payload@).payload_fits(old(self)@.nodes.len() as int),
        ensures
            r.0 == old(self)@.nodes.len(),
            final(self)@ == old(self)@.with_node(node_type, payload@),
    {
        proof {
            use_type_invariant(&*self);
        }
        let ghost before = self@;
        let mut taken = Dom::new();
        core::mem::swap(self, &mut taken);
        let Dom { nodes, payloads, children } = taken;
        let mut nodes = nodes;
        let mut payloads = payloads;
        let r = NodeRef(nodes.len());
        nodes.push(Node::new(node_type));
        payloads.push(payload);
        let ghost after = DomView {
            nodes: nodes@,
            payloads: payload_views(payloads@),
            children: children@.push(Seq::empty()),
        };
        proof {
            assert(after.nodes =~= before.with_node(node_type, payload@).nodes);
            assert(after.payloads =~= before.with_node(node_type, payload@).payloads);
            assert forall|i: int| after.has(i) implies #[trigger] after.payload_fits(i) by {
                if i < before.nodes.len() {
                    assert(before.payload_fits(i));
                }
            }
            assert forall|p: int, k: int|
                after.has(p) && 0 <= k < after.children[p].len() implies #[trigger] after.child_linked(
                p,
                k,
            ) by {
                assert(before.child_linked(p, k));
            }
            assert forall|p: int| after.has(p) implies #[trigger] after.parent_linked(p) by {
                if p < before.nodes.len() {
                    assert(before.parent_linked(p));
                }
            }
            assert forall|c: int| after.has(c) implies #[trigger] after.placed(c) by {
                if c < before.nodes.len() {
                    assert(before.placed(c));
                }
            }
        }
        *self = Dom { nodes, payloads, children: Ghost(after.children) };
        r
    }

    /// Adds a detached node of the given kind, carrying nothing, and
    /// returns its handle.
    pub fn create_node(&mut self, node_type: NodeType) -> (r: NodeRef)
        ensures
            r.0 == old(self)@.nodes.len(),
            final(self)@ == old(self)@.with_node(node_type, PayloadView::Empty),
    {
        proof {
            use_type_invariant(&*self);
        }
        self.add(node_type, Payload::Empty)
    }

    /// Adds a detached element with the given tag name, in lower case, and
    /// returns its handle.
    pub fn create_element(&mut self, tag_name: &str) -> (r: NodeRef)
        ensures
            r.0 == old(self)@.nodes.len(),
            final(self)@ == old(self)@.with_node(
                NodeType::Element,
                PayloadView::Element(ElementView::fresh(lowercased(tag_name@))),
            ),
    {
        proof {
            use_type_invariant(&*self);
        }
        let element = Element::new(tag_name);
        self.add(NodeType::Element, Payload::Element(element))
    }

    /// The element that `node` names.
    pub fn element(&self, node: NodeRef) -> (r: Option<&Element>)
        ensures
            match r {
                Some(e) => self@.payload_at(node.0 as int) == PayloadView::Element(e@),
                None => !(self@.payload_at(node.0 as int) is Element),
            },
    {
        if node.0 < self.nodes.len() && node.0 < self.payloads.len() {
            match &self.payloads[node.0] {
                Payload::Element(e) => Some(e),
                _ => None,
            }
        } else {
            None
        }
    }

    /// Replaces what the node at `at` carries by what `change` makes of it.
    fn with_element(self, at: usize, change: ElementChange<'_>) -> (r: Dom)
        requires
            self@.has(at as int),
        ensures
            r@ == self@.changed(at as int, change@),
    {
        proof {
            use_type_invariant(&self);
        }
        let ghost before = self@;
        assert(before.payload_fits(at as int));
        let Dom { nodes, payloads, children } = self;
        let mut payloads = payloads;
        payloads.push(Payload::Empty);
        let payload = payloads.swap_remove(at);
        let payload = match payload {
            Payload::Element(e) => {
                let mut e = e;
                match change {
                    ElementChange::Inserted(document) => {
                        e.set_owner_document(document);
                    },
                    ElementChange::Attribute(name, value) => {
                        e.set_attribute(name, value);
                    },
                }
                proof {
                    use_type_invariant(&e);
                }
                Payload::Element(e)
            },
            other => other,
        };
        payloads.set(at, payload);
        proof {
            assert(payload_views(payloads@) =~= before.changed(at as int, change@).payloads);
            if before.payloads[at as int] is Element {
                before.lemma_element_replaced(
                    at as int,
                    change@.applied(before.payloads[at as int]->Element_0),
                );
            }
        }
        Dom { nodes, payloads, children }
    }

    /// Sets the attribute called `name` of the element that `node` names
    /// to `value`, and tells the element's payload. The answer is `false`,
    /// and nothing changes, where `node` names no element.
    pub fn set_attribute(&mut self, node: NodeRef, name: &str, value: &str) -> (r: bool)
        ensures
            r == (old(self)@.payload_at(node.0 as int) is Element),
            final(self)@ == (if r {
                old(self)@.changed(node.0 as int, ChangeView::Attribute(name@, value@))
            } else {
                old(self)@
            }),
    {
        proof {
            use_type_invariant(&*self);
        }
        if node.0 >= self.nodes.len() {
            return false;
        }
        let is_element = match &self.payloads[node.0] {
            Payload::Element(_) => true,
            _ => false,
        };
        if !is_element {
            return false;
        }
        let mut taken = Dom::new();
        core::mem::swap(self, &mut taken);
        *self = taken.with_element(node.0, ElementChange::Attribute(name, value));
        true
    }

    /// Adds a detached text node with the given text and returns its handle.
    pub fn create_text(&mut self, data: String) -> (r: NodeRef)
        ensures
            r.0 == old(self)@.nodes.len(),
            final(self)@ == old(self)@.with_node(NodeType::Text, PayloadView::Characters(data@)),
    {
        proof {
            use_type_invariant(&*self);
        }
        self.add(NodeType::Text, Payload::Characters(data))
    }

    /// The tag name of the element that `node` names.
    pub fn tag_name(&self, node: NodeRef) -> (r: Option<String>)
        ensures
            opt_text(r) == self@.tag_of(node.0 as int),
    {
        if node.0 < self.nodes.len() && node.0 < self.payloads.len() {
            match &self.payloads[node.0] {
                Payload::Element(e) => Some(e.tag_name()),
                _ => None,
            }
        } else {
            None
        }
    }

    /// The text that `node` carries.
    pub fn characters(&self, node: NodeRef) -> (r: Option<String>)
        ensures
            opt_text(r) == self@.characters_of(node.0 as int),
    {
        if node.0 < self.nodes.len() && node.0 < self.payloads.len() {
            match &self.payloads[node.0] {
                Payload::Characters(s) => Some(s.clone()),
                _ => None,
            }
        } else {
            None
        }
    }

    /// Makes `child` the last child of `parent`.
    ///
    /// Nothing changes, and the answer is `false`, where either handle
    /// names no node of this table, where both name the same node, or where
    /// `child` already has a parent. Else `child` is told the document that
    /// `parent` is connected to.
    pub fn append_child(&mut self, parent: NodeRef, child: NodeRef) -> (r: bool)
        ensures
            r == old(self)@.can_append(parent.0 as int, child.0 as int),
            final(self)@ == (if r {
                old(self)@.with_appended(parent.0 as int, child.0 as int).told(
                    child.0 as int,
                    old(self)@.document_of(parent.0 as int),
                )
            } else {
                old(self)@
            }),
    {
        proof {
            use_type_invariant(&*self);
        }
        let n = self.nodes.len();
        if parent.0 >= n || child.0 >= n || parent.0 == child.0 {
            return false;
        }
        let node = self.nodes[child.0];
        if node.parent_node.is_some() {
            return false;
        }
        let document = self.document(parent);
        let ghost before = self@;
        let ghost p = parent.0 as int;
        let ghost c = child.0 as int;
        proof {
            before.lemma_appended_well_formed(p, c);
            assert(before.parent_linked(p));
            if before.nodes[p].last_child is Some {
                assert(before.child_linked(p, before.children[p].len() - 1));
            }
        }
        let mut taken = Dom::new();
        core::mem::swap(self, &mut taken);
        let Dom { nodes, payloads, children } = taken;
        let mut nodes = nodes;
        let last = nodes[parent.0].last_child;
        let mut linked = node;
        linked.parent_node = Some(WeakNodeRef(parent.0));
        linked.prev_sibling = last;
        linked.next_sibling = None;
        nodes.set(child.0, linked);
        match last {
            Some(l) => {
                let mut prev = nodes[l.0];
                prev.next_sibling = Some(NodeRef(child.0));
                nodes.set(l.0, prev);
            },
            None => {},
        }
        let mut holder = nodes[parent.0];
        if last.is_none() {
            holder.first_child = Some(NodeRef(child.0));
        }
        holder.last_child = Some(WeakNodeRef(child.0));
        nodes.set(parent.0, holder);
        assert(nodes@ =~= before.with_appended(p, c).nodes);
        let linked_up = Dom { nodes, payloads, children: Ghost(before.with_appended(p, c).children) };
        *self = linked_up.told(child.0, document);
        true
    }

    /// The document that `node` is connected to.
    pub fn document(&self, node: NodeRef) -> (r: Option<NodeRef>)
        ensures
            strong(r) == self@.document_of(node.0 as int),
    {
        proof {
            use_type_invariant(self);
        }
        let n = self.nodes.len();
        if node.0 >= n {
            proof {
                self@.lemma_climb_stays(node.0 as int, 0, n as nat);
            }
            return None;
        }
        let mut at: usize = node.0;
        let mut steps: usize = 0;
        while steps < n
            invariant
                n == self.nodes.len(),
                self@.well_formed(),
                steps <= n,
                at < n,
                at == self@.climb(node.0 as int, steps as nat),
            ensures
                at < n,
                at == self@.climb(node.0 as int, n as nat),
            decreases n - steps,
        {
            match self.nodes[at].parent_node {
                Some(p) => {
                    assert(self@.placed(at as int));
                    at = p.0;
                    steps += 1;
                },
                None => {
                    proof {
                        self@.lemma_climb_stays(node.0 as int, steps as nat, n as nat);
                    }
                    break ;
                },
            }
        }
        match self.nodes[at].node_type {
            NodeType::Document => Some(NodeRef(at)),
            _ => None,
        }
    }

    /// The table after the node at `child` has been told that it was
    /// inserted into `document`.
    fn told(self, child: usize, document: Option<NodeRef>) -> (r: Dom)
        requires
            self@.has(child as int),
        ensures
            r@ == self@.told(child as int, strong(document)),
    {
        match document {
            Some(d) => self.with_element(child, ElementChange::Inserted(d)),
            None => self,
        }
    }

    /// Takes `child` from its parent.
    ///
    /// Nothing changes, and the answer is `false`, where `child` names no
    /// node of this table or has no parent. Else the parent holds its
    /// other children in the order they had, `child` has neither parent nor
    /// siblings, and it keeps its own children.
    pub fn remove_child(&mut self, child: NodeRef) -> (r: bool)
        ensures
            r == old(self)@.can_remove(child.0 as int),
            final(self)@ == (if r {
                old(self)@.with_removed(child.0 as int)
            } else {
                old(self)@
            }),
    {
        proof {
            use_type_invariant(&*self);
        }
        let n = self.nodes.len();
        if child.0 >= n {
            return false;
        }
        let node = self.nodes[child.0];
        let holder = match node.parent_node {
            Some(p) => p.0,
            None => {
                return false;
            },
        };
        let prev = node.prev_sibling;
        let next = node.next_sibling;
        let ghost before = self@;
        proof {
            before.lemma_place_of(child.0 as int);
            before.lemma_removed_well_formed(child.0 as int);
        }
        let mut taken = Dom::new();
        core::mem::swap(self, &mut taken);
        let Dom { nodes, payloads, children } = taken;
        let mut nodes = nodes;
        let mut detached = node;
        detached.parent_node = None;
        detached.prev_sibling = None;
        detached.next_sibling = None;
        nodes.set(child.0, detached);
        match prev {
            Some(l) => {
                let mut before_it = nodes[l.0];
                before_it.next_sibling = next;
                nodes.set(l.0, before_it);
            },
            None => {},
        }
        match next {
            Some(r) => {
                let mut after_it = nodes[r.0];
                after_it.prev_sibling = prev;
                nodes.set(r.0, after_it);
            },
            None => {},
        }
        let mut parent = nodes[holder];
        if prev.is_none() {
            parent.first_child = next;
        }
        if next.is_none() {
            parent.last_child = prev;
        }
        nodes.set(holder, parent);
        assert(nodes@ =~= before.with_removed(child.0 as int).nodes);
        *self = Dom {
            nodes,
            payloads,
            children: Ghost(before.children_without(child.0 as int)),
        };
        true
    }

    /// Makes `child` the child of `parent` that stands before `reference`.
    ///
    /// Nothing changes, and the answer is `false`, where a handle names no
    /// node of this table, where `parent` and `child` name the same node,
    /// where `child` already has a parent, or where `reference` is no
    /// child of `parent`. Else `parent` holds `child` before `reference`
    /// and its other children in the order they had, and `child` is told
    /// the document that `parent` is connected to.
    pub fn insert_before(&mut self, parent: NodeRef, child: NodeRef, reference: NodeRef) -> (r:
        bool)
        ensures
            r == old(self)@.can_insert_before(
                parent.0 as int,
                child.0 as int,
                reference.0 as int,
            ),
            final(self)@ == (if r {
                old(self)@.with_inserted(parent.0 as int, child.0 as int, reference.0 as int).told(
                    child.0 as int,
                    old(self)@.document_of(parent.0 as int),
                )
            } else {
                old(self)@
            }),
    {
        proof {
            use_type_invariant(&*self);
        }
        let n = self.nodes.len();
        if parent.0 >= n || child.0 >= n || reference.0 >= n || parent.0 == child.0 {
            return false;
        }
        let node = self.nodes[child.0];
        if node.parent_node.is_some() {
            return false;
        }
        let target = self.nodes[reference.0];
        let under = match target.parent_node {
            Some(q) => q.0 == parent.0,
            None => false,
        };
        if !under {
            return false;
        }
        let document = self.document(parent);
        let prev = target.prev_sibling;
        let ghost before = self@;
        let ghost p = parent.0 as int;
        let ghost c = child.0 as int;
        let ghost t = reference.0 as int;
        proof {
            before.lemma_inserted_well_formed(p, c, t);
            before.lemma_place_of(t);
        }
        let mut taken = Dom::new();
        core::mem::swap(self, &mut taken);
        let Dom { nodes, payloads, children } = taken;
        let mut nodes = nodes;
        let mut linked = node;
        linked.parent_node = Some(WeakNodeRef(parent.0));
        linked.prev_sibling = prev;
        linked.next_sibling = Some(reference);
        nodes.set(child.0, linked);
        let mut after_it = nodes[reference.0];
        after_it.prev_sibling = Some(WeakNodeRef(child.0));
        nodes.set(reference.0, after_it);
        match prev {
            Some(l) => {
                let mut before_it = nodes[l.0];
                before_it.next_sibling = Some(child);
                nodes.set(l.0, before_it);
            },
            None => {
                let mut holder = nodes[parent.0];
                holder.first_child = Some(child);
                nodes.set(parent.0, holder);
            },
        }
        assert(nodes@ =~= before.with_inserted(p, c, t).nodes);
        let linked_up = Dom {
            nodes,
            payloads,
            children: Ghost(before.children_with(p, c, t)),
        };
        *self = linked_up.told(child.0, document);
        true
    }

    /// The node that `node` names, or `None` where it names none of this table.
    pub fn get(&self, node: NodeRef) -> (r: Option<Node>)
        ensures
            r == (if self@.has(node.0 as int) {
                Some(self@.nodes[node.0 as int])
            } else {
                None
            }),
    {
        if node.0 < self.nodes.len() {
            Some(self.nodes[node.0])
        } else {
            None
        }
    }
}

impl NodeRef {
    /// The handle as one that does not own.
    pub fn downgrade(self) -> (r: WeakNodeRef)
        ensures
            r.0 == self.0,
    {
        WeakNodeRef(self.0)
    }

    /// The parent, if the node has one that is still in the table.
    pub fn parent(&self, dom: &Dom) -> (r: Option<NodeRef>)
        ensures
            r == dom@.upgraded(dom@.parent(self.0 as int)),
    {
        match dom.get(*self) {
            Some(node) => match node.parent_node {
                Some(p) => p.upgrade(dom),
                None => None,
            },
            None => None,
        }
    }
}

impl NodeRef {
    /// The sibling after the node.
    pub fn next_sibling(&self, dom: &Dom) -> (r: Option<NodeRef>)
        ensures
            r == (if dom@.has(self.0 as int) {
                dom@.nodes[self.0 as int].next_sibling
            } else {
                None
            }),
    {
        match dom.get(*self) {
            Some(node) => node.next_sibling,
            None => None,
        }
    }

    /// The sibling before the node, if it has one that is still in the table.
    pub fn prev_sibling(&self, dom: &Dom) -> (r: Option<NodeRef>)
        ensures
            r == (if dom@.has(self.0 as int) {
                dom@.upgraded(weak(dom@.nodes[self.0 as int].prev_sibling))
            } else {
                None
            }),
    {
        match dom.get(*self) {
            Some(node) => match node.prev_sibling {
                Some(p) => p.upgrade(dom),
                None => None,
            },
            None => None,
        }
    }

    /// The first child of the node.
    pub fn first_child(&self, dom: &Dom) -> (r: Option<NodeRef>)
        ensures
            r == (if dom@.has(self.0 as int) {
                dom@.nodes[self.0 as int].first_child
            } else {
                None
            }),
    {
        match dom.get(*self) {
            Some(node) => node.first_child,
            None => None,
        }
    }

    /// The last child of the node, if it has one that is still in the table.
    pub fn last_child(&self, dom: &Dom) -> (r: Option<NodeRef>)
        ensures
            r == (if dom@.has(self.0 as int) {
                dom@.upgraded(weak(dom@.nodes[self.0 as int].last_child))
            } else {
                None
            }),
    {
        match dom.get(*self) {
            Some(node) => match node.last_child {
                Some(p) => p.upgrade(dom),
                None => None,
            },
            None => None,
        }
    }

    /// The kind of the node.
    pub fn node_type(&self, dom: &Dom) -> (r: NodeType)
        requires
            dom@.has(self.0 as int),
        ensures
            r == dom@.nodes[self.0 as int].node_type,
    {
        dom.nodes[self.0].node_type
    }
}

impl DomView {
    /// The owning handle for a place, where the place is that of a node.
    pub open spec fn upgraded(self, place: Option<int>) -> Option<NodeRef> {
        match place {
            Some(i) => if self.has(i) {
                Some(NodeRef(i as usize))
            } else {
                None
            },
            None => None,
        }
    }
}

impl WeakNodeRef {
    /// The owning handle for the same node, while the table holds it.
    pub fn upgrade(self, dom: &Dom) -> (r: Option<NodeRef>)
        ensures
            r == dom@.upgraded(Some(self.0 as int)),
    {
        if self.0 < dom.len() {
            Some(NodeRef(self.0))
        } else {
            None
        }
    }
}

} // verus!
