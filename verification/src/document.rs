//! The document tree that the renderer lays out. Nodes live in one vector;
//! every child comes after its parent, so walking down the tree always moves
//! to a later node.

use vstd::prelude::*;

verus! {

/// The level of a heading.
#[derive(Clone, Copy, Debug, PartialEq, Eq, Structural)]
pub enum HeaderKind {
    Main,
    Sub,
    Section,
    Subsection,
    Minor,
    Detail,
}

/// Where a link leads.
#[derive(Clone, Copy, Debug, PartialEq, Eq, Structural)]
pub enum Link {
    Internal,
    Anchor,
    RedLink,
    MediaLink,
    External,
    ExternalToInternal,
}

/// Elements that the renderer shows only as a placeholder.
#[derive(Clone, Copy, Debug, PartialEq, Eq, Structural)]
pub enum UnsupportedElement {
    Figure,
    MathElement,
    PreformattedText,
}

/// An image.
#[derive(Debug)]
pub struct ImageData {
    pub alt: String,
}

/// What a node is.
#[derive(Debug)]
pub enum Data {
    Section { id: String },
    Header { id: String, kind: HeaderKind },
    Text { contents: String },
    Division,
    Paragraph,
    Span,
    Reflink,
    Hatnote,
    RedirectMessage,
    Disambiguation,
    Blockquote,
    OrderedList,
    UnorderedList,
    ListItem,
    DescriptionList,
    DescriptionListTerm,
    DerscriptionListDescription,
    Bold,
    Italic,
    Linebreak,
    Link(Link),
    Unknown,
    Image(ImageData),
    Table,
    TableRow,
    TableCell { colspan: usize, header: bool },
    Unsupported(UnsupportedElement),
    UnsupportedInline(UnsupportedElement),
}

/// A node: its data and the indices of its children, in order.
#[derive(Debug)]
pub struct DocNode {
    pub data: Data,
    pub children: Vec<usize>,
}

/// Every child index points past its parent and into the node vector.
pub open spec fn tree_ordered(nodes: Seq<DocNode>) -> bool {
    forall|i: int, j: int|
        0 <= i < nodes.len() && 0 <= j < nodes[i].children.len() ==> i < #[trigger] nodes[i].children@[j]
            < nodes.len()
}

/// A document: a tree of nodes stored in one vector, node 0 being the root.
pub struct Document {
    nodes: Vec<DocNode>,
}

impl View for Document {
    type V = Seq<DocNode>;

    closed spec fn view(&self) -> Seq<DocNode> {
        self.nodes@
    }
}

impl Document {
    #[verifier::type_invariant]
    pub closed spec fn ordered(self) -> bool {
        tree_ordered(self.nodes@)
    }

    /// An empty document.
    pub fn new() -> (d: Document)
        ensures
            d@.len() == 0,
    {
        Document { nodes: Vec::new() }
    }

    /// Adds the root node, or a node without a parent, and returns its index.
    pub fn add_node(&mut self, data: Data) -> (index: Option<usize>)
        ensures
            old(self)@.len() < usize::MAX ==> index == Some(old(self)@.len() as usize) && final(self)@
                == old(self)@.push(DocNode { data, children: final(self)@.last().children })
                && final(self)@.last().children@.len() == 0,
            old(self)@.len() == usize::MAX ==> index is None && final(self)@ == old(self)@,
    {
        proof {
            use_type_invariant(&*self);
        }
        let n = self.nodes.len();
        if n == usize::MAX {
            return None;
        }
        let mut nodes = Vec::new();
        std::mem::swap(&mut nodes, &mut self.nodes);
        nodes.push(DocNode { data, children: Vec::new() });
        self.nodes = nodes;
        Some(n)
    }

    /// Adds a node as the last child of `parent` and returns its index; gives
    /// `None` and changes nothing when `parent` is not a node or the
    /// document is full.
    pub fn add_child(&mut self, parent: usize, data: Data) -> (index: Option<usize>)
        ensures
            parent < old(self)@.len() && old(self)@.len() < usize::MAX ==> {
                &&& index == Some(old(self)@.len() as usize)
                &&& final(self)@.len() == old(self)@.len() + 1
                &&& final(self)@.last().data == data
                &&& final(self)@.last().children@.len() == 0
                &&& final(self)@[parent as int].data == old(self)@[parent as int].data
                &&& final(self)@[parent as int].children@ == old(self)@[parent as int].children@.push(
                    old(self)@.len() as usize,
                )
                &&& forall|i: int| 0 <= i < old(self)@.len() && i != parent ==> #[trigger] final(self)@[i]
                    == old(self)@[i]
            },
            !(parent < old(self)@.len() && old(self)@.len() < usize::MAX) ==> index is None
                && final(self)@ == old(self)@,
    {
        proof {
            use_type_invariant(&*self);
        }
        let n = self.nodes.len();
        if parent >= n || n == usize::MAX {
            return None;
        }
        let mut nodes = Vec::new();
        std::mem::swap(&mut nodes, &mut self.nodes);
        nodes.push(DocNode { data, children: Vec::new() });
        let mut taken = DocNode { data: Data::Unknown, children: Vec::new() };
        nodes.set_and_swap(parent, &mut taken);
        taken.children.push(n);
        nodes.set_and_swap(parent, &mut taken);
        self.nodes = nodes;
        Some(n)
    }

    /// The number of nodes.
    pub fn len(&self) -> (n: usize)
        ensures
            n == self@.len(),
    {
        self.nodes.len()
    }

    /// Whether the document has no node.
    pub fn is_empty(&self) -> (b: bool)
        ensures
            b == (self@.len() == 0),
    {
        self.nodes.len() == 0
    }

    /// The data of node `i`.
    pub fn data(&self, i: usize) -> (d: &Data)
        requires
            i < self@.len(),
        ensures
            *d == self@[i as int].data,
    {
        &self.nodes[i].data
    }

    /// The children of node `i`.
    pub fn children(&self, i: usize) -> (c: &Vec<usize>)
        requires
            i < self@.len(),
        ensures
            *c == self@[i as int].children,
    {
        &self.nodes[i].children
    }
}

/// A document holds at most `usize::MAX` nodes.
pub proof fn lemma_document_len(doc: &Document)
    ensures
        doc@.len() <= usize::MAX,
{
    assert(doc.nodes@.len() == doc.nodes.len());
}

/// Every document is tree-ordered.
pub proof fn lemma_document_ordered(doc: &Document)
    requires
        doc.ordered(),
    ensures
        tree_ordered(doc@),
{
}

} // verus!
