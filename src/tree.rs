use vstd::prelude::*;

verus! {

/// One attribute of a tag: a name, and a value unless the attribute stands
/// alone (`disabled`).
pub struct Attribute {
    pub name: String,
    pub value: Option<String>,
}

pub struct AttributeView {
    pub name: Seq<char>,
    pub value: Option<Seq<char>>,
}

pub open spec fn opt_view(o: Option<String>) -> Option<Seq<char>> {
    match o {
        Some(s) => Some(s@),
        None => None,
    }
}

impl View for Attribute {
    type V = AttributeView;

    open spec fn view(&self) -> AttributeView {
        AttributeView { name: self.name@, value: opt_view(self.value) }
    }
}

/// One node of the arena: an element opened by a tag, a text run
/// (`#text`), or the synthetic root (`#document`).
pub struct Node {
    pub tag: String,
    pub attributes: Vec<Attribute>,
    /// Index of the owning node; the root is its own parent.
    pub parent: usize,
    /// Indices of the children, in document order.
    pub children: Vec<usize>,
    /// The text of a `#text` node.
    pub value: Option<String>,
}

pub struct NodeView {
    pub tag: Seq<char>,
    pub attributes: Seq<AttributeView>,
    pub parent: usize,
    pub children: Seq<usize>,
    pub value: Option<Seq<char>>,
}

pub open spec fn attributes_view(a: Seq<Attribute>) -> Seq<AttributeView> {
    a.map_values(|x: Attribute| x@)
}

impl View for Node {
    type V = NodeView;

    open spec fn view(&self) -> NodeView {
        NodeView {
            tag: self.tag@,
            attributes: attributes_view(self.attributes@),
            parent: self.parent,
            children: self.children@,
            value: opt_view(self.value),
        }
    }
}

pub open spec fn arena_view(v: Seq<Node>) -> Seq<NodeView> {
    v.map_values(|n: Node| n@)
}

/// The arena's shape: index 0 is a root that is its own parent; every other
/// node has a parent of smaller index; each node lists as children, in
/// strictly increasing order, exactly the nodes whose parent it is.
pub open spec fn arena_wf(t: Seq<NodeView>) -> bool {
    &&& t.len() > 0
    &&& t[0].parent == 0
    &&& forall|i: int| 0 < i < t.len() ==> (#[trigger] t[i]).parent < i
    &&& forall|i: int, j: int|
        0 <= i < t.len() && 0 <= j < t[i].children.len() ==> {
            let c = #[trigger] t[i].children[j];
            &&& i < c < t.len()
            &&& t[c as int].parent == i
        }
    &&& forall|i: int, j: int, k: int|
        0 <= i < t.len() && 0 <= j < k < t[i].children.len() ==> #[trigger] t[i].children[j]
            < #[trigger] t[i].children[k]
    &&& forall|c: int| 0 < c < t.len() ==> #[trigger] t[t[c].parent as int].children.contains(c as usize)
}

} // verus!
