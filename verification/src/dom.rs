//! DOM tree model: nodes, elements, attributes and the window that owns the
//! tree.
//!
//! The tree lives in an index-based arena owned by the [`Window`]: every link
//! between nodes (parent, first child, last child, siblings) is an optional
//! index into that arena.  Links that walk *forward* in document order
//! (`first_child`, `next_sibling`) always point to a strictly larger index,
//! which both rules out cycles and gives every traversal an obvious
//! termination measure.

use vstd::prelude::*;

verus! {

/// A single name/value attribute of an element.
#[derive(Debug)]
pub struct Attribute {
    name: String,
    value: String,
}

/// Mathematical model of an [`Attribute`]: its name and value as character
/// sequences.
pub struct AttributeV {
    pub name: Seq<char>,
    pub value: Seq<char>,
}

impl View for Attribute {
    type V = AttributeV;

    closed spec fn view(&self) -> AttributeV {
        AttributeV { name: self.name@, value: self.value@ }
    }
}

impl Attribute {
    pub fn new(name: String, value: String) -> (r: Attribute)
        ensures
            r@.name == name@,
            r@.value == value@,
    {
        Attribute { name, value }
    }

    pub fn name(&self) -> (r: String)
        ensures
            r@ == self@.name,
    {
        self.name.clone()
    }

    pub fn value(&self) -> (r: String)
        ensures
            r@ == self@.value,
    {
        self.value.clone()
    }
}

impl Clone for Attribute {
    fn clone(&self) -> (r: Self)
        ensures
            r@ == self@,
    {
        Attribute { name: self.name.clone(), value: self.value.clone() }
    }
}

/// The closed set of element kinds the engine understands.
#[derive(Debug, Clone, Copy, PartialEq, Eq, Structural)]
pub enum ElementKind {
    Html,
    Head,
    Style,
    Script,
    Body,
    P,
    H1,
    H2,
    A,
}

/// The element kind a tag name denotes, if the engine supports it.
pub open spec fn spec_kind_from_name(s: Seq<char>) -> Option<ElementKind> {
    if s == "html"@ {
        Some(ElementKind::Html)
    } else if s == "head"@ {
        Some(ElementKind::Head)
    } else if s == "style"@ {
        Some(ElementKind::Style)
    } else if s == "script"@ {
        Some(ElementKind::Script)
    } else if s == "body"@ {
        Some(ElementKind::Body)
    } else if s == "p"@ {
        Some(ElementKind::P)
    } else if s == "h1"@ {
        Some(ElementKind::H1)
    } else if s == "h2"@ {
        Some(ElementKind::H2)
    } else if s == "a"@ {
        Some(ElementKind::A)
    } else {
        None
    }
}

/// The canonical tag name of an element kind.
pub open spec fn spec_kind_name(k: ElementKind) -> Seq<char> {
    match k {
        ElementKind::Html => "html"@,
        ElementKind::Head => "head"@,
        ElementKind::Style => "style"@,
        ElementKind::Script => "script"@,
        ElementKind::Body => "body"@,
        ElementKind::P => "p"@,
        ElementKind::H1 => "h1"@,
        ElementKind::H2 => "h2"@,
        ElementKind::A => "a"@,
    }
}

/// Character-by-character string equality, stated over the views.
pub fn str_eq(a: &str, b: &str) -> (r: bool)
    ensures
        r == (a@ == b@),
{
    let an = a.unicode_len();
    let bn = b.unicode_len();
    if an != bn {
        return false;
    }
    let mut i: usize = 0;
    while i < an
        invariant
            i <= an,
            an == a@.len(),
            bn == b@.len(),
            an == bn,
            forall|j: int| 0 <= j < i ==> a@[j] == b@[j],
        decreases an - i,
    {
        if a.get_char(i) != b.get_char(i) {
            return false;
        }
        i = i + 1;
    }
    proof {
        assert(a@ =~= b@);
    }
    true
}

impl ElementKind {
    /// Parses a tag name; returns `None` for names outside the supported set.
    pub fn from_name(s: &str) -> (r: Option<ElementKind>)
        ensures
            r == spec_kind_from_name(s@),
    {
        if str_eq(s, "html") {
            Some(ElementKind::Html)
        } else if str_eq(s, "head") {
            Some(ElementKind::Head)
        } else if str_eq(s, "style") {
            Some(ElementKind::Style)
        } else if str_eq(s, "script") {
            Some(ElementKind::Script)
        } else if str_eq(s, "body") {
            Some(ElementKind::Body)
        } else if str_eq(s, "p") {
            Some(ElementKind::P)
        } else if str_eq(s, "h1") {
            Some(ElementKind::H1)
        } else if str_eq(s, "h2") {
            Some(ElementKind::H2)
        } else if str_eq(s, "a") {
            Some(ElementKind::A)
        } else {
            None
        }
    }

    /// The canonical tag name of this kind.
    pub fn name(&self) -> (r: &'static str)
        ensures
            r@ == spec_kind_name(*self),
    {
        match self {
            ElementKind::Html => "html",
            ElementKind::Head => "head",
            ElementKind::Style => "style",
            ElementKind::Script => "script",
            ElementKind::Body => "body",
            ElementKind::P => "p",
            ElementKind::H1 => "h1",
            ElementKind::H2 => "h2",
            ElementKind::A => "a",
        }
    }
}

/// An element: a kind tag plus its attributes in insertion order.
#[derive(Debug)]
pub struct Element {
    kind: ElementKind,
    attributes: Vec<Attribute>,
}

/// Mathematical model of an [`Element`].
pub struct ElementV {
    pub kind: ElementKind,
    pub attributes: Seq<AttributeV>,
}

impl View for Element {
    type V = ElementV;

    closed spec fn view(&self) -> ElementV {
        ElementV { kind: self.kind, attributes: attr_views(self.attributes@) }
    }
}

/// The views of an attribute list, in order.
pub open spec fn attr_views(attrs: Seq<Attribute>) -> Seq<AttributeV> {
    attrs.map_values(|a: Attribute| a@)
}

/// First-match attribute lookup by name.
pub open spec fn spec_get_attribute(attrs: Seq<AttributeV>, name: Seq<char>) -> Option<Seq<char>>
    decreases attrs.len(),
{
    if attrs.len() == 0 {
        None
    } else if attrs[0].name == name {
        Some(attrs[0].value)
    } else {
        spec_get_attribute(attrs.drop_first(), name)
    }
}

impl Element {
    /// Builds an element from a supported tag name.
    pub fn new(element_name: &str, attributes: Vec<Attribute>) -> (r: Element)
        requires
            spec_kind_from_name(element_name@) is Some,
        ensures
            r@.kind == spec_kind_from_name(element_name@)->Some_0,
            r@.attributes == attr_views(attributes@),
    {
        let kind = ElementKind::from_name(element_name).unwrap();
        Element { kind, attributes }
    }

    pub fn kind(&self) -> (r: ElementKind)
        ensures
            r == self@.kind,
    {
        self.kind
    }

    /// Whether this element starts a block in layout.
    pub fn is_block_element(&self) -> (r: bool)
        ensures
            r == (self@.kind == ElementKind::Body || self@.kind == ElementKind::H1 || self@.kind
                == ElementKind::H2 || self@.kind == ElementKind::P),
    {
        match self.kind {
            ElementKind::Body | ElementKind::H1 | ElementKind::H2 | ElementKind::P => true,
            _ => false,
        }
    }

    /// The attribute list, in insertion order.
    pub fn attributes(&self) -> (r: Vec<Attribute>)
        ensures
            attr_views(r@) == self@.attributes,
    {
        let mut out: Vec<Attribute> = Vec::new();
        let mut i: usize = 0;
        while i < self.attributes.len()
            invariant
                i <= self.attributes.len(),
                out@.len() == i,
                forall|j: int| 0 <= j < i ==> out@[j]@ == self.attributes@[j]@,
            decreases self.attributes.len() - i,
        {
            out.push(self.attributes[i].clone());
            i = i + 1;
        }
        proof {
            assert(attr_views(out@) =~= self@.attributes);
        }
        out
    }

    /// First-match lookup of an attribute value by name.
    pub fn get_attribute(&self, name: &str) -> (r: Option<String>)
        ensures
            match r {
                Some(v) => spec_get_attribute(self@.attributes, name@) == Some(v@),
                None => spec_get_attribute(self@.attributes, name@) is None,
            },
    {
        let ghost attrs = self@.attributes;
        proof {
            assert(attrs.skip(0) =~= attrs);
        }
        let mut i: usize = 0;
        while i < self.attributes.len()
            invariant
                i <= self.attributes.len(),
                attrs == self@.attributes,
                attrs.len() == self.attributes@.len(),
                forall|j: int| 0 <= j < self.attributes@.len() ==> attrs[j] == self.attributes@[j]@,
                spec_get_attribute(attrs.skip(i as int), name@) == spec_get_attribute(
                    attrs,
                    name@,
                ),
            decreases self.attributes.len() - i,
        {
            let attr = &self.attributes[i];
            if str_eq(attr.name.as_str(), name) {
                return Some(attr.value.clone());
            }
            proof {
                assert(attrs.skip(i as int).drop_first() =~= attrs.skip(i as int + 1));
            }
            i = i + 1;
        }
        proof {
            assert(attrs.skip(self.attributes@.len() as int).len() == 0);
        }
        None
    }
}

impl Clone for Element {
    fn clone(&self) -> (r: Self)
        ensures
            r@ == self@,
    {
        let mut attributes: Vec<Attribute> = Vec::new();
        let mut i: usize = 0;
        while i < self.attributes.len()
            invariant
                i <= self.attributes.len(),
                attributes@.len() == i,
                forall|j: int| 0 <= j < i ==> attributes@[j]@ == self.attributes@[j]@,
            decreases self.attributes.len() - i,
        {
            attributes.push(self.attributes[i].clone());
            i = i + 1;
        }
        proof {
            assert(attr_views(attributes@) =~= self@.attributes);
        }
        Element { kind: self.kind, attributes }
    }
}

/// What a node is: the document root, an element, or a run of text.
#[derive(Debug)]
pub enum NodeKind {
    Document,
    Element(Element),
    Text(String),
}

/// Mathematical model of a [`NodeKind`].
pub enum NodeKindV {
    Document,
    Element(ElementV),
    Text(Seq<char>),
}

impl View for NodeKind {
    type V = NodeKindV;

    closed spec fn view(&self) -> NodeKindV {
        match self {
            NodeKind::Document => NodeKindV::Document,
            NodeKind::Element(e) => NodeKindV::Element(e@),
            NodeKind::Text(s) => NodeKindV::Text(s@),
        }
    }
}

impl Clone for NodeKind {
    fn clone(&self) -> (r: Self)
        ensures
            r@ == self@,
    {
        match self {
            NodeKind::Document => NodeKind::Document,
            NodeKind::Element(e) => NodeKind::Element(e.clone()),
            NodeKind::Text(s) => NodeKind::Text(s.clone()),
        }
    }
}

/// Node equality compares the kind tag only: elements compare by their kind
/// (attributes are ignored on purpose) and any two text runs are equal.
pub open spec fn spec_kind_eq(a: NodeKindV, b: NodeKindV) -> bool {
    match (a, b) {
        (NodeKindV::Document, NodeKindV::Document) => true,
        (NodeKindV::Element(e1), NodeKindV::Element(e2)) => e1.kind == e2.kind,
        (NodeKindV::Text(_), NodeKindV::Text(_)) => true,
        _ => false,
    }
}

impl PartialEq for NodeKind {
    fn eq(&self, other: &Self) -> bool {
        match self {
            NodeKind::Document => matches!(other, NodeKind::Document),
            NodeKind::Element(e1) => match other {
                NodeKind::Element(e2) => e1.kind == e2.kind,
                _ => false,
            },
            NodeKind::Text(_) => matches!(other, NodeKind::Text(_)),
        }
    }
}

impl vstd::std_specs::cmp::PartialEqSpecImpl for NodeKind {
    open spec fn obeys_eq_spec() -> bool {
        true
    }

    open spec fn eq_spec(&self, other: &Self) -> bool {
        spec_kind_eq(self@, other@)
    }
}

/// A node of the DOM tree.  All links are indices into the arena of the
/// [`Window`] that owns the tree; `None` stands for "no such node".
pub struct Node {
    pub kind: NodeKind,
    window: Option<usize>,
    parent: Option<usize>,
    first_child: Option<usize>,
    last_child: Option<usize>,
    previuos_sibling: Option<usize>,
    next_sibling: Option<usize>,
}

/// Mathematical model of a [`Node`].
pub struct NodeV {
    pub kind: NodeKindV,
    pub window: Option<usize>,
    pub parent: Option<usize>,
    pub first_child: Option<usize>,
    pub last_child: Option<usize>,
    pub previuos_sibling: Option<usize>,
    pub next_sibling: Option<usize>,
}

impl View for Node {
    type V = NodeV;

    closed spec fn view(&self) -> NodeV {
        NodeV {
            kind: self.kind@,
            window: self.window,
            parent: self.parent,
            first_child: self.first_child,
            last_child: self.last_child,
            previuos_sibling: self.previuos_sibling,
            next_sibling: self.next_sibling,
        }
    }
}

impl Node {
    pub fn new(kind: NodeKind) -> (r: Node)
        ensures
            r@ == (NodeV {
                kind: kind@,
                window: None,
                parent: None,
                first_child: None,
                last_child: None,
                previuos_sibling: None,
                next_sibling: None,
            }),
    {
        Node {
            kind,
            window: None,
            parent: None,
            first_child: None,
            last_child: None,
            previuos_sibling: None,
            next_sibling: None,
        }
    }

    pub fn set_parent(&mut self, parent: Option<usize>)
        ensures
            final(self)@ == (NodeV { parent, ..old(self)@ }),
    {
        self.parent = parent;
    }

    pub fn parent(&self) -> (r: Option<usize>)
        ensures
            r == self@.parent,
    {
        self.parent
    }

    pub fn set_first_child(&mut self, first_child: Option<usize>)
        ensures
            final(self)@ == (NodeV { first_child, ..old(self)@ }),
    {
        self.first_child = first_child;
    }

    pub fn first_child(&self) -> (r: Option<usize>)
        ensures
            r == self@.first_child,
    {
        self.first_child
    }

    pub fn set_last_child(&mut self, last_child: Option<usize>)
        ensures
            final(self)@ == (NodeV { last_child, ..old(self)@ }),
    {
        self.last_child = last_child;
    }

    pub fn last_child(&self) -> (r: Option<usize>)
        ensures
            r == self@.last_child,
    {
        self.last_child
    }

    pub fn set_previuos_sibling(&mut self, previuos_sibling: Option<usize>)
        ensures
            final(self)@ == (NodeV { previuos_sibling, ..old(self)@ }),
    {
        self.previuos_sibling = previuos_sibling;
    }

    pub fn previuos_sibling(&self) -> (r: Option<usize>)
        ensures
            r == self@.previuos_sibling,
    {
        self.previuos_sibling
    }

    pub fn set_next_sibling(&mut self, next_sibling: Option<usize>)
        ensures
            final(self)@ == (NodeV { next_sibling, ..old(self)@ }),
    {
        self.next_sibling = next_sibling;
    }

    pub fn next_sibling(&self) -> (r: Option<usize>)
        ensures
            r == self@.next_sibling,
    {
        self.next_sibling
    }

    pub fn set_window(&mut self, window: Option<usize>)
        ensures
            final(self)@ == (NodeV { window, ..old(self)@ }),
    {
        self.window = window;
    }

    pub fn kind(&self) -> (r: NodeKind)
        ensures
            r@ == self@.kind,
    {
        self.kind.clone()
    }

    /// The element carried by this node, if it is an element node.
    pub fn get_element(&self) -> (r: Option<Element>)
        ensures
            match r {
                Some(e) => self@.kind matches NodeKindV::Element(ev) && ev == e@,
                None => !(self@.kind is Element),
            },
    {
        match &self.kind {
            NodeKind::Document | NodeKind::Text(_) => None,
            NodeKind::Element(e) => Some(e.clone()),
        }
    }

    /// The kind tag of the element carried by this node, if any.
    pub fn element_kind(&self) -> (r: Option<ElementKind>)
        ensures
            r == (match self@.kind {
                NodeKindV::Element(ev) => Some(ev.kind),
                _ => None::<ElementKind>,
            }),
    {
        match &self.kind {
            NodeKind::Document | NodeKind::Text(_) => None,
            NodeKind::Element(e) => Some(e.kind),
        }
    }
}

} // verus!

verus! {

/// The views of a node arena, in order.
pub open spec fn node_views(nodes: Seq<Node>) -> Seq<NodeV> {
    nodes.map_values(|n: Node| n@)
}

/// The index where a walk along `next_sibling` links starting at `i` ends,
/// or `None` if the walk leaves the arena or does not end within `fuel`
/// steps.  Under [`tree_wf`] every walk ends, since each step strictly
/// increases the index.
pub open spec fn chain_end(nodes: Seq<NodeV>, i: int, fuel: nat) -> Option<usize>
    decreases fuel,
{
    if !(0 <= i < nodes.len()) {
        None
    } else {
        match nodes[i].next_sibling {
            None => Some(i as usize),
            Some(s) => if fuel == 0 {
                None
            } else {
                chain_end(nodes, s as int, (fuel - 1) as nat)
            },
        }
    }
}

/// Link conditions for the node at index `i`:
/// - a first child sits strictly after its parent, and its parent link points
///   back at the parent;
/// - when a node has children, its `last_child` link names exactly the node
///   where the `next_sibling` walk from `first_child` ends; a node without
///   children has no `last_child`;
/// - a next sibling sits strictly after the node and has the same parent.
pub open spec fn links_ok(nodes: Seq<NodeV>, i: int) -> bool {
    &&& match nodes[i].first_child {
        Some(c) => {
            &&& i < c < nodes.len()
            &&& nodes[c as int].parent == Some(i as usize)
            &&& nodes[i].last_child == chain_end(nodes, c as int, nodes.len() as nat)
            &&& chain_end(nodes, c as int, nodes.len() as nat) is Some
        },
        None => nodes[i].last_child is None,
    }
    &&& match nodes[i].next_sibling {
        Some(s) => i < s < nodes.len() && nodes[s as int].parent == nodes[i].parent,
        None => true,
    }
}

/// The tree invariant: every node's links are well formed.
pub open spec fn tree_wf(nodes: Seq<NodeV>) -> bool {
    forall|i: int| 0 <= i < nodes.len() ==> #[trigger] links_ok(nodes, i)
}

/// A sibling walk that ends, ends inside the arena, at a node with no
/// further sibling, and not before the start.
proof fn lemma_chain_end_props(nodes: Seq<NodeV>, i: int, fuel: nat)
    requires
        nodes.len() <= usize::MAX,
        chain_end(nodes, i, fuel) is Some,
    ensures
        0 <= chain_end(nodes, i, fuel)->Some_0 < nodes.len(),
        nodes[chain_end(nodes, i, fuel)->Some_0 as int].next_sibling is None,
    decreases fuel,
{
    if 0 <= i < nodes.len() {
        match nodes[i].next_sibling {
            None => {
                assert(chain_end(nodes, i, fuel) == Some(i as usize));
                assert(nodes[i as usize as int].next_sibling is None);
            },
            Some(s) => {
                assert(fuel > 0);
                assert(chain_end(nodes, i, fuel) == chain_end(nodes, s as int, (fuel - 1) as nat));
                lemma_chain_end_props(nodes, s as int, (fuel - 1) as nat);
            },
        }
    } else {
        assert(chain_end(nodes, i, fuel) is None);
    }
}

/// More fuel never changes the end of a walk that already ends.
proof fn lemma_chain_end_mono(nodes: Seq<NodeV>, i: int, f1: nat, f2: nat)
    requires
        nodes.len() <= usize::MAX,
        chain_end(nodes, i, f1) is Some,
        f1 <= f2,
    ensures
        chain_end(nodes, i, f2) == chain_end(nodes, i, f1),
    decreases f1,
{
    match nodes[i].next_sibling {
        None => {},
        Some(s) => {
            if 0 <= i < nodes.len() {
                lemma_chain_end_mono(nodes, s as int, (f1 - 1) as nat, (f2 - 1) as nat);
            }
        },
    }
}

/// Every node on a sibling walk carries the same parent link, so the walk's
/// end does too.
proof fn lemma_chain_parent(nodes: Seq<NodeV>, i: int, fuel: nat)
    requires
        nodes.len() <= usize::MAX,
        tree_wf(nodes),
        chain_end(nodes, i, fuel) is Some,
    ensures
        nodes[chain_end(nodes, i, fuel)->Some_0 as int].parent == nodes[i].parent,
        chain_end(nodes, i, fuel)->Some_0 >= i,
    decreases fuel,
{
    if 0 <= i < nodes.len() {
        match nodes[i].next_sibling {
            None => {},
            Some(s) => {
                assert(fuel > 0);
                assert(links_ok(nodes, i));
                lemma_chain_parent(nodes, s as int, (fuel - 1) as nat);
            },
        }
    } else {
        assert(chain_end(nodes, i, fuel) is None);
    }
}

/// A sibling walk is unaffected by changes that leave every `next_sibling`
/// link of the old arena as it was.
proof fn lemma_chain_same(old_nodes: Seq<NodeV>, new_nodes: Seq<NodeV>, i: int, fuel: nat)
    requires
        old_nodes.len() <= usize::MAX,
        0 <= i < old_nodes.len(),
        new_nodes.len() >= old_nodes.len(),
        forall|j: int|
            0 <= j < old_nodes.len() ==> new_nodes[j].next_sibling == #[trigger] old_nodes[j].next_sibling,
        forall|j: int|
            0 <= j < old_nodes.len() ==> (#[trigger] old_nodes[j].next_sibling matches Some(s)
                ==> j < s < old_nodes.len()),
    ensures
        chain_end(new_nodes, i, fuel) == chain_end(old_nodes, i, fuel),
    decreases fuel,
{
    match old_nodes[i].next_sibling {
        None => {},
        Some(s) => {
            if fuel > 0 {
                lemma_chain_same(old_nodes, new_nodes, s as int, (fuel - 1) as nat);
            }
        },
    }
}

/// A sibling walk is unaffected by a change to the links of a node with a
/// different parent than the walk's start, since every node on the walk
/// shares the start's parent.
proof fn lemma_chain_avoid(
    old_nodes: Seq<NodeV>,
    new_nodes: Seq<NodeV>,
    i: int,
    l: int,
    fuel: nat,
)
    requires
        old_nodes.len() <= usize::MAX,
        tree_wf(old_nodes),
        0 <= i < old_nodes.len(),
        0 <= l < old_nodes.len(),
        old_nodes[i].parent != old_nodes[l].parent,
        new_nodes.len() >= old_nodes.len(),
        forall|j: int|
            0 <= j < old_nodes.len() && j != l ==> new_nodes[j].next_sibling == #[trigger] old_nodes[j].next_sibling,
    ensures
        chain_end(new_nodes, i, fuel) == chain_end(old_nodes, i, fuel),
    decreases fuel,
{
    assert(links_ok(old_nodes, i));
    match old_nodes[i].next_sibling {
        None => {},
        Some(s) => {
            if fuel > 0 {
                lemma_chain_avoid(old_nodes, new_nodes, s as int, l, (fuel - 1) as nat);
            }
        },
    }
}

/// Extending the walk's end with a fresh final sibling moves the walk's end
/// to that sibling.
proof fn lemma_chain_extend(
    old_nodes: Seq<NodeV>,
    new_nodes: Seq<NodeV>,
    i: int,
    l: int,
    fuel: nat,
)
    requires
        old_nodes.len() < usize::MAX,
        chain_end(old_nodes, i, fuel) == Some(l as usize),
        0 <= l < old_nodes.len(),
        new_nodes.len() == old_nodes.len() + 1,
        forall|j: int|
            0 <= j < old_nodes.len() && j != l ==> new_nodes[j].next_sibling == #[trigger] old_nodes[j].next_sibling,
        new_nodes[l].next_sibling == Some(old_nodes.len() as usize),
        new_nodes[old_nodes.len() as int].next_sibling is None,
    ensures
        chain_end(new_nodes, i, fuel + 1) == Some(old_nodes.len() as usize),
    decreases fuel,
{
    lemma_chain_end_props(old_nodes, i, fuel);
    if 0 <= i < old_nodes.len() {
        match old_nodes[i].next_sibling {
            None => {
                assert(i == l);
                let id = old_nodes.len() as usize;
                assert(chain_end(new_nodes, id as int, fuel) == Some(id));
                assert(chain_end(new_nodes, i, fuel + 1) == chain_end(new_nodes, id as int, fuel));
            },
            Some(s) => {
                assert(fuel > 0);
                assert(i != l);
                lemma_chain_extend(old_nodes, new_nodes, s as int, l, (fuel - 1) as nat);
                assert(chain_end(new_nodes, i, fuel + 1) == chain_end(
                    new_nodes,
                    s as int,
                    (fuel - 1) as nat + 1,
                ));
            },
        }
    } else {
        assert(chain_end(old_nodes, i, fuel) is None);
    }
}

} // verus!

verus! {

/// A freshly appended child node: it carries its parent link and possibly a
/// previous sibling, and no children yet.
pub open spec fn spec_new_child(kind: NodeKindV, parent: usize, prev: Option<usize>) -> NodeV {
    NodeV {
        kind,
        window: Some(0),
        parent: Some(parent),
        first_child: None,
        last_child: None,
        previuos_sibling: prev,
        next_sibling: None,
    }
}

/// Appending a child under `parent`: the new node goes at the end of the
/// arena; a childless parent adopts it as first and last child, otherwise it
/// is linked after the current last child.
pub open spec fn spec_append_child(nodes: Seq<NodeV>, parent: int, kind: NodeKindV) -> Seq<NodeV> {
    let id = nodes.len() as usize;
    if nodes[parent].first_child is None {
        nodes.update(
            parent,
            NodeV { first_child: Some(id), last_child: Some(id), ..nodes[parent] },
        ).push(spec_new_child(kind, parent as usize, None))
    } else {
        let l = nodes[parent].last_child->Some_0;
        let n1 = nodes.update(l as int, NodeV { next_sibling: Some(id), ..nodes[l as int] });
        n1.update(parent, NodeV { last_child: Some(id), ..n1[parent] }).push(
            spec_new_child(kind, parent as usize, Some(l)),
        )
    }
}

/// Replacing the children of `id` with a single fresh text node holding
/// `text`: the old children are unlinked, and the text node becomes both
/// first and last child.
pub open spec fn spec_set_text_content(nodes: Seq<NodeV>, id: int, text: Seq<char>) -> Seq<NodeV> {
    let tid = nodes.len() as usize;
    nodes.update(id, NodeV { first_child: Some(tid), last_child: Some(tid), ..nodes[id] }).push(
        NodeV {
            kind: NodeKindV::Text(text),
            window: Some(0),
            parent: Some(id as usize),
            first_child: None,
            last_child: None,
            previuos_sibling: None,
            next_sibling: None,
        },
    )
}

/// Pre-order, document-order search for the first element that carries an
/// `id` attribute with the given value: the node itself, then its subtree,
/// then its following siblings.
pub open spec fn spec_find_by_id(nodes: Seq<NodeV>, node: Option<usize>, id: Seq<char>) -> Option<
    usize,
>
    decreases (match node {
        Some(n) => nodes.len() - n,
        None => 0int,
    })
        when (match node {
        Some(n) => (n as int) < nodes.len() && tree_wf(nodes),
        None => true,
    })
        via spec_find_by_id_decreases
{
    match node {
        None => None,
        Some(n) => {
            let is_match = match nodes[n as int].kind {
                NodeKindV::Element(e) => spec_get_attribute(e.attributes, "id"@) == Some(id),
                _ => false,
            };
            if is_match {
                Some(n)
            } else {
                let r1 = spec_find_by_id(nodes, nodes[n as int].first_child, id);
                let r2 = spec_find_by_id(nodes, nodes[n as int].next_sibling, id);
                if r1 is None {
                    r2
                } else {
                    r1
                }
            }
        },
    }
}

#[via_fn]
proof fn spec_find_by_id_decreases(nodes: Seq<NodeV>, node: Option<usize>, id: Seq<char>) {
    match node {
        None => {},
        Some(n) => {
            assert(links_ok(nodes, n as int));
        },
    }
}

/// Everything required of a healthy window: a non-empty arena rooted in a
/// document node, with well-formed tree links throughout.
pub open spec fn window_wf(nodes: Seq<NodeV>) -> bool {
    &&& 1 <= nodes.len() <= usize::MAX
    &&& nodes[0].kind is Document
    &&& tree_wf(nodes)
}

/// The window: owner of the node arena that holds the whole DOM tree.  The
/// root document node sits at index 0.
pub struct Window {
    nodes: Vec<Node>,
}

impl View for Window {
    type V = Seq<NodeV>;

    closed spec fn view(&self) -> Seq<NodeV> {
        node_views(self.nodes@)
    }
}

impl Window {
    pub open spec fn wf(&self) -> bool {
        window_wf(self@)
    }

    /// A fresh window owning a single document node.
    pub fn new() -> (r: Window)
        ensures
            r.wf(),
            r@.len() == 1,
            r@[0].kind is Document,
            r@[0].first_child is None,
    {
        let mut nodes: Vec<Node> = Vec::new();
        let mut doc = Node::new(NodeKind::Document);
        doc.set_window(Some(0));
        nodes.push(doc);
        let r = Window { nodes };
        proof {
            assert(r@.len() == 1);
            assert forall|i: int| 0 <= i < r@.len() implies #[trigger] links_ok(r@, i) by {
                assert(r@[0].first_child is None);
                assert(r@[0].next_sibling is None);
            }
        }
        r
    }

    /// The root document node's handle.
    pub fn document(&self) -> (r: usize)
        ensures
            r == 0,
    {
        0
    }

    /// How many nodes the arena holds.
    pub fn node_count(&self) -> (r: usize)
        ensures
            r == self@.len(),
    {
        self.nodes.len()
    }

    /// Read access to a node by handle.
    pub fn get_node(&self, id: usize) -> (r: &Node)
        requires
            id < self@.len(),
        ensures
            r@ == self@[id as int],
    {
        &self.nodes[id]
    }

    /// Appends a fresh node of the given kind as the last child of `parent`
    /// and returns its handle.  The tree invariant is preserved.
    pub fn append_child(&mut self, parent: usize, kind: NodeKind) -> (id: usize)
        requires
            old(self).wf(),
            parent < old(self)@.len(),
            old(self)@.len() < usize::MAX,
        ensures
            final(self).wf(),
            id == old(self)@.len(),
            final(self)@ == spec_append_child(old(self)@, parent as int, kind@),
    {
        let ghost old_vs = self@;
        let id = self.nodes.len();
        proof {
            assert(old_vs.len() == self.nodes@.len());
            assert(links_ok(old_vs, parent as int));
            lemma_wf_next_forward(old_vs);
        }
        let p_first = self.nodes[parent].first_child;
        match p_first {
            None => {
                let p = &self.nodes[parent];
                let np = Node {
                    kind: p.kind.clone(),
                    window: p.window,
                    parent: p.parent,
                    first_child: Some(id),
                    last_child: Some(id),
                    previuos_sibling: p.previuos_sibling,
                    next_sibling: p.next_sibling,
                };
                self.nodes.set(parent, np);
                let child = Node {
                    kind,
                    window: Some(0),
                    parent: Some(parent),
                    first_child: None,
                    last_child: None,
                    previuos_sibling: None,
                    next_sibling: None,
                };
                self.nodes.push(child);
                proof {
                    let new_vs = self@;
                    assert(new_vs =~= spec_append_child(old_vs, parent as int, kind@));
                    assert forall|k: int| 0 <= k < new_vs.len() implies #[trigger] links_ok(
                        new_vs,
                        k,
                    ) by {
                        lemma_append_links_ok(old_vs, new_vs, parent as int, k, id);
                    }
                }
            },
            Some(_) => {
                let l = match self.nodes[parent].last_child {
                    Some(l) => l,
                    None => {
                        proof {
                            assert(false);
                        }
                        0
                    },
                };
                proof {
                    lemma_chain_end_props(old_vs, old_vs[parent as int].first_child->Some_0 as int, old_vs.len());
                    lemma_chain_parent(old_vs, old_vs[parent as int].first_child->Some_0 as int, old_vs.len());
                    assert(old_vs[l as int].next_sibling is None);
                    assert(old_vs[l as int].parent == Some(parent));
                    assert(l as int >= old_vs[parent as int].first_child->Some_0 > parent as int);
                }
                let ln = &self.nodes[l];
                let nl = Node {
                    kind: ln.kind.clone(),
                    window: ln.window,
                    parent: ln.parent,
                    first_child: ln.first_child,
                    last_child: ln.last_child,
                    previuos_sibling: ln.previuos_sibling,
                    next_sibling: Some(id),
                };
                self.nodes.set(l, nl);
                let p = &self.nodes[parent];
                let np = Node {
                    kind: p.kind.clone(),
                    window: p.window,
                    parent: p.parent,
                    first_child: p.first_child,
                    last_child: Some(id),
                    previuos_sibling: p.previuos_sibling,
                    next_sibling: p.next_sibling,
                };
                self.nodes.set(parent, np);
                let child = Node {
                    kind,
                    window: Some(0),
                    parent: Some(parent),
                    first_child: None,
                    last_child: None,
                    previuos_sibling: Some(l),
                    next_sibling: None,
                };
                self.nodes.push(child);
                proof {
                    let new_vs = self@;
                    assert(new_vs =~= spec_append_child(old_vs, parent as int, kind@));
                    assert forall|k: int| 0 <= k < new_vs.len() implies #[trigger] links_ok(
                        new_vs,
                        k,
                    ) by {
                        lemma_append_links_ok_sib(old_vs, new_vs, parent as int, l as int, k, id);
                    }
                }
            },
        }
        id
    }

    /// Replaces all children of `id` with a single fresh text node holding
    /// `text`, and returns the text node's handle.  This is the one DOM
    /// mutation the scripting bridge supports.
    pub fn set_text_content(&mut self, id: usize, text: String) -> (tid: usize)
        requires
            old(self).wf(),
            id < old(self)@.len(),
            old(self)@.len() < usize::MAX,
        ensures
            final(self).wf(),
            tid == old(self)@.len(),
            final(self)@ == spec_set_text_content(old(self)@, id as int, text@),
            final(self)@[id as int].first_child == Some(tid),
            final(self)@[tid as int].kind == NodeKindV::Text(text@),
            final(self)@[tid as int].parent == Some(id),
    {
        let ghost old_vs = self@;
        let tid = self.nodes.len();
        proof {
            assert(old_vs.len() == self.nodes@.len());
            lemma_wf_next_forward(old_vs);
        }
        let p = &self.nodes[id];
        let np = Node {
            kind: p.kind.clone(),
            window: p.window,
            parent: p.parent,
            first_child: Some(tid),
            last_child: Some(tid),
            previuos_sibling: p.previuos_sibling,
            next_sibling: p.next_sibling,
        };
        self.nodes.set(id, np);
        let child = Node {
            kind: NodeKind::Text(text),
            window: Some(0),
            parent: Some(id),
            first_child: None,
            last_child: None,
            previuos_sibling: None,
            next_sibling: None,
        };
        self.nodes.push(child);
        proof {
            let new_vs = self@;
            assert(new_vs =~= spec_set_text_content(old_vs, id as int, text@));
            assert forall|k: int| 0 <= k < new_vs.len() implies #[trigger] links_ok(new_vs, k) by {
                lemma_append_links_ok(old_vs, new_vs, id as int, k, tid);
            }
        }
        tid
    }

    /// Pre-order, document-order search for the first element carrying an
    /// `id` attribute equal to `id_name`, starting at `node`: the node
    /// itself, then its subtree, then its following siblings.
    pub fn get_element_by_id(&self, node: Option<usize>, id_name: &String) -> (r: Option<usize>)
        requires
            self.wf(),
            node matches Some(n) ==> (n as int) < self@.len(),
        ensures
            r == spec_find_by_id(self@, node, id_name@),
        decreases (match node {
            Some(n) => self@.len() - n,
            None => 0int,
        }),
    {
        match node {
            None => None,
            Some(n) => {
                proof {
                    assert(links_ok(self@, n as int));
                }
                let is_match = match &self.nodes[n].kind {
                    NodeKind::Element(e) => match e.get_attribute("id") {
                        Some(v) => str_eq(v.as_str(), id_name.as_str()),
                        None => false,
                    },
                    _ => false,
                };
                if is_match {
                    return Some(n);
                }
                let first_child = self.nodes[n].first_child;
                let next_sibling = self.nodes[n].next_sibling;
                let r1 = self.get_element_by_id(first_child, id_name);
                let r2 = self.get_element_by_id(next_sibling, id_name);
                if r1.is_none() {
                    r2
                } else {
                    r1
                }
            },
        }
    }
}

/// Under the tree invariant, every `next_sibling` link points forward and
/// stays inside the arena.
proof fn lemma_wf_next_forward(nodes: Seq<NodeV>)
    requires
        tree_wf(nodes),
    ensures
        forall|j: int|
            0 <= j < nodes.len() ==> (#[trigger] nodes[j].next_sibling matches Some(s) ==> j < s
                < nodes.len()),
{
    assert forall|j: int|
        0 <= j < nodes.len() implies (#[trigger] nodes[j].next_sibling matches Some(s) ==> j < s
        < nodes.len()) by {
        assert(links_ok(nodes, j));
    }
}

/// Link conditions hold at every index after giving `parent` the fresh node
/// `id` as its only child (no `next_sibling` link changed).
proof fn lemma_append_links_ok(
    old_nodes: Seq<NodeV>,
    new_nodes: Seq<NodeV>,
    parent: int,
    k: int,
    id: usize,
)
    requires
        window_wf(old_nodes),
        old_nodes.len() < usize::MAX,
        0 <= parent < old_nodes.len(),
        id == old_nodes.len(),
        new_nodes.len() == old_nodes.len() + 1,
        forall|j: int|
            0 <= j < old_nodes.len() && j != parent ==> new_nodes[j] == #[trigger] old_nodes[j],
        new_nodes[parent] == (NodeV {
            first_child: Some(id),
            last_child: Some(id),
            ..old_nodes[parent]
        }),
        new_nodes[id as int].parent == Some(parent as usize),
        new_nodes[id as int].first_child is None,
        new_nodes[id as int].last_child is None,
        new_nodes[id as int].next_sibling is None,
        0 <= k < new_nodes.len(),
    ensures
        links_ok(new_nodes, k),
{
    lemma_wf_next_forward(old_nodes);
    assert(links_ok(old_nodes, parent));
    if k == id {
    } else if k == parent {
        assert(chain_end(new_nodes, id as int, new_nodes.len() as nat) == Some(id));
    } else {
        assert(links_ok(old_nodes, k));
        match old_nodes[k].first_child {
            Some(c) => {
                lemma_chain_same(old_nodes, new_nodes, c as int, old_nodes.len() as nat);
                lemma_chain_end_mono(
                    new_nodes,
                    c as int,
                    old_nodes.len() as nat,
                    new_nodes.len() as nat,
                );
            },
            None => {},
        }
    }
}

/// Link conditions hold at every index after appending the fresh node `id`
/// behind `l`, the previous last child of `parent`.
proof fn lemma_append_links_ok_sib(
    old_nodes: Seq<NodeV>,
    new_nodes: Seq<NodeV>,
    parent: int,
    l: int,
    k: int,
    id: usize,
)
    requires
        window_wf(old_nodes),
        old_nodes.len() < usize::MAX,
        0 <= parent < old_nodes.len(),
        0 <= l < old_nodes.len(),
        l != parent,
        id == old_nodes.len(),
        new_nodes.len() == old_nodes.len() + 1,
        old_nodes[parent].first_child matches Some(c) && chain_end(
            old_nodes,
            c as int,
            old_nodes.len() as nat,
        ) == Some(l as usize),
        old_nodes[l].next_sibling is None,
        old_nodes[l].parent == Some(parent as usize),
        forall|j: int|
            0 <= j < old_nodes.len() && j != parent && j != l ==> new_nodes[j]
                == #[trigger] old_nodes[j],
        new_nodes[parent] == (NodeV { last_child: Some(id), ..old_nodes[parent] }),
        new_nodes[l] == (NodeV { next_sibling: Some(id), ..old_nodes[l] }),
        new_nodes[id as int].parent == Some(parent as usize),
        new_nodes[id as int].first_child is None,
        new_nodes[id as int].last_child is None,
        new_nodes[id as int].next_sibling is None,
        0 <= k < new_nodes.len(),
    ensures
        links_ok(new_nodes, k),
{
    lemma_wf_next_forward(old_nodes);
    assert(links_ok(old_nodes, parent));
    assert(links_ok(old_nodes, l));
    let c = old_nodes[parent].first_child->Some_0;
    if k == id {
    } else if k == parent {
        lemma_chain_extend(old_nodes, new_nodes, c as int, l, old_nodes.len() as nat);
        lemma_chain_end_mono(
            new_nodes,
            c as int,
            (old_nodes.len() + 1) as nat,
            new_nodes.len() as nat,
        );
    } else if k == l {
        match old_nodes[l].first_child {
            Some(cl) => {
                assert(old_nodes[cl as int].parent == Some(l as usize));
                lemma_chain_avoid(old_nodes, new_nodes, cl as int, l, old_nodes.len() as nat);
                lemma_chain_end_mono(
                    new_nodes,
                    cl as int,
                    old_nodes.len() as nat,
                    new_nodes.len() as nat,
                );
            },
            None => {},
        }
    } else {
        assert(links_ok(old_nodes, k));
        match old_nodes[k].first_child {
            Some(ck) => {
                assert(old_nodes[ck as int].parent == Some(k as usize));
                lemma_chain_avoid(old_nodes, new_nodes, ck as int, l, old_nodes.len() as nat);
                lemma_chain_end_mono(
                    new_nodes,
                    ck as int,
                    old_nodes.len() as nat,
                    new_nodes.len() as nat,
                );
            },
            None => {},
        }
    }
}

} // verus!
