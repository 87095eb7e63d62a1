//! The node variant: twelve node kinds over one shared payload, and the ordered
//! child sequence.
use vstd::prelude::*;
use vstd::string::StringExecFns;
use crate::exception::DOMException;
use crate::features::{opt_string_clone, opt_string_eq, opt_string_view, opt_view};
use crate::named_node_map::{attribute_infos, NamedNodeMap, QNameView};

verus! {

/// The kind of a node, with the numeric code that DOM Level 3 Core gives it.
#[derive(Debug, Clone, Copy, PartialEq, Eq, Structural)]
pub enum NodeType {
    ElementNode,
    AttributeNode,
    TextNode,
    CDATASectionNode,
    EntityReferenceNode,
    EntityNode,
    ProcessingInstructionNode,
    CommentNode,
    DocumentNode,
    DocumentTypeNode,
    DocumentFragmentNode,
    NotationNode,
}

impl NodeType {
    pub open spec fn spec_code(self) -> u16 {
        match self {
            NodeType::ElementNode => 1,
            NodeType::AttributeNode => 2,
            NodeType::TextNode => 3,
            NodeType::CDATASectionNode => 4,
            NodeType::EntityReferenceNode => 5,
            NodeType::EntityNode => 6,
            NodeType::ProcessingInstructionNode => 7,
            NodeType::CommentNode => 8,
            NodeType::DocumentNode => 9,
            NodeType::DocumentTypeNode => 10,
            NodeType::DocumentFragmentNode => 11,
            NodeType::NotationNode => 12,
        }
    }

    /// The numeric node type code (1 to 12).
    pub fn code(&self) -> (r: u16)
        ensures
            r == self.spec_code(),
    {
        match self {
            NodeType::ElementNode => 1,
            NodeType::AttributeNode => 2,
            NodeType::TextNode => 3,
            NodeType::CDATASectionNode => 4,
            NodeType::EntityReferenceNode => 5,
            NodeType::EntityNode => 6,
            NodeType::ProcessingInstructionNode => 7,
            NodeType::CommentNode => 8,
            NodeType::DocumentNode => 9,
            NodeType::DocumentTypeNode => 10,
            NodeType::DocumentFragmentNode => 11,
            NodeType::NotationNode => 12,
        }
    }
}

/// The identity of a node: the number of the document that made it, and the
/// serial number the document gave it.
#[derive(Debug, Clone, Copy, PartialEq, Eq, Structural)]
pub struct NodeId {
    pub document: u64,
    pub serial: u64,
}

/// The data every node kind carries.
pub struct NodeData {
    pub(crate) id: NodeId,
    pub(crate) name: String,
    pub(crate) namespace_uri: Option<String>,
    pub(crate) prefix: Option<String>,
    pub(crate) local_name: Option<String>,
    pub(crate) value: Option<String>,
    pub(crate) owner_element: Option<NodeId>,
    pub(crate) attributes: NamedNodeMap,
    pub(crate) children: NodeList,
}

pub struct Element {
    pub(crate) node: NodeData,
}

pub struct Attr {
    pub(crate) node: NodeData,
}

pub struct Text {
    pub(crate) node: NodeData,
}

pub struct CDATASection {
    pub(crate) node: NodeData,
}

pub struct Comment {
    pub(crate) node: NodeData,
}

pub struct ProcessingInstruction {
    pub(crate) node: NodeData,
}

pub struct EntityReference {
    pub(crate) node: NodeData,
}

pub struct Entity {
    pub(crate) node: NodeData,
}

pub struct Notation {
    pub(crate) node: NodeData,
}

pub struct DocumentFragment {
    pub(crate) node: NodeData,
}

/// A node of the tree: one of twelve kinds, each over the shared payload.
pub enum NodeRef {
    DocumentFragment(DocumentFragment),
    Attr(Attr),
    Element(Element),
    Text(Text),
    Comment(Comment),
    CDATASection(CDATASection),
    Notation(Notation),
    Entity(Entity),
    EntityReference(EntityReference),
    ProcessingInstruction(ProcessingInstruction),
}

/// An ordered sequence of nodes.
pub struct NodeList {
    pub(crate) nodes: Vec<NodeRef>,
}

/// What a node holds by itself: its kind, identity, names, value and owner.
pub struct NodeInfo {
    pub kind: NodeType,
    pub id: NodeId,
    pub name: Seq<char>,
    pub namespace_uri: Option<Seq<char>>,
    pub prefix: Option<Seq<char>>,
    pub local_name: Option<Seq<char>>,
    pub value: Option<Seq<char>>,
    pub owner_element: Option<NodeId>,
}

/// The abstract value of a node and its subtree.
pub struct NodeView {
    pub info: NodeInfo,
    pub attributes: Seq<(QNameView, NodeInfo)>,
    pub children: Seq<NodeView>,
}

/// The content of a node that structural equality compares: all it holds but
/// its identity and its owner.
pub open spec fn content(i: NodeInfo) -> (NodeType, Seq<char>, Option<Seq<char>>, Option<Seq<char>>, Option<Seq<char>>, Option<Seq<char>>) {
    (i.kind, i.name, i.namespace_uri, i.prefix, i.local_name, i.value)
}

/// The attributes of a node, compared by key and content.
pub open spec fn attribute_content(a: Seq<(QNameView, NodeInfo)>) -> Seq<(QNameView, (NodeType, Seq<char>, Option<Seq<char>>, Option<Seq<char>>, Option<Seq<char>>, Option<Seq<char>>))> {
    a.map_values(|e: (QNameView, NodeInfo)| (e.0, content(e.1)))
}

/// Deep structural equality: same content, same attributes, and equal
/// children in the same order.
pub open spec fn equal_view(a: NodeView, b: NodeView) -> bool
    decreases a,
{
    &&& content(a.info) == content(b.info)
    &&& attribute_content(a.attributes) == attribute_content(b.attributes)
    &&& a.children.len() == b.children.len()
    &&& forall|i: int| 0 <= i < a.children.len() ==> equal_view(#[trigger] a.children[i], b.children[i])
}

/// Whether some node of the subtree `v` has identity `id`.
pub open spec fn subtree_has_id(v: NodeView, id: NodeId) -> bool
    decreases v,
{
    v.info.id == id || exists|i: int| 0 <= i < v.children.len() && subtree_has_id(#[trigger] v.children[i], id)
}

impl NodeRef {
    /// The kind of the node.
    pub open spec fn kind(self) -> NodeType {
        match self {
            NodeRef::DocumentFragment(_) => NodeType::DocumentFragmentNode,
            NodeRef::Attr(_) => NodeType::AttributeNode,
            NodeRef::Element(_) => NodeType::ElementNode,
            NodeRef::Text(_) => NodeType::TextNode,
            NodeRef::Comment(_) => NodeType::CommentNode,
            NodeRef::CDATASection(_) => NodeType::CDATASectionNode,
            NodeRef::Notation(_) => NodeType::NotationNode,
            NodeRef::Entity(_) => NodeType::EntityNode,
            NodeRef::EntityReference(_) => NodeType::EntityReferenceNode,
            NodeRef::ProcessingInstruction(_) => NodeType::ProcessingInstructionNode,
        }
    }

    pub closed spec fn node(self) -> NodeData {
        match self {
            NodeRef::DocumentFragment(n) => n.node,
            NodeRef::Attr(n) => n.node,
            NodeRef::Element(n) => n.node,
            NodeRef::Text(n) => n.node,
            NodeRef::Comment(n) => n.node,
            NodeRef::CDATASection(n) => n.node,
            NodeRef::Notation(n) => n.node,
            NodeRef::Entity(n) => n.node,
            NodeRef::EntityReference(n) => n.node,
            NodeRef::ProcessingInstruction(n) => n.node,
        }
    }

    /// The same kind of node over other data.
    pub closed spec fn with_node(self, d: NodeData) -> NodeRef {
        match self {
            NodeRef::DocumentFragment(_) => NodeRef::DocumentFragment(DocumentFragment { node: d }),
            NodeRef::Attr(_) => NodeRef::Attr(Attr { node: d }),
            NodeRef::Element(_) => NodeRef::Element(Element { node: d }),
            NodeRef::Text(_) => NodeRef::Text(Text { node: d }),
            NodeRef::Comment(_) => NodeRef::Comment(Comment { node: d }),
            NodeRef::CDATASection(_) => NodeRef::CDATASection(CDATASection { node: d }),
            NodeRef::Notation(_) => NodeRef::Notation(Notation { node: d }),
            NodeRef::Entity(_) => NodeRef::Entity(Entity { node: d }),
            NodeRef::EntityReference(_) => NodeRef::EntityReference(EntityReference { node: d }),
            NodeRef::ProcessingInstruction(_) => NodeRef::ProcessingInstruction(ProcessingInstruction { node: d }),
        }
    }

    /// The same node, recording `owner` as the element that holds it.
    pub closed spec fn with_owner(self, owner: Option<NodeId>) -> NodeRef {
        self.with_node(NodeData { owner_element: owner, ..self.node() })
    }

    pub closed spec fn children(self) -> Seq<NodeRef> {
        self.node().children.nodes@
    }

    pub closed spec fn attribute_map(self) -> NamedNodeMap {
        self.node().attributes
    }

    pub closed spec fn info(self) -> NodeInfo {
        let d = self.node();
        NodeInfo {
            kind: self.kind(),
            id: d.id,
            name: d.name@,
            namespace_uri: opt_string_view(d.namespace_uri),
            prefix: opt_string_view(d.prefix),
            local_name: opt_string_view(d.local_name),
            value: opt_string_view(d.value),
            owner_element: d.owner_element,
        }
    }

    /// The kind recorded in `info` is the node's kind.
    pub broadcast proof fn lemma_info_kind(self)
        ensures
            #[trigger] self.info().kind == self.kind(),
    {
    }

    /// Two nodes of the same kind, identity, owner and content hold the same
    /// information.
    pub proof fn lemma_info_parts(a: NodeRef, b: NodeRef)
        requires
            content(a.info()) == content(b.info()),
            a.spec_id() == b.spec_id(),
            a.spec_owner_element() == b.spec_owner_element(),
        ensures
            a.info() == b.info(),
    {
    }

    /// Recording an owner keeps the node's kind, identity, content, attributes
    /// and children, and changes only the owner.
    pub broadcast proof fn lemma_with_owner(self, owner: Option<NodeId>)
        ensures
            #[trigger] self.with_owner(owner).kind() == self.kind(),
            self.with_owner(owner).spec_id() == self.spec_id(),
            self.with_owner(owner).spec_owner_element() == owner,
            content(self.with_owner(owner).info()) == content(self.info()),
            self.with_owner(owner).info() == (NodeInfo { owner_element: owner, ..self.info() }),
            self.with_owner(owner).children() == self.children(),
            self.with_owner(owner).attribute_map() == self.attribute_map(),
    {
    }

    /// Putting other data under a node keeps its kind, and the data is then
    /// what `node` gives.
    pub broadcast proof fn lemma_with_node(self, d: NodeData)
        ensures
            #[trigger] self.with_node(d).node() == d,
            self.with_node(d).kind() == self.kind(),
    {
    }

    /// Recording the owner a node already records changes nothing.
    pub proof fn lemma_with_own_owner(self)
        ensures
            self.with_owner(self.spec_owner_element()) == self,
    {
    }

    pub open spec fn spec_id(self) -> NodeId {
        self.info().id
    }

    pub open spec fn name(self) -> Seq<char> {
        self.info().name
    }

    pub open spec fn spec_owner_element(self) -> Option<NodeId> {
        self.info().owner_element
    }

    /// The key under which `set_named_item_ns` stores the node.
    pub open spec fn qname(self) -> QNameView {
        (self.info().namespace_uri, self.info().local_name)
    }

    /// The abstract value of the node and its subtree.
    pub closed spec fn view(self) -> NodeView
        decreases self,
    {
        NodeView {
            info: self.info(),
            attributes: attribute_infos(self.attribute_map()@),
            children: Seq::new(
                self.children().len(),
                |i: int|
                    if 0 <= i < self.children().len() {
                        self.children()[i].view()
                    } else {
                        self.info_only()
                    },
            ),
        }
    }

    pub closed spec fn info_only(self) -> NodeView {
        NodeView { info: self.info(), attributes: Seq::empty(), children: Seq::empty() }
    }

    pub proof fn lemma_view_children(self)
        ensures
            self.view().children.len() == self.children().len(),
            forall|i: int| 0 <= i < self.children().len() ==> #[trigger] self.view().children[i] == self.children()[i].view(),
            self.view().info == self.info(),
    {
    }

    /// Returns the kind of the node.
    pub fn node_type(&self) -> (r: NodeType)
        ensures
            r == self.kind(),
    {
        match self {
            NodeRef::DocumentFragment(_) => NodeType::DocumentFragmentNode,
            NodeRef::Attr(_) => NodeType::AttributeNode,
            NodeRef::Element(_) => NodeType::ElementNode,
            NodeRef::Text(_) => NodeType::TextNode,
            NodeRef::Comment(_) => NodeType::CommentNode,
            NodeRef::CDATASection(_) => NodeType::CDATASectionNode,
            NodeRef::Notation(_) => NodeType::NotationNode,
            NodeRef::Entity(_) => NodeType::EntityNode,
            NodeRef::EntityReference(_) => NodeType::EntityReferenceNode,
            NodeRef::ProcessingInstruction(_) => NodeType::ProcessingInstructionNode,
        }
    }

    /// The payload shared by every kind.
    pub fn as_node(&self) -> (r: &NodeData)
        ensures
            *r == self.node(),
    {
        match self {
            NodeRef::DocumentFragment(n) => &n.node,
            NodeRef::Attr(n) => &n.node,
            NodeRef::Element(n) => &n.node,
            NodeRef::Text(n) => &n.node,
            NodeRef::Comment(n) => &n.node,
            NodeRef::CDATASection(n) => &n.node,
            NodeRef::Notation(n) => &n.node,
            NodeRef::Entity(n) => &n.node,
            NodeRef::EntityReference(n) => &n.node,
            NodeRef::ProcessingInstruction(n) => &n.node,
        }
    }

    /// The payload shared by every kind, for change.
    pub fn as_mut_node(&mut self) -> (r: &mut NodeData)
        ensures
            *r == old(self).node(),
            *final(self) == old(self).with_node(*final(r)),
    {
        match self {
            NodeRef::DocumentFragment(n) => &mut n.node,
            NodeRef::Attr(n) => &mut n.node,
            NodeRef::Element(n) => &mut n.node,
            NodeRef::Text(n) => &mut n.node,
            NodeRef::Comment(n) => &mut n.node,
            NodeRef::CDATASection(n) => &mut n.node,
            NodeRef::Notation(n) => &mut n.node,
            NodeRef::Entity(n) => &mut n.node,
            NodeRef::EntityReference(n) => &mut n.node,
            NodeRef::ProcessingInstruction(n) => &mut n.node,
        }
    }

    /// The identity of the node.
    pub fn id(&self) -> (r: NodeId)
        ensures
            r == self.spec_id(),
    {
        self.as_node().id
    }

    /// Whether `other` is this very node (the same identity).
    pub fn is_same_node(&self, other: &NodeRef) -> (r: bool)
        ensures
            r == (self.spec_id() == other.spec_id()),
    {
        self.id() == other.id()
    }

    pub fn node_name(&self) -> (r: &str)
        ensures
            r@ == self.name(),
    {
        self.as_node().name.as_str()
    }

    /// The number of the document that made this node.
    pub fn owner_document(&self) -> (r: u64)
        ensures
            r == self.spec_id().document,
    {
        self.as_node().id.document
    }

    pub fn owner_element(&self) -> (r: Option<NodeId>)
        ensures
            r == self.spec_owner_element(),
    {
        self.as_node().owner_element
    }

    /// Records `owner` as the element holding this node.
    pub fn set_owner_element(&mut self, owner: Option<NodeId>)
        ensures
            *final(self) == old(self).with_owner(owner),
    {
        let n = self.as_mut_node();
        n.owner_element = owner;
    }

    pub fn namespace_uri_string(&self) -> (r: Option<String>)
        ensures
            opt_string_view(r) == self.info().namespace_uri,
    {
        opt_string_clone(&self.as_node().namespace_uri)
    }

    pub fn local_name_string(&self) -> (r: Option<String>)
        ensures
            opt_string_view(r) == self.info().local_name,
    {
        opt_string_clone(&self.as_node().local_name)
    }
}


/// Whether a node of kind `k` may hold children.
pub open spec fn accepts_children(k: NodeType) -> bool {
    k == NodeType::ElementNode || k == NodeType::DocumentFragmentNode || k == NodeType::EntityReferenceNode
        || k == NodeType::EntityNode
}

/// Whether a node of kind `k` may stand in a child sequence.
pub open spec fn may_be_child(k: NodeType) -> bool {
    k != NodeType::AttributeNode && k != NodeType::DocumentNode && k != NodeType::DocumentTypeNode
        && k != NodeType::EntityNode && k != NodeType::NotationNode
}

/// The first position in `s` of a node with identity `id`, if any.
pub open spec fn index_of_id(s: Seq<NodeRef>, id: NodeId) -> Option<int> {
    if exists|i: int| 0 <= i < s.len() && s[i].spec_id() == id {
        Some(choose|i: int| 0 <= i < s.len() && s[i].spec_id() == id && forall|j: int| 0 <= j < i ==> s[j].spec_id() != id)
    } else {
        None
    }
}

proof fn lemma_index_of_id(s: Seq<NodeRef>, id: NodeId, i: int)
    requires
        0 <= i < s.len(),
        s[i].spec_id() == id,
        forall|j: int| 0 <= j < i ==> s[j].spec_id() != id,
    ensures
        index_of_id(s, id) == Some(i),
{
    let k = choose|k: int| 0 <= k < s.len() && s[k].spec_id() == id && forall|j: int| 0 <= j < k ==> s[j].spec_id() != id;
    assert(0 <= k < s.len() && s[k].spec_id() == id && forall|j: int| 0 <= j < k ==> s[j].spec_id() != id);
    if k < i {
        assert(s[k].spec_id() != id);
    }
    if i < k {
        assert(s[i].spec_id() != id);
    }
}

fn position_of_id(s: &Vec<NodeRef>, id: NodeId) -> (r: Option<usize>)
    ensures
        r.is_some() ==> index_of_id(s@, id) == Some(r.unwrap() as int) && r.unwrap() < s@.len(),
        r.is_none() ==> index_of_id(s@, id).is_none(),
{
    let mut i: usize = 0;
    while i < s.len()
        invariant
            i <= s@.len(),
            forall|j: int| 0 <= j < i ==> s@[j].spec_id() != id,
        decreases s@.len() - i,
    {
        if s[i].id() == id {
            proof {
                lemma_index_of_id(s@, id, i as int);
            }
            return Some(i);
        }
        i += 1;
    }
    None
}

impl NodeList {
    pub closed spec fn view(self) -> Seq<NodeRef> {
        self.nodes@
    }

    pub fn new() -> (r: NodeList)
        ensures
            r@ == Seq::<NodeRef>::empty(),
    {
        NodeList { nodes: Vec::new() }
    }

    pub fn first(&self) -> (r: Option<&NodeRef>)
        ensures
            self@.len() == 0 ==> r.is_none(),
            self@.len() > 0 ==> r == Some(&self@[0]),
    {
        if self.nodes.len() == 0 {
            None
        } else {
            Some(&self.nodes[0])
        }
    }

    pub fn last(&self) -> (r: Option<&NodeRef>)
        ensures
            self@.len() == 0 ==> r.is_none(),
            self@.len() > 0 ==> r == Some(&self@[self@.len() - 1]),
    {
        if self.nodes.len() == 0 {
            None
        } else {
            Some(&self.nodes[self.nodes.len() - 1])
        }
    }

    /// The node at `index`, if in range.
    pub fn item(&self, index: usize) -> (r: Option<&NodeRef>)
        ensures
            index < self@.len() ==> r == Some(&self@[index as int]),
            index >= self@.len() ==> r.is_none(),
    {
        if index < self.nodes.len() {
            Some(&self.nodes[index])
        } else {
            None
        }
    }

    /// The list of the nodes of `v`, in order.
    pub fn from_vec(v: Vec<NodeRef>) -> (r: NodeList)
        ensures
            r@ == v@,
    {
        NodeList { nodes: v }
    }

    /// Appends `n` at the end.
    pub fn push(&mut self, n: NodeRef)
        ensures
            final(self)@ == old(self)@.push(n),
    {
        self.nodes.push(n);
    }

    /// The first position of a node with identity `id`, if any.
    pub fn position_of(&self, id: NodeId) -> (r: Option<usize>)
        ensures
            r.is_some() ==> index_of_id(self@, id) == Some(r.unwrap() as int) && r.unwrap() < self@.len(),
            r.is_none() ==> index_of_id(self@, id).is_none(),
    {
        position_of_id(&self.nodes, id)
    }

    /// Removes and returns the node at `i`.
    pub fn remove_at(&mut self, i: usize) -> (r: NodeRef)
        requires
            i < old(self)@.len(),
        ensures
            r == old(self)@[i as int],
            final(self)@ == old(self)@.remove(i as int),
    {
        self.nodes.remove(i)
    }

    /// Inserts `n` at `i`.
    pub fn insert_at(&mut self, i: usize, n: NodeRef)
        requires
            i <= old(self)@.len(),
        ensures
            final(self)@ == old(self)@.insert(i as int, n),
    {
        self.nodes.insert(i, n);
    }

    /// Puts `n` at `i` and hands back the node that stood there.
    pub fn replace_at(&mut self, i: usize, n: NodeRef) -> (r: NodeRef)
        requires
            i < old(self)@.len(),
        ensures
            r == old(self)@[i as int],
            final(self)@ == old(self)@.update(i as int, n),
    {
        let ghost before = self.nodes@;
        let c = self.nodes.remove(i);
        self.nodes.insert(i, n);
        assert(self.nodes@ =~= before.update(i as int, n));
        c
    }

    /// The node at `index`, for change in place.
    pub fn item_mut(&mut self, index: usize) -> (r: &mut NodeRef)
        requires
            index < old(self)@.len(),
        ensures
            *r == old(self)@[index as int],
            final(self)@ == old(self)@.update(index as int, *final(r)),
    {
        &mut self.nodes[index]
    }

    /// Normalizes the sequence as the children of a node are (see
    /// `normalized_children`).
    pub fn normalize(&mut self)
        ensures
            views(final(self)@) == normalized_children(views(old(self)@)),
    {
        let mut taken: Vec<NodeRef> = Vec::new();
        std::mem::swap(&mut self.nodes, &mut taken);
        self.nodes = NodeRef::normalize_list(taken);
    }

    /// The number of nodes.
    pub fn length(&self) -> (r: usize)
        ensures
            r == self@.len(),
    {
        self.nodes.len()
    }
}

impl NodeRef {
    /// The error with which inserting `new_child` under this node is refused:
    /// this kind holds no children, that kind stands in no child sequence, or
    /// the new child's subtree holds this very node (a cycle).
    pub open spec fn child_error(self, new_child: NodeRef) -> bool {
        !accepts_children(self.kind()) || !may_be_child(new_child.kind()) || subtree_has_id(new_child.view(), self.spec_id())
    }

    /// Only the children of `after` differ from those of `before`.
    pub open spec fn same_but_children(before: NodeRef, after: NodeRef) -> bool {
        after.info() == before.info() && after.attribute_map() == before.attribute_map()
    }

    fn children_mut(&mut self) -> (r: &mut Vec<NodeRef>)
        ensures
            *r == old(self).node().children.nodes,
            NodeRef::same_but_children(*old(self), *final(self)),
            final(self).children() == final(r)@,
            final(self).kind() == old(self).kind(),
    {
        let n = self.as_mut_node();
        &mut n.children.nodes
    }

    /// The child at `index`, for change in place; nothing else changes.
    pub fn child_mut(&mut self, index: usize) -> (r: &mut NodeRef)
        requires
            index < old(self).children().len(),
        ensures
            *r == old(self).children()[index as int],
            NodeRef::same_but_children(*old(self), *final(self)),
            final(self).kind() == old(self).kind(),
            final(self).children() == old(self).children().update(index as int, *final(r)),
    {
        let v = self.children_mut();
        &mut v[index]
    }

    pub fn child_nodes(&self) -> (r: &NodeList)
        ensures
            r@ == self.children(),
    {
        &self.as_node().children
    }

    pub fn first_child(&self) -> (r: Option<&NodeRef>)
        ensures
            self.children().len() == 0 ==> r.is_none(),
            self.children().len() > 0 ==> r == Some(&self.children()[0]),
    {
        self.as_node().children.first()
    }

    pub fn last_child(&self) -> (r: Option<&NodeRef>)
        ensures
            self.children().len() == 0 ==> r.is_none(),
            self.children().len() > 0 ==> r == Some(&self.children()[self.children().len() - 1]),
    {
        self.as_node().children.last()
    }

    pub fn has_child_nodes(&self) -> (r: bool)
        ensures
            r == (self.children().len() > 0),
    {
        self.as_node().children.nodes.len() > 0
    }

    /// The attributes of an element; no other kind has any.
    pub fn attributes(&self) -> (r: Option<&NamedNodeMap>)
        ensures
            self.kind() == NodeType::ElementNode ==> r == Some(&self.attribute_map()),
            self.kind() != NodeType::ElementNode ==> r.is_none(),
    {
        match self {
            NodeRef::Element(e) => Some(&e.node.attributes),
            _ => None,
        }
    }

    pub fn has_attributes(&self) -> (r: bool)
        ensures
            r == (self.kind() == NodeType::ElementNode && self.attribute_map()@.len() > 0),
    {
        match self {
            NodeRef::Element(e) => e.node.attributes.length() > 0,
            _ => false,
        }
    }

    /// Whether a node of the subtree has identity `id`.
    pub fn subtree_has_id(&self, id: NodeId) -> (r: bool)
        ensures
            r == subtree_has_id(self.view(), id),
        decreases self,
    {
        proof {
            self.lemma_view_children();
        }
        if self.id() == id {
            return true;
        }
        let ch = &self.as_node().children.nodes;
        let mut i: usize = 0;
        while i < ch.len()
            invariant
                ch@ == self.children(),
                i <= ch@.len(),
                self.view().children.len() == self.children().len(),
                forall|k: int| 0 <= k < self.children().len() ==> #[trigger] self.view().children[k] == self.children()[k].view(),
                forall|k: int| 0 <= k < i ==> !subtree_has_id(#[trigger] self.view().children[k], id),
            decreases ch@.len() - i,
        {
            if ch[i].subtree_has_id(id) {
                assert(subtree_has_id(self.view().children[i as int], id));
                return true;
            }
            i += 1;
        }
        false
    }

    fn check_child(&self, new_child: &NodeRef) -> (r: bool)
        ensures
            r == self.child_error(*new_child),
    {
        let k = self.node_type();
        let c = new_child.node_type();
        let accepts = k == NodeType::ElementNode || k == NodeType::DocumentFragmentNode
            || k == NodeType::EntityReferenceNode || k == NodeType::EntityNode;
        let may = c != NodeType::AttributeNode && c != NodeType::DocumentNode && c != NodeType::DocumentTypeNode
            && c != NodeType::EntityNode && c != NodeType::NotationNode;
        !accepts || !may || new_child.subtree_has_id(self.id())
    }

    /// Appends `new_child` at the end of the children. Fails with
    /// HierarchyRequest, changing nothing, where `child_error` holds.
    pub fn append_child(&mut self, new_child: NodeRef) -> (r: crate::exception::Result<()>)
        ensures
            old(self).child_error(new_child) ==> r == Err::<(), DOMException>(DOMException::HierarchyRequest)
                && *final(self) == *old(self),
            !old(self).child_error(new_child) ==> r == Ok::<(), DOMException>(())
                && NodeRef::same_but_children(*old(self), *final(self))
                && final(self).children() == old(self).children().push(new_child),
    {
        if self.check_child(&new_child) {
            return Err(DOMException::HierarchyRequest);
        }
        let v = self.children_mut();
        v.push(new_child);
        Ok(())
    }

    /// Inserts `new_child` just before the child that is `ref_child`. Fails with
    /// HierarchyRequest where `child_error` holds, else with NotFound where no
    /// child is `ref_child`; a failure changes nothing.
    pub fn insert_before(&mut self, new_child: NodeRef, ref_child: &NodeRef) -> (r: crate::exception::Result<()>)
        ensures
            old(self).child_error(new_child) ==> r == Err::<(), DOMException>(DOMException::HierarchyRequest)
                && *final(self) == *old(self),
            !old(self).child_error(new_child) ==> match index_of_id(old(self).children(), ref_child.spec_id()) {
                None => r == Err::<(), DOMException>(DOMException::NotFound) && *final(self) == *old(self),
                Some(i) => r == Ok::<(), DOMException>(())
                    && NodeRef::same_but_children(*old(self), *final(self))
                    && final(self).children() == old(self).children().insert(i, new_child),
            },
    {
        if self.check_child(&new_child) {
            return Err(DOMException::HierarchyRequest);
        }
        match position_of_id(&self.as_node().children.nodes, ref_child.id()) {
            None => Err(DOMException::NotFound),
            Some(i) => {
                let v = self.children_mut();
                v.insert(i, new_child);
                Ok(())
            },
        }
    }

    /// Removes the child that is `old_child` and hands it back. Fails with
    /// NotFound, changing nothing, where no child is `old_child`.
    pub fn remove_child(&mut self, old_child: &NodeRef) -> (r: crate::exception::Result<NodeRef>)
        ensures
            match index_of_id(old(self).children(), old_child.spec_id()) {
                None => r == Err::<NodeRef, DOMException>(DOMException::NotFound) && *final(self) == *old(self),
                Some(i) => r == Ok::<NodeRef, DOMException>(old(self).children()[i])
                    && NodeRef::same_but_children(*old(self), *final(self))
                    && final(self).children() == old(self).children().remove(i),
            },
    {
        match position_of_id(&self.as_node().children.nodes, old_child.id()) {
            None => Err(DOMException::NotFound),
            Some(i) => {
                let v = self.children_mut();
                let c = v.remove(i);
                Ok(c)
            },
        }
    }

    /// Puts `new_child` in the place of the child that is `old_child`, in one
    /// step, and hands the old child back. Fails as `insert_before` does.
    pub fn replace_child(&mut self, new_child: NodeRef, old_child: &NodeRef) -> (r: crate::exception::Result<NodeRef>)
        ensures
            old(self).child_error(new_child) ==> r == Err::<NodeRef, DOMException>(DOMException::HierarchyRequest)
                && *final(self) == *old(self),
            !old(self).child_error(new_child) ==> match index_of_id(old(self).children(), old_child.spec_id()) {
                None => r == Err::<NodeRef, DOMException>(DOMException::NotFound) && *final(self) == *old(self),
                Some(i) => r == Ok::<NodeRef, DOMException>(old(self).children()[i])
                    && NodeRef::same_but_children(*old(self), *final(self))
                    && final(self).children() == old(self).children().update(i, new_child),
            },
    {
        if self.check_child(&new_child) {
            return Err(DOMException::HierarchyRequest);
        }
        match position_of_id(&self.as_node().children.nodes, old_child.id()) {
            None => Err(DOMException::NotFound),
            Some(i) => {
                let v = self.children_mut();
                let c = v.remove(i);
                v.insert(i, new_child);
                Ok(c)
            },
        }
    }
}

impl NodeRef {
    /// The same kind of node over `data`.
    fn rebuild(&self, data: NodeData) -> (r: NodeRef)
        ensures
            r == self.with_node(data),
    {
        match self {
            NodeRef::DocumentFragment(_) => NodeRef::DocumentFragment(DocumentFragment { node: data }),
            NodeRef::Attr(_) => NodeRef::Attr(Attr { node: data }),
            NodeRef::Element(_) => NodeRef::Element(Element { node: data }),
            NodeRef::Text(_) => NodeRef::Text(Text { node: data }),
            NodeRef::Comment(_) => NodeRef::Comment(Comment { node: data }),
            NodeRef::CDATASection(_) => NodeRef::CDATASection(CDATASection { node: data }),
            NodeRef::Notation(_) => NodeRef::Notation(Notation { node: data }),
            NodeRef::Entity(_) => NodeRef::Entity(Entity { node: data }),
            NodeRef::EntityReference(_) => NodeRef::EntityReference(EntityReference { node: data }),
            NodeRef::ProcessingInstruction(_) => NodeRef::ProcessingInstruction(ProcessingInstruction { node: data }),
        }
    }

    /// A node of the same kind and content, with identity `id`, recording
    /// `owner`, with no attributes and no children.
    pub(crate) fn copy_info(&self, id: NodeId, owner: Option<NodeId>) -> (r: NodeRef)
        ensures
            content(r.info()) == content(self.info()),
            r.spec_id() == id,
            r.spec_owner_element() == owner,
            r.children().len() == 0,
            r.attribute_map()@.len() == 0,
    {
        let d = self.as_node();
        let data = NodeData {
            id,
            name: d.name.clone(),
            namespace_uri: opt_string_clone(&d.namespace_uri),
            prefix: opt_string_clone(&d.prefix),
            local_name: opt_string_clone(&d.local_name),
            value: opt_string_clone(&d.value),
            owner_element: owner,
            attributes: NamedNodeMap::new(self.node_type(), Some(id)),
            children: NodeList::new(),
        };
        self.rebuild(data)
    }

    /// Whether the two nodes hold the same content (identity and owner aside).
    pub fn same_content(&self, other: &NodeRef) -> (r: bool)
        ensures
            r == (content(self.info()) == content(other.info())),
    {
        let a = self.as_node();
        let b = other.as_node();
        self.node_type() == other.node_type() && a.name == b.name && opt_string_eq(&a.namespace_uri, &b.namespace_uri)
            && opt_string_eq(&a.prefix, &b.prefix) && opt_string_eq(&a.local_name, &b.local_name) && opt_string_eq(
            &a.value,
            &b.value,
        )
    }

    /// A copy of the node that belongs to no tree: no owner, the same content
    /// and attributes, and, when `deep`, copies of the whole subtree; else no
    /// children. Every node of the copy, attributes included, takes a fresh
    /// identity of document `document`, with serials from `next_id` on: the
    /// counter moves past all of them.
    ///
    /// The counter must be past every identity of `document` in the source
    /// subtree (`ids_below`); the copy then shares no identity with it.
    pub fn clone_node(&self, deep: bool, document: u64, next_id: &mut u64) -> (r: NodeRef)
        requires
            *old(next_id) + ids_needed(self.view(), deep) <= u64::MAX,
            ids_below(self.view(), document, *old(next_id) as nat),
        ensures
            r.spec_id() != self.spec_id(),
            forall|id: NodeId| subtree_has_id(r.view(), id) ==> !subtree_has_id(self.view(), id),
            forall|i: int, j: int| 0 <= i < r.view().attributes.len() && 0 <= j < self.view().attributes.len()
                ==> r.view().attributes[i].1.id != self.view().attributes[j].1.id,
            ids_below(r.view(), document, *final(next_id) as nat),
            r.attribute_map()@.len() == self.attribute_map()@.len(),
            forall|i: int| 0 <= i < r.attribute_map()@.len() ==> {
                let a = (#[trigger] r.attribute_map()@[i]).1;
                &&& r.attribute_map()@[i].0 == self.attribute_map()@[i].0
                &&& content(a.info()) == content(self.attribute_map()@[i].1.info())
                &&& a.spec_owner_element() == Some(r.spec_id())
                &&& a.children().len() == 0
                &&& a.attribute_map()@.len() == 0
            },
            *final(next_id) == *old(next_id) + ids_needed(self.view(), deep),
            r.spec_id() == (NodeId { document, serial: *old(next_id) }),
            ids_within(r.view(), document, *old(next_id) as nat, *final(next_id) as nat),
            content(r.info()) == content(self.info()),
            attribute_content(r.view().attributes) == attribute_content(self.view().attributes),
            r.spec_owner_element().is_none(),
            r.kind() == self.kind(),
            !deep ==> r.children().len() == 0,
            deep ==> equal_view(r.view(), self.view()),
        decreases self,
    {
        proof {
            self.lemma_views();
        }
        let ghost start = *next_id;
        let ghost sv = self.view();
        let id = NodeId { document, serial: *next_id };
        *next_id = *next_id + 1;
        let d = self.as_node();
        let attributes = d.attributes.copy_for(Some(id), document, next_id);
        let ghost after_attrs = *next_id;
        let mut children: Vec<NodeRef> = Vec::new();
        if deep {
            let ch = &d.children.nodes;
            let mut i: usize = 0;
            assert(sv.children.subrange(0, 0) =~= Seq::<NodeView>::empty());
            while i < ch.len()
                invariant
                    ch@ == self.children(),
                    sv == self.view(),
                    sv.children == views(self.children()),
                    deep,
                    i <= ch@.len(),
                    children@.len() == i,
                    start + ids_needed(sv, deep) <= u64::MAX,
                    ids_below(sv, document, start as nat),
                    start <= *next_id,
                    ids_needed(sv, deep) == 1 + sv.attributes.len() + ids_needed_all(sv.children),
                    after_attrs == start + 1 + sv.attributes.len(),
                    *next_id == after_attrs + ids_needed_all(sv.children.subrange(0, i as int)),
                    forall|k: int| 0 <= k < i ==> equal_view(#[trigger] children@[k].view(), self.children()[k].view()),
                    forall|k: int| 0 <= k < i ==> ids_within(#[trigger] children@[k].view(), document, start as nat, *next_id as nat),
                decreases ch@.len() - i,
            {
                let ghost before = *next_id;
                proof {
                    let t = sv.children.subrange(0, i + 1);
                    assert(t.subrange(0, i as int) =~= sv.children.subrange(0, i as int));
                    assert(t[i as int] == sv.children[i as int]);
                    lemma_ids_needed_prefix(sv.children, i + 1);
                    assert(sv.children[i as int] == ch@[i as int].view());
                    lemma_ids_below_mono(sv.children[i as int], document, start as nat, *next_id as nat);
                }
                let c = ch[i].clone_node(true, document, next_id);
                proof {
                    assert forall|k: int| 0 <= k < i implies ids_within(#[trigger] children@[k].view(), document, start as nat, *next_id as nat) by {
                        lemma_ids_within_widen(children@[k].view(), document, start as nat, before as nat, start as nat, *next_id as nat);
                    }
                    lemma_ids_within_widen(c.view(), document, before as nat, *next_id as nat, start as nat, *next_id as nat);
                    let t = sv.children.subrange(0, i + 1);
                    assert(t.subrange(0, i as int) =~= sv.children.subrange(0, i as int));
                }
                children.push(c);
                i += 1;
            }
            assert(sv.children.subrange(0, ch@.len() as int) =~= sv.children);
        }
        let data = NodeData {
            id,
            name: d.name.clone(),
            namespace_uri: opt_string_clone(&d.namespace_uri),
            prefix: opt_string_clone(&d.prefix),
            local_name: opt_string_clone(&d.local_name),
            value: opt_string_clone(&d.value),
            owner_element: None,
            attributes,
            children: NodeList { nodes: children },
        };
        let r = self.rebuild(data);
        proof {
            r.lemma_views();
            r.lemma_view_children();
            self.lemma_view_children();
            assert(attribute_content(r.view().attributes) =~= attribute_content(self.view().attributes));
            let rv = r.view();
            assert forall|k: int| 0 <= k < rv.attributes.len() implies id_within(#[trigger] rv.attributes[k].1.id, document, start as nat, *next_id as nat) by {
                assert(rv.attributes[k].1 == r.attribute_map()@[k].1.info());
            }
            assert forall|k: int| 0 <= k < rv.children.len() implies ids_within(#[trigger] rv.children[k], document, start as nat, *next_id as nat) by {
                assert(rv.children[k] == children@[k].view());
            }
            assert(ids_within(rv, document, start as nat, *next_id as nat));
            lemma_clone_is_new_node(*self, r, deep, document, start as nat, *next_id as nat);
            lemma_within_below(rv, document, start as nat, *next_id as nat);
            assert forall|i: int| 0 <= i < r.attribute_map()@.len() implies {
                let a = (#[trigger] r.attribute_map()@[i]).1;
                &&& r.attribute_map()@[i].0 == self.attribute_map()@[i].0
                &&& content(a.info()) == content(self.attribute_map()@[i].1.info())
                &&& a.spec_owner_element() == Some(r.spec_id())
                &&& a.children().len() == 0
                &&& a.attribute_map()@.len() == 0
            } by {}
        }
        r
    }

    /// Deep structural equality: `equal_view` of the two subtrees.
    pub fn is_equal_node(&self, arg: &NodeRef) -> (r: bool)
        ensures
            r == equal_view(self.view(), arg.view()),
        decreases self,
    {
        proof {
            self.lemma_view_children();
            arg.lemma_view_children();
        }
        if !self.same_content(arg) || !self.as_node().attributes.same_content(&arg.as_node().attributes) {
            return false;
        }
        let a = &self.as_node().children.nodes;
        let b = &arg.as_node().children.nodes;
        if a.len() != b.len() {
            return false;
        }
        let mut i: usize = 0;
        while i < a.len()
            invariant
                a@ == self.children(),
                b@ == arg.children(),
                a@.len() == b@.len(),
                i <= a@.len(),
                forall|k: int| 0 <= k < i ==> equal_view(#[trigger] self.view().children[k], arg.view().children[k]),
            decreases a@.len() - i,
        {
            if !a[i].is_equal_node(&b[i]) {
                proof {
                    self.lemma_view_children();
                    arg.lemma_view_children();
                    assert(self.view().children[i as int] == a@[i as int].view());
                    assert(arg.view().children[i as int] == b@[i as int].view());
                }
                return false;
            }
            i += 1;
        }
        true
    }
}

/// The text a value holds; an absent value holds none.
pub open spec fn text_of(v: Option<Seq<char>>) -> Seq<char> {
    match v {
        Some(t) => t,
        None => Seq::empty(),
    }
}

/// The views of a sequence of nodes.
pub open spec fn views(s: Seq<NodeRef>) -> Seq<NodeView> {
    Seq::new(s.len(), |i: int| s[i].view())
}

/// `v` with the text of `t` appended to its value.
pub open spec fn appended(v: NodeView, t: Seq<char>) -> NodeView {
    NodeView { info: NodeInfo { value: Some(text_of(v.info.value) + t), ..v.info }, ..v }
}

/// The children `s` once normalized: each run of adjacent Text nodes becomes
/// its first non-empty member holding the whole run's text, Text nodes left
/// without text are dropped, and every other child is normalized in turn.
pub open spec fn normalized_children(s: Seq<NodeView>) -> Seq<NodeView>
    decreases s,
{
    if s.len() == 0 {
        Seq::empty()
    } else {
        let acc = normalized_children(s.subrange(0, s.len() - 1));
        let c = s[s.len() - 1];
        if c.info.kind == NodeType::TextNode {
            if acc.len() > 0 && acc[acc.len() - 1].info.kind == NodeType::TextNode {
                acc.update(acc.len() - 1, appended(acc[acc.len() - 1], text_of(c.info.value)))
            } else if text_of(c.info.value).len() > 0 {
                acc.push(c)
            } else {
                acc
            }
        } else {
            acc.push(normalized(c))
        }
    }
}

/// The subtree `v` once normalized.
pub open spec fn normalized(v: NodeView) -> NodeView
    decreases v,
{
    NodeView { children: normalized_children(v.children), ..v }
}

impl NodeRef {
    proof fn lemma_children_vec_decreases(self)
        ensures
            decreases_to!(self => self.node().children.nodes),
    {
        match self {
            NodeRef::DocumentFragment(n) => assert(decreases_to!(self => n.node.children.nodes)),
            NodeRef::Attr(n) => assert(decreases_to!(self => n.node.children.nodes)),
            NodeRef::Element(n) => assert(decreases_to!(self => n.node.children.nodes)),
            NodeRef::Text(n) => assert(decreases_to!(self => n.node.children.nodes)),
            NodeRef::Comment(n) => assert(decreases_to!(self => n.node.children.nodes)),
            NodeRef::CDATASection(n) => assert(decreases_to!(self => n.node.children.nodes)),
            NodeRef::Notation(n) => assert(decreases_to!(self => n.node.children.nodes)),
            NodeRef::Entity(n) => assert(decreases_to!(self => n.node.children.nodes)),
            NodeRef::EntityReference(n) => assert(decreases_to!(self => n.node.children.nodes)),
            NodeRef::ProcessingInstruction(n) => assert(decreases_to!(self => n.node.children.nodes)),
        }
    }

    proof fn lemma_views(self)
        ensures
            self.view().children == views(self.children()),
    {
        self.lemma_view_children();
        assert(self.view().children =~= views(self.children()));
    }

    /// Takes the children out, leaving none.
    fn take_children(&mut self) -> (r: Vec<NodeRef>)
        ensures
            r@ == old(self).children(),
            r == old(self).node().children.nodes,
            NodeRef::same_but_children(*old(self), *final(self)),
            final(self).children().len() == 0,
            final(self).kind() == old(self).kind(),
    {
        let v = self.children_mut();
        let mut r: Vec<NodeRef> = Vec::new();
        std::mem::swap(v, &mut r);
        r
    }

    /// Puts `c` as the children, in place of none.
    fn put_children(&mut self, c: Vec<NodeRef>)
        ensures
            NodeRef::same_but_children(*old(self), *final(self)),
            final(self).children() == c@,
            final(self).kind() == old(self).kind(),
    {
        let v = self.children_mut();
        *v = c;
    }

    proof fn lemma_view_from_parts(a: NodeRef, b: NodeRef)
        requires
            NodeRef::same_but_children(a, b),
        ensures
            b.view() == (NodeView { children: views(b.children()), ..a.view() }),
    {
        a.lemma_views();
        b.lemma_views();
    }

    /// Appends `t` to the value of this childless node.
    fn append_value(&mut self, t: &str)
        ensures
            final(self).view() == appended(old(self).view(), t@),
            final(self).kind() == old(self).kind(),
            final(self).spec_id() == old(self).spec_id(),
    {
        let ghost before = *self;
        let n = self.as_mut_node();
        match &mut n.value {
            Some(v) => {
                v.append(t);
            },
            None => {
                n.value = Some(t.to_owned());
            },
        }
        proof {
            before.lemma_views();
            self.lemma_views();
            assert(views(self.children()) =~= views(before.children()));
        }
    }

    /// The text of this node's value.
    fn value_str(&self) -> (r: &str)
        ensures
            r@ == text_of(self.info().value),
    {
        match &self.as_node().value {
            Some(v) => v.as_str(),
            None => {
                proof {
                    reveal_strlit("");
                }
                ""
            },
        }
    }

    /// Normalizes a node taken by value.
    fn normalized_node(n: NodeRef) -> (r: NodeRef)
        ensures
            r.view() == normalized(n.view()),
            r.kind() == n.kind(),
            r.spec_id() == n.spec_id(),
        decreases n, 1int,
    {
        let mut m = n;
        let c = m.take_children();
        proof {
            assert(c@ == n.children());
            n.lemma_children_vec_decreases();
            assert(c == n.node().children.nodes);
        }
        let d = NodeRef::normalize_list(c);
        m.put_children(d);
        proof {
            NodeRef::lemma_view_from_parts(n, m);
            n.lemma_views();
        }
        m
    }

    /// Normalizes a sequence of siblings.
    fn normalize_list(list: Vec<NodeRef>) -> (r: Vec<NodeRef>)
        ensures
            views(r@) == normalized_children(views(list@)),
        decreases list, 0int,
    {
        let ghost all = list@;
        let mut rest = list;
        let mut acc: Vec<NodeRef> = Vec::new();
        let ghost mut k: int = 0;
        assert(views(all).subrange(0, 0) =~= Seq::<NodeView>::empty());
        assert(views(acc@) =~= Seq::<NodeView>::empty());
        while rest.len() > 0
            invariant
                0 <= k <= all.len(),
                rest@ == all.subrange(k, all.len() as int),
                views(acc@) == normalized_children(views(all).subrange(0, k)),
                all == list@,
            decreases rest@.len(),
        {
            let c = rest.remove(0);
            let ghost t = views(all).subrange(0, k + 1);
            assert(c == all[k]);
            assert(t.subrange(0, k) =~= views(all).subrange(0, k));
            assert(t[k] == c.view());
            let ghost prev = views(acc@);
            if c.node_type() == NodeType::TextNode {
                let merge = if acc.len() > 0 {
                    acc[acc.len() - 1].node_type() == NodeType::TextNode
                } else {
                    false
                };
                if merge {
                    let mut last = acc.pop().unwrap();
                    last.append_value(c.value_str());
                    acc.push(last);
                    assert(views(acc@) =~= prev.update(prev.len() - 1, appended(prev[prev.len() - 1], text_of(c.view().info.value))));
                } else if !c.value_str().is_empty() {
                    acc.push(c);
                    assert(views(acc@) =~= prev.push(c.view()));
                }
            } else {
                proof {
                    assert(decreases_to!(list => list@));
                    assert(decreases_to!(list@ => list@[k]));
                }
                let d = NodeRef::normalized_node(c);
                acc.push(d);
                assert(views(acc@) =~= prev.push(normalized(c.view())));
            }
            proof {
                k = k + 1;
            }
            assert(rest@ =~= all.subrange(k, all.len() as int));
        }
        assert(views(all).subrange(0, k) =~= views(all));
        acc
    }

    /// Merges every run of adjacent Text children into one, drops Text
    /// children without text, and normalizes the other children.
    pub fn normalize(&mut self)
        ensures
            final(self).view() == normalized(old(self).view()),
            final(self).kind() == old(self).kind(),
            final(self).spec_id() == old(self).spec_id(),
    {
        let ghost before = *self;
        let c = self.take_children();
        let d = NodeRef::normalize_list(c);
        self.put_children(d);
        proof {
            NodeRef::lemma_view_from_parts(before, *self);
            before.lemma_views();
        }
    }
}

impl NodeRef {
    /// A new node of kind `kind` with identity `id`, no owner, no attributes
    /// and no children.
    pub(crate) fn make(
        kind: NodeType,
        id: NodeId,
        name: String,
        namespace_uri: Option<String>,
        prefix: Option<String>,
        local_name: Option<String>,
        value: Option<String>,
    ) -> (r: NodeRef)
        requires
            kind != NodeType::DocumentNode,
            kind != NodeType::DocumentTypeNode,
        ensures
            r.kind() == kind,
            r.info() == (NodeInfo {
                kind,
                id,
                name: name@,
                namespace_uri: opt_string_view(namespace_uri),
                prefix: opt_string_view(prefix),
                local_name: opt_string_view(local_name),
                value: opt_string_view(value),
                owner_element: None,
            }),
            r.children().len() == 0,
            r.attribute_map()@.len() == 0,
            r.attribute_map().wf(),
            r.attribute_map().spec_node_type() == kind,
            r.attribute_map().spec_owner() == Some(id),
            ids_below(r.view(), id.document, id.serial as nat + 1),
    {
        let node = NodeData {
            id,
            name,
            namespace_uri,
            prefix,
            local_name,
            value,
            owner_element: None,
            attributes: NamedNodeMap::new(kind, Some(id)),
            children: NodeList::new(),
        };
        let r = match kind {
            NodeType::ElementNode => NodeRef::Element(Element { node }),
            NodeType::AttributeNode => NodeRef::Attr(Attr { node }),
            NodeType::TextNode => NodeRef::Text(Text { node }),
            NodeType::CDATASectionNode => NodeRef::CDATASection(CDATASection { node }),
            NodeType::EntityReferenceNode => NodeRef::EntityReference(EntityReference { node }),
            NodeType::EntityNode => NodeRef::Entity(Entity { node }),
            NodeType::ProcessingInstructionNode => NodeRef::ProcessingInstruction(ProcessingInstruction { node }),
            NodeType::CommentNode => NodeRef::Comment(Comment { node }),
            NodeType::NotationNode => NodeRef::Notation(Notation { node }),
            _ => NodeRef::DocumentFragment(DocumentFragment { node }),
        };
        proof {
            r.lemma_views();
            r.lemma_view_children();
            assert(r.view().attributes.len() == 0);
        }
        r
    }

    /// The value of the node: the data of character nodes and processing
    /// instructions, the value of an Attr; none for the other kinds.
    pub fn node_value(&self) -> (r: Option<&str>)
        ensures
            opt_view(r) == self.info().value,
    {
        match &self.as_node().value {
            Some(v) => Some(v.as_str()),
            None => None,
        }
    }

    /// Sets the value of a node that has one; on the other kinds this does
    /// nothing.
    pub fn set_node_value(&mut self, value: &str)
        ensures
            final(self).kind() == old(self).kind(),
            final(self).spec_id() == old(self).spec_id(),
            final(self).children() == old(self).children(),
            final(self).attribute_map() == old(self).attribute_map(),
            has_value(old(self).kind()) ==> final(self).info() == (NodeInfo { value: Some(value@), ..old(self).info() }),
            !has_value(old(self).kind()) ==> *final(self) == *old(self),
    {
        let k = self.node_type();
        if k == NodeType::AttributeNode || k == NodeType::TextNode || k == NodeType::CDATASectionNode
            || k == NodeType::CommentNode || k == NodeType::ProcessingInstructionNode {
            let n = self.as_mut_node();
            n.value = Some(value.to_owned());
        }
    }

    pub fn namespace_uri(&self) -> (r: Option<&str>)
        ensures
            opt_view(r) == self.info().namespace_uri,
    {
        match &self.as_node().namespace_uri {
            Some(v) => Some(v.as_str()),
            None => None,
        }
    }

    pub fn local_name(&self) -> (r: Option<&str>)
        ensures
            opt_view(r) == self.info().local_name,
    {
        match &self.as_node().local_name {
            Some(v) => Some(v.as_str()),
            None => None,
        }
    }

    pub fn prefix(&self) -> (r: Option<&str>)
        ensures
            opt_view(r) == self.info().prefix,
    {
        match &self.as_node().prefix {
            Some(v) => Some(v.as_str()),
            None => None,
        }
    }

    /// Sets the attribute `attr` of this element: `set_named_item` on its
    /// attributes. Other kinds have no attributes and fail with
    /// HierarchyRequest.
    pub fn set_attribute_node(&mut self, attr: NodeRef) -> (r: crate::exception::Result<Option<NodeRef>>)
        ensures
            old(self).kind() != NodeType::ElementNode ==> r == Err::<Option<NodeRef>, DOMException>(DOMException::HierarchyRequest) && *final(self) == *old(self),
            old(self).kind() == NodeType::ElementNode ==> {
                &&& final(self).info() == old(self).info()
                &&& final(self).children() == old(self).children()
                &&& match old(self).attribute_map().set_error(attr) {
                    Some(e) => r == Err::<Option<NodeRef>, DOMException>(e) && final(self).attribute_map()@ == old(self).attribute_map()@,
                    None => match crate::named_node_map::key_index(old(self).attribute_map()@, crate::named_node_map::name_key(attr.name())) {
                        Some(i) => r == Ok::<Option<NodeRef>, DOMException>(Some(crate::named_node_map::detach(old(self).attribute_map()@[i].1)))
                            && final(self).attribute_map()@ == old(self).attribute_map()@.update(i, (crate::named_node_map::name_key(attr.name()), crate::named_node_map::attach(attr, old(self).attribute_map().spec_owner()))),
                        None => r == Ok::<Option<NodeRef>, DOMException>(None)
                            && final(self).attribute_map()@ == old(self).attribute_map()@.push((crate::named_node_map::name_key(attr.name()), crate::named_node_map::attach(attr, old(self).attribute_map().spec_owner()))),
                    },
                }
            },
    {
        match self {
            NodeRef::Element(e) => e.node.attributes.set_named_item(attr),
            _ => Err(DOMException::HierarchyRequest),
        }
    }

    /// The attribute of this element named `name`, if any.
    pub fn get_attribute_node(&self, name: &str) -> (r: Option<&NodeRef>)
        ensures
            self.kind() != NodeType::ElementNode ==> r.is_none(),
            self.kind() == NodeType::ElementNode ==> r == match crate::named_node_map::key_index(self.attribute_map()@, crate::named_node_map::name_key(name@)) {
                Some(i) => Some(&self.attribute_map()@[i].1),
                None => None::<&NodeRef>,
            },
    {
        match self {
            NodeRef::Element(e) => e.node.attributes.get_named_item(name),
            _ => None,
        }
    }
}

/// The kinds of node whose value can be set.
pub open spec fn has_value(k: NodeType) -> bool {
    k == NodeType::AttributeNode || k == NodeType::TextNode || k == NodeType::CDATASectionNode
        || k == NodeType::CommentNode || k == NodeType::ProcessingInstructionNode
}

/// Structural equality is reflexive.
pub proof fn lemma_equal_view_reflexive(a: NodeView)
    ensures
        equal_view(a, a),
    decreases a,
{
    assert forall|i: int| 0 <= i < a.children.len() implies equal_view(#[trigger] a.children[i], a.children[i]) by {
        lemma_equal_view_reflexive(a.children[i]);
    }
}

/// Structural equality is symmetric.
pub proof fn lemma_equal_view_symmetric(a: NodeView, b: NodeView)
    requires
        equal_view(a, b),
    ensures
        equal_view(b, a),
    decreases a,
{
    assert forall|i: int| 0 <= i < b.children.len() implies equal_view(#[trigger] b.children[i], a.children[i]) by {
        lemma_equal_view_symmetric(a.children[i], b.children[i]);
    }
}

/// A copy made by `clone_node` from counter `next` of document `d`, of a node
/// none of whose identities in `d` reach `next`, is another node: neither it,
/// nor any node or attribute of its subtree, is a node or attribute of the
/// source. A deep copy is moreover equal to its source in both directions
/// (`is_equal_node` holds either way).
pub proof fn lemma_clone_is_new_node(n: NodeRef, copy: NodeRef, deep: bool, d: u64, next: nat, hi: nat)
    requires
        ids_below(n.view(), d, next),
        ids_within(copy.view(), d, next, hi),
        deep ==> equal_view(copy.view(), n.view()),
    ensures
        copy.spec_id() != n.spec_id(),
        forall|id: NodeId| subtree_has_id(copy.view(), id) ==> !subtree_has_id(n.view(), id),
        forall|i: int, j: int| 0 <= i < copy.view().attributes.len() && 0 <= j < n.view().attributes.len()
            ==> copy.view().attributes[i].1.id != n.view().attributes[j].1.id,
        deep ==> equal_view(copy.view(), n.view()) && equal_view(n.view(), copy.view()),
{
    n.lemma_view_children();
    copy.lemma_view_children();
    assert forall|id: NodeId| subtree_has_id(copy.view(), id) implies !subtree_has_id(n.view(), id) by {
        lemma_fresh_ids_are_new(n.view(), copy.view(), d, next, hi, id);
    }
    assert(subtree_has_id(copy.view(), copy.spec_id()));
    assert forall|i: int, j: int| 0 <= i < copy.view().attributes.len() && 0 <= j < n.view().attributes.len()
        implies copy.view().attributes[i].1.id != n.view().attributes[j].1.id by {
        assert(id_within(copy.view().attributes[i].1.id, d, next, hi));
    }
    if deep {
        lemma_equal_view_symmetric(copy.view(), n.view());
    }
}

/// What user data handlers are told has happened to a node.
#[derive(Debug, Clone, Copy, PartialEq, Eq, Structural)]
pub enum UserDataHandlerOperationType {
    Cloned,
    Imported,
    Deleted,
    Removed,
    Adopted,
}

impl NodeRef {
    /// A snapshot of this node: a copy of the subtree that keeps every
    /// identity and owner, so that it counts as the same node. It is a
    /// separate value: changing it, or placing it in a tree, leaves the
    /// original where and as it was. Use it to name a node in a query
    /// (`remove_child`, `insert_before`, `is_same_node`), not to move a node;
    /// a node is moved by removing it and inserting the value handed back.
    pub fn handle(&self) -> (r: NodeRef)
        ensures
            r.view() == self.view(),
            r.kind() == self.kind(),
        decreases self,
    {
        let d = self.as_node();
        let attributes = d.attributes.handles();
        let ch = &d.children.nodes;
        let mut children: Vec<NodeRef> = Vec::new();
        let mut i: usize = 0;
        while i < ch.len()
            invariant
                ch@ == self.children(),
                i <= ch@.len(),
                children@.len() == i,
                forall|k: int| 0 <= k < i ==> (#[trigger] children@[k]).view() == self.children()[k].view(),
            decreases ch@.len() - i,
        {
            let c = ch[i].handle();
            children.push(c);
            i += 1;
        }
        let data = NodeData {
            id: d.id,
            name: d.name.clone(),
            namespace_uri: opt_string_clone(&d.namespace_uri),
            prefix: opt_string_clone(&d.prefix),
            local_name: opt_string_clone(&d.local_name),
            value: opt_string_clone(&d.value),
            owner_element: d.owner_element,
            attributes,
            children: NodeList { nodes: children },
        };
        let r = self.rebuild(data);
        proof {
            r.lemma_views();
            self.lemma_views();
            assert(views(r.children()) =~= views(self.children()));
            assert(attribute_infos(r.attribute_map()@) =~= attribute_infos(self.attribute_map()@));
        }
        r
    }
}

/// Whether `v` is an element that a query for the tag `name` selects; the
/// name `*` selects every element.
pub open spec fn tag_matches(v: NodeView, name: Seq<char>) -> bool {
    v.info.kind == NodeType::ElementNode && (name == "*"@ || v.info.name == name)
}

/// The elements of the forest `s` that the tag `name` selects, in document
/// order.
pub open spec fn elements_in(s: Seq<NodeView>, name: Seq<char>) -> Seq<NodeView>
    decreases s,
{
    if s.len() == 0 {
        Seq::empty()
    } else {
        elements_in(s.subrange(0, s.len() - 1), name) + subtree_elements(s[s.len() - 1], name)
    }
}

/// The elements of the subtree `v` that the tag `name` selects, in document
/// order: `v` itself first.
pub open spec fn subtree_elements(v: NodeView, name: Seq<char>) -> Seq<NodeView>
    decreases v,
{
    (if tag_matches(v, name) { seq![v] } else { Seq::empty() }) + elements_in(v.children, name)
}

fn tag_selects(n: &NodeRef, name: &str) -> (r: bool)
    ensures
        r == tag_matches(n.view(), name@),
{
    proof {
        n.lemma_view_children();
    }
    n.node_type() == NodeType::ElementNode && (name.to_owned() == "*".to_owned() || n.node_name().to_owned()
        == name.to_owned())
}

impl NodeList {
    /// Appends to `out` handles on the elements of these subtrees that the tag
    /// `name` selects, in document order.
    pub fn collect_elements(&self, name: &str, out: &mut Vec<NodeRef>)
        ensures
            views(final(out)@) == views(old(out)@) + elements_in(views(self@), name@),
        decreases self, 0int,
    {
        let ghost all = views(self@);
        let ghost start = views(out@);
        let mut i: usize = 0;
        assert(all.subrange(0, 0) =~= Seq::<NodeView>::empty());
        assert(views(out@) =~= start + elements_in(all.subrange(0, 0), name@));
        while i < self.nodes.len()
            invariant
                all == views(self@),
                i <= self@.len(),
                views(out@) == start + elements_in(all.subrange(0, i as int), name@),
            decreases self@.len() - i,
        {
            let ghost before = views(out@);
            proof {
                assert(decreases_to!(self => self.nodes));
                assert(decreases_to!(self.nodes => self.nodes@));
            }
            self.nodes[i].collect_subtree(name, out);
            let ghost t = all.subrange(0, i + 1);
            assert(t.subrange(0, i as int) =~= all.subrange(0, i as int));
            assert(t[i as int] == self@[i as int].view());
            assert(views(out@) =~= start + elements_in(all.subrange(0, i + 1), name@));
            i += 1;
        }
        assert(all.subrange(0, self@.len() as int) =~= all);
    }
}

impl NodeRef {
    /// Appends to `out` handles on the elements of this subtree that the tag
    /// `name` selects, in document order.
    pub fn collect_subtree(&self, name: &str, out: &mut Vec<NodeRef>)
        ensures
            views(final(out)@) == views(old(out)@) + subtree_elements(self.view(), name@),
        decreases self, 1int,
    {
        let ghost start = views(out@);
        proof {
            self.lemma_views();
            self.lemma_children_vec_decreases();
        }
        if tag_selects(self, name) {
            let h = self.handle();
            out.push(h);
            assert(views(out@) =~= start + seq![self.view()]);
        } else {
            assert(views(out@) =~= start + Seq::<NodeView>::empty());
        }
        let ghost mid = views(out@);
        proof {
            assert(decreases_to!(self => self.node().children));
        }
        self.as_node().children.collect_elements(name, out);
        assert(views(out@) =~= start + subtree_elements(self.view(), name@));
    }

    /// Handles on the descendant elements that the tag `name` selects (`*`
    /// selects all), in document order: a snapshot, not a live view.
    pub fn get_elements_by_tag_name(&self, name: &str) -> (r: NodeList)
        ensures
            views(r@) == elements_in(self.view().children, name@),
    {
        let mut out: Vec<NodeRef> = Vec::new();
        proof {
            self.lemma_views();
        }
        self.as_node().children.collect_elements(name, &mut out);
        assert(views(out@) =~= elements_in(self.view().children, name@));
        NodeList::from_vec(out)
    }
}

/// Whether nodes of kind `k` carry their own text.
pub open spec fn holds_text(k: NodeType) -> bool {
    k == NodeType::TextNode || k == NodeType::CDATASectionNode || k == NodeType::CommentNode
        || k == NodeType::ProcessingInstructionNode || k == NodeType::AttributeNode
}

/// The text content of a subtree: its own text for a node that carries text,
/// else the text content of its children, comments and processing
/// instructions aside, concatenated in order.
pub open spec fn text_content_of(v: NodeView) -> Seq<char>
    decreases v,
{
    if holds_text(v.info.kind) {
        text_of(v.info.value)
    } else {
        children_text(v.children)
    }
}

/// The concatenated text content of the siblings `s`, comments and processing
/// instructions aside.
pub open spec fn children_text(s: Seq<NodeView>) -> Seq<char>
    decreases s,
{
    if s.len() == 0 {
        Seq::empty()
    } else {
        let last = s[s.len() - 1];
        children_text(s.subrange(0, s.len() - 1)) + if last.info.kind == NodeType::CommentNode
            || last.info.kind == NodeType::ProcessingInstructionNode {
            Seq::empty()
        } else {
            text_content_of(last)
        }
    }
}

impl NodeList {
    /// Appends to `out` the text content of these siblings.
    fn append_text_of(&self, out: &mut String)
        ensures
            final(out)@ == old(out)@ + children_text(views(self@)),
        decreases self, 0int,
    {
        let ghost all = views(self@);
        let ghost start = out@;
        let mut i: usize = 0;
        assert(all.subrange(0, 0) =~= Seq::<NodeView>::empty());
        assert(out@ =~= start + children_text(all.subrange(0, 0)));
        while i < self.nodes.len()
            invariant
                all == views(self@),
                i <= self@.len(),
                out@ == start + children_text(all.subrange(0, i as int)),
            decreases self@.len() - i,
        {
            let ghost t = all.subrange(0, i + 1);
            assert(t.subrange(0, i as int) =~= all.subrange(0, i as int));
            assert(t[i as int] == self@[i as int].view());
            let k = self.nodes[i].node_type();
            proof {
                self@[i as int].lemma_view_children();
            }
            if k == NodeType::CommentNode || k == NodeType::ProcessingInstructionNode {
                assert(out@ =~= start + children_text(all.subrange(0, i + 1)));
            } else {
                proof {
                    assert(decreases_to!(self => self.nodes));
                    assert(decreases_to!(self.nodes => self.nodes@));
                }
                self.nodes[i].append_text_content(out);
                assert(out@ =~= start + children_text(all.subrange(0, i + 1)));
            }
            i += 1;
        }
        assert(all.subrange(0, self@.len() as int) =~= all);
    }
}

impl NodeRef {
    /// Appends the text content of this subtree to `out`.
    fn append_text_content(&self, out: &mut String)
        ensures
            final(out)@ == old(out)@ + text_content_of(self.view()),
        decreases self, 1int,
    {
        proof {
            self.lemma_views();
            self.lemma_children_vec_decreases();
        }
        let k = self.node_type();
        if k == NodeType::TextNode || k == NodeType::CDATASectionNode || k == NodeType::CommentNode
            || k == NodeType::ProcessingInstructionNode || k == NodeType::AttributeNode {
            out.append(self.value_str());
        } else {
            proof {
                assert(decreases_to!(self => self.node().children));
            }
            self.as_node().children.append_text_of(out);
        }
    }

    /// The text content of the subtree (see `text_content_of`).
    pub fn text_content(&self) -> (r: String)
        ensures
            r@ == text_content_of(self.view()),
    {
        let mut out = String::new();
        self.append_text_content(&mut out);
        assert(out@ =~= text_content_of(self.view()));
        out
    }
}

/// The node name that a namespaced node takes with `prefix`.
pub open spec fn prefixed_name(prefix: Option<Seq<char>>, local: Seq<char>) -> Seq<char> {
    match prefix {
        Some(p) => p + ":"@ + local,
        None => local,
    }
}

impl NodeRef {
    /// The error with which `set_prefix` refuses `prefix` on this node, if
    /// any: Namespace for a node without a namespace URI or local name, or
    /// for an empty prefix.
    pub open spec fn prefix_error(self, prefix: Option<Seq<char>>) -> Option<DOMException> {
        if self.kind() != NodeType::ElementNode && self.kind() != NodeType::AttributeNode {
            None
        } else if self.info().namespace_uri.is_none() || self.info().local_name.is_none() {
            Some(DOMException::Namespace)
        } else if prefix.is_some() && prefix.unwrap().len() == 0 {
            Some(DOMException::Namespace)
        } else {
            None
        }
    }

    /// Sets the namespace prefix of an element or attribute, and its node
    /// name with it. Other kinds have no prefix: for them this does nothing.
    pub fn set_prefix(&mut self, prefix: Option<&str>) -> (r: crate::exception::Result<()>)
        ensures
            match old(self).prefix_error(opt_view(prefix)) {
                Some(e) => r == Err::<(), DOMException>(e) && *final(self) == *old(self),
                None => r == Ok::<(), DOMException>(()) && if old(self).kind() == NodeType::ElementNode
                    || old(self).kind() == NodeType::AttributeNode {
                    &&& final(self).info() == (NodeInfo {
                        prefix: opt_view(prefix),
                        name: prefixed_name(opt_view(prefix), old(self).info().local_name.unwrap()),
                        ..old(self).info()
                    })
                    &&& final(self).children() == old(self).children()
                    &&& final(self).attribute_map() == old(self).attribute_map()
                } else {
                    *final(self) == *old(self)
                },
            },
    {
        let k = self.node_type();
        if k != NodeType::ElementNode && k != NodeType::AttributeNode {
            return Ok(());
        }
        let d = self.as_node();
        if d.namespace_uri.is_none() || d.local_name.is_none() {
            return Err(DOMException::Namespace);
        }
        let local = match &d.local_name {
            Some(l) => l.clone(),
            None => String::new(),
        };
        let (name, p) = match prefix {
            Some(p) => {
                if p.is_empty() {
                    return Err(DOMException::Namespace);
                }
                (p.to_owned().concat(":").concat(local.as_str()), Some(p.to_owned()))
            },
            None => (local, None),
        };
        let n = self.as_mut_node();
        n.name = name;
        n.prefix = p;
        Ok(())
    }
}

/// No Text node in `s` is empty, and no two Text nodes stand side by side.
pub open spec fn text_runs_merged(s: Seq<NodeView>) -> bool {
    &&& forall|i: int| 0 <= i < s.len() && (#[trigger] s[i]).info.kind == NodeType::TextNode ==> text_of(s[i].info.value).len() > 0
    &&& forall|i: int, j: int|
        0 <= i && j == i + 1 && j < s.len() && (#[trigger] s[i]).info.kind == NodeType::TextNode ==> (#[trigger] s[j]).info.kind
            != NodeType::TextNode
}

proof fn lemma_merged_update_last(acc: Seq<NodeView>, v: NodeView)
    requires
        text_runs_merged(acc),
        acc.len() > 0,
        acc[acc.len() - 1].info.kind == NodeType::TextNode,
        v.info.kind == NodeType::TextNode,
        text_of(v.info.value).len() > 0,
    ensures
        text_runs_merged(acc.update(acc.len() - 1, v)),
{
    let r = acc.update(acc.len() - 1, v);
    assert forall|i: int, j: int|
        0 <= i && j == i + 1 && j < r.len() && (#[trigger] r[i]).info.kind == NodeType::TextNode implies (#[trigger] r[j]).info.kind
            != NodeType::TextNode by {
        assert(r[i] == acc[i]);
        assert(r[j].info.kind == acc[j].info.kind);
    }
    assert forall|i: int| 0 <= i < r.len() && (#[trigger] r[i]).info.kind == NodeType::TextNode implies text_of(r[i].info.value).len() > 0 by {
        if i < acc.len() - 1 {
            assert(r[i] == acc[i]);
        }
    }
}

proof fn lemma_merged_push(acc: Seq<NodeView>, v: NodeView)
    requires
        text_runs_merged(acc),
        v.info.kind == NodeType::TextNode ==> text_of(v.info.value).len() > 0 && (acc.len() == 0
            || acc[acc.len() - 1].info.kind != NodeType::TextNode),
    ensures
        text_runs_merged(acc.push(v)),
{
    let r = acc.push(v);
    assert forall|i: int| 0 <= i < r.len() && (#[trigger] r[i]).info.kind == NodeType::TextNode implies text_of(r[i].info.value).len() > 0 by {
        if i < acc.len() {
            assert(r[i] == acc[i]);
        }
    }
    assert forall|i: int, j: int|
        0 <= i && j == i + 1 && j < r.len() && (#[trigger] r[i]).info.kind == NodeType::TextNode implies (#[trigger] r[j]).info.kind
            != NodeType::TextNode by {
        assert(r[i] == acc[i]);
        if j < acc.len() {
            assert(r[j] == acc[j]);
        }
    }
}

/// Once normalized, children hold no empty Text node and no two adjacent Text
/// nodes.
pub proof fn lemma_normalized_children_merged(s: Seq<NodeView>)
    ensures
        text_runs_merged(normalized_children(s)),
    decreases s.len(),
{
    if s.len() > 0 {
        let prefix = s.subrange(0, s.len() - 1);
        lemma_normalized_children_merged(prefix);
        let acc = normalized_children(prefix);
        let c = s[s.len() - 1];
        if c.info.kind == NodeType::TextNode {
            if acc.len() > 0 && acc[acc.len() - 1].info.kind == NodeType::TextNode {
                let last = acc[acc.len() - 1];
                assert(text_of(last.info.value).len() > 0);
                lemma_merged_update_last(acc, appended(last, text_of(c.info.value)));
            } else if text_of(c.info.value).len() > 0 {
                lemma_merged_push(acc, c);
            }
        } else {
            lemma_merged_push(acc, normalized(c));
        }
    }
}

impl NodeRef {
    /// After `normalize`, the children hold no empty Text node and no two
    /// adjacent Text nodes.
    pub proof fn lemma_normalize_merges_text(before: NodeRef, after: NodeRef)
        requires
            after.view() == normalized(before.view()),
        ensures
            text_runs_merged(after.view().children),
            after.view().children.len() <= before.view().children.len(),
    {
        lemma_normalized_children_merged(before.view().children);
        lemma_normalized_children_len(before.view().children);
    }
}

proof fn lemma_normalized_children_len(s: Seq<NodeView>)
    ensures
        normalized_children(s).len() <= s.len(),
    decreases s.len(),
{
    if s.len() > 0 {
        lemma_normalized_children_len(s.subrange(0, s.len() - 1));
    }
}

/// `id` belongs to document `d` and has a serial in `lo..hi`.
pub open spec fn id_within(id: NodeId, d: u64, lo: nat, hi: nat) -> bool {
    id.document == d && lo <= id.serial && id.serial < hi
}

/// Every identity in the subtree `v`, its attributes' included, belongs to
/// document `d` and has a serial in `lo..hi`.
pub open spec fn ids_within(v: NodeView, d: u64, lo: nat, hi: nat) -> bool
    decreases v,
{
    &&& id_within(v.info.id, d, lo, hi)
    &&& forall|i: int| 0 <= i < v.attributes.len() ==> id_within(#[trigger] v.attributes[i].1.id, d, lo, hi)
    &&& forall|i: int| 0 <= i < v.children.len() ==> ids_within(#[trigger] v.children[i], d, lo, hi)
}

/// How many identities a copy of `v` takes: one for the node, one for each
/// attribute and, when `deep`, those of copies of its children.
pub open spec fn ids_needed(v: NodeView, deep: bool) -> nat
    decreases v,
{
    1 + v.attributes.len() + if deep { ids_needed_all(v.children) } else { 0 }
}

/// How many identities deep copies of the siblings `s` take.
pub open spec fn ids_needed_all(s: Seq<NodeView>) -> nat
    decreases s,
{
    if s.len() == 0 {
        0
    } else {
        ids_needed_all(s.subrange(0, s.len() - 1)) + ids_needed(s[s.len() - 1], true)
    }
}

proof fn lemma_ids_needed_prefix(s: Seq<NodeView>, i: int)
    requires
        0 <= i <= s.len(),
    ensures
        ids_needed_all(s.subrange(0, i)) <= ids_needed_all(s),
    decreases s.len() - i,
{
    if i < s.len() {
        lemma_ids_needed_prefix(s, i + 1);
        let t = s.subrange(0, i + 1);
        assert(t.subrange(0, i) =~= s.subrange(0, i));
    } else {
        assert(s.subrange(0, i) =~= s);
    }
}

proof fn lemma_ids_within_widen(v: NodeView, d: u64, lo: nat, hi: nat, lo2: nat, hi2: nat)
    requires
        ids_within(v, d, lo, hi),
        lo2 <= lo,
        hi <= hi2,
    ensures
        ids_within(v, d, lo2, hi2),
    decreases v,
{
    assert forall|i: int| 0 <= i < v.children.len() implies ids_within(#[trigger] v.children[i], d, lo2, hi2) by {
        lemma_ids_within_widen(v.children[i], d, lo, hi, lo2, hi2);
    }
}

/// No node of the subtree `v` is a node of document `d` with a serial at or
/// past `next`.
pub open spec fn ids_below(v: NodeView, d: u64, next: nat) -> bool
    decreases v,
{
    &&& (v.info.id.document == d ==> v.info.id.serial < next)
    &&& forall|i: int| 0 <= i < v.attributes.len() ==> ((#[trigger] v.attributes[i].1.id).document == d ==> v.attributes[i].1.id.serial < next)
    &&& forall|i: int| 0 <= i < v.children.len() ==> ids_below(#[trigger] v.children[i], d, next)
}

pub proof fn lemma_ids_below_mono(v: NodeView, d: u64, lo: nat, hi: nat)
    requires
        ids_below(v, d, lo),
        lo <= hi,
    ensures
        ids_below(v, d, hi),
    decreases v,
{
    assert forall|i: int| 0 <= i < v.children.len() implies ids_below(#[trigger] v.children[i], d, hi) by {
        lemma_ids_below_mono(v.children[i], d, lo, hi);
    }
}

/// Identities of document `d` with serials below `hi` stand below `hi`.
pub proof fn lemma_within_below(v: NodeView, d: u64, lo: nat, hi: nat)
    requires
        ids_within(v, d, lo, hi),
    ensures
        ids_below(v, d, hi),
    decreases v,
{
    assert forall|i: int| 0 <= i < v.children.len() implies ids_below(#[trigger] v.children[i], d, hi) by {
        lemma_within_below(v.children[i], d, lo, hi);
    }
    assert forall|i: int| 0 <= i < v.attributes.len() implies ((#[trigger] v.attributes[i].1.id).document == d ==> v.attributes[i].1.id.serial < hi) by {
        assert(id_within(v.attributes[i].1.id, d, lo, hi));
    }
}

/// No identity of a subtree within document `d`'s serials `next..` is one of
/// a subtree whose identities in `d` all stand below `next`.
pub proof fn lemma_fresh_ids_are_new(old_tree: NodeView, copy: NodeView, d: u64, next: nat, hi: nat, id: NodeId)
    requires
        ids_below(old_tree, d, next),
        ids_within(copy, d, next, hi),
        subtree_has_id(copy, id),
    ensures
        !subtree_has_id(old_tree, id),
    decreases copy,
{
    if copy.info.id == id {
        lemma_ids_below_excludes(old_tree, d, next, id);
    } else {
        let i = choose|i: int| 0 <= i < copy.children.len() && subtree_has_id(#[trigger] copy.children[i], id);
        lemma_fresh_ids_are_new(old_tree, copy.children[i], d, next, hi, id);
    }
}

proof fn lemma_ids_below_excludes(v: NodeView, d: u64, next: nat, id: NodeId)
    requires
        ids_below(v, d, next),
        id.document == d,
        next <= id.serial,
    ensures
        !subtree_has_id(v, id),
    decreases v,
{
    assert forall|i: int| 0 <= i < v.children.len() implies !subtree_has_id(#[trigger] v.children[i], id) by {
        lemma_ids_below_excludes(v.children[i], d, next, id);
    }
}

/// Normalizing keeps every identity of a subtree below a bound.
pub proof fn lemma_normalized_below(v: NodeView, d: u64, next: nat)
    requires
        ids_below(v, d, next),
    ensures
        ids_below(normalized(v), d, next),
    decreases v,
{
    assert forall|i: int| 0 <= i < v.children.len() implies ids_below(#[trigger] v.children[i], d, next) by {}
    lemma_normalized_children_below(v.children, d, next);
    let n = normalized(v);
    assert(n.info == v.info && n.attributes == v.attributes && n.children == normalized_children(v.children));
    assert forall|i: int| 0 <= i < n.attributes.len() implies ((#[trigger] n.attributes[i].1.id).document == d ==> n.attributes[i].1.id.serial < next) by {
        assert(n.attributes[i] == v.attributes[i]);
    }
}

/// Normalizing siblings keeps every identity of their subtrees below a bound.
pub proof fn lemma_normalized_children_below(s: Seq<NodeView>, d: u64, next: nat)
    requires
        forall|i: int| 0 <= i < s.len() ==> ids_below(#[trigger] s[i], d, next),
    ensures
        forall|i: int| 0 <= i < normalized_children(s).len() ==> ids_below(#[trigger] normalized_children(s)[i], d, next),
    decreases s,
{
    if s.len() > 0 {
        let prefix = s.subrange(0, s.len() - 1);
        assert forall|i: int| 0 <= i < prefix.len() implies ids_below(#[trigger] prefix[i], d, next) by {
            assert(prefix[i] == s[i]);
        }
        lemma_normalized_children_below(prefix, d, next);
        let acc = normalized_children(prefix);
        let c = s[s.len() - 1];
        let r = normalized_children(s);
        if c.info.kind == NodeType::TextNode {
            if acc.len() > 0 && acc[acc.len() - 1].info.kind == NodeType::TextNode {
                let last = acc[acc.len() - 1];
                let m = appended(last, text_of(c.info.value));
                assert(ids_below(last, d, next));
                assert(m.children == last.children && m.attributes == last.attributes && m.info.id == last.info.id);
                assert(ids_below(m, d, next));
                assert forall|i: int| 0 <= i < r.len() implies ids_below(#[trigger] r[i], d, next) by {
                    if i < acc.len() - 1 {
                        assert(r[i] == acc[i]);
                    }
                }
            } else if text_of(c.info.value).len() > 0 {
                assert forall|i: int| 0 <= i < r.len() implies ids_below(#[trigger] r[i], d, next) by {
                    if i < acc.len() {
                        assert(r[i] == acc[i]);
                    }
                }
            }
        } else {
            lemma_normalized_below(c, d, next);
            assert forall|i: int| 0 <= i < r.len() implies ids_below(#[trigger] r[i], d, next) by {
                if i < acc.len() {
                    assert(r[i] == acc[i]);
                }
            }
        }
    }
}
} // verus!
