//! The document: root of the tree and factory of its nodes; the document type;
//! positions in the tree, document order and namespace lookup.
use vstd::prelude::*;
use vstd::string::{StrSliceExecFns, StringExecFns};
use crate::exception::{DOMException, Result};
use crate::features::{opt_string_view, opt_view, Features};
use crate::named_node_map::{key_index, name_key, NamedNodeMap};
use crate::node::{ids_below, NodeId, NodeInfo, NodeList, NodeRef, NodeType, text_of};

verus! {

broadcast use NodeRef::lemma_info_kind;

/// The bits of the mask that `compare_document_position` returns.
pub const DISCONNECTED: u16 = 0x01;
pub const PRECEDING: u16 = 0x02;
pub const FOLLOWING: u16 = 0x04;
pub const CONTAINS: u16 = 0x08;
pub const CONTAINED_BY: u16 = 0x10;
pub const IMPLEMENTATION_SPECIFIC: u16 = 0x20;

/// The relations that `compare_document_position` reports, one bit each.
#[derive(Debug, Clone, Copy, PartialEq, Eq, Structural)]
pub enum DocumentPosition {
    Disconnected,
    Preceding,
    Following,
    Contains,
    ContainedBy,
    ImplementationSpecific,
}

impl DocumentPosition {
    pub open spec fn spec_bit(self) -> u16 {
        match self {
            DocumentPosition::Disconnected => DISCONNECTED,
            DocumentPosition::Preceding => PRECEDING,
            DocumentPosition::Following => FOLLOWING,
            DocumentPosition::Contains => CONTAINS,
            DocumentPosition::ContainedBy => CONTAINED_BY,
            DocumentPosition::ImplementationSpecific => IMPLEMENTATION_SPECIFIC,
        }
    }

    /// The bit of this relation in a position mask.
    pub fn bit(&self) -> (r: u16)
        ensures
            r == self.spec_bit(),
    {
        match self {
            DocumentPosition::Disconnected => DISCONNECTED,
            DocumentPosition::Preceding => PRECEDING,
            DocumentPosition::Following => FOLLOWING,
            DocumentPosition::Contains => CONTAINS,
            DocumentPosition::ContainedBy => CONTAINED_BY,
            DocumentPosition::ImplementationSpecific => IMPLEMENTATION_SPECIFIC,
        }
    }
}

/// The node reached from the sequence `children` by following `path`, a child
/// index per level.
pub open spec fn node_at(children: Seq<NodeRef>, path: Seq<usize>) -> Option<NodeRef>
    decreases path.len(),
{
    if path.len() == 0 || path[0] >= children.len() {
        None
    } else if path.len() == 1 {
        Some(children[path[0] as int])
    } else {
        node_at(children[path[0] as int].children(), path.subrange(1, path.len() as int))
    }
}

/// Where the node at position `b` stands from the node at position `a`, both
/// positions in one tree: an ancestor contains and precedes its descendants;
/// elsewhere the branch with the smaller index at the first difference comes
/// first.
pub open spec fn position_mask(a: Seq<usize>, b: Seq<usize>) -> u16
    decreases a.len(),
{
    if a.len() == 0 && b.len() == 0 {
        0
    } else if a.len() == 0 {
        CONTAINED_BY | FOLLOWING
    } else if b.len() == 0 {
        CONTAINS | PRECEDING
    } else if a[0] != b[0] {
        if b[0] < a[0] {
            PRECEDING
        } else {
            FOLLOWING
        }
    } else {
        position_mask(a.subrange(1, a.len() as int), b.subrange(1, b.len() as int))
    }
}

/// A character that no name may hold.
pub open spec fn forbidden_in_name(c: char) -> bool {
    c == ' ' || c == '\t' || c == '\n' || c == '\r' || c == '<' || c == '>' || c == '&' || c == '"' || c == '\''
        || c == '=' || c == '/'
}

/// The name check of the factories: a non-empty name holding no whitespace
/// and none of the characters that delimit markup. This is a simplified check,
/// not the XML Name production: it accepts names such as `1a` or `-a`.
pub open spec fn markup_free_name(s: Seq<char>) -> bool {
    s.len() > 0 && forall|i: int| 0 <= i < s.len() ==> !forbidden_in_name(#[trigger] s[i])
}

/// Checks a name against `markup_free_name`.
pub fn is_markup_free_name(s: &str) -> (r: bool)
    ensures
        r == markup_free_name(s@),
{
    let n = s.unicode_len();
    if n == 0 {
        return false;
    }
    let mut i: usize = 0;
    while i < n
        invariant
            n == s@.len(),
            i <= n,
            forall|j: int| 0 <= j < i ==> !forbidden_in_name(#[trigger] s@[j]),
        decreases n - i,
    {
        let c = s.get_char(i);
        if c == ' ' || c == '\t' || c == '\n' || c == '\r' || c == '<' || c == '>' || c == '&' || c == '"' || c
            == '\'' || c == '=' || c == '/' {
            return false;
        }
        i += 1;
    }
    true
}

/// The position of the first ':' in `s`, if any.
pub open spec fn colon_index(s: Seq<char>) -> Option<int> {
    if exists|i: int| 0 <= i < s.len() && s[i] == ':' {
        Some(choose|i: int| 0 <= i < s.len() && s[i] == ':' && forall|j: int| 0 <= j < i ==> s[j] != ':')
    } else {
        None
    }
}

/// The prefix and local name of a qualified name, split at its first ':'.
pub open spec fn split_qualified(q: Seq<char>) -> (Option<Seq<char>>, Seq<char>) {
    match colon_index(q) {
        Some(i) => (Some(q.subrange(0, i)), q.subrange(i + 1, q.len() as int)),
        None => (None, q),
    }
}

fn split_qualified_name(q: &str) -> (r: (Option<String>, String))
    ensures
        (opt_string_view(r.0), r.1@) == split_qualified(q@),
{
    let n = q.unicode_len();
    let mut i: usize = 0;
    while i < n
        invariant
            n == q@.len(),
            i <= n,
            forall|j: int| 0 <= j < i ==> q@[j] != ':',
        decreases n - i,
    {
        if q.get_char(i) == ':' {
            let ghost k = choose|k: int| 0 <= k < q@.len() && q@[k] == ':' && forall|j: int| 0 <= j < k ==> q@[j] != ':';
            assert(q@[i as int] == ':');
            proof {
                if k < i {
                    assert(q@[k] != ':');
                }
                if i < k {
                    assert(q@[i as int] != ':');
                }
            }
            let p = q.substring_char(0, i).to_owned();
            let l = q.substring_char(i + 1, n).to_owned();
            return (Some(p), l);
        }
        i += 1;
    }
    (None, q.to_owned())
}

/// The error with which a namespace-aware factory refuses a qualified name:
/// InvalidCharacter for a name that is not `markup_free_name`, Namespace for a prefix
/// without a namespace URI, or an empty prefix or local name.
pub open spec fn qualified_name_error(namespace_uri: Seq<char>, q: Seq<char>) -> Option<DOMException> {
    if !markup_free_name(q) {
        Some(DOMException::InvalidCharacter)
    } else {
        let (p, l) = split_qualified(q);
        if l.len() == 0 || (p.is_some() && (p.unwrap().len() == 0 || namespace_uri.len() == 0)) {
            Some(DOMException::Namespace)
        } else {
            None
        }
    }
}

/// Two tables hold the same keys, in the same order, over nodes of the same
/// kind and equal subtrees (identities included).
pub open spec fn same_table(a: NamedNodeMap, b: NamedNodeMap) -> bool {
    &&& a@.len() == b@.len()
    &&& a.spec_node_type() == b.spec_node_type()
    &&& a.spec_owner() == b.spec_owner()
    &&& forall|i: int| 0 <= i < a@.len() ==> (#[trigger] a@[i]).0 == b@[i].0 && a@[i].1.view() == b@[i].1.view()
        && a@[i].1.kind() == b@[i].1.kind()
}

/// The descriptor of a doctype declaration.
pub struct DocumentType {
    qualified_name: String,
    public_id: String,
    system_id: String,
    entities: NamedNodeMap,
    notations: NamedNodeMap,
    internal_subset: Option<String>,
}

impl DocumentType {
    pub closed spec fn spec_name(self) -> Seq<char> {
        self.qualified_name@
    }

    pub closed spec fn spec_public_id(self) -> Seq<char> {
        self.public_id@
    }

    pub closed spec fn spec_system_id(self) -> Seq<char> {
        self.system_id@
    }

    pub closed spec fn spec_internal_subset(self) -> Option<Seq<char>> {
        opt_string_view(self.internal_subset)
    }

    pub closed spec fn spec_entities(self) -> NamedNodeMap {
        self.entities
    }

    pub closed spec fn spec_notations(self) -> NamedNodeMap {
        self.notations
    }

    pub fn name(&self) -> (r: &str)
        ensures
            r@ == self.spec_name(),
    {
        self.qualified_name.as_str()
    }

    pub fn public_id(&self) -> (r: &str)
        ensures
            r@ == self.spec_public_id(),
    {
        self.public_id.as_str()
    }

    pub fn system_id(&self) -> (r: &str)
        ensures
            r@ == self.spec_system_id(),
    {
        self.system_id.as_str()
    }

    pub fn internal_subset(&self) -> (r: Option<&str>)
        ensures
            opt_view(r) == self.spec_internal_subset(),
    {
        match &self.internal_subset {
            Some(s) => Some(s.as_str()),
            None => None,
        }
    }

    pub fn entities(&self) -> (r: &NamedNodeMap)
        ensures
            *r == self.spec_entities(),
    {
        &self.entities
    }

    pub fn notations(&self) -> (r: &NamedNodeMap)
        ensures
            *r == self.spec_notations(),
    {
        &self.notations
    }

    /// The entity table, for change in place; nothing else changes.
    pub fn entities_mut(&mut self) -> (r: &mut NamedNodeMap)
        ensures
            *r == old(self).spec_entities(),
            final(self).spec_entities() == *final(r),
            final(self).spec_notations() == old(self).spec_notations(),
            final(self).spec_name() == old(self).spec_name(),
            final(self).spec_public_id() == old(self).spec_public_id(),
            final(self).spec_system_id() == old(self).spec_system_id(),
            final(self).spec_internal_subset() == old(self).spec_internal_subset(),
    {
        &mut self.entities
    }

    /// The notation table, for change in place; nothing else changes.
    pub fn notations_mut(&mut self) -> (r: &mut NamedNodeMap)
        ensures
            *r == old(self).spec_notations(),
            final(self).spec_notations() == *final(r),
            final(self).spec_entities() == old(self).spec_entities(),
            final(self).spec_name() == old(self).spec_name(),
            final(self).spec_public_id() == old(self).spec_public_id(),
            final(self).spec_system_id() == old(self).spec_system_id(),
            final(self).spec_internal_subset() == old(self).spec_internal_subset(),
    {
        &mut self.notations
    }

    /// A copy of the whole descriptor: names, identifiers, internal subset,
    /// and the entity and notation tables, each entry with its key and a
    /// snapshot of its node's whole subtree.
    pub fn clone_document_type(&self) -> (r: DocumentType)
        ensures
            r.spec_name() == self.spec_name(),
            r.spec_public_id() == self.spec_public_id(),
            r.spec_system_id() == self.spec_system_id(),
            r.spec_internal_subset() == self.spec_internal_subset(),
            same_table(r.spec_entities(), self.spec_entities()),
            same_table(r.spec_notations(), self.spec_notations()),
    {
        DocumentType {
            qualified_name: self.qualified_name.clone(),
            public_id: self.public_id.clone(),
            system_id: self.system_id.clone(),
            entities: self.entities.snapshot(),
            notations: self.notations.snapshot(),
            internal_subset: crate::features::opt_string_clone(&self.internal_subset),
        }
    }

    pub fn node_type(&self) -> (r: NodeType)
        ensures
            r == NodeType::DocumentTypeNode,
    {
        NodeType::DocumentTypeNode
    }
}

/// The capability negotiator and document factory of this DOM.
pub struct DOMImplementation {
    features: Features,
    next_document: u64,
}

impl DOMImplementation {
    pub closed spec fn spec_features(self) -> Features {
        self.features
    }

    /// The number the next document made here gets.
    pub closed spec fn spec_next_document(self) -> u64 {
        self.next_document
    }

    /// An implementation supporting no feature yet.
    pub fn new() -> (r: DOMImplementation)
        ensures
            r.spec_features().wf(),
            r.spec_features()@ == Set::<(Seq<char>, Option<Seq<char>>)>::empty(),
            r.spec_next_document() == 0,
    {
        DOMImplementation { features: Features::new(), next_document: 0 }
    }

    /// Whether `feature` is supported at `version` (see `Features::has_feature`).
    pub fn has_feature(&self, feature: &str, version: Option<&str>) -> (r: bool)
        ensures
            r == self.spec_features().spec_has_feature(feature@, opt_view(version)),
    {
        self.features.has_feature(feature, version)
    }

    /// Registers or withdraws support for `feature` at `version`.
    pub fn set_feature(&mut self, feature: &str, version: Option<&str>, enabled: bool)
        requires
            old(self).spec_features().wf(),
        ensures
            final(self).spec_next_document() == old(self).spec_next_document(),
            final(self).spec_features().wf(),
            enabled ==> final(self).spec_features()@ == old(self).spec_features()@.insert(
                crate::features::feature_key(feature@, opt_view(version)),
            ),
            !enabled ==> final(self).spec_features()@ == old(self).spec_features()@.remove(
                crate::features::feature_key(feature@, opt_view(version)),
            ),
    {
        self.features.set_feature(feature, version, enabled)
    }

    /// A document type named `qualified_name`, with empty entity and notation
    /// tables. Fails with InvalidCharacter where the name is not `markup_free_name`.
    pub fn create_document_type(&self, qualified_name: &str, public_id: &str, system_id: &str) -> (r: Result<DocumentType>)
        ensures
            !markup_free_name(qualified_name@) ==> r == Err::<DocumentType, DOMException>(DOMException::InvalidCharacter),
            markup_free_name(qualified_name@) ==> r.is_ok() && ({
                let d = r.unwrap();
                &&& d.spec_name() == qualified_name@
                &&& d.spec_public_id() == public_id@
                &&& d.spec_system_id() == system_id@
                &&& d.spec_internal_subset().is_none()
                &&& d.spec_entities()@.len() == 0
                &&& d.spec_notations()@.len() == 0
            }),
    {
        if !is_markup_free_name(qualified_name) {
            return Err(DOMException::InvalidCharacter);
        }
        Ok(DocumentType {
            qualified_name: qualified_name.to_owned(),
            public_id: public_id.to_owned(),
            system_id: system_id.to_owned(),
            entities: NamedNodeMap::new(NodeType::EntityNode, None),
            notations: NamedNodeMap::new(NodeType::NotationNode, None),
            internal_subset: None,
        })
    }

    /// A new document with `doctype`, and, where `qualified_name` is not empty,
    /// a document element of that name in `namespace_uri`. Fails as
    /// `Document::create_element_ns` does. Each document gets a number of its
    /// own, so nodes of different documents never share an identity.
    pub fn create_document(&mut self, namespace_uri: &str, qualified_name: &str, doctype: Option<DocumentType>) -> (r: Result<Document>)
        requires
            old(self).spec_next_document() < u64::MAX,
        ensures
            final(self).spec_next_document() == old(self).spec_next_document() + 1,
            final(self).spec_features() == old(self).spec_features(),
            r.is_ok() ==> r.unwrap().spec_number() == old(self).spec_next_document(),
            r.is_ok() ==> r.unwrap().wf(),
            r.is_ok() ==> r.unwrap().spec_next_id() == if qualified_name@.len() == 0 { 0u64 } else { 1u64 },
            qualified_name@.len() == 0 ==> r.is_ok() && r.unwrap().spec_children().len() == 0,
            qualified_name@.len() > 0 ==> match qualified_name_error(namespace_uri@, qualified_name@) {
                Some(e) => r == Err::<Document, DOMException>(e),
                None => r.is_ok() && r.unwrap().spec_children().len() == 1
                    && r.unwrap().spec_children()[0].kind() == NodeType::ElementNode
                    && r.unwrap().spec_children()[0].name() == qualified_name@,
            },
            r.is_ok() ==> r.unwrap().spec_doctype() == doctype,
    {
        let number = self.next_document;
        self.next_document = self.next_document + 1;
        let mut doc = Document { base_uri: None, children: NodeList::new(), doctype, number, next_id: 0, user_data: Vec::new() };
        if qualified_name.is_empty() {
            return Ok(doc);
        }
        match doc.create_element_ns(namespace_uri, qualified_name) {
            Err(e) => Err(e),
            Ok(e) => {
                assert(e.info().kind == NodeType::ElementNode);
                let r = doc.append_child(e);
                assert(r.is_ok());
                Ok(doc)
            },
        }
    }
}

/// The root of a tree: holds the top-level children and hands out the
/// identities of the nodes it creates.
pub struct Document {
    base_uri: Option<String>,
    children: NodeList,
    doctype: Option<DocumentType>,
    number: u64,
    next_id: u64,
    user_data: Vec<(NodeId, String, Vec<u8>)>,
}


impl Document {
    pub closed spec fn spec_children(self) -> Seq<NodeRef> {
        self.children@
    }

    pub closed spec fn spec_next_id(self) -> u64 {
        self.next_id
    }

    /// The number of this document, part of every identity it hands out.
    pub closed spec fn spec_number(self) -> u64 {
        self.number
    }

    /// The identity the next node made here gets.
    pub open spec fn next_node_id(self) -> NodeId {
        NodeId { document: self.spec_number(), serial: self.spec_next_id() }
    }

    /// The counter is past every identity of this document in the tree.
    pub open spec fn wf(self) -> bool {
        forall|i: int| 0 <= i < self.spec_children().len() ==> ids_below(
            #[trigger] self.spec_children()[i].view(),
            self.spec_number(),
            self.spec_next_id() as nat,
        )
    }

    /// `after` is `before` once one more identity has been handed out.
    pub open spec fn advanced(before: Document, after: Document) -> bool {
        &&& after.spec_number() == before.spec_number()
        &&& after.spec_next_id() == before.spec_next_id() + 1
        &&& after.spec_children() == before.spec_children()
        &&& after.spec_doctype() == before.spec_doctype()
        &&& after.spec_base_uri() == before.spec_base_uri()
    }

    /// The number of this document: the `document` part of the identity of
    /// every node it makes.
    pub fn number(&self) -> (r: u64)
        ensures
            r == self.spec_number(),
    {
        self.number
    }

    pub closed spec fn spec_doctype(self) -> Option<DocumentType> {
        self.doctype
    }

    pub closed spec fn spec_base_uri(self) -> Option<Seq<char>> {
        opt_string_view(self.base_uri)
    }

    /// Only the top-level children of `after` differ from those of `before`.
    pub open spec fn same_but_children(before: Document, after: Document) -> bool {
        &&& after.spec_next_id() == before.spec_next_id()
        &&& after.spec_number() == before.spec_number()
        &&& after.spec_doctype() == before.spec_doctype()
        &&& after.spec_base_uri() == before.spec_base_uri()
    }

    /// Whether `path` leads to a node of this document; the empty path leads to
    /// the document itself.
    pub open spec fn valid_position(self, path: Seq<usize>) -> bool {
        path.len() == 0 || node_at(self.spec_children(), path).is_some()
    }

    pub fn node_type(&self) -> (r: NodeType)
        ensures
            r == NodeType::DocumentNode,
    {
        NodeType::DocumentNode
    }

    pub fn node_name(&self) -> (r: &'static str)
        ensures
            r@ == "#document"@,
    {
        "#document"
    }

    /// A document has no parent.
    pub fn parent_node(&self) -> (r: Option<&NodeRef>)
        ensures
            r.is_none(),
    {
        None
    }

    /// A document has no siblings.
    pub fn previous_sibling(&self) -> (r: Option<&NodeRef>)
        ensures
            r.is_none(),
    {
        None
    }

    /// A document has no siblings.
    pub fn next_sibling(&self) -> (r: Option<&NodeRef>)
        ensures
            r.is_none(),
    {
        None
    }

    pub fn base_uri(&self) -> (r: Option<&str>)
        ensures
            opt_view(r) == self.spec_base_uri(),
    {
        match &self.base_uri {
            Some(s) => Some(s.as_str()),
            None => None,
        }
    }

    pub fn doctype(&self) -> (r: Option<&DocumentType>)
        ensures
            r == match self.spec_doctype() {
                Some(d) => Some(&d),
                None => None::<&DocumentType>,
            },
    {
        match &self.doctype {
            Some(d) => Some(d),
            None => None,
        }
    }

    fn fresh_id(&mut self) -> (r: NodeId)
        requires
            old(self).spec_next_id() < u64::MAX,
        ensures
            r == old(self).next_node_id(),
            Document::advanced(*old(self), *final(self)),
            final(self).spec_next_id() == old(self).spec_next_id() + 1,
            final(self).spec_children() == old(self).spec_children(),
            final(self).spec_doctype() == old(self).spec_doctype(),
            final(self).spec_base_uri() == old(self).spec_base_uri(),
            old(self).wf() ==> final(self).wf(),
    {
        let id = NodeId { document: self.number, serial: self.next_id };
        let ghost before = *self;
        self.next_id = self.next_id + 1;
        proof {
            lemma_wf_grow(before, *self);
        }
        id
    }

    /// A new element named `tag_name`. Fails with InvalidCharacter where the
    /// name is not `markup_free_name`.
    pub fn create_element(&mut self, tag_name: &str) -> (r: Result<NodeRef>)
        requires
            old(self).spec_next_id() < u64::MAX,
        ensures
            old(self).wf() ==> final(self).wf(),
            r.is_ok() ==> ids_below(r.unwrap().view(), old(self).spec_number(), final(self).spec_next_id() as nat),
            r.is_ok() ==> Document::advanced(*old(self), *final(self)),
            r.is_err() ==> *final(self) == *old(self),
            !markup_free_name(tag_name@) ==> r == Err::<NodeRef, DOMException>(DOMException::InvalidCharacter) && *final(self) == *old(self),
            markup_free_name(tag_name@) ==> r.is_ok() && ({
                let n = r.unwrap();
                &&& n.info() == (NodeInfo {
                    kind: NodeType::ElementNode,
                    id: old(self).next_node_id(),
                    name: tag_name@,
                    namespace_uri: None,
                    prefix: None,
                    local_name: None,
                    value: None,
                    owner_element: None,
                })
                &&& n.children().len() == 0
                &&& n.attribute_map()@.len() == 0
                &&& n.attribute_map().is_attribute_map()
                &&& n.attribute_map().spec_owner() == Some(n.spec_id())
            }),
            final(self).spec_children() == old(self).spec_children(),
    {
        if !is_markup_free_name(tag_name) {
            return Err(DOMException::InvalidCharacter);
        }
        let id = self.fresh_id();
        Ok(NodeRef::make(NodeType::ElementNode, id, tag_name.to_owned(), None, None, None, None))
    }

    fn create_named_ns(&mut self, kind: NodeType, namespace_uri: &str, qualified_name: &str) -> (r: Result<NodeRef>)
        requires
            old(self).spec_next_id() < u64::MAX,
            kind == NodeType::ElementNode || kind == NodeType::AttributeNode,
        ensures
            old(self).wf() ==> final(self).wf(),
            r.is_ok() ==> ids_below(r.unwrap().view(), old(self).spec_number(), final(self).spec_next_id() as nat),
            r.is_ok() ==> Document::advanced(*old(self), *final(self)),
            r.is_err() ==> *final(self) == *old(self),
            match qualified_name_error(namespace_uri@, qualified_name@) {
                Some(e) => r == Err::<NodeRef, DOMException>(e),
                None => r.is_ok() && ({
                    let n = r.unwrap();
                    &&& n.info() == (NodeInfo {
                        kind,
                        id: old(self).next_node_id(),
                        name: qualified_name@,
                        namespace_uri: if namespace_uri@.len() == 0 { None } else { Some(namespace_uri@) },
                        prefix: split_qualified(qualified_name@).0,
                        local_name: Some(split_qualified(qualified_name@).1),
                        value: if kind == NodeType::AttributeNode { Some(Seq::empty()) } else { None },
                        owner_element: None,
                    })
                    &&& n.children().len() == 0
                    &&& n.attribute_map()@.len() == 0
                    &&& n.attribute_map().spec_node_type() == kind
                    &&& n.attribute_map().spec_owner() == Some(n.spec_id())
                }),
            },
            final(self).spec_children() == old(self).spec_children(),
            final(self).spec_doctype() == old(self).spec_doctype(),
    {
        if !is_markup_free_name(qualified_name) {
            return Err(DOMException::InvalidCharacter);
        }
        let (prefix, local) = split_qualified_name(qualified_name);
        let bad_prefix = match &prefix {
            Some(p) => p.as_str().is_empty() || namespace_uri.is_empty(),
            None => false,
        };
        if local.as_str().is_empty() || bad_prefix {
            return Err(DOMException::Namespace);
        }
        let id = self.fresh_id();
        let ns = if namespace_uri.is_empty() {
            None
        } else {
            Some(namespace_uri.to_owned())
        };
        let value = if kind == NodeType::AttributeNode {
            proof {
                reveal_strlit("");
                assert(""@ =~= Seq::<char>::empty());
            }
            Some("".to_owned())
        } else {
            None
        };
        Ok(NodeRef::make(kind, id, qualified_name.to_owned(), ns, prefix, Some(local), value))
    }

    /// A new element named `qualified_name` in `namespace_uri` (none if empty).
    /// Fails with InvalidCharacter or Namespace as `qualified_name_error` says.
    pub fn create_element_ns(&mut self, namespace_uri: &str, qualified_name: &str) -> (r: Result<NodeRef>)
        requires
            old(self).spec_next_id() < u64::MAX,
        ensures
            old(self).wf() ==> final(self).wf(),
            r.is_ok() ==> ids_below(r.unwrap().view(), old(self).spec_number(), final(self).spec_next_id() as nat),
            r.is_ok() ==> Document::advanced(*old(self), *final(self)),
            r.is_err() ==> *final(self) == *old(self),
            match qualified_name_error(namespace_uri@, qualified_name@) {
                Some(e) => r == Err::<NodeRef, DOMException>(e),
                None => r.is_ok() && ({
                    let n = r.unwrap();
                    &&& n.info() == (NodeInfo {
                        kind: NodeType::ElementNode,
                        id: old(self).next_node_id(),
                        name: qualified_name@,
                        namespace_uri: if namespace_uri@.len() == 0 { None } else { Some(namespace_uri@) },
                        prefix: split_qualified(qualified_name@).0,
                        local_name: Some(split_qualified(qualified_name@).1),
                        value: None,
                        owner_element: None,
                    })
                    &&& n.children().len() == 0
                    &&& n.attribute_map()@.len() == 0
                    &&& n.attribute_map().is_attribute_map()
                    &&& n.attribute_map().spec_owner() == Some(n.spec_id())
                }),
            },
            final(self).spec_children() == old(self).spec_children(),
            final(self).spec_doctype() == old(self).spec_doctype(),
    {
        self.create_named_ns(NodeType::ElementNode, namespace_uri, qualified_name)
    }

    /// A new attribute named `qualified_name` in `namespace_uri` (none if
    /// empty), with an empty value. Fails as `create_element_ns` does.
    pub fn create_attribute_ns(&mut self, namespace_uri: &str, qualified_name: &str) -> (r: Result<NodeRef>)
        requires
            old(self).spec_next_id() < u64::MAX,
        ensures
            old(self).wf() ==> final(self).wf(),
            r.is_ok() ==> ids_below(r.unwrap().view(), old(self).spec_number(), final(self).spec_next_id() as nat),
            r.is_ok() ==> Document::advanced(*old(self), *final(self)),
            r.is_err() ==> *final(self) == *old(self),
            match qualified_name_error(namespace_uri@, qualified_name@) {
                Some(e) => r == Err::<NodeRef, DOMException>(e),
                None => r.is_ok() && ({
                    let n = r.unwrap();
                    &&& n.info() == (NodeInfo {
                        kind: NodeType::AttributeNode,
                        id: old(self).next_node_id(),
                        name: qualified_name@,
                        namespace_uri: if namespace_uri@.len() == 0 { None } else { Some(namespace_uri@) },
                        prefix: split_qualified(qualified_name@).0,
                        local_name: Some(split_qualified(qualified_name@).1),
                        value: Some(Seq::empty()),
                        owner_element: None,
                    })
                    &&& n.children().len() == 0
                }),
            },
            final(self).spec_children() == old(self).spec_children(),
    {
        self.create_named_ns(NodeType::AttributeNode, namespace_uri, qualified_name)
    }

    fn create_plain(&mut self, kind: NodeType, name: String, value: Option<String>) -> (r: NodeRef)
        requires
            kind != NodeType::DocumentNode,
            kind != NodeType::DocumentTypeNode,
            old(self).spec_next_id() < u64::MAX,
        ensures
            old(self).wf() ==> final(self).wf(),
            ids_below(r.view(), old(self).spec_number(), final(self).spec_next_id() as nat),
            r.info() == (NodeInfo {
                kind,
                id: old(self).next_node_id(),
                name: name@,
                namespace_uri: None,
                prefix: None,
                local_name: None,
                value: opt_string_view(value),
                owner_element: None,
            }),
            r.children().len() == 0,
            r.attribute_map()@.len() == 0,
            final(self).spec_children() == old(self).spec_children(),
            Document::advanced(*old(self), *final(self)),
    {
        let id = self.fresh_id();
        NodeRef::make(kind, id, name, None, None, None, value)
    }

    /// A new attribute named `name`, with an empty value. Fails with
    /// InvalidCharacter where the name is not `markup_free_name`.
    pub fn create_attribute(&mut self, name: &str) -> (r: Result<NodeRef>)
        requires
            old(self).spec_next_id() < u64::MAX,
        ensures
            old(self).wf() ==> final(self).wf(),
            r.is_ok() ==> ids_below(r.unwrap().view(), old(self).spec_number(), final(self).spec_next_id() as nat),
            r.is_ok() ==> Document::advanced(*old(self), *final(self)),
            r.is_err() ==> *final(self) == *old(self),
            !markup_free_name(name@) ==> r == Err::<NodeRef, DOMException>(DOMException::InvalidCharacter),
            markup_free_name(name@) ==> r.is_ok() && r.unwrap().info() == (NodeInfo {
                kind: NodeType::AttributeNode,
                id: old(self).next_node_id(),
                name: name@,
                namespace_uri: None,
                prefix: None,
                local_name: None,
                value: Some(Seq::empty()),
                owner_element: None,
            }),
            final(self).spec_children() == old(self).spec_children(),
    {
        if !is_markup_free_name(name) {
            return Err(DOMException::InvalidCharacter);
        }
        proof {
            reveal_strlit("");
            assert(""@ =~= Seq::<char>::empty());
        }
        Ok(self.create_plain(NodeType::AttributeNode, name.to_owned(), Some("".to_owned())))
    }

    /// A new reference to the entity `name`. Fails with InvalidCharacter where
    /// the name is not `markup_free_name`.
    pub fn create_entity_reference(&mut self, name: &str) -> (r: Result<NodeRef>)
        requires
            old(self).spec_next_id() < u64::MAX,
        ensures
            old(self).wf() ==> final(self).wf(),
            r.is_ok() ==> ids_below(r.unwrap().view(), old(self).spec_number(), final(self).spec_next_id() as nat),
            r.is_ok() ==> Document::advanced(*old(self), *final(self)),
            r.is_err() ==> *final(self) == *old(self),
            !markup_free_name(name@) ==> r == Err::<NodeRef, DOMException>(DOMException::InvalidCharacter),
            markup_free_name(name@) ==> r.is_ok() && r.unwrap().info() == (NodeInfo {
                kind: NodeType::EntityReferenceNode,
                id: old(self).next_node_id(),
                name: name@,
                namespace_uri: None,
                prefix: None,
                local_name: None,
                value: None,
                owner_element: None,
            }),
            final(self).spec_children() == old(self).spec_children(),
    {
        if !is_markup_free_name(name) {
            return Err(DOMException::InvalidCharacter);
        }
        Ok(self.create_plain(NodeType::EntityReferenceNode, name.to_owned(), None))
    }

    /// A new entity declaration node named `name`, for a document type's
    /// entity table. Fails with InvalidCharacter where
    /// the name is not `markup_free_name`.
    pub fn create_entity(&mut self, name: &str) -> (r: Result<NodeRef>)
        requires
            old(self).spec_next_id() < u64::MAX,
        ensures
            old(self).wf() ==> final(self).wf(),
            r.is_ok() ==> ids_below(r.unwrap().view(), old(self).spec_number(), final(self).spec_next_id() as nat),
            r.is_ok() ==> Document::advanced(*old(self), *final(self)),
            r.is_err() ==> *final(self) == *old(self),
            !markup_free_name(name@) ==> r == Err::<NodeRef, DOMException>(DOMException::InvalidCharacter),
            markup_free_name(name@) ==> r.is_ok() && r.unwrap().info() == (NodeInfo {
                kind: NodeType::EntityNode,
                id: old(self).next_node_id(),
                name: name@,
                namespace_uri: None,
                prefix: None,
                local_name: None,
                value: None,
                owner_element: None,
            }),
            final(self).spec_children() == old(self).spec_children(),
    {
        if !is_markup_free_name(name) {
            return Err(DOMException::InvalidCharacter);
        }
        Ok(self.create_plain(NodeType::EntityNode, name.to_owned(), None))
    }

    /// A new notation declaration node named `name`, for a document type's
    /// notation table. Fails with InvalidCharacter where
    /// the name is not `markup_free_name`.
    pub fn create_notation(&mut self, name: &str) -> (r: Result<NodeRef>)
        requires
            old(self).spec_next_id() < u64::MAX,
        ensures
            old(self).wf() ==> final(self).wf(),
            r.is_ok() ==> ids_below(r.unwrap().view(), old(self).spec_number(), final(self).spec_next_id() as nat),
            r.is_ok() ==> Document::advanced(*old(self), *final(self)),
            r.is_err() ==> *final(self) == *old(self),
            !markup_free_name(name@) ==> r == Err::<NodeRef, DOMException>(DOMException::InvalidCharacter),
            markup_free_name(name@) ==> r.is_ok() && r.unwrap().info() == (NodeInfo {
                kind: NodeType::NotationNode,
                id: old(self).next_node_id(),
                name: name@,
                namespace_uri: None,
                prefix: None,
                local_name: None,
                value: None,
                owner_element: None,
            }),
            final(self).spec_children() == old(self).spec_children(),
    {
        if !is_markup_free_name(name) {
            return Err(DOMException::InvalidCharacter);
        }
        Ok(self.create_plain(NodeType::NotationNode, name.to_owned(), None))
    }

    /// A new Text node holding `data`.
    pub fn create_text_node(&mut self, data: &str) -> (r: NodeRef)
        requires
            old(self).spec_next_id() < u64::MAX,
        ensures
            old(self).wf() ==> final(self).wf(),
            ids_below(r.view(), old(self).spec_number(), final(self).spec_next_id() as nat),
            Document::advanced(*old(self), *final(self)),
            r.info() == (NodeInfo {
                kind: NodeType::TextNode,
                id: old(self).next_node_id(),
                name: "#text"@,
                namespace_uri: None,
                prefix: None,
                local_name: None,
                value: Some(data@),
                owner_element: None,
            }),
            r.children().len() == 0,
            final(self).spec_children() == old(self).spec_children(),
    {
        self.create_plain(NodeType::TextNode, "#text".to_owned(), Some(data.to_owned()))
    }

    /// A new Comment node holding `data`.
    pub fn create_comment(&mut self, data: &str) -> (r: NodeRef)
        requires
            old(self).spec_next_id() < u64::MAX,
        ensures
            old(self).wf() ==> final(self).wf(),
            ids_below(r.view(), old(self).spec_number(), final(self).spec_next_id() as nat),
            Document::advanced(*old(self), *final(self)),
            r.info() == (NodeInfo {
                kind: NodeType::CommentNode,
                id: old(self).next_node_id(),
                name: "#comment"@,
                namespace_uri: None,
                prefix: None,
                local_name: None,
                value: Some(data@),
                owner_element: None,
            }),
            final(self).spec_children() == old(self).spec_children(),
    {
        self.create_plain(NodeType::CommentNode, "#comment".to_owned(), Some(data.to_owned()))
    }

    /// A new CDATA section holding `data`.
    pub fn create_cdata_section(&mut self, data: &str) -> (r: NodeRef)
        requires
            old(self).spec_next_id() < u64::MAX,
        ensures
            old(self).wf() ==> final(self).wf(),
            ids_below(r.view(), old(self).spec_number(), final(self).spec_next_id() as nat),
            Document::advanced(*old(self), *final(self)),
            r.info() == (NodeInfo {
                kind: NodeType::CDATASectionNode,
                id: old(self).next_node_id(),
                name: "#cdata-section"@,
                namespace_uri: None,
                prefix: None,
                local_name: None,
                value: Some(data@),
                owner_element: None,
            }),
            final(self).spec_children() == old(self).spec_children(),
    {
        self.create_plain(NodeType::CDATASectionNode, "#cdata-section".to_owned(), Some(data.to_owned()))
    }

    /// A new processing instruction for `target` holding `data`.
    pub fn create_processing_instruction(&mut self, target: &str, data: &str) -> (r: NodeRef)
        requires
            old(self).spec_next_id() < u64::MAX,
        ensures
            old(self).wf() ==> final(self).wf(),
            ids_below(r.view(), old(self).spec_number(), final(self).spec_next_id() as nat),
            Document::advanced(*old(self), *final(self)),
            r.info() == (NodeInfo {
                kind: NodeType::ProcessingInstructionNode,
                id: old(self).next_node_id(),
                name: target@,
                namespace_uri: None,
                prefix: None,
                local_name: None,
                value: Some(data@),
                owner_element: None,
            }),
            final(self).spec_children() == old(self).spec_children(),
    {
        self.create_plain(NodeType::ProcessingInstructionNode, target.to_owned(), Some(data.to_owned()))
    }

    /// A new, empty document fragment.
    pub fn create_document_fragment(&mut self) -> (r: NodeRef)
        requires
            old(self).spec_next_id() < u64::MAX,
        ensures
            old(self).wf() ==> final(self).wf(),
            ids_below(r.view(), old(self).spec_number(), final(self).spec_next_id() as nat),
            Document::advanced(*old(self), *final(self)),
            r.info() == (NodeInfo {
                kind: NodeType::DocumentFragmentNode,
                id: old(self).next_node_id(),
                name: "#document-fragment"@,
                namespace_uri: None,
                prefix: None,
                local_name: None,
                value: None,
                owner_element: None,
            }),
            r.children().len() == 0,
            final(self).spec_children() == old(self).spec_children(),
    {
        self.create_plain(NodeType::DocumentFragmentNode, "#document-fragment".to_owned(), None)
    }

    /// A copy of `node` that belongs to no tree, with identities of this
    /// document (see `NodeRef::clone_node`).
    pub fn import_node(&mut self, imported_node: &NodeRef, deep: bool) -> (r: NodeRef)
        requires
            old(self).spec_next_id() + crate::node::ids_needed(imported_node.view(), deep) <= u64::MAX,
            ids_below(imported_node.view(), old(self).spec_number(), old(self).spec_next_id() as nat),
        ensures
            r.spec_id() == old(self).next_node_id(),
            r.spec_id() != imported_node.spec_id(),
            forall|id: NodeId| crate::node::subtree_has_id(r.view(), id) ==> !crate::node::subtree_has_id(imported_node.view(), id),
            ids_below(r.view(), old(self).spec_number(), final(self).spec_next_id() as nat),
            old(self).wf() ==> final(self).wf(),
            crate::node::ids_within(r.view(), old(self).spec_number(), old(self).spec_next_id() as nat, final(self).spec_next_id() as nat),
            final(self).spec_next_id() == old(self).spec_next_id() + crate::node::ids_needed(imported_node.view(), deep),
            crate::node::content(r.info()) == crate::node::content(imported_node.info()),
            r.spec_owner_element().is_none(),
            !deep ==> r.children().len() == 0,
            deep ==> crate::node::equal_view(r.view(), imported_node.view()),
            final(self).spec_number() == old(self).spec_number(),
            final(self).spec_children() == old(self).spec_children(),
            final(self).spec_doctype() == old(self).spec_doctype(),
    {
        let ghost before = *self;
        let r = imported_node.clone_node(deep, self.number, &mut self.next_id);
        proof {
            lemma_wf_grow(before, *self);
        }
        r
    }

    /// The top-level child at `index`, for change in place; with
    /// `NodeRef::child_mut` this reaches any node of the tree.
    pub fn child_mut(&mut self, index: usize) -> (r: &mut NodeRef)
        requires
            index < old(self).spec_children().len(),
        ensures
            *r == old(self).spec_children()[index as int],
            Document::same_but_children(*old(self), *final(self)),
            final(self).spec_children() == old(self).spec_children().update(index as int, *final(r)),
    {
        self.children.item_mut(index)
    }

    /// Normalizes the top-level children as `NodeRef::normalize` does the
    /// children of a node.
    pub fn normalize(&mut self)
        ensures
            crate::node::views(final(self).spec_children()) == crate::node::normalized_children(crate::node::views(old(self).spec_children())),
            Document::same_but_children(*old(self), *final(self)),
            old(self).wf() ==> final(self).wf(),
    {
        let ghost before = *self;
        self.children.normalize();
        proof {
            if before.wf() {
                let vs = crate::node::views(before.spec_children());
                assert forall|i: int| 0 <= i < vs.len() implies ids_below(#[trigger] vs[i], self.spec_number(), self.spec_next_id() as nat) by {
                    assert(vs[i] == before.spec_children()[i].view());
                }
                crate::node::lemma_normalized_children_below(vs, self.spec_number(), self.spec_next_id() as nat);
                let ns = crate::node::views(self.spec_children());
                assert forall|k: int| 0 <= k < self.spec_children().len() implies ids_below(
                    #[trigger] self.spec_children()[k].view(),
                    self.spec_number(),
                    self.spec_next_id() as nat,
                ) by {
                    assert(ns[k] == self.spec_children()[k].view());
                }
            }
        }
    }

    /// The top-level children.
    pub fn child_nodes(&self) -> (r: &NodeList)
        ensures
            r@ == self.spec_children(),
    {
        &self.children
    }

    pub fn has_child_nodes(&self) -> (r: bool)
        ensures
            r == (self.spec_children().len() > 0),
    {
        self.children.length() > 0
    }

    pub fn first_child(&self) -> (r: Option<&NodeRef>)
        ensures
            self.spec_children().len() == 0 ==> r.is_none(),
            self.spec_children().len() > 0 ==> r == Some(&self.spec_children()[0]),
    {
        self.children.first()
    }

    pub fn last_child(&self) -> (r: Option<&NodeRef>)
        ensures
            self.spec_children().len() == 0 ==> r.is_none(),
            self.spec_children().len() > 0 ==> r == Some(&self.spec_children()[self.spec_children().len() - 1]),
    {
        self.children.last()
    }

    /// The first top-level Element, if any.
    pub fn document_element(&self) -> (r: Option<&NodeRef>)
        ensures
            r.is_none() ==> forall|i: int| 0 <= i < self.spec_children().len() ==> self.spec_children()[i].kind() != NodeType::ElementNode,
            r.is_some() ==> exists|i: int| 0 <= i < self.spec_children().len() && r == Some(&self.spec_children()[i])
                && self.spec_children()[i].kind() == NodeType::ElementNode
                && forall|j: int| 0 <= j < i ==> self.spec_children()[j].kind() != NodeType::ElementNode,
    {
        let mut i: usize = 0;
        while i < self.children.length()
            invariant
                i <= self.spec_children().len(),
                forall|j: int| 0 <= j < i ==> self.spec_children()[j].kind() != NodeType::ElementNode,
            decreases self.spec_children().len() - i,
        {
            let c = self.children.item(i).unwrap();
            if c.node_type() == NodeType::ElementNode {
                return Some(c);
            }
            i += 1;
        }
        None
    }

    /// Appends `new_child` to the top-level children. Every kind of node is
    /// accepted, and more than one Element.
    pub fn append_child(&mut self, new_child: NodeRef) -> (r: Result<()>)
        requires
            ids_below(new_child.view(), old(self).spec_number(), old(self).spec_next_id() as nat),
        ensures
            old(self).wf() ==> final(self).wf(),
            r == Ok::<(), DOMException>(())
                && Document::same_but_children(*old(self), *final(self))
                && final(self).spec_children() == old(self).spec_children().push(new_child),
    {
        let ghost before = *self;
        self.children.push(new_child);
        proof {
            if before.wf() {
                assert forall|k: int| 0 <= k < self.spec_children().len() implies ids_below(
                    #[trigger] self.spec_children()[k].view(),
                    self.spec_number(),
                    self.spec_next_id() as nat,
                ) by {
                    if k < before.spec_children().len() {
                        assert(self.spec_children()[k] == before.spec_children()[k]);
                    }
                }
            }
        }
        Ok(())
    }

    /// Inserts `new_child` just before the top-level child that is
    /// `ref_child`. Fails with NotFound, changing nothing, where no top-level
    /// child is `ref_child`.
    pub fn insert_before(&mut self, new_child: NodeRef, ref_child: &NodeRef) -> (r: Result<()>)
        requires
            ids_below(new_child.view(), old(self).spec_number(), old(self).spec_next_id() as nat),
        ensures
            old(self).wf() ==> final(self).wf(),
            match crate::node::index_of_id(old(self).spec_children(), ref_child.spec_id()) {
                None => r == Err::<(), DOMException>(DOMException::NotFound) && *final(self) == *old(self),
                Some(i) => r == Ok::<(), DOMException>(())
                    && Document::same_but_children(*old(self), *final(self))
                    && final(self).spec_children() == old(self).spec_children().insert(i, new_child),
            },
    {
        match self.children.position_of(ref_child.id()) {
            None => Err(DOMException::NotFound),
            Some(i) => {
                let ghost before = *self;
                self.children.insert_at(i, new_child);
                proof {
            if before.wf() {
                assert forall|k: int| 0 <= k < self.spec_children().len() implies ids_below(
                    #[trigger] self.spec_children()[k].view(),
                    self.spec_number(),
                    self.spec_next_id() as nat,
                ) by {
                    if k < i {
                        assert(self.spec_children()[k] == before.spec_children()[k]);
                    } else if k > i {
                        assert(self.spec_children()[k] == before.spec_children()[k - 1]);
                    }
                }
            }
        }
                Ok(())
            },
        }
    }

    /// Puts `new_child` in the place of the top-level child that is
    /// `old_child`, in one step, and hands the old child back. Fails as
    /// `insert_before` does.
    pub fn replace_child(&mut self, new_child: NodeRef, old_child: &NodeRef) -> (r: Result<NodeRef>)
        requires
            ids_below(new_child.view(), old(self).spec_number(), old(self).spec_next_id() as nat),
        ensures
            old(self).wf() ==> final(self).wf(),
            match crate::node::index_of_id(old(self).spec_children(), old_child.spec_id()) {
                None => r == Err::<NodeRef, DOMException>(DOMException::NotFound) && *final(self) == *old(self),
                Some(i) => r == Ok::<NodeRef, DOMException>(old(self).spec_children()[i])
                    && Document::same_but_children(*old(self), *final(self))
                    && final(self).spec_children() == old(self).spec_children().update(i, new_child),
            },
    {
        match self.children.position_of(old_child.id()) {
            None => Err(DOMException::NotFound),
            Some(i) => {
                let ghost before = *self;
                let c = self.children.replace_at(i, new_child);
        proof {
            if before.wf() {
                assert forall|k: int| 0 <= k < self.spec_children().len() implies ids_below(
                    #[trigger] self.spec_children()[k].view(),
                    self.spec_number(),
                    self.spec_next_id() as nat,
                ) by {
                    if k != i {
                        assert(self.spec_children()[k] == before.spec_children()[k]);
                    }
                }
            }
        }
                Ok(c)
            },
        }
    }

    /// Removes the top-level child that is `old_child` and hands it back.
    /// Fails with NotFound, changing nothing, where none is.
    pub fn remove_child(&mut self, old_child: &NodeRef) -> (r: Result<NodeRef>)
        ensures
            old(self).wf() ==> final(self).wf(),
            match crate::node::index_of_id(old(self).spec_children(), old_child.spec_id()) {
                None => r == Err::<NodeRef, DOMException>(DOMException::NotFound) && *final(self) == *old(self),
                Some(i) => r == Ok::<NodeRef, DOMException>(old(self).spec_children()[i])
                    && Document::same_but_children(*old(self), *final(self))
                    && final(self).spec_children() == old(self).spec_children().remove(i),
            },
    {
        match self.children.position_of(old_child.id()) {
            None => Err(DOMException::NotFound),
            Some(i) => {
                let ghost before = *self;
                let c = self.children.remove_at(i);
        proof {
            if before.wf() {
                assert forall|k: int| 0 <= k < self.spec_children().len() implies ids_below(
                    #[trigger] self.spec_children()[k].view(),
                    self.spec_number(),
                    self.spec_next_id() as nat,
                ) by {
                    if k < i {
                        assert(self.spec_children()[k] == before.spec_children()[k]);
                    } else {
                        assert(self.spec_children()[k] == before.spec_children()[k + 1]);
                    }
                }
            }
        }
                Ok(c)
            },
        }
    }

    /// The node at position `path` (a child index per level), if any.
    pub fn node_at(&self, path: &[usize]) -> (r: Option<&NodeRef>)
        ensures
            r == match node_at(self.spec_children(), path@) {
                Some(n) => Some(&n),
                None => None::<&NodeRef>,
            },
    {
        if path.len() == 0 {
            return None;
        }
        let mut list: &NodeList = &self.children;
        let mut k: usize = 0;
        assert(path@.subrange(0, path@.len() as int) =~= path@);
        while k < path.len()
            invariant
                k < path@.len(),
                node_at(self.spec_children(), path@) == node_at(list@, path@.subrange(k as int, path@.len() as int)),
            decreases path@.len() - k,
        {
            let ghost rest = path@.subrange(k as int, path@.len() as int);
            match list.item(path[k]) {
                None => {
                    return None;
                },
                Some(n) => {
                    if k + 1 == path.len() {
                        return Some(n);
                    }
                    assert(rest.subrange(1, rest.len() as int) =~= path@.subrange(k + 1, path@.len() as int));
                    list = n.child_nodes();
                    k += 1;
                },
            }
        }
        None
    }

    /// Handles on the elements of the document that the tag `name` selects
    /// (`*` selects all), in document order: a snapshot, not a live view.
    pub fn get_elements_by_tag_name(&self, name: &str) -> (r: NodeList)
        ensures
            crate::node::views(r@) == crate::node::elements_in(crate::node::views(self.spec_children()), name@),
    {
        let mut out: Vec<NodeRef> = Vec::new();
        self.children.collect_elements(name, &mut out);
        NodeList::from_vec(out)
    }

    /// Where the node at `other` stands from the node at `this`, both given as
    /// positions. A position that leads to no node of this document is
    /// disconnected, which is reported with the implementation-specific bit.
    pub fn compare_document_position(&self, this: &[usize], other: &[usize]) -> (r: u16)
        ensures
            !(self.valid_position(this@) && self.valid_position(other@)) ==> r == DISCONNECTED | IMPLEMENTATION_SPECIFIC,
            self.valid_position(this@) && self.valid_position(other@) ==> r == position_mask(this@, other@),
    {
        let a_ok = this.len() == 0 || self.node_at(this).is_some();
        let b_ok = other.len() == 0 || self.node_at(other).is_some();
        if !a_ok || !b_ok {
            return DISCONNECTED | IMPLEMENTATION_SPECIFIC;
        }
        compare_positions(this, other)
    }
}

/// `position_mask` of two positions.
pub fn compare_positions(a: &[usize], b: &[usize]) -> (r: u16)
    ensures
        r == position_mask(a@, b@),
{
    let mut k: usize = 0;
    assert(a@.subrange(0, a@.len() as int) =~= a@);
    assert(b@.subrange(0, b@.len() as int) =~= b@);
    while k < a.len() && k < b.len() && a[k] == b[k]
        invariant
            k <= a@.len(),
            k <= b@.len(),
            position_mask(a@, b@) == position_mask(a@.subrange(k as int, a@.len() as int), b@.subrange(k as int, b@.len() as int)),
        decreases a@.len() - k,
    {
        let ghost sa = a@.subrange(k as int, a@.len() as int);
        let ghost sb = b@.subrange(k as int, b@.len() as int);
        assert(sa.subrange(1, sa.len() as int) =~= a@.subrange(k + 1, a@.len() as int));
        assert(sb.subrange(1, sb.len() as int) =~= b@.subrange(k + 1, b@.len() as int));
        k += 1;
    }
    let ghost sa = a@.subrange(k as int, a@.len() as int);
    let ghost sb = b@.subrange(k as int, b@.len() as int);
    if k == a.len() && k == b.len() {
        0
    } else if k == a.len() {
        CONTAINED_BY | FOLLOWING
    } else if k == b.len() {
        CONTAINS | PRECEDING
    } else if b[k] < a[k] {
        assert(sa[0] == a@[k as int] && sb[0] == b@[k as int]);
        PRECEDING
    } else {
        assert(sa[0] == a@[k as int] && sb[0] == b@[k as int]);
        FOLLOWING
    }
}


/// The name of the attribute that declares `prefix`, or the default
/// namespace when `prefix` is absent.
pub open spec fn declaration_name(prefix: Option<Seq<char>>) -> Seq<char> {
    match prefix {
        None => "xmlns"@,
        Some(p) => "xmlns:"@ + p,
    }
}

/// The text of the attribute named `decl` of `n`, where `n` is an element that
/// has one.
pub open spec fn declaration(n: NodeRef, decl: Seq<char>) -> Option<Seq<char>> {
    if n.kind() != NodeType::ElementNode {
        None
    } else {
        match key_index(n.attribute_map()@, name_key(decl)) {
            Some(i) => Some(text_of(n.attribute_map()@[i].1.info().value)),
            None => None,
        }
    }
}

/// The namespace bound by the nearest declaration `decl` on the nodes at the
/// first `k`, `k - 1`, ..., 1 indices of `path`; an empty declaration unbinds.
#[verifier::opaque]
pub open spec fn lookup_from(children: Seq<NodeRef>, path: Seq<usize>, k: int, decl: Seq<char>) -> Option<Seq<char>>
    decreases k,
{
    if k <= 0 {
        None
    } else {
        match node_at(children, path.subrange(0, k)) {
            Some(n) => match declaration(n, decl) {
                Some(v) => if v.len() == 0 { None } else { Some(v) },
                None => lookup_from(children, path, k - 1, decl),
            },
            None => lookup_from(children, path, k - 1, decl),
        }
    }
}

proof fn lemma_lookup_step(children: Seq<NodeRef>, path: Seq<usize>, k: int, d: Seq<char>, found: Option<Seq<char>>)
    requires
        k > 0,
        found == match node_at(children, path.subrange(0, k)) {
            Some(n) => declaration(n, d),
            None => None,
        },
    ensures
        lookup_from(children, path, k, d) == match found {
            Some(v) => if v.len() == 0 { None } else { Some(v) },
            None => lookup_from(children, path, k - 1, d),
        },
{
    reveal(lookup_from);
}

/// `declaration` of `n` for `decl`.
fn declaration_of<'a>(n: &'a NodeRef, decl: &str) -> (r: Option<&'a str>)
    ensures
        opt_view(r) == declaration(*n, decl@),
{
    if n.node_type() != NodeType::ElementNode {
        return None;
    }
    match n.get_attribute_node(decl) {
        Some(a) => match a.node_value() {
            Some(v) => Some(v),
            None => {
                proof {
                    reveal_strlit("");
                    assert(""@ =~= Seq::<char>::empty());
                }
                Some("")
            },
        },
        None => None,
    }
}

impl Document {
    fn declaration_at(&self, path: &[usize], k: usize, decl: &str) -> (r: Option<&str>)
        requires
            0 < k <= path@.len(),
        ensures
            opt_view(r) == match node_at(self.spec_children(), path@.subrange(0, k as int)) {
                Some(n) => declaration(n, decl@),
                None => None,
            },
    {
        let sub = vstd::slice::slice_subrange(path, 0, k);
        match self.node_at(sub) {
            Some(n) => declaration_of(n, decl),
            None => None,
        }
    }

    /// The namespace URI bound to `prefix` (the default namespace when absent)
    /// at the node at position `path`: the nearest node, from that one up,
    /// whose attributes declare it decides.
    pub fn lookup_namespace_uri(&self, path: &[usize], prefix: Option<&str>) -> (r: Option<String>)
        ensures
            opt_string_view(r) == lookup_from(self.spec_children(), path@, path@.len() as int, declaration_name(opt_view(prefix))),
    {
        let decl = match prefix {
            None => "xmlns".to_owned(),
            Some(p) => "xmlns:".to_owned().concat(p),
        };
        let ghost d = declaration_name(opt_view(prefix));
        assert(decl@ == d);
        let mut k: usize = path.len();
        while k > 0
            invariant
                k <= path@.len(),
                lookup_from(self.spec_children(), path@, path@.len() as int, d) == lookup_from(self.spec_children(), path@, k as int, d),
                decl@ == d,
                d == declaration_name(opt_view(prefix)),
            decreases k,
        {
            let found = self.declaration_at(path, k, decl.as_str());
            proof {
                lemma_lookup_step(self.spec_children(), path@, k as int, d, opt_view(found));
            }
            if let Some(v) = found {
                if v.is_empty() {
                    return None;
                }
                return Some(v.to_owned());
            }
            k -= 1;
        }
        proof {
            reveal(lookup_from);
        }
        None
    }

    /// Whether `namespace_uri` is the default namespace at the node at `path`.
    pub fn is_default_namespace(&self, path: &[usize], namespace_uri: &str) -> (r: bool)
        ensures
            r == (lookup_from(self.spec_children(), path@, path@.len() as int, declaration_name(None)) == Some(namespace_uri@)),
    {
        match self.lookup_namespace_uri(path, None) {
            Some(u) => u == namespace_uri.to_owned(),
            None => false,
        }
    }
}

/// The prefix an attribute named `name` declares: empty for `xmlns`, `p` for
/// `xmlns:p`; none for other names.
pub open spec fn declared_prefix(name: Seq<char>) -> Option<Seq<char>> {
    if name == "xmlns"@ {
        Some(Seq::empty())
    } else if name.len() > "xmlns:"@.len() && name.subrange(0, "xmlns:"@.len() as int) == "xmlns:"@ {
        Some(name.subrange("xmlns:"@.len() as int, name.len() as int))
    } else {
        None
    }
}

/// The prefix declared by the first of the attributes `s` that binds
/// `namespace_uri`.
pub open spec fn first_prefix(s: Seq<(crate::named_node_map::QNameView, NodeRef)>, namespace_uri: Seq<char>) -> Option<Seq<char>>
    decreases s.len(),
{
    if s.len() == 0 {
        None
    } else {
        let a = s[0].1;
        match declared_prefix(a.name()) {
            Some(p) => if text_of(a.info().value) == namespace_uri {
                Some(p)
            } else {
                first_prefix(s.subrange(1, s.len() as int), namespace_uri)
            },
            None => first_prefix(s.subrange(1, s.len() as int), namespace_uri),
        }
    }
}

/// The prefix bound to `namespace_uri` by the nearest element among the nodes
/// at the first `k`, `k - 1`, ..., 1 indices of `path` that binds it.
#[verifier::opaque]
pub open spec fn lookup_prefix_from(children: Seq<NodeRef>, path: Seq<usize>, k: int, namespace_uri: Seq<char>) -> Option<Seq<char>>
    decreases k,
{
    if k <= 0 {
        None
    } else {
        match node_at(children, path.subrange(0, k)) {
            Some(n) => if n.kind() == NodeType::ElementNode && first_prefix(n.attribute_map()@, namespace_uri).is_some() {
                first_prefix(n.attribute_map()@, namespace_uri)
            } else {
                lookup_prefix_from(children, path, k - 1, namespace_uri)
            },
            None => lookup_prefix_from(children, path, k - 1, namespace_uri),
        }
    }
}

fn declared_prefix_of(name: &str) -> (r: Option<String>)
    ensures
        opt_string_view(r) == declared_prefix(name@),
{
    if name.to_owned() == "xmlns".to_owned() {
        return Some(String::new());
    }
    let pre = "xmlns:";
    let n = name.unicode_len();
    let m = pre.unicode_len();
    if n > m && name.substring_char(0, m).to_owned() == pre.to_owned() {
        Some(name.substring_char(m, n).to_owned())
    } else {
        None
    }
}

/// `first_prefix` of the attributes of element `n`.
fn element_prefix(n: &NodeRef, namespace_uri: &str) -> (r: Option<String>)
    ensures
        n.kind() == NodeType::ElementNode ==> opt_string_view(r) == first_prefix(n.attribute_map()@, namespace_uri@),
        n.kind() != NodeType::ElementNode ==> r.is_none(),
{
    let m = match n.attributes() {
        Some(m) => m,
        None => {
            return None;
        },
    };
    let ghost all = m@;
    let mut i: usize = 0;
    assert(all.subrange(0, all.len() as int) =~= all);
    while i < m.length()
        invariant
            all == m@,
            *m == n.attribute_map(),
            n.kind() == NodeType::ElementNode,
            i <= all.len(),
            first_prefix(all, namespace_uri@) == first_prefix(all.subrange(i as int, all.len() as int), namespace_uri@),
        decreases all.len() - i,
    {
        let ghost rest = all.subrange(i as int, all.len() as int);
        assert(rest[0] == all[i as int]);
        assert(rest.subrange(1, rest.len() as int) =~= all.subrange(i + 1, all.len() as int));
        let a = m.item(i).unwrap();
        if let Some(p) = declared_prefix_of(a.node_name()) {
            let v = match a.node_value() {
                Some(v) => v.to_owned(),
                None => String::new(),
            };
            if v == namespace_uri.to_owned() {
                return Some(p);
            }
        }
        i += 1;
    }
    None
}

proof fn lemma_lookup_prefix_step(children: Seq<NodeRef>, path: Seq<usize>, k: int, ns: Seq<char>, found: Option<Seq<char>>)
    requires
        k > 0,
        found == match node_at(children, path.subrange(0, k)) {
            Some(n) => if n.kind() == NodeType::ElementNode { first_prefix(n.attribute_map()@, ns) } else { None },
            None => None,
        },
    ensures
        lookup_prefix_from(children, path, k, ns) == match found {
            Some(p) => Some(p),
            None => lookup_prefix_from(children, path, k - 1, ns),
        },
{
    reveal(lookup_prefix_from);
}

impl Document {
    fn prefix_at(&self, path: &[usize], k: usize, namespace_uri: &str) -> (r: Option<String>)
        requires
            0 < k <= path@.len(),
        ensures
            opt_string_view(r) == match node_at(self.spec_children(), path@.subrange(0, k as int)) {
                Some(n) => if n.kind() == NodeType::ElementNode { first_prefix(n.attribute_map()@, namespace_uri@) } else { None },
                None => None,
            },
    {
        let sub = vstd::slice::slice_subrange(path, 0, k);
        match self.node_at(sub) {
            Some(n) => element_prefix(n, namespace_uri),
            None => None,
        }
    }

    /// The prefix bound to `namespace_uri` at the node at position `path`: the
    /// nearest element, from that node up, whose attributes bind it decides;
    /// an empty prefix stands for the default namespace.
    pub fn lookup_prefix(&self, path: &[usize], namespace_uri: &str) -> (r: Option<String>)
        ensures
            opt_string_view(r) == lookup_prefix_from(self.spec_children(), path@, path@.len() as int, namespace_uri@),
    {
        let mut k: usize = path.len();
        while k > 0
            invariant
                k <= path@.len(),
                lookup_prefix_from(self.spec_children(), path@, path@.len() as int, namespace_uri@)
                    == lookup_prefix_from(self.spec_children(), path@, k as int, namespace_uri@),
            decreases k,
        {
            let found = self.prefix_at(path, k, namespace_uri);
            proof {
                lemma_lookup_prefix_step(self.spec_children(), path@, k as int, namespace_uri@, opt_string_view(found));
            }
            if found.is_some() {
                return found;
            }
            k -= 1;
        }
        proof {
            reveal(lookup_prefix_from);
        }
        None
    }
}

/// The payload stored under `key` for node `node` in the entries `s`, the
/// last entry winning.
pub open spec fn user_data_in(s: Seq<(NodeId, Seq<char>, Seq<u8>)>, node: NodeId, key: Seq<char>) -> Option<Seq<u8>>
    decreases s.len(),
{
    if s.len() == 0 {
        None
    } else if s[s.len() - 1].0 == node && s[s.len() - 1].1 == key {
        Some(s[s.len() - 1].2)
    } else {
        user_data_in(s.subrange(0, s.len() - 1), node, key)
    }
}

impl Document {
    /// The user-data entries, oldest first.
    pub closed spec fn spec_user_data(self) -> Seq<(NodeId, Seq<char>, Seq<u8>)> {
        self.user_data@.map_values(|e: (NodeId, String, Vec<u8>)| (e.0, e.1@, e.2@))
    }

    /// The payload attached to node `node` under `key`, if any.
    pub open spec fn spec_get_user_data(self, node: NodeId, key: Seq<char>) -> Option<Seq<u8>> {
        user_data_in(self.spec_user_data(), node, key)
    }

    /// The payload attached to the node with identity `node` under `key`.
    pub fn get_user_data(&self, node: NodeId, key: &str) -> (r: Option<&Vec<u8>>)
        ensures
            match r {
                Some(v) => self.spec_get_user_data(node, key@) == Some(v@),
                None => self.spec_get_user_data(node, key@).is_none(),
            },
    {
        let ghost all = self.spec_user_data();
        let mut i: usize = self.user_data.len();
        assert(all.subrange(0, all.len() as int) =~= all);
        while i > 0
            invariant
                i <= all.len(),
                all == self.spec_user_data(),
                user_data_in(all, node, key@) == user_data_in(all.subrange(0, i as int), node, key@),
            decreases i,
        {
            let ghost t = all.subrange(0, i as int);
            assert(t.subrange(0, i - 1) =~= all.subrange(0, i - 1));
            let e = &self.user_data[i - 1];
            if e.0 == node && e.1.as_str().to_owned() == key.to_owned() {
                return Some(&e.2);
            }
            i -= 1;
        }
        None
    }

    /// Attaches `data` to the node with identity `node` under `key`, and
    /// hands back what was attached there before. Every handle on the node
    /// shares the data, since it goes by identity.
    pub fn set_user_data(&mut self, node: NodeId, key: &str, data: Vec<u8>) -> (r: Option<Vec<u8>>)
        ensures
            final(self).spec_get_user_data(node, key@) == Some(data@),
            forall|n: NodeId, k: Seq<char>| !(n == node && k == key@) ==> final(self).spec_get_user_data(n, k)
                == old(self).spec_get_user_data(n, k),
            match r {
                Some(v) => old(self).spec_get_user_data(node, key@) == Some(v@),
                None => old(self).spec_get_user_data(node, key@).is_none(),
            },
            Document::same_but_children(*old(self), *final(self)),
            final(self).spec_children() == old(self).spec_children(),
    {
        let previous = match self.get_user_data(node, key) {
            Some(v) => Some(v.clone()),
            None => None,
        };
        let ghost before = self.spec_user_data();
        self.user_data.push((node, key.to_owned(), data));
        assert(self.spec_user_data() =~= before.push((node, key@, data@)));
        proof {
            assert(self.spec_user_data().subrange(0, before.len() as int) =~= before);
        }
        previous
    }
}

proof fn lemma_wf_grow(before: Document, after: Document)
    requires
        after.spec_children() == before.spec_children(),
        after.spec_number() == before.spec_number(),
        before.spec_next_id() <= after.spec_next_id(),
    ensures
        before.wf() ==> after.wf(),
{
    if before.wf() {
        assert forall|i: int| 0 <= i < after.spec_children().len() implies ids_below(
            #[trigger] after.spec_children()[i].view(),
            after.spec_number(),
            after.spec_next_id() as nat,
        ) by {
            crate::node::lemma_ids_below_mono(
                before.spec_children()[i].view(),
                before.spec_number(),
                before.spec_next_id() as nat,
                after.spec_next_id() as nat,
            );
        }
    }
}
} // verus!
