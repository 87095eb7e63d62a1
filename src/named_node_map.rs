//! Maps from qualified names to nodes, kept in insertion order: the attribute
//! set of an element, and the entity and notation tables of a document type.
use vstd::prelude::*;
use crate::exception::{DOMException, Result};
use crate::features::opt_view;
use crate::node::{content, NodeId, NodeInfo, NodeRef, NodeType};
use crate::qname::QName;

verus! {

broadcast use NodeRef::lemma_with_owner;

/// The view of a qualified name.
pub type QNameView = (Option<Seq<char>>, Option<Seq<char>>);

/// An insertion-ordered registry of nodes keyed by qualified name.
///
/// A map of attribute kind (`node_type` is `ElementNode`) accepts Attr nodes
/// only; an Attr node stored in such a map records the map's owner element.
pub struct NamedNodeMap {
    node_type: NodeType,
    owner: Option<NodeId>,
    entries: Vec<(QName, NodeRef)>,
}

/// The node as stored in a map owned by `owner`: an Attr records its owner.
pub open spec fn attach(n: NodeRef, owner: Option<NodeId>) -> NodeRef {
    if n.kind() == NodeType::AttributeNode {
        n.with_owner(owner)
    } else {
        n
    }
}

/// The node as handed back by a map: an Attr no longer records an owner.
pub open spec fn detach(n: NodeRef) -> NodeRef {
    attach(n, None)
}

/// The first position of key `k` in `s`, if it is there.
pub open spec fn key_index(s: Seq<(QNameView, NodeRef)>, k: QNameView) -> Option<int> {
    if exists|i: int| 0 <= i < s.len() && s[i].0 == k {
        Some(choose|i: int| 0 <= i < s.len() && s[i].0 == k && forall|j: int| 0 <= j < i ==> s[j].0 != k)
    } else {
        None
    }
}

/// The position `key_index` gives holds the key.
pub proof fn lemma_key_index_found(s: Seq<(QNameView, NodeRef)>, k: QNameView)
    ensures
        key_index(s, k).is_some() ==> 0 <= key_index(s, k).unwrap() < s.len() && s[key_index(s, k).unwrap()].0 == k,
        key_index(s, k).is_none() ==> forall|i: int| 0 <= i < s.len() ==> s[i].0 != k,
{
    if exists|i: int| 0 <= i < s.len() && s[i].0 == k {
        let i = choose|i: int| 0 <= i < s.len() && s[i].0 == k;
        lemma_least_key(s, k, i);
    }
}

proof fn lemma_least_key(s: Seq<(QNameView, NodeRef)>, k: QNameView, i: int)
    requires
        0 <= i < s.len(),
        s[i].0 == k,
    ensures
        exists|m: int| 0 <= m < s.len() && s[m].0 == k && forall|j: int| 0 <= j < m ==> s[j].0 != k,
    decreases i,
{
    if exists|j: int| 0 <= j < i && s[j].0 == k {
        let j = choose|j: int| 0 <= j < i && s[j].0 == k;
        lemma_least_key(s, k, j);
    } else {
        assert(0 <= i < s.len() && s[i].0 == k && forall|j: int| 0 <= j < i ==> s[j].0 != k);
    }
}

proof fn lemma_key_index(s: Seq<(QNameView, NodeRef)>, k: QNameView, i: int)
    requires
        0 <= i < s.len(),
        s[i].0 == k,
        forall|j: int| 0 <= j < i ==> s[j].0 != k,
    ensures
        key_index(s, k) == Some(i),
{
    let m = choose|m: int| 0 <= m < s.len() && s[m].0 == k && forall|j: int| 0 <= j < m ==> s[j].0 != k;
    assert(0 <= m < s.len() && s[m].0 == k && forall|j: int| 0 <= j < m ==> s[j].0 != k);
    if m < i {
        assert(s[m].0 != k);
    }
    if i < m {
        assert(s[i].0 != k);
    }
}

/// No key occurs twice in `s`.
pub open spec fn unique_keys(s: Seq<(QNameView, NodeRef)>) -> bool {
    forall|i: int, j: int| 0 <= i < j < s.len() ==> #[trigger] s[i].0 != #[trigger] s[j].0
}

proof fn lemma_update_keys(s: Seq<(QNameView, NodeRef)>, i: int, e: (QNameView, NodeRef))
    requires
        0 <= i < s.len(),
        e.0 == s[i].0,
    ensures
        unique_keys(s) ==> unique_keys(s.update(i, e)),
{
    if unique_keys(s) {
        let t = s.update(i, e);
        assert forall|a: int, b: int| 0 <= a < b < t.len() implies #[trigger] t[a].0 != #[trigger] t[b].0 by {
            assert(t[a].0 == s[a].0);
            assert(t[b].0 == s[b].0);
        }
    }
}

proof fn lemma_remove_keys(s: Seq<(QNameView, NodeRef)>, i: int)
    requires
        0 <= i < s.len(),
    ensures
        unique_keys(s) ==> unique_keys(s.remove(i)),
{
    if unique_keys(s) {
        let t = s.remove(i);
        assert forall|a: int, b: int| 0 <= a < b < t.len() implies #[trigger] t[a].0 != #[trigger] t[b].0 by {
            let aa = if a < i { a } else { a + 1 };
            let bb = if b < i { b } else { b + 1 };
            assert(t[a].0 == s[aa].0);
            assert(t[b].0 == s[bb].0);
        }
    }
}

proof fn lemma_push_keys(s: Seq<(QNameView, NodeRef)>, e: (QNameView, NodeRef))
    requires
        key_index(s, e.0).is_none(),
    ensures
        unique_keys(s) ==> unique_keys(s.push(e)),
{
    if unique_keys(s) {
        let t = s.push(e);
        assert forall|a: int, b: int| 0 <= a < b < t.len() implies #[trigger] t[a].0 != #[trigger] t[b].0 by {
            assert(t[a].0 == s[a].0);
            if b < s.len() {
                assert(t[b].0 == s[b].0);
            } else {
                assert(s[a].0 != e.0);
            }
        }
    }
}

/// The entries with each node reduced to what it holds by itself.
pub open spec fn attribute_infos(s: Seq<(QNameView, NodeRef)>) -> Seq<(QNameView, NodeInfo)> {
    s.map_values(|e: (QNameView, NodeRef)| (e.0, e.1.info()))
}

/// The key under which `set_named_item` stores a node.
pub open spec fn name_key(name: Seq<char>) -> QNameView {
    (None, Some(name))
}

fn detach_node(n: NodeRef) -> (r: NodeRef)
    ensures
        r == detach(n),
{
    let mut n = n;
    if n.node_type() == NodeType::AttributeNode {
        n.set_owner_element(None);
    }
    n
}

impl NamedNodeMap {
    /// The entries, in insertion order.
    pub closed spec fn view(self) -> Seq<(QNameView, NodeRef)> {
        self.entries@.map_values(|e: (QName, NodeRef)| (e.0@, e.1))
    }

    /// The kind of node the map belongs to.
    pub closed spec fn spec_node_type(self) -> NodeType {
        self.node_type
    }

    /// The element whose attributes the map holds, if any.
    pub closed spec fn spec_owner(self) -> Option<NodeId> {
        self.owner
    }

    /// The map holds attributes: only Attr nodes may enter it.
    pub open spec fn is_attribute_map(self) -> bool {
        self.spec_node_type() == NodeType::ElementNode
    }

    /// No key occurs twice.
    pub open spec fn wf(self) -> bool {
        unique_keys(self@)
    }

    /// The error, if any, with which `set` refuses `node`: an Attr attached to
    /// another element is in use; a map of attributes accepts nothing else.
    pub open spec fn set_error(self, node: NodeRef) -> Option<DOMException> {
        if node.kind() == NodeType::AttributeNode {
            if node.spec_owner_element().is_some() && node.spec_owner_element() != self.spec_owner() {
                Some(DOMException::InuseAttribute)
            } else {
                None
            }
        } else if self.is_attribute_map() {
            Some(DOMException::HierarchyRequest)
        } else {
            None
        }
    }

    /// An empty map for the nodes of kind `node_type`, owned by element `owner`.
    pub fn new(node_type: NodeType, owner: Option<NodeId>) -> (r: NamedNodeMap)
        ensures
            r@ == Seq::<(QNameView, NodeRef)>::empty(),
            r.spec_node_type() == node_type,
            r.spec_owner() == owner,
            r.wf(),
    {
        let r = NamedNodeMap { node_type, owner, entries: Vec::new() };
        assert(r@ =~= Seq::<(QNameView, NodeRef)>::empty());
        r
    }

    pub fn node_type(&self) -> (r: NodeType)
        ensures
            r == self.spec_node_type(),
    {
        self.node_type
    }

    pub fn owner(&self) -> (r: Option<NodeId>)
        ensures
            r == self.spec_owner(),
    {
        self.owner
    }

    /// The number of entries.
    pub fn length(&self) -> (r: usize)
        ensures
            r == self@.len(),
    {
        self.entries.len()
    }

    /// The entry at `index` in insertion order, if in range.
    pub fn item(&self, index: usize) -> (r: Option<&NodeRef>)
        ensures
            index < self@.len() ==> r == Some(&self@[index as int].1),
            index >= self@.len() ==> r.is_none(),
    {
        if index < self.entries.len() {
            Some(&self.entries[index].1)
        } else {
            None
        }
    }

    fn find(&self, qname: &QName) -> (r: Option<usize>)
        ensures
            r.is_some() ==> r.unwrap() < self@.len() && key_index(self@, qname@) == Some(r.unwrap() as int)
                && self@[r.unwrap() as int].0 == qname@,
            r.is_none() ==> key_index(self@, qname@).is_none(),
    {
        let mut i: usize = 0;
        while i < self.entries.len()
            invariant
                i <= self@.len(),
                self@.len() == self.entries@.len(),
                forall|j: int| 0 <= j < i ==> self@[j].0 != qname@,
            decreases self@.len() - i,
        {
            if self.entries[i].0.same(qname) {
                proof {
                    lemma_key_index(self@, qname@, i as int);
                }
                return Some(i);
            }
            i += 1;
        }
        None
    }

    /// The node stored under `qname`, if any.
    pub fn get(&self, qname: &QName) -> (r: Option<&NodeRef>)
        ensures
            r == match key_index(self@, qname@) {
                Some(i) => Some(&self@[i].1),
                None => None::<&NodeRef>,
            },
    {
        match self.find(qname) {
            Some(i) => Some(&self.entries[i].1),
            None => None,
        }
    }

    /// The node stored under the name `name` without a namespace, if any.
    pub fn get_named_item(&self, name: &str) -> (r: Option<&NodeRef>)
        ensures
            r == match key_index(self@, name_key(name@)) {
                Some(i) => Some(&self@[i].1),
                None => None::<&NodeRef>,
            },
    {
        let q = QName::new(None, Some(name.to_owned()));
        self.get(&q)
    }

    /// The node stored under `namespace_uri` and `local_name`, if any.
    pub fn get_named_item_ns(&self, namespace_uri: &str, local_name: &str) -> (r: Result<Option<&NodeRef>>)
        ensures
            r == Ok::<Option<&NodeRef>, DOMException>(match key_index(self@, (Some(namespace_uri@), Some(local_name@))) {
                Some(i) => Some(&self@[i].1),
                None => None::<&NodeRef>,
            }),
    {
        let q = QName::new(Some(namespace_uri.to_owned()), Some(local_name.to_owned()));
        Ok(self.get(&q))
    }

    /// Removes the entry under `qname` and returns its node, detached; the other
    /// entries keep their order. Fails with NotFound when the key is absent.
    pub fn remove(&mut self, qname: &QName) -> (r: Result<NodeRef>)
        ensures
            old(self).wf() ==> final(self).wf(),
            final(self).spec_node_type() == old(self).spec_node_type(),
            final(self).spec_owner() == old(self).spec_owner(),
            match key_index(old(self)@, qname@) {
                None => r == Err::<NodeRef, DOMException>(DOMException::NotFound) && final(self)@ == old(self)@,
                Some(i) => r == Ok::<NodeRef, DOMException>(detach(old(self)@[i].1))
                    && final(self)@ == old(self)@.remove(i),
            },
    {
        match self.find(qname) {
            None => Err(DOMException::NotFound),
            Some(i) => {
                let node = self.take_at(i);
                Ok(detach_node(node))
            },
        }
    }

    /// Removes the entry under the name `name` without a namespace.
    pub fn remove_named_item(&mut self, name: &str) -> (r: Result<NodeRef>)
        ensures
            old(self).wf() ==> final(self).wf(),
            final(self).spec_node_type() == old(self).spec_node_type(),
            final(self).spec_owner() == old(self).spec_owner(),
            match key_index(old(self)@, name_key(name@)) {
                None => r == Err::<NodeRef, DOMException>(DOMException::NotFound) && final(self)@ == old(self)@,
                Some(i) => r == Ok::<NodeRef, DOMException>(detach(old(self)@[i].1))
                    && final(self)@ == old(self)@.remove(i),
            },
    {
        let q = QName::new(None, Some(name.to_owned()));
        self.remove(&q)
    }

    /// Removes the entry under `namespace_uri` and `local_name`.
    pub fn remove_named_item_ns(&mut self, namespace_uri: &str, local_name: &str) -> (r: Result<NodeRef>)
        ensures
            old(self).wf() ==> final(self).wf(),
            final(self).spec_node_type() == old(self).spec_node_type(),
            final(self).spec_owner() == old(self).spec_owner(),
            match key_index(old(self)@, (Some(namespace_uri@), Some(local_name@))) {
                None => r == Err::<NodeRef, DOMException>(DOMException::NotFound) && final(self)@ == old(self)@,
                Some(i) => r == Ok::<NodeRef, DOMException>(detach(old(self)@[i].1))
                    && final(self)@ == old(self)@.remove(i),
            },
    {
        let q = QName::new(Some(namespace_uri.to_owned()), Some(local_name.to_owned()));
        self.remove(&q)
    }

    /// Stores `node` under `qname`. Fails, leaving the map unchanged, with
    /// InuseAttribute for an Attr attached to another element, and with
    /// HierarchyRequest for a node other than an Attr in a map of attributes.
    /// Otherwise returns the detached previous occupant of the key, which keeps
    /// its place; a new key goes to the end.
    pub fn set(&mut self, qname: QName, node: NodeRef) -> (r: Result<Option<NodeRef>>)
        ensures
            old(self).wf() ==> final(self).wf(),
            final(self).spec_node_type() == old(self).spec_node_type(),
            final(self).spec_owner() == old(self).spec_owner(),
            match old(self).set_error(node) {
                Some(e) => r == Err::<Option<NodeRef>, DOMException>(e) && final(self)@ == old(self)@,
                None => match key_index(old(self)@, qname@) {
                    Some(i) => r == Ok::<Option<NodeRef>, DOMException>(Some(detach(old(self)@[i].1)))
                        && final(self)@ == old(self)@.update(i, (qname@, attach(node, old(self).spec_owner()))),
                    None => r == Ok::<Option<NodeRef>, DOMException>(None)
                        && final(self)@ == old(self)@.push((qname@, attach(node, old(self).spec_owner()))),
                },
            },
    {
        let mut node = node;
        if node.node_type() == NodeType::AttributeNode {
            let o = node.owner_element();
            let in_use = match o {
                Some(x) => match self.owner {
                    Some(y) => x != y,
                    None => true,
                },
                None => false,
            };
            if in_use {
                return Err(DOMException::InuseAttribute);
            }
            node.set_owner_element(self.owner);
        } else if self.node_type == NodeType::ElementNode {
            return Err(DOMException::HierarchyRequest);
        }
        Ok(self.store(qname, node))
    }

    /// Puts `node` under `qname`: in the place of the key's first entry, whose
    /// detached node comes back, or at the end.
    fn take_at(&mut self, i: usize) -> (r: NodeRef)
        requires
            i < old(self)@.len(),
        ensures
            r == old(self)@[i as int].1,
            final(self)@ == old(self)@.remove(i as int),
            old(self).wf() ==> final(self).wf(),
            final(self).spec_node_type() == old(self).spec_node_type(),
            final(self).spec_owner() == old(self).spec_owner(),
    {
        let ghost prev = self@;
        let (_, node) = self.entries.remove(i);
        assert(self@ =~= prev.remove(i as int));
        proof {
            lemma_remove_keys(prev, i as int);
        }
        node
    }

    fn replace_at(&mut self, i: usize, qname: QName, node: NodeRef) -> (r: NodeRef)
        requires
            i < old(self)@.len(),
        ensures
            r == old(self)@[i as int].1,
            final(self)@ == old(self)@.update(i as int, (qname@, node)),
            final(self).spec_node_type() == old(self).spec_node_type(),
            final(self).spec_owner() == old(self).spec_owner(),
    {
        let ghost prev = self@;
        let (_, old_node) = self.entries.remove(i);
        self.entries.insert(i, (qname, node));
        assert(self@ =~= prev.update(i as int, (qname@, node)));
        old_node
    }

    fn store(&mut self, qname: QName, node: NodeRef) -> (r: Option<NodeRef>)
        ensures
            final(self).spec_node_type() == old(self).spec_node_type(),
            final(self).spec_owner() == old(self).spec_owner(),
            old(self).wf() ==> final(self).wf(),
            match key_index(old(self)@, qname@) {
                Some(i) => r == Some(detach(old(self)@[i].1)) && final(self)@ == old(self)@.update(i, (qname@, node)),
                None => r.is_none() && final(self)@ == old(self)@.push((qname@, node)),
            },
    {
        let ghost prev = self@;
        let ghost k = qname@;
        let ghost e = (qname@, node);
        match self.find(&qname) {
            Some(i) => {
                let old_node = self.replace_at(i, qname, node);
                proof {
                    lemma_update_keys(prev, i as int, e);
                }
                Some(detach_node(old_node))
            },
            None => {
                self.entries.push((qname, node));
                assert(self@ =~= prev.push(e));
                proof {
                    lemma_push_keys(prev, e);
                }
                None
            },
        }
    }

    /// Stores `arg` under its node name, without a namespace.
    pub fn set_named_item(&mut self, arg: NodeRef) -> (r: Result<Option<NodeRef>>)
        ensures
            old(self).wf() ==> final(self).wf(),
            final(self).spec_node_type() == old(self).spec_node_type(),
            final(self).spec_owner() == old(self).spec_owner(),
            match old(self).set_error(arg) {
                Some(e) => r == Err::<Option<NodeRef>, DOMException>(e) && final(self)@ == old(self)@,
                None => match key_index(old(self)@, name_key(arg.name())) {
                    Some(i) => r == Ok::<Option<NodeRef>, DOMException>(Some(detach(old(self)@[i].1)))
                        && final(self)@ == old(self)@.update(i, (name_key(arg.name()), attach(arg, old(self).spec_owner()))),
                    None => r == Ok::<Option<NodeRef>, DOMException>(None)
                        && final(self)@ == old(self)@.push((name_key(arg.name()), attach(arg, old(self).spec_owner()))),
                },
            },
    {
        let name = arg.node_name().to_owned();
        let q = QName::new(None, Some(name));
        self.set(q, arg)
    }

    /// Stores `arg` under its namespace URI and local name.
    pub fn set_named_item_ns(&mut self, arg: NodeRef) -> (r: Result<Option<NodeRef>>)
        ensures
            old(self).wf() ==> final(self).wf(),
            final(self).spec_node_type() == old(self).spec_node_type(),
            final(self).spec_owner() == old(self).spec_owner(),
            match old(self).set_error(arg) {
                Some(e) => r == Err::<Option<NodeRef>, DOMException>(e) && final(self)@ == old(self)@,
                None => match key_index(old(self)@, arg.qname()) {
                    Some(i) => r == Ok::<Option<NodeRef>, DOMException>(Some(detach(old(self)@[i].1)))
                        && final(self)@ == old(self)@.update(i, (arg.qname(), attach(arg, old(self).spec_owner()))),
                    None => r == Ok::<Option<NodeRef>, DOMException>(None)
                        && final(self)@ == old(self)@.push((arg.qname(), attach(arg, old(self).spec_owner()))),
                },
            },
    {
        let q = QName::new(arg.namespace_uri_string(), arg.local_name_string());
        self.set(q, arg)
    }

    /// A copy for the element `owner`: the same keys, in the same order, each
    /// over a fresh copy of its node that records `owner`. The copies take the
    /// identities of document `document` with serials `next_id`,
    /// `next_id + 1`, ... in order.
    pub(crate) fn copy_for(&self, owner: Option<NodeId>, document: u64, next_id: &mut u64) -> (r: NamedNodeMap)
        requires
            *old(next_id) + self@.len() <= u64::MAX,
        ensures
            *final(next_id) == *old(next_id) + self@.len(),
            r.spec_node_type() == self.spec_node_type(),
            r.spec_owner() == owner,
            r@.len() == self@.len(),
            forall|i: int| 0 <= i < self@.len() ==> (#[trigger] r@[i]).0 == self@[i].0
                && content(r@[i].1.info()) == content(self@[i].1.info())
                && r@[i].1.spec_owner_element() == owner
                && r@[i].1.spec_id() == (NodeId { document, serial: (*old(next_id) + i) as u64 })
                && r@[i].1.children().len() == 0 && r@[i].1.attribute_map()@.len() == 0,
            self.wf() ==> r.wf(),
    {
        let ghost start = *next_id;
        let mut entries: Vec<(QName, NodeRef)> = Vec::new();
        let mut i: usize = 0;
        while i < self.entries.len()
            invariant
                i <= self@.len(),
                self@.len() == self.entries@.len(),
                entries@.len() == i,
                start + self@.len() <= u64::MAX,
                *next_id == start + i,
                forall|k: int| 0 <= k < i ==> (#[trigger] entries@[k]).0@ == self@[k].0
                    && content(entries@[k].1.info()) == content(self@[k].1.info())
                    && entries@[k].1.spec_owner_element() == owner
                    && entries@[k].1.spec_id() == (NodeId { document, serial: (start + k) as u64 })
                    && entries@[k].1.children().len() == 0 && entries@[k].1.attribute_map()@.len() == 0,
            decreases self@.len() - i,
        {
            let id = NodeId { document, serial: *next_id };
            *next_id = *next_id + 1;
            let n = self.entries[i].1.copy_info(id, owner);
            entries.push((self.entries[i].0.copy(), n));
            i += 1;
        }
        let r = NamedNodeMap { node_type: self.node_type, owner, entries };
        assert forall|k: int| 0 <= k < self@.len() implies (#[trigger] r@[k]).0 == self@[k].0 by {
            assert(r@[k].0 == entries@[k].0@);
        }
        r
    }

    /// A snapshot of the whole map: the same keys, in the same order, each
    /// over a snapshot (`NodeRef::handle`) of its node's whole subtree.
    pub fn snapshot(&self) -> (r: NamedNodeMap)
        ensures
            r@.len() == self@.len(),
            forall|i: int| 0 <= i < self@.len() ==> (#[trigger] r@[i]).0 == self@[i].0
                && r@[i].1.view() == self@[i].1.view() && r@[i].1.kind() == self@[i].1.kind(),
            r.spec_node_type() == self.spec_node_type(),
            r.spec_owner() == self.spec_owner(),
            self.wf() ==> r.wf(),
    {
        let mut entries: Vec<(QName, NodeRef)> = Vec::new();
        let mut i: usize = 0;
        while i < self.entries.len()
            invariant
                i <= self@.len(),
                self@.len() == self.entries@.len(),
                entries@.len() == i,
                forall|k: int| 0 <= k < i ==> (#[trigger] entries@[k]).0@ == self@[k].0
                    && entries@[k].1.view() == self@[k].1.view() && entries@[k].1.kind() == self@[k].1.kind(),
            decreases self@.len() - i,
        {
            let c = self.entries[i].1.handle();
            entries.push((self.entries[i].0.copy(), c));
            i += 1;
        }
        let r = NamedNodeMap { node_type: self.node_type, owner: self.owner, entries };
        assert forall|k: int| 0 <= k < self@.len() implies (#[trigger] r@[k]).0 == self@[k].0 by {
            assert(r@[k].0 == entries@[k].0@);
        }
        r
    }

    /// Another handle on each entry: the same keys over nodes with the same
    /// identities, owners and content.
    pub fn handles(&self) -> (r: NamedNodeMap)
        ensures
            attribute_infos(r@) == attribute_infos(self@),
            r@.len() == self@.len(),
            forall|i: int| 0 <= i < self@.len() ==> (#[trigger] r@[i]).0 == self@[i].0,
            r.spec_node_type() == self.spec_node_type(),
            r.spec_owner() == self.spec_owner(),
    {
        let mut entries: Vec<(QName, NodeRef)> = Vec::new();
        let mut i: usize = 0;
        while i < self.entries.len()
            invariant
                i <= self@.len(),
                self@.len() == self.entries@.len(),
                entries@.len() == i,
                forall|k: int| 0 <= k < i ==> (#[trigger] entries@[k]).0@ == self@[k].0
                    && entries@[k].1.info() == self@[k].1.info(),
            decreases self@.len() - i,
        {
            let n = &self.entries[i].1;
            let c = n.copy_info(n.id(), n.owner_element());
            proof {
                NodeRef::lemma_info_parts(c, *n);
            }
            entries.push((self.entries[i].0.copy(), c));
            i += 1;
        }
        let r = NamedNodeMap { node_type: self.node_type, owner: self.owner, entries };
        assert forall|k: int| 0 <= k < self@.len() implies (#[trigger] r@[k]).0 == self@[k].0 by {
            assert(r@[k].0 == entries@[k].0@);
        }
        assert(attribute_infos(r@) =~= attribute_infos(self@));
        r
    }

    /// Whether both maps hold the same keys, in the same order, over nodes of
    /// the same content.
    pub fn same_content(&self, other: &NamedNodeMap) -> (r: bool)
        ensures
            r == (crate::node::attribute_content(attribute_infos(self@)) == crate::node::attribute_content(attribute_infos(other@))),
    {
        let ghost a = crate::node::attribute_content(attribute_infos(self@));
        let ghost b = crate::node::attribute_content(attribute_infos(other@));
        if self.entries.len() != other.entries.len() {
            assert(a.len() != b.len());
            return false;
        }
        let mut i: usize = 0;
        while i < self.entries.len()
            invariant
                i <= self@.len(),
                self@.len() == self.entries@.len(),
                other@.len() == other.entries@.len(),
                self@.len() == other@.len(),
                a == crate::node::attribute_content(attribute_infos(self@)),
                b == crate::node::attribute_content(attribute_infos(other@)),
                forall|k: int| 0 <= k < i ==> #[trigger] a[k] == b[k],
            decreases self@.len() - i,
        {
            if !self.entries[i].0.same(&other.entries[i].0) || !self.entries[i].1.same_content(&other.entries[i].1) {
                assert(a[i as int] != b[i as int]);
                return false;
            }
            i += 1;
        }
        assert(a =~= b);
        true
    }
}


/// In a map of attributes, a node other than an Attr is refused with
/// HierarchyRequest, whatever the map holds.
pub proof fn lemma_attribute_map_refuses_other_kinds(m: NamedNodeMap, n: NodeRef)
    requires
        m.is_attribute_map(),
        n.kind() != NodeType::AttributeNode,
    ensures
        m.set_error(n) == Some(DOMException::HierarchyRequest),
{
}

/// An Attr attached to the element of map `m` is refused by the map of any
/// other element, while setting it again on its own element, where it is
/// stored, is accepted and leaves the entries as they were.
pub proof fn lemma_attribute_in_use(m: NamedNodeMap, other: NamedNodeMap, a: NodeRef, i: int)
    requires
        a.kind() == NodeType::AttributeNode,
        m.spec_owner().is_some(),
        a.spec_owner_element() == m.spec_owner(),
        other.spec_owner() != m.spec_owner(),
        0 <= i < m@.len(),
        key_index(m@, name_key(a.name())) == Some(i),
        m@[i].1 == a,
    ensures
        other.set_error(a) == Some(DOMException::InuseAttribute),
        m.set_error(a).is_none(),
        m@.update(i, (name_key(a.name()), attach(a, m.spec_owner()))) == m@,
{
    a.lemma_with_own_owner();
    lemma_key_index_found(m@, name_key(a.name()));
    assert(m@.update(i, (name_key(a.name()), attach(a, m.spec_owner()))) =~= m@);
}

/// Removing a key keeps the other entries in their order: the entries after
/// the removed one each move up by one place.
pub proof fn lemma_remove_keeps_order(before: Seq<(QNameView, NodeRef)>, after: Seq<(QNameView, NodeRef)>, i: int)
    requires
        0 <= i < before.len(),
        after == before.remove(i),
    ensures
        after.len() == before.len() - 1,
        forall|j: int| 0 <= j < i ==> after[j] == before[j],
        forall|j: int| i <= j < after.len() ==> after[j] == before[j + 1],
{
}
} // verus!
