use xenolith::document::{
    compare_positions, CONTAINED_BY, CONTAINS, DISCONNECTED, FOLLOWING, IMPLEMENTATION_SPECIFIC, PRECEDING,
};
use xenolith::node::NodeId;
use xenolith::{DOMException, DOMImplementation, Document, DocumentPosition, NodeRef, NodeType};

fn new_document() -> Document {
    DOMImplementation::new().create_document("", "", None).unwrap()
}

#[test]
fn normalize_merges_adjacent_text() {
    let mut doc = new_document();
    let mut e = doc.create_element("p").unwrap();
    let a = doc.create_text_node("a");
    let b = doc.create_text_node("b");
    e.append_child(a).unwrap();
    e.append_child(b).unwrap();
    e.normalize();
    assert_eq!(e.child_nodes().length(), 1);
    let t = e.first_child().unwrap();
    assert_eq!(t.node_type(), NodeType::TextNode);
    assert_eq!(t.node_value(), Some("ab"));
}

#[test]
fn normalize_drops_empty_text() {
    let mut doc = new_document();
    let mut e = doc.create_element("p").unwrap();
    let t1 = doc.create_text_node("x");
    let empty = doc.create_text_node("");
    let t2 = doc.create_text_node("y");
    let c = doc.create_comment("c");
    let lone_empty = doc.create_text_node("");
    e.append_child(t1).unwrap();
    e.append_child(empty).unwrap();
    e.append_child(t2).unwrap();
    e.append_child(c).unwrap();
    e.append_child(lone_empty).unwrap();
    e.normalize();
    assert_eq!(e.child_nodes().length(), 2);
    assert_eq!(e.child_nodes().item(0).unwrap().node_value(), Some("xy"));
    assert_eq!(e.child_nodes().item(1).unwrap().node_type(), NodeType::CommentNode);
}

#[test]
fn normalize_keeps_cdata_apart_and_recurses() {
    let mut doc = new_document();
    let mut outer = doc.create_element("outer").unwrap();
    let mut inner = doc.create_element("inner").unwrap();
    let i1 = doc.create_text_node("1");
    let i2 = doc.create_text_node("2");
    inner.append_child(i1).unwrap();
    inner.append_child(i2).unwrap();
    let t = doc.create_text_node("t");
    let cd = doc.create_cdata_section("c");
    let u = doc.create_text_node("u");
    outer.append_child(t).unwrap();
    outer.append_child(cd).unwrap();
    outer.append_child(u).unwrap();
    outer.append_child(inner).unwrap();
    outer.normalize();
    assert_eq!(outer.child_nodes().length(), 4);
    let inner = outer.last_child().unwrap();
    assert_eq!(inner.child_nodes().length(), 1);
    assert_eq!(inner.first_child().unwrap().node_value(), Some("12"));
}

#[test]
fn sibling_positions() {
    let mut doc = new_document();
    let mut parent = doc.create_element("parent").unwrap();
    let x = doc.create_element("x").unwrap();
    let y = doc.create_element("y").unwrap();
    parent.append_child(x).unwrap();
    parent.append_child(y).unwrap();
    doc.append_child(parent).unwrap();
    assert_eq!(doc.node_at(&[0, 0]).unwrap().node_name(), "x");
    assert_eq!(doc.node_at(&[0, 1]).unwrap().node_name(), "y");
    let from_x = doc.compare_document_position(&[0, 0], &[0, 1]);
    assert_eq!(from_x, FOLLOWING);
    let from_y = doc.compare_document_position(&[0, 1], &[0, 0]);
    assert!(from_y & DocumentPosition::Preceding.bit() != 0);
    assert_eq!(from_y, PRECEDING);
}

#[test]
fn ancestor_positions() {
    let mut doc = new_document();
    let mut parent = doc.create_element("parent").unwrap();
    let x = doc.create_element("x").unwrap();
    parent.append_child(x).unwrap();
    doc.append_child(parent).unwrap();
    assert_eq!(doc.compare_document_position(&[0], &[0, 0]), CONTAINED_BY | FOLLOWING);
    assert_eq!(doc.compare_document_position(&[0, 0], &[0]), CONTAINS | PRECEDING);
    assert_eq!(doc.compare_document_position(&[], &[0, 0]), CONTAINED_BY | FOLLOWING);
    assert_eq!(doc.compare_document_position(&[0, 0], &[0, 0]), 0);
    assert_eq!(doc.compare_document_position(&[0, 5], &[0, 0]), DISCONNECTED | IMPLEMENTATION_SPECIFIC);
    assert_eq!(compare_positions(&[1, 2, 3], &[1, 3]), FOLLOWING);
    assert_eq!(compare_positions(&[2], &[1, 9]), PRECEDING);
    assert_eq!(DocumentPosition::ContainedBy.bit(), 0x10);
    assert_eq!(DocumentPosition::ImplementationSpecific.bit(), 0x20);
}

#[test]
fn shallow_clone_has_no_children_and_no_owner() {
    let mut doc = new_document();
    let mut e = doc.create_element("e").unwrap();
    let t = doc.create_text_node("t");
    e.append_child(t).unwrap();
    let a = doc.create_attribute("k").unwrap();
    e.set_attribute_node(a).unwrap();
    let c = doc.import_node(&e, false);
    assert!(!c.has_child_nodes());
    assert_eq!(c.node_name(), "e");
    assert_eq!(c.attributes().unwrap().length(), 1);
    assert_eq!(c.get_attribute_node("k").unwrap().owner_element(), Some(c.id()));
    let attr = e.get_attribute_node("k").unwrap();
    let ca = doc.import_node(attr, true);
    assert_eq!(ca.owner_element(), None);
}

#[test]
fn deep_clone_is_equal_but_not_same() {
    let mut doc = new_document();
    let mut e = doc.create_element("e").unwrap();
    let mut f = doc.create_element("f").unwrap();
    let t = doc.create_text_node("t");
    f.append_child(t).unwrap();
    e.append_child(f).unwrap();
    let mut next: u64 = 1000;
    let c = e.clone_node(true, doc.number(), &mut next);
    assert!(c.is_equal_node(&e));
    assert!(e.is_equal_node(&c));
    assert!(!c.is_same_node(&e));
    assert_eq!(c.id(), NodeId { document: doc.number(), serial: 1000 });
    assert_eq!(next, 1003);
    assert_eq!(c.first_child().unwrap().first_child().unwrap().node_value(), Some("t"));
    let mut changed = c.handle();
    changed.set_node_value("ignored");
    assert!(changed.is_equal_node(&e));
    let other = doc.create_text_node("u");
    changed.append_child(other).unwrap();
    assert!(!changed.is_equal_node(&e));
}

#[test]
fn child_mutation() {
    let mut doc = new_document();
    let mut e = doc.create_element("e").unwrap();
    let a = doc.create_text_node("a");
    let b = doc.create_text_node("b");
    let c = doc.create_text_node("c");
    let a_ref = a.handle();
    let b_ref = b.handle();
    e.append_child(a).unwrap();
    e.append_child(b).unwrap();
    e.insert_before(c, &b_ref).unwrap();
    let values: Vec<&str> = (0..3).map(|i| e.child_nodes().item(i).unwrap().node_value().unwrap()).collect();
    assert_eq!(values, vec!["a", "c", "b"]);
    let removed = e.remove_child(&a_ref).unwrap();
    assert!(removed.is_same_node(&a_ref));
    assert!(matches!(e.remove_child(&a_ref), Err(DOMException::NotFound)));
    let d = doc.create_comment("d");
    let old = e.replace_child(d, &b_ref).unwrap();
    assert_eq!(old.node_value(), Some("b"));
    assert_eq!(e.last_child().unwrap().node_type(), NodeType::CommentNode);
    let z = doc.create_text_node("z");
    assert!(matches!(e.insert_before(z, &a_ref), Err(DOMException::NotFound)));
    assert_eq!(e.child_nodes().length(), 2);
}

#[test]
fn hierarchy_errors() {
    let mut doc = new_document();
    let mut e = doc.create_element("e").unwrap();
    let attr = doc.create_attribute("a").unwrap();
    assert!(matches!(e.append_child(attr), Err(DOMException::HierarchyRequest)));
    let mut t = doc.create_text_node("t");
    let u = doc.create_text_node("u");
    assert!(matches!(t.append_child(u), Err(DOMException::HierarchyRequest)));
    let copy = e.handle();
    assert!(matches!(e.append_child(copy), Err(DOMException::HierarchyRequest)));
    let text = doc.create_text_node("top");
    assert!(doc.append_child(text).is_ok());
    assert!(doc.has_child_nodes());
    let mut set_on_text = doc.create_text_node("x");
    let attr2 = doc.create_attribute("b").unwrap();
    assert!(matches!(set_on_text.set_attribute_node(attr2), Err(DOMException::HierarchyRequest)));
}

#[test]
fn document_accepts_several_elements() {
    let mut doc = new_document();
    let a = doc.create_element("a").unwrap();
    let b = doc.create_element("b").unwrap();
    let pi = doc.create_processing_instruction("target", "data");
    doc.append_child(pi).unwrap();
    doc.append_child(a).unwrap();
    doc.append_child(b).unwrap();
    assert_eq!(doc.child_nodes().length(), 3);
    assert_eq!(doc.document_element().unwrap().node_name(), "a");
    assert_eq!(doc.first_child().unwrap().node_name(), "target");
    assert_eq!(doc.last_child().unwrap().node_name(), "b");
    let a_ref = doc.document_element().unwrap().handle();
    doc.remove_child(&a_ref).unwrap();
    assert_eq!(doc.document_element().unwrap().node_name(), "b");
}

#[test]
fn factory_names() {
    let mut imp = DOMImplementation::new();
    let mut doc = imp.create_document("urn:a", "a:root", None).unwrap();
    let root = doc.document_element().unwrap();
    assert_eq!(root.node_name(), "a:root");
    assert_eq!(root.prefix(), Some("a"));
    assert_eq!(root.local_name(), Some("root"));
    assert_eq!(root.namespace_uri(), Some("urn:a"));
    assert!(matches!(imp.create_document("", "a:root", None), Err(DOMException::Namespace)));
    assert!(matches!(imp.create_document("urn:a", "bad name", None), Err(DOMException::InvalidCharacter)));
    assert!(matches!(doc.create_element(""), Err(DOMException::InvalidCharacter)));
    assert!(matches!(doc.create_element("a<b"), Err(DOMException::InvalidCharacter)));
    assert!(matches!(doc.create_attribute("a b"), Err(DOMException::InvalidCharacter)));
    assert!(matches!(doc.create_entity_reference("&x"), Err(DOMException::InvalidCharacter)));
    assert!(matches!(doc.create_element_ns("urn:a", "p:"), Err(DOMException::Namespace)));
    assert!(matches!(doc.create_element_ns("urn:a", ":p"), Err(DOMException::Namespace)));
    let plain = doc.create_element_ns("", "plain").unwrap();
    assert_eq!(plain.namespace_uri(), None);
    assert_eq!(plain.prefix(), None);
    let frag = doc.create_document_fragment();
    assert_eq!(frag.node_type(), NodeType::DocumentFragmentNode);
    assert_eq!(frag.node_name(), "#document-fragment");
    assert_eq!(doc.create_text_node("x").node_name(), "#text");
    assert_eq!(doc.create_cdata_section("x").node_name(), "#cdata-section");
    assert_eq!(doc.create_comment("x").node_name(), "#comment");
    assert_eq!(doc.node_type(), NodeType::DocumentNode);
    assert_eq!(doc.node_name(), "#document");
    assert!(doc.base_uri().is_none());
    let dt = imp.create_document_type("html", "-//W3C//DTD XHTML 1.0//EN", "sys").unwrap();
    assert_eq!(dt.name(), "html");
    assert_eq!(dt.public_id(), "-//W3C//DTD XHTML 1.0//EN");
    assert_eq!(dt.system_id(), "sys");
    assert!(dt.internal_subset().is_none());
    assert_eq!(dt.entities().length(), 0);
    assert_eq!(dt.notations().length(), 0);
    assert!(matches!(imp.create_document_type("a b", "", ""), Err(DOMException::InvalidCharacter)));
    let with_dt = imp.create_document("", "", Some(dt)).unwrap();
    assert_eq!(with_dt.doctype().unwrap().name(), "html");
}

#[test]
fn node_values() {
    let mut doc = new_document();
    let mut e = doc.create_element("e").unwrap();
    e.set_node_value("ignored");
    assert_eq!(e.node_value(), None);
    let mut t = doc.create_text_node("old");
    t.set_node_value("new");
    assert_eq!(t.node_value(), Some("new"));
    let a = doc.create_attribute("a").unwrap();
    assert_eq!(a.node_value(), Some(""));
    assert!(!e.has_attributes());
}

fn with_declarations(doc: &mut Document, el: &mut NodeRef, decls: &[(&str, &str)]) {
    for (name, value) in decls {
        let mut a = doc.create_attribute(name).unwrap();
        a.set_node_value(value);
        el.set_attribute_node(a).unwrap();
    }
}

#[test]
fn namespace_lookup() {
    let mut doc = new_document();
    let mut outer = doc.create_element("outer").unwrap();
    with_declarations(&mut doc, &mut outer, &[("xmlns", "urn:default"), ("xmlns:p", "urn:p")]);
    let mut middle = doc.create_element("middle").unwrap();
    with_declarations(&mut doc, &mut middle, &[("xmlns:p", "")]);
    let mut inner = doc.create_element("inner").unwrap();
    with_declarations(&mut doc, &mut inner, &[("xmlns:q", "urn:q")]);
    middle.append_child(inner).unwrap();
    outer.append_child(middle).unwrap();
    doc.append_child(outer).unwrap();
    assert_eq!(doc.lookup_namespace_uri(&[0, 0, 0], Some("q")).as_deref(), Some("urn:q"));
    assert_eq!(doc.lookup_namespace_uri(&[0, 0, 0], None).as_deref(), Some("urn:default"));
    assert_eq!(doc.lookup_namespace_uri(&[0, 0, 0], Some("p")), None);
    assert_eq!(doc.lookup_namespace_uri(&[0], Some("p")).as_deref(), Some("urn:p"));
    assert_eq!(doc.lookup_namespace_uri(&[0], Some("q")), None);
    assert!(doc.is_default_namespace(&[0, 0], "urn:default"));
    assert!(!doc.is_default_namespace(&[0, 0], "urn:p"));
}

#[test]
fn prefix_lookup() {
    let mut doc = new_document();
    let mut outer = doc.create_element("outer").unwrap();
    with_declarations(&mut doc, &mut outer, &[("xmlns", "urn:default"), ("xmlns:p", "urn:p")]);
    let mut inner = doc.create_element("inner").unwrap();
    with_declarations(&mut doc, &mut inner, &[("xmlns:q", "urn:p"), ("title", "urn:t")]);
    outer.append_child(inner).unwrap();
    doc.append_child(outer).unwrap();
    assert_eq!(doc.lookup_prefix(&[0, 0], "urn:p").as_deref(), Some("q"));
    assert_eq!(doc.lookup_prefix(&[0], "urn:p").as_deref(), Some("p"));
    assert_eq!(doc.lookup_prefix(&[0, 0], "urn:default").as_deref(), Some(""));
    assert_eq!(doc.lookup_prefix(&[0, 0], "urn:t"), None);
    assert_eq!(doc.lookup_prefix(&[0, 0], "urn:none"), None);
}

#[test]
fn elements_by_tag_name_in_document_order() {
    let mut doc = new_document();
    let mut root = doc.create_element("item").unwrap();
    let mut a = doc.create_element("a").unwrap();
    let inner = doc.create_element("item").unwrap();
    let inner_id = inner.id();
    a.append_child(inner).unwrap();
    let text = doc.create_text_node("t");
    a.append_child(text).unwrap();
    let last = doc.create_element("item").unwrap();
    let last_id = last.id();
    root.append_child(a).unwrap();
    root.append_child(last).unwrap();
    let root_id = root.id();
    let under_root = root.get_elements_by_tag_name("item");
    assert_eq!(under_root.length(), 2);
    assert_eq!(under_root.item(0).unwrap().id(), inner_id);
    assert_eq!(under_root.item(1).unwrap().id(), last_id);
    doc.append_child(root).unwrap();
    let all_items = doc.get_elements_by_tag_name("item");
    assert_eq!(all_items.length(), 3);
    assert_eq!(all_items.item(0).unwrap().id(), root_id);
    assert_eq!(all_items.item(1).unwrap().id(), inner_id);
    assert_eq!(all_items.item(2).unwrap().id(), last_id);
    assert_eq!(doc.get_elements_by_tag_name("*").length(), 4);
    assert_eq!(doc.get_elements_by_tag_name("none").length(), 0);
    let extra = doc.create_element("item").unwrap();
    doc.append_child(extra).unwrap();
    assert_eq!(all_items.length(), 3);
}

#[test]
fn document_type_clone_copies_everything() {
    let imp = DOMImplementation::new();
    let mut doc = new_document();
    let dt = imp.create_document_type("note", "pub", "sys").unwrap();
    let c = dt.clone_document_type();
    assert_eq!(c.name(), "note");
    assert_eq!(c.public_id(), "pub");
    assert_eq!(c.system_id(), "sys");
    assert_eq!(c.internal_subset(), None);
    assert_eq!(c.entities().length(), 0);
    assert_eq!(c.node_type(), NodeType::DocumentTypeNode);
    let _ = doc.create_comment("unused");
}

#[test]
fn document_insert_and_replace() {
    let mut doc = new_document();
    let root = doc.create_element("root").unwrap();
    let root_ref = root.handle();
    doc.append_child(root).unwrap();
    let c = doc.create_comment("before");
    doc.insert_before(c, &root_ref).unwrap();
    assert_eq!(doc.first_child().unwrap().node_type(), NodeType::CommentNode);
    let t = doc.create_text_node("text");
    assert!(doc.insert_before(t, &root_ref).is_ok());
    let stray = doc.create_element("stray").unwrap();
    let pi = doc.create_processing_instruction("pi", "");
    assert!(matches!(doc.insert_before(pi, &stray), Err(DOMException::NotFound)));
    let other = doc.create_element("other").unwrap();
    let old = doc.replace_child(other, &root_ref).unwrap();
    assert!(old.is_same_node(&root_ref));
    assert_eq!(doc.document_element().unwrap().node_name(), "other");
    assert_eq!(doc.child_nodes().length(), 3);
}

#[test]
fn text_content_skips_comments() {
    let mut doc = new_document();
    let mut e = doc.create_element("e").unwrap();
    let mut inner = doc.create_element("i").unwrap();
    let t1 = doc.create_text_node("a");
    let c = doc.create_comment("hidden");
    let t2 = doc.create_cdata_section("b");
    let t3 = doc.create_text_node("c");
    inner.append_child(t2).unwrap();
    e.append_child(t1).unwrap();
    e.append_child(c).unwrap();
    e.append_child(inner).unwrap();
    e.append_child(t3).unwrap();
    assert_eq!(e.text_content(), "abc");
    assert_eq!(doc.create_comment("x").text_content(), "x");
}

#[test]
fn prefix_changes_the_name() {
    let mut doc = new_document();
    let mut e = doc.create_element_ns("urn:a", "a:item").unwrap();
    e.set_prefix(Some("b")).unwrap();
    assert_eq!(e.node_name(), "b:item");
    assert_eq!(e.prefix(), Some("b"));
    e.set_prefix(None).unwrap();
    assert_eq!(e.node_name(), "item");
    assert!(matches!(e.set_prefix(Some("")), Err(DOMException::Namespace)));
    let mut plain = doc.create_element("plain").unwrap();
    assert!(matches!(plain.set_prefix(Some("p")), Err(DOMException::Namespace)));
    let mut t = doc.create_text_node("t");
    assert!(t.set_prefix(Some("p")).is_ok());
    assert_eq!(t.prefix(), None);
}

#[test]
fn node_type_codes() {
    let kinds = [
        (NodeType::ElementNode, 1),
        (NodeType::AttributeNode, 2),
        (NodeType::TextNode, 3),
        (NodeType::CDATASectionNode, 4),
        (NodeType::EntityReferenceNode, 5),
        (NodeType::EntityNode, 6),
        (NodeType::ProcessingInstructionNode, 7),
        (NodeType::CommentNode, 8),
        (NodeType::DocumentNode, 9),
        (NodeType::DocumentTypeNode, 10),
        (NodeType::DocumentFragmentNode, 11),
        (NodeType::NotationNode, 12),
    ];
    for (k, code) in kinds.iter() {
        assert_eq!(k.code(), *code);
    }
}

#[test]
fn identities_differ_across_documents() {
    let mut imp = DOMImplementation::new();
    let mut d1 = imp.create_document("", "", None).unwrap();
    let mut d2 = imp.create_document("", "", None).unwrap();
    assert_ne!(d1.number(), d2.number());
    let a = d1.create_element("a").unwrap();
    let b = d2.create_element("a").unwrap();
    assert_eq!(a.id().serial, b.id().serial);
    assert!(!a.is_same_node(&b));
    assert_eq!(a.owner_document(), d1.number());
    let imported = d2.import_node(&a, true);
    assert!(!imported.is_same_node(&a));
    assert!(!imported.is_same_node(&b));
    assert!(imported.is_equal_node(&a));
    assert_eq!(imported.owner_document(), d2.number());
    let mut parent = d2.create_element("p").unwrap();
    let child = d2.create_text_node("c");
    parent.append_child(child).unwrap();
    let foreign = d1.create_text_node("c");
    assert!(matches!(parent.remove_child(&foreign), Err(DOMException::NotFound)));
    assert_eq!(parent.child_nodes().length(), 1);
}

#[test]
fn shallow_copy_attributes_are_new_nodes() {
    let mut doc = new_document();
    let mut e = doc.create_element("e").unwrap();
    let a = doc.create_attribute("k").unwrap();
    e.set_attribute_node(a).unwrap();
    let c = doc.import_node(&e, false);
    let original = e.attributes().unwrap().item(0).unwrap();
    let copied = c.attributes().unwrap().item(0).unwrap();
    assert!(copied.is_equal_node(original));
    assert!(!copied.is_same_node(original));
    assert!(!c.has_child_nodes());
}

#[test]
fn document_normalize() {
    let mut doc = new_document();
    let mut e = doc.create_element("e").unwrap();
    let a = doc.create_text_node("a");
    let empty = doc.create_text_node("");
    let b = doc.create_text_node("b");
    e.append_child(a).unwrap();
    e.append_child(empty).unwrap();
    e.append_child(b).unwrap();
    doc.append_child(e).unwrap();
    doc.normalize();
    let e = doc.first_child().unwrap();
    assert_eq!(e.child_nodes().length(), 1);
    assert_eq!(e.first_child().unwrap().node_value(), Some("ab"));
}

#[test]
fn change_in_place() {
    let mut doc = new_document();
    let mut e = doc.create_element("e").unwrap();
    let t = doc.create_text_node("old");
    e.append_child(t).unwrap();
    doc.append_child(e).unwrap();
    doc.child_mut(0).child_mut(0).set_node_value("new");
    assert_eq!(doc.node_at(&[0, 0]).unwrap().node_value(), Some("new"));
}

#[test]
fn user_data_follows_identity() {
    let mut doc = new_document();
    let e = doc.create_element("e").unwrap();
    let other = doc.create_element("o").unwrap();
    let key = xenolith::Location::USERDATA_NAME;
    assert!(doc.get_user_data(e.id(), key).is_none());
    assert_eq!(doc.set_user_data(e.id(), key, vec![1, 2]), None);
    assert_eq!(doc.set_user_data(e.id(), key, vec![3]), Some(vec![1, 2]));
    let h = e.handle();
    assert_eq!(doc.get_user_data(h.id(), key), Some(&vec![3]));
    assert!(doc.get_user_data(other.id(), key).is_none());
    assert!(doc.get_user_data(e.id(), "other").is_none());
}

#[test]
fn document_type_tables() {
    let mut imp = DOMImplementation::new();
    let mut doc = imp.create_document("", "", None).unwrap();
    let mut dt = imp.create_document_type("note", "pub", "sys").unwrap();
    let mut ent = doc.create_entity("copy").unwrap();
    let t = doc.create_text_node("(c)");
    ent.append_child(t).unwrap();
    let ent_id = ent.id();
    assert!(matches!(dt.entities_mut().set_named_item(ent), Ok(None)));
    let n = doc.create_notation("gif").unwrap();
    assert!(matches!(dt.notations_mut().set_named_item(n), Ok(None)));
    assert!(matches!(doc.create_entity("a b"), Err(DOMException::InvalidCharacter)));
    let c = dt.clone_document_type();
    assert_eq!(c.entities().length(), 1);
    assert_eq!(c.notations().length(), 1);
    let copied = c.entities().get_named_item("copy").unwrap();
    assert_eq!(copied.id(), ent_id);
    assert_eq!(copied.first_child().unwrap().node_value(), Some("(c)"));
    assert_eq!(copied.node_type(), NodeType::EntityNode);
    assert_eq!(c.notations().item(0).unwrap().node_name(), "gif");
}

#[test]
fn document_has_no_parent_or_siblings() {
    let doc = new_document();
    assert!(doc.parent_node().is_none());
    assert!(doc.previous_sibling().is_none());
    assert!(doc.next_sibling().is_none());
}
