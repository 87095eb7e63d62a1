use xenolith::named_node_map::NamedNodeMap;
use xenolith::{DOMException, DOMImplementation, Document, NodeRef, NodeType, QName};

fn new_document() -> Document {
    DOMImplementation::new().create_document("", "", None).unwrap()
}

fn names(m: &NamedNodeMap) -> Vec<String> {
    let mut v = Vec::new();
    for i in 0..m.length() {
        v.push(m.item(i).unwrap().node_name().to_string());
    }
    v
}

#[test]
fn attribute_map_refuses_other_kinds() {
    let mut doc = new_document();
    let e = doc.create_element("e").unwrap();
    let mut m = e.attributes().unwrap().handles();
    let t = doc.create_text_node("x");
    assert!(matches!(m.set_named_item(t), Err(DOMException::HierarchyRequest)));
    assert_eq!(m.length(), 0);
    let c = doc.create_comment("c");
    assert!(matches!(m.set_named_item_ns(c), Err(DOMException::HierarchyRequest)));
    assert_eq!(m.length(), 0);
}

#[test]
fn attribute_in_use_elsewhere_is_refused() {
    let mut doc = new_document();
    let mut e1 = doc.create_element("e1").unwrap();
    let mut e2 = doc.create_element("e2").unwrap();
    let mut a = doc.create_attribute("id").unwrap();
    a.set_node_value("one");
    assert!(matches!(e1.set_attribute_node(a), Ok(None)));
    let attached: NodeRef = e1.get_attribute_node("id").unwrap().handle();
    assert_eq!(attached.owner_element(), Some(e1.id()));
    assert!(matches!(e2.set_attribute_node(attached.handle()), Err(DOMException::InuseAttribute)));
    assert!(!e2.has_attributes());
    let again = e1.set_attribute_node(attached.handle());
    let previous = again.unwrap().unwrap();
    assert!(previous.is_same_node(&attached));
    assert_eq!(previous.owner_element(), None);
    assert_eq!(e1.attributes().unwrap().length(), 1);
    assert_eq!(e1.get_attribute_node("id").unwrap().node_value(), Some("one"));
}

#[test]
fn setting_a_key_again_keeps_its_place() {
    let mut doc = new_document();
    let mut m = NamedNodeMap::new(NodeType::EntityNode, None);
    for n in ["a", "b", "c"] {
        let r = doc.create_entity_reference(n).unwrap();
        assert!(matches!(m.set_named_item(r), Ok(None)));
    }
    let b2 = doc.create_entity_reference("b").unwrap();
    let b2_id = b2.id();
    let old = m.set_named_item(b2).unwrap().unwrap();
    assert_eq!(old.node_name(), "b");
    assert_eq!(names(&m), vec!["a", "b", "c"]);
    assert_eq!(m.item(1).unwrap().id(), b2_id);
    assert!(m.item(3).is_none());
}

#[test]
fn remove_missing_key_fails_and_order_is_kept() {
    let mut doc = new_document();
    let mut m = NamedNodeMap::new(NodeType::EntityNode, None);
    for n in ["a", "b", "c", "d"] {
        let r = doc.create_entity_reference(n).unwrap();
        m.set_named_item(r).unwrap();
    }
    assert!(matches!(m.remove_named_item("zz"), Err(DOMException::NotFound)));
    assert_eq!(names(&m), vec!["a", "b", "c", "d"]);
    let removed = m.remove_named_item("b").unwrap();
    assert_eq!(removed.node_name(), "b");
    assert_eq!(names(&m), vec!["a", "c", "d"]);
    assert!(m.get_named_item("b").is_none());
    assert_eq!(m.get_named_item("c").unwrap().node_name(), "c");
}

#[test]
fn namespaced_items() {
    let mut doc = new_document();
    let mut e = doc.create_element("e").unwrap();
    let a = doc.create_attribute_ns("urn:x", "x:lang").unwrap();
    let mut m = e.attributes().unwrap().handles();
    assert!(matches!(m.set_named_item_ns(a), Ok(None)));
    let got = m.get_named_item_ns("urn:x", "lang").unwrap().unwrap();
    assert_eq!(got.node_name(), "x:lang");
    assert!(m.get_named_item_ns("urn:y", "lang").unwrap().is_none());
    assert!(m.get_named_item("x:lang").is_none());
    assert!(matches!(m.remove_named_item_ns("urn:y", "lang"), Err(DOMException::NotFound)));
    let r = m.remove_named_item_ns("urn:x", "lang").unwrap();
    assert_eq!(r.owner_element(), None);
    assert_eq!(m.length(), 0);
    let q = QName::new(Some("urn:x".to_string()), Some("lang".to_string()));
    assert!(m.get(&q).is_none());
    let _ = e.set_attribute_node(r);
}

#[test]
fn in_use_check_comes_before_kind_check() {
    let mut doc = new_document();
    let mut e = doc.create_element("e").unwrap();
    let a = doc.create_attribute("x").unwrap();
    e.set_attribute_node(a).unwrap();
    let attached = e.get_attribute_node("x").unwrap().handle();
    let mut table = NamedNodeMap::new(NodeType::EntityNode, None);
    assert!(matches!(table.set_named_item(attached), Err(DOMException::InuseAttribute)));
    assert_eq!(table.length(), 0);
    let free = doc.create_attribute("y").unwrap();
    assert!(matches!(table.set_named_item(free), Ok(None)));
    assert_eq!(table.length(), 1);
    assert_eq!(table.node_type(), NodeType::EntityNode);
    assert_eq!(table.owner(), None);
}
