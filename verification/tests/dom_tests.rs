use velora::document::Document;
use velora::element::Element;
use velora::errors::{DomError, VeloraError};
use velora::node::{Node, NodeType};
use velora::tree::DomTree;
use velora::types::{ElementId, NodeId};

#[test]
fn test_node_creation() {
    let node = Node::new(NodeId(1), NodeType::Element, "div".to_string(), None);
    assert_eq!(node.id, NodeId(1));
    assert_eq!(node.node_type, NodeType::Element);
    assert_eq!(node.node_name, "div");
    assert!(node.node_value.is_none());
}

#[test]
fn test_element_node() {
    let node = Node::new_element(NodeId(1), "div".to_string());
    assert!(node.is_element());
    assert!(!node.is_text());
    assert!(!node.is_comment());
    assert!(!node.is_document());
}

#[test]
fn test_text_node() {
    let node = Node::new_text(NodeId(2), "Hello World".to_string());
    assert!(node.is_text());
    assert_eq!(node.node_value, Some("Hello World".to_string()));
}

#[test]
fn test_comment_node() {
    let node = Node::new_comment(NodeId(3), "This is a comment".to_string());
    assert!(node.is_comment());
    assert_eq!(node.node_value, Some("This is a comment".to_string()));
}

#[test]
fn test_document_node() {
    let node = Node::new_document(NodeId(4));
    assert!(node.is_document());
    assert!(node.is_root());
}

#[test]
fn test_child_management() {
    let mut node = Node::new_element(NodeId(1), "div".to_string());
    let child_id = NodeId(2);
    assert_eq!(node.child_count(), 0);
    assert!(node.is_leaf());
    node.add_child(child_id);
    assert_eq!(node.child_count(), 1);
    assert!(!node.is_leaf());
    assert!(node.has_child(child_id));
    assert!(node.remove_child(child_id));
    assert_eq!(node.child_count(), 0);
    assert!(node.is_leaf());
}

#[test]
fn test_parent_management() {
    let mut node = Node::new_element(NodeId(1), "div".to_string());
    let parent_id = NodeId(0);
    assert!(node.is_root());
    node.set_parent(parent_id);
    assert!(!node.is_root());
    assert_eq!(node.parent_id, Some(parent_id));
    node.clear_parent();
    assert!(node.is_root());
}

#[test]
fn test_element_id() {
    let mut node = Node::new_element(NodeId(1), "div".to_string());
    let element_id = ElementId(1);
    assert!(node.set_element_id(element_id).is_ok());
    assert_eq!(node.get_element_id(), Some(element_id));
    let mut text_node = Node::new_text(NodeId(2), "text".to_string());
    assert!(text_node.set_element_id(element_id).is_err());
}

#[test]
fn test_data_management() {
    let mut node = Node::new_element(NodeId(1), "div".to_string());
    node.set_data("key1".to_string(), serde_json::Value::from("value1"));
    node.set_data("key2".to_string(), serde_json::Value::from(42));
    assert_eq!(node.get_data("key1"), Some(&serde_json::Value::from("value1")));
    assert_eq!(node.get_data("key2"), Some(&serde_json::Value::from(42)));
    assert_eq!(node.get_data("key3"), None);
    assert_eq!(node.remove_data("key1"), Some(serde_json::Value::from("value1")));
    assert_eq!(node.get_data("key1"), None);
}

#[test]
fn node_clone_with_id_keeps_data() {
    let mut node = Node::new_element(NodeId(1), "div".to_string());
    node.set_data("k".to_string(), serde_json::Value::from(7));
    let copy = node.clone_with_id(NodeId(9));
    assert_eq!(copy.id, NodeId(9));
    assert_eq!(copy.node_name, "div");
    assert!(copy.parent_id.is_none());
    assert_eq!(copy.get_data("k"), Some(&serde_json::Value::from(7)));
}

#[test]
fn test_element_creation() {
    let element = Element::new(ElementId(1), "div".to_string());
    assert_eq!(element.tag_name(), "div");
    assert_eq!(element.id, ElementId(1));
    assert!(element.attributes.is_empty());
    assert!(element.properties.is_empty());
    assert!(element.classes.is_empty());
}

#[test]
fn test_attribute_management() {
    let mut element = Element::new(ElementId(1), "div".to_string());
    element.set_attribute("class".to_string(), "container".to_string());
    assert_eq!(element.get_attribute("class"), Some("container"));
    assert!(element.has_attribute("class"));
    element.remove_attribute("class");
    assert_eq!(element.get_attribute("class"), None);
    assert!(!element.has_attribute("class"));
}

#[test]
fn test_class_management() {
    let mut element = Element::new(ElementId(1), "div".to_string());
    element.add_class("container".to_string());
    element.add_class("header".to_string());
    assert!(element.has_class("container"));
    assert!(element.has_class("header"));
    assert_eq!(element.get_classes().len(), 2);
    element.remove_class("header");
    assert!(!element.has_class("header"));
    assert_eq!(element.get_classes().len(), 1);
}

#[test]
fn class_attribute_round_trip() {
    let mut element = Element::new(ElementId(1), "div".to_string());
    element.set_attribute("class".to_string(), "a b c".to_string());
    let classes: Vec<&str> = element.get_classes().iter().map(|c| c.as_str()).collect();
    assert_eq!(classes, ["a", "b", "c"]);
    assert!(element.remove_class("b"));
    assert_eq!(element.get_attribute("class"), Some("a c"));
    assert!(element.remove_class("a"));
    assert!(element.remove_class("c"));
    assert_eq!(element.get_attribute("class"), None);
    assert!(!element.has_attribute("class"));
}

#[test]
fn test_id_management() {
    let mut element = Element::new(ElementId(1), "div".to_string());
    element.set_id(Some("main".to_string()));
    assert_eq!(element.get_id(), Some("main"));
    assert_eq!(element.get_attribute("id"), Some("main"));
    element.set_id(None);
    assert_eq!(element.get_id(), None);
    assert_eq!(element.get_attribute("id"), None);
}

#[test]
fn test_style_management() {
    let mut element = Element::new(ElementId(1), "div".to_string());
    element.set_style(Some("color: red;".to_string()));
    assert_eq!(element.get_style(), Some("color: red;"));
    assert_eq!(element.get_attribute("style"), Some("color: red;"));
    element.set_style(None);
    assert_eq!(element.get_style(), None);
    assert_eq!(element.get_attribute("style"), None);
}

#[test]
fn test_dataset_management() {
    let mut element = Element::new(ElementId(1), "div".to_string());
    element.set_dataset("key".to_string(), "value".to_string());
    assert_eq!(element.get_dataset("key"), Some("value"));
    assert_eq!(element.get_attribute("data-key"), Some("value"));
    element.remove_dataset("key");
    assert_eq!(element.get_dataset("key"), None);
    assert_eq!(element.get_attribute("data-key"), None);
}

#[test]
fn test_element_types() {
    let div = Element::new(ElementId(1), "div".to_string());
    let span = Element::new(ElementId(2), "span".to_string());
    let img = Element::new(ElementId(3), "img".to_string());
    assert!(div.is_block_element());
    assert!(span.is_inline_element());
    assert!(img.is_void_element());
}

#[test]
fn test_property_management() {
    let mut element = Element::new(ElementId(1), "div".to_string());
    element.set_property("checked".to_string(), serde_json::Value::from(true));
    assert!(element.has_property("checked"));
    assert_eq!(element.get_property("checked"), Some(&serde_json::Value::from(true)));
    element.remove_property("checked");
    assert!(!element.has_property("checked"));
}

#[test]
fn test_dom_tree_creation() {
    let tree = DomTree::new();
    assert!(tree.is_empty());
    assert_eq!(tree.node_count(), 0);
    assert_eq!(tree.element_count(), 0);
}

#[test]
fn test_add_node() {
    let mut tree = DomTree::new();
    let node = Node::new_element(NodeId(1), "div".to_string());
    tree.add_node(node);
    assert_eq!(tree.node_count(), 1);
    assert!(!tree.is_empty());
}

#[test]
fn test_get_node() {
    let mut tree = DomTree::new();
    let node = Node::new_element(NodeId(1), "div".to_string());
    tree.add_node(node);
    let retrieved = tree.get_node(NodeId(1));
    assert!(retrieved.is_ok());
    assert_eq!(retrieved.unwrap().node_name, "div");
}

#[test]
fn test_get_nonexistent_node() {
    let tree = DomTree::new();
    let result = tree.get_node(NodeId(999));
    assert!(result.is_err());
    assert!(matches!(
        result,
        Err(VeloraError::Dom(DomError::NodeNotFound(_)))
    ));
}

#[test]
fn test_create_element() {
    let mut tree = DomTree::new();
    let node_id = tree.create_element("span").unwrap();
    assert_eq!(tree.node_count(), 1);
    assert_eq!(tree.element_count(), 1);
    let node = tree.get_node(node_id).unwrap();
    assert_eq!(node.node_name, "span");
}

#[test]
fn test_create_text_node() {
    let mut tree = DomTree::new();
    let node_id = tree.create_text_node("Hello World").unwrap();
    assert_eq!(tree.node_count(), 1);
    let node = tree.get_node(node_id).unwrap();
    assert_eq!(node.node_name, "#text");
    assert_eq!(node.node_value, Some("Hello World".to_string()));
}

#[test]
fn test_append_child() {
    let mut tree = DomTree::new();
    let parent_id = tree.create_element("div").unwrap();
    let child_id = tree.create_element("span").unwrap();
    tree.append_child(parent_id, child_id).unwrap();
    let parent = tree.get_node(parent_id).unwrap();
    assert!(parent.has_child(child_id));
    let child = tree.get_node(child_id).unwrap();
    assert!(child.has_parent());
    assert_eq!(child.parent_id, Some(parent_id));
}

#[test]
fn test_remove_child() {
    let mut tree = DomTree::new();
    let parent_id = tree.create_element("div").unwrap();
    let child_id = tree.create_element("span").unwrap();
    tree.append_child(parent_id, child_id).unwrap();
    assert!(tree.get_node(parent_id).unwrap().has_child(child_id));
    tree.remove_child(parent_id, child_id).unwrap();
    assert!(!tree.get_node(parent_id).unwrap().has_child(child_id));
}

#[test]
fn sibling_chain_follows_child_sequence() {
    let mut tree = DomTree::new();
    let parent = tree.create_element("ul").unwrap();
    let a = tree.create_element("li").unwrap();
    let b = tree.create_element("li").unwrap();
    let c = tree.create_element("li").unwrap();
    tree.append_child(parent, a).unwrap();
    tree.append_child(parent, b).unwrap();
    tree.append_child(parent, c).unwrap();

    let na = tree.get_node(a).unwrap();
    assert_eq!(na.parent_id, Some(parent));
    assert_eq!(na.previous_sibling_id, None);
    assert_eq!(na.next_sibling_id, Some(b));
    let nb = tree.get_node(b).unwrap();
    assert_eq!(nb.previous_sibling_id, Some(a));
    assert_eq!(nb.next_sibling_id, Some(c));
    let nc = tree.get_node(c).unwrap();
    assert_eq!(nc.previous_sibling_id, Some(b));
    assert_eq!(nc.next_sibling_id, None);

    // splice the middle child out: the neighbours reconnect
    tree.remove_child(parent, b).unwrap();
    let na = tree.get_node(a).unwrap();
    assert_eq!(na.next_sibling_id, Some(c));
    let nc = tree.get_node(c).unwrap();
    assert_eq!(nc.previous_sibling_id, Some(a));
    let nb = tree.get_node(b).unwrap();
    assert_eq!(nb.parent_id, None);
    assert_eq!(nb.previous_sibling_id, None);
    assert_eq!(nb.next_sibling_id, None);
}

#[test]
fn removing_unlisted_child_is_rejected_and_harmless() {
    let mut tree = DomTree::new();
    let parent = tree.create_element("div").unwrap();
    let child = tree.create_element("span").unwrap();
    let stranger = tree.create_element("p").unwrap();
    tree.append_child(parent, child).unwrap();

    let result = tree.remove_child(parent, stranger);
    assert!(matches!(
        result,
        Err(VeloraError::Dom(DomError::NodeNotFound(_)))
    ));
    let p = tree.get_node(parent).unwrap();
    assert_eq!(p.child_count(), 1);
    assert!(p.has_child(child));
    let c = tree.get_node(child).unwrap();
    assert_eq!(c.parent_id, Some(parent));
    assert_eq!(c.previous_sibling_id, None);
    assert_eq!(c.next_sibling_id, None);
}

#[test]
fn appending_attached_child_moves_it() {
    let mut tree = DomTree::new();
    let p1 = tree.create_element("div").unwrap();
    let p2 = tree.create_element("div").unwrap();
    let child = tree.create_element("span").unwrap();
    tree.append_child(p1, child).unwrap();
    // appending again under another parent moves the child there
    tree.append_child(p2, child).unwrap();
    assert!(!tree.get_node(p1).unwrap().has_child(child));
    assert!(tree.get_node(p2).unwrap().has_child(child));
    assert_eq!(tree.get_node(child).unwrap().parent_id, Some(p2));
    // appending a missing identifier fails and changes nothing
    let missing = tree.append_child(p1, NodeId(999));
    assert!(matches!(
        missing,
        Err(VeloraError::Dom(DomError::NodeNotFound(_)))
    ));
    assert!(tree.get_node(p2).unwrap().has_child(child));
}

#[test]
fn reappending_to_same_parent_moves_to_end() {
    let mut tree = DomTree::new();
    let parent = tree.create_element("ul").unwrap();
    let a = tree.create_element("li").unwrap();
    let b = tree.create_element("li").unwrap();
    tree.append_child(parent, a).unwrap();
    tree.append_child(parent, b).unwrap();
    tree.append_child(parent, a).unwrap();
    let p = tree.get_node(parent).unwrap();
    assert_eq!(p.child_ids, vec![b, a]);
    let nb = tree.get_node(b).unwrap();
    assert_eq!(nb.previous_sibling_id, None);
    assert_eq!(nb.next_sibling_id, Some(a));
    let na = tree.get_node(a).unwrap();
    assert_eq!(na.previous_sibling_id, Some(b));
    assert_eq!(na.next_sibling_id, None);
}

#[test]
fn traverse_visits_root_first() {
    let mut tree = DomTree::new();
    let root = tree.create_element("html").unwrap();
    let a = tree.create_element("head").unwrap();
    let b = tree.create_element("body").unwrap();
    tree.append_child(root, a).unwrap();
    tree.append_child(root, b).unwrap();
    let order = tree.traverse_dfs();
    assert_eq!(order.len(), 3);
    assert_eq!(order[0], root);
    assert_eq!(order[1], a);
    assert_eq!(order[2], b);
}

#[test]
fn find_node_and_elements() {
    let mut tree = DomTree::new();
    let root = tree.create_element("html").unwrap();
    let body = tree.create_element("body").unwrap();
    tree.append_child(root, body).unwrap();
    assert!(tree.find_node_by_name("body").is_some());
    assert!(tree.find_node_by_name("nav").is_none());
    assert_eq!(tree.find_nodes_by_name("body").len(), 1);
    assert_eq!(tree.get_all_nodes().len(), 2);
    assert_eq!(tree.get_all_elements().len(), 2);
}

#[test]
fn test_document_creation() {
    let doc = Document::new(NodeId(1));
    assert_eq!(doc.get_id(), NodeId(1));
    assert_eq!(doc.encoding(), "UTF-8");
    assert!(doc.title().is_none());
    assert!(doc.url().is_none());
}

#[test]
fn test_document_title() {
    let mut doc = Document::new(NodeId(1));
    doc.set_title("Test Document".to_string());
    assert_eq!(doc.title(), Some("Test Document"));
}

#[test]
fn test_document_url() {
    let mut doc = Document::new(NodeId(1));
    doc.set_url("https://example.com".to_string());
    assert_eq!(doc.url(), Some("https://example.com"));
}

#[test]
fn test_document_encoding() {
    let mut doc = Document::new(NodeId(1));
    doc.set_encoding("ISO-8859-1".to_string());
    assert_eq!(doc.encoding(), "ISO-8859-1");
}

#[test]
fn document_duplicate_is_deep() {
    let mut doc = Document::new(NodeId(1));
    doc.set_title("t".to_string());
    let root = doc.create_element("html").unwrap();
    let body = doc.create_element("body").unwrap();
    doc.append_child(root, body).unwrap();
    let copy = doc.duplicate(NodeId(50));
    assert_eq!(copy.get_id(), NodeId(50));
    assert_eq!(copy.title(), Some("t"));
    assert_eq!(copy.get_dom_tree().node_count(), 2);
    assert!(copy.body().is_some());
}
