use saba_core::dom::Attribute;
use saba_core::dom::Element;
use saba_core::dom::ElementKind;
use saba_core::dom::Node;
use saba_core::dom::NodeKind;
use saba_core::dom::Window;

fn elem(name: &str, attrs: Vec<Attribute>) -> NodeKind {
    NodeKind::Element(Element::new(name, attrs))
}

fn id_attr(value: &str) -> Attribute {
    Attribute::new("id".to_string(), value.to_string())
}

#[test]
fn test_window_starts_with_document() {
    let w = Window::new();
    assert_eq!(1, w.node_count());
    assert!(matches!(w.get_node(w.document()).kind(), NodeKind::Document));
    assert_eq!(None, w.get_node(w.document()).first_child());
}

#[test]
fn test_append_child_links() {
    let mut w = Window::new();
    let doc = w.document();
    let body = w.append_child(doc, elem("body", vec![]));
    let p1 = w.append_child(body, elem("p", vec![]));
    let p2 = w.append_child(body, elem("p", vec![]));

    assert_eq!(Some(body), w.get_node(doc).first_child());
    assert_eq!(Some(body), w.get_node(doc).last_child());
    assert_eq!(Some(doc), w.get_node(body).parent());

    assert_eq!(Some(p1), w.get_node(body).first_child());
    assert_eq!(Some(p2), w.get_node(body).last_child());
    assert_eq!(Some(p2), w.get_node(p1).next_sibling());
    assert_eq!(Some(p1), w.get_node(p2).previuos_sibling());
    assert_eq!(Some(body), w.get_node(p1).parent());
    assert_eq!(Some(body), w.get_node(p2).parent());
}

#[test]
fn test_tree_invariant_walk_reaches_last_child() {
    // For every node with children, the first child's parent link points
    // back at the node and walking next_sibling from the first child ends at
    // the node the last_child link names.
    let mut w = Window::new();
    let doc = w.document();
    let body = w.append_child(doc, elem("body", vec![]));
    let _a = w.append_child(body, elem("h1", vec![]));
    let _b = w.append_child(body, elem("h2", vec![]));
    let _c = w.append_child(body, elem("a", vec![]));
    let mut id = 0;
    while id < w.node_count() {
        if let Some(first) = w.get_node(id).first_child() {
            assert_eq!(Some(id), w.get_node(first).parent());
            let mut walk = first;
            while let Some(next) = w.get_node(walk).next_sibling() {
                walk = next;
            }
            assert_eq!(Some(walk), w.get_node(id).last_child());
        } else {
            assert_eq!(None, w.get_node(id).last_child());
        }
        id += 1;
    }
}

#[test]
fn test_get_element_by_id_finds_first_in_document_order() {
    let mut w = Window::new();
    let doc = w.document();
    let body = w.append_child(doc, elem("body", vec![]));
    let first = w.append_child(body, elem("p", vec![id_attr("dup")]));
    let _second = w.append_child(body, elem("p", vec![id_attr("dup")]));
    let other = w.append_child(body, elem("h1", vec![id_attr("other")]));

    let target = String::from("dup");
    assert_eq!(Some(first), w.get_element_by_id(Some(doc), &target));
    let other_id = String::from("other");
    assert_eq!(Some(other), w.get_element_by_id(Some(doc), &other_id));
    let missing = String::from("missing");
    assert_eq!(None, w.get_element_by_id(Some(doc), &missing));
}

#[test]
fn test_set_text_content_discards_prior_children() {
    let mut w = Window::new();
    let doc = w.document();
    let body = w.append_child(doc, elem("body", vec![]));
    let _old1 = w.append_child(body, NodeKind::Text("one".to_string()));
    let _old2 = w.append_child(body, NodeKind::Text("two".to_string()));

    let tid = w.set_text_content(body, "fresh".to_string());
    assert_eq!(Some(tid), w.get_node(body).first_child());
    assert_eq!(Some(tid), w.get_node(body).last_child());
    assert_eq!(None, w.get_node(tid).next_sibling());
    assert_eq!(Some(body), w.get_node(tid).parent());
    match w.get_node(tid).kind() {
        NodeKind::Text(s) => assert_eq!("fresh", s),
        other => panic!("expected a text node, got {:?}", other),
    }
}

#[test]
fn test_element_kind_from_name() {
    assert_eq!(Some(ElementKind::Html), ElementKind::from_name("html"));
    assert_eq!(Some(ElementKind::P), ElementKind::from_name("p"));
    assert_eq!(Some(ElementKind::A), ElementKind::from_name("a"));
    assert_eq!(None, ElementKind::from_name("div"));
    assert_eq!(None, ElementKind::from_name(""));
}

#[test]
fn test_element_kind_names_round_trip() {
    for kind in [
        ElementKind::Html,
        ElementKind::Head,
        ElementKind::Style,
        ElementKind::Script,
        ElementKind::Body,
        ElementKind::P,
        ElementKind::H1,
        ElementKind::H2,
        ElementKind::A,
    ] {
        assert_eq!(Some(kind), ElementKind::from_name(kind.name()));
    }
}

#[test]
fn test_is_block_element() {
    assert!(Element::new("body", vec![]).is_block_element());
    assert!(Element::new("h1", vec![]).is_block_element());
    assert!(Element::new("h2", vec![]).is_block_element());
    assert!(Element::new("p", vec![]).is_block_element());
    assert!(!Element::new("a", vec![]).is_block_element());
    assert!(!Element::new("script", vec![]).is_block_element());
}

#[test]
fn test_get_attribute_returns_first_match() {
    let e = Element::new(
        "a",
        vec![
            Attribute::new("href".to_string(), "first".to_string()),
            Attribute::new("href".to_string(), "second".to_string()),
        ],
    );
    assert_eq!(Some("first".to_string()), e.get_attribute("href"));
    assert_eq!(None, e.get_attribute("id"));
    assert_eq!(2, e.attributes().len());
    assert_eq!("href", e.attributes()[0].name());
    assert_eq!("first", e.attributes()[0].value());
}

#[test]
fn test_node_kind_equality_compares_kind_only() {
    // Elements compare by kind tag alone; attributes are ignored.  Any two
    // text runs are equal, whatever they hold.
    let with_attr = NodeKind::Element(Element::new("p", vec![id_attr("x")]));
    let without_attr = NodeKind::Element(Element::new("p", vec![]));
    let heading = NodeKind::Element(Element::new("h1", vec![]));
    assert!(with_attr == without_attr);
    assert!(with_attr != heading);
    assert!(NodeKind::Document == NodeKind::Document);
    assert!(NodeKind::Text("a".to_string()) == NodeKind::Text("b".to_string()));
    assert!(NodeKind::Document != NodeKind::Text("a".to_string()));
}

#[test]
fn test_node_accessors() {
    let mut n = Node::new(NodeKind::Document);
    assert_eq!(None, n.parent());
    n.set_parent(Some(3));
    n.set_first_child(Some(4));
    n.set_last_child(Some(5));
    n.set_previuos_sibling(Some(6));
    n.set_next_sibling(Some(7));
    n.set_window(Some(0));
    assert_eq!(Some(3), n.parent());
    assert_eq!(Some(4), n.first_child());
    assert_eq!(Some(5), n.last_child());
    assert_eq!(Some(6), n.previuos_sibling());
    assert_eq!(Some(7), n.next_sibling());
    assert!(n.get_element().is_none());
    assert_eq!(None, n.element_kind());
    let e = Node::new(elem("h1", vec![]));
    assert_eq!(Some(ElementKind::H1), e.element_kind());
    assert_eq!(ElementKind::H1, e.get_element().unwrap().kind());
}
