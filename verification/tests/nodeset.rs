use xml_nodeset::dom::{ChildOfElement, ChildOfRoot, Document, QName};
use xml_nodeset::nodeset::{Namespace, Node, Nodeset};

fn into_node<'a, T: Into<Node>>(n: T) -> Node {
    n.into()
}

fn collect(set: &Nodeset) -> Vec<Node> {
    let mut it = set.iter();
    let mut out = Vec::new();
    while let Some(n) = it.next() {
        out.push(n);
    }
    out
}

#[test]
fn nodeset_can_include_all_node_types() {
    let mut doc = Document::new(0);
    let mut nodes = Nodeset::new();

    let r = doc.root();
    let e = doc.create_element(QName::new("element".to_string()));
    let a = doc.set_attribute_value(e, QName::new("name".to_string()), "value".to_string());
    let t = doc.create_text("text".to_string());
    let c = doc.create_comment("comment".to_string());
    let p = doc.create_processing_instruction("pi".to_string(), None);

    nodes.add(r);
    nodes.add(e);
    nodes.add(a);
    nodes.add(t);
    nodes.add(c);
    nodes.add(p);

    let node_vec = collect(&nodes);

    assert_eq!(6, node_vec.len());
    assert_eq!(node_vec[0], Node::Root(r));
    assert_eq!(node_vec[1], Node::Element(e));
    assert_eq!(node_vec[2], Node::Attribute(a));
    assert_eq!(node_vec[3], Node::Text(t));
    assert_eq!(node_vec[4], Node::Comment(c));
    assert_eq!(node_vec[5], Node::ProcessingInstruction(p));
}

#[test]
fn nodesets_can_be_combined() {
    let mut doc = Document::new(0);

    let mut all_nodes = Nodeset::new();
    let mut nodes1 = Nodeset::new();
    let mut nodes2 = Nodeset::new();

    let e1 = doc.create_element(QName::new("element1".to_string()));
    let e2 = doc.create_element(QName::new("element2".to_string()));

    all_nodes.add(e1);
    all_nodes.add(e2);

    nodes1.add(e1);
    nodes2.add(e2);

    nodes1.add_nodeset(&nodes2);

    assert_eq!(all_nodes, nodes1);
}

#[test]
fn nodeset_knows_first_node_in_document_order() {
    let mut doc = Document::new(0);

    let c1 = doc.create_comment("1".to_string());
    let c2 = doc.create_comment("2".to_string());
    doc.append_root_child(ChildOfRoot::Comment(c1));
    doc.append_root_child(ChildOfRoot::Comment(c2));

    let mut nodes = Nodeset::new();
    nodes.add(c2);
    nodes.add(c1);

    assert_eq!(Some(into_node(c1)), nodes.document_order_first(&doc));
}

#[test]
fn attributes_come_before_children_in_document_order() {
    let mut doc = Document::new(0);

    let parent = doc.create_element(QName::new("parent".to_string()));
    let attr = doc.set_attribute_value(parent, QName::new("a".to_string()), "v".to_string());
    let child = doc.create_element(QName::new("child".to_string()));

    doc.append_root_child(ChildOfRoot::Element(parent));
    doc.append_child(parent, ChildOfElement::Element(child));

    let mut nodes = Nodeset::new();
    nodes.add(child);
    nodes.add(attr);

    assert_eq!(Some(attr.into()), nodes.document_order_first(&doc));
}

#[test]
fn prefixed_name_of_element_with_preferred_prefix() {
    let mut doc = Document::new(0);

    let e = doc.create_element(QName::with_namespace("uri".to_string(), "wow".to_string()));
    doc.set_preferred_prefix(e, Some("prefix".to_string()));
    doc.register_prefix(e, "prefix".to_string(), "uri".to_string());
    let node: Node = e.into();

    assert_eq!(Some("prefix:wow".to_owned()), node.prefixed_name(&doc));
}

#[test]
fn prefixed_name_of_element_with_prefix() {
    let mut doc = Document::new(0);

    let e = doc.create_element(QName::with_namespace("uri".to_string(), "wow".to_string()));
    doc.register_prefix(e, "prefix".to_string(), "uri".to_string());
    let node: Node = e.into();

    assert_eq!(Some("prefix:wow".to_owned()), node.prefixed_name(&doc));
}

#[test]
fn prefixed_name_of_element_without_prefix() {
    // A namespaced name with no prefix bound degrades to the bare local part.
    let mut doc = Document::new(0);

    let e = doc.create_element(QName::with_namespace("uri".to_string(), "wow".to_string()));
    let node: Node = e.into();

    assert_eq!(Some("wow".to_owned()), node.prefixed_name(&doc));
}

#[test]
fn prefixed_name_of_attribute_with_preferred_prefix() {
    let mut doc = Document::new(0);

    let e = doc.create_element(QName::new("element".to_string()));
    let a = doc.set_attribute_value(
        e,
        QName::with_namespace("uri".to_string(), "attr".to_string()),
        "value".to_string(),
    );
    doc.set_attribute_preferred_prefix(a, Some("prefix".to_string()));
    doc.register_prefix(e, "prefix".to_string(), "uri".to_string());
    let node: Node = a.into();

    assert_eq!(Some("prefix:attr".to_owned()), node.prefixed_name(&doc));
}

#[test]
fn prefixed_name_of_attribute_with_prefix() {
    let mut doc = Document::new(0);

    let e = doc.create_element(QName::new("element".to_string()));
    let a = doc.set_attribute_value(
        e,
        QName::with_namespace("uri".to_string(), "attr".to_string()),
        "value".to_string(),
    );
    doc.register_prefix(e, "prefix".to_string(), "uri".to_string());
    let node: Node = a.into();

    assert_eq!(Some("prefix:attr".to_owned()), node.prefixed_name(&doc));
}

#[test]
fn prefixed_name_of_processing_instruction() {
    let mut doc = Document::new(0);

    let pi = doc.create_processing_instruction("target".to_string(), Some("value".to_string()));
    let node: Node = pi.into();

    assert_eq!(Some("target".to_owned()), node.prefixed_name(&doc));
}

#[test]
fn string_value_of_element_node_is_concatenation_of_descendant_text_nodes() {
    let mut doc = Document::new(0);

    let element = doc.create_element(QName::new("hello".to_string()));
    let child = doc.create_element(QName::new("world".to_string()));
    let text1 = doc.create_text("Presenting: ".to_string());
    let text2 = doc.create_text("Earth".to_string());
    let text3 = doc.create_text("!".to_string());

    doc.append_child(element, ChildOfElement::Text(text1));
    doc.append_child(element, ChildOfElement::Element(child));
    doc.append_child(child, ChildOfElement::Text(text2));
    doc.append_child(element, ChildOfElement::Text(text3));

    assert_eq!("Presenting: Earth!", into_node(element).string_value(&doc));
}

#[test]
fn string_value_of_attribute_node_is_value() {
    let mut doc = Document::new(0);
    let element = doc.create_element(QName::new("hello".to_string()));
    let attribute: Node = doc
        .set_attribute_value(element, QName::new("world".to_string()), "Earth".to_string())
        .into();
    assert_eq!("Earth", attribute.string_value(&doc));
}

#[test]
fn string_value_of_pi_node_is_empty_when_no_value() {
    let mut doc = Document::new(0);
    let pi: Node = doc.create_processing_instruction("hello".to_string(), None).into();
    assert_eq!("", pi.string_value(&doc));
}

#[test]
fn string_value_of_pi_node_is_the_value_when_value() {
    let mut doc = Document::new(0);
    let pi: Node = doc
        .create_processing_instruction("hello".to_string(), Some("world".to_string()))
        .into();
    assert_eq!("world", pi.string_value(&doc));
}

#[test]
fn string_value_of_comment_node_is_the_text() {
    let mut doc = Document::new(0);
    let comment: Node = doc.create_comment("hello world".to_string()).into();
    assert_eq!("hello world", comment.string_value(&doc));
}

#[test]
fn string_value_of_text_node_is_the_text() {
    let mut doc = Document::new(0);
    let text: Node = doc.create_text("hello world".to_string()).into();
    assert_eq!("hello world", text.string_value(&doc));
}

#[test]
fn string_value_of_root_concatenates_descendant_text() {
    let mut doc = Document::new(0);
    let element = doc.create_element(QName::new("greeting".to_string()));
    let text = doc.create_text("hi".to_string());
    doc.append_root_child(ChildOfRoot::Element(element));
    doc.append_child(element, ChildOfElement::Text(text));

    assert_eq!("hi", into_node(doc.root()).string_value(&doc));
}

#[test]
fn string_value_of_namespace_node_is_the_uri() {
    let mut doc = Document::new(0);
    let e = doc.create_element(QName::new("element".to_string()));
    let ns = Namespace { parent: e, prefix: "pre".to_string(), uri: "uri".to_string() };
    assert_eq!("uri", Node::Namespace(ns).string_value(&doc));
}

#[test]
fn prefixed_name_of_namespace_node_is_the_prefix() {
    let mut doc = Document::new(0);
    let e = doc.create_element(QName::new("element".to_string()));
    let ns = Namespace { parent: e, prefix: "pre".to_string(), uri: "uri".to_string() };
    assert_eq!(Some("pre".to_owned()), Node::Namespace(ns).prefixed_name(&doc));
}

#[test]
fn prefixed_name_is_none_for_root_text_and_comment() {
    let mut doc = Document::new(0);
    let t = doc.create_text("text".to_string());
    let c = doc.create_comment("comment".to_string());
    assert_eq!(None, into_node(doc.root()).prefixed_name(&doc));
    assert_eq!(None, into_node(t).prefixed_name(&doc));
    assert_eq!(None, into_node(c).prefixed_name(&doc));
}

#[test]
fn preferred_prefix_wins_over_earlier_registration() {
    let mut doc = Document::new(0);
    let e = doc.create_element(QName::with_namespace("uri".to_string(), "wow".to_string()));
    doc.register_prefix(e, "a".to_string(), "uri".to_string());
    doc.register_prefix(e, "b".to_string(), "uri".to_string());
    doc.set_preferred_prefix(e, Some("b".to_string()));
    assert_eq!(Some("b:wow".to_owned()), into_node(e).prefixed_name(&doc));
}

#[test]
fn without_preferred_prefix_the_earliest_registration_wins() {
    let mut doc = Document::new(0);
    let e = doc.create_element(QName::with_namespace("uri".to_string(), "wow".to_string()));
    doc.register_prefix(e, "a".to_string(), "uri".to_string());
    doc.register_prefix(e, "b".to_string(), "uri".to_string());
    assert_eq!(Some("a:wow".to_owned()), into_node(e).prefixed_name(&doc));
}

#[test]
fn document_order_first_of_empty_set_is_none() {
    let doc = Document::new(0);
    let nodes = Nodeset::new();
    assert_eq!(None, nodes.document_order_first(&doc));
}

#[test]
fn root_comes_first_in_document_order() {
    let mut doc = Document::new(0);
    let e = doc.create_element(QName::new("element".to_string()));
    doc.append_root_child(ChildOfRoot::Element(e));

    let mut nodes = Nodeset::new();
    nodes.add(e);
    nodes.add(doc.root());

    assert_eq!(Some(into_node(doc.root())), nodes.document_order_first(&doc));
}

#[test]
fn union_keeps_duplicates_and_order() {
    let mut doc = Document::new(0);
    let e1 = doc.create_element(QName::new("one".to_string()));
    let e2 = doc.create_element(QName::new("two".to_string()));

    let mut a = Nodeset::new();
    a.add(e1);
    a.add(e2);
    let mut b = Nodeset::new();
    b.add(e1);

    a.add_nodeset(&b);

    assert_eq!(3, a.size());
    let members = collect(&a);
    assert_eq!(members[0], Node::Element(e1));
    assert_eq!(members[1], Node::Element(e2));
    assert_eq!(members[2], Node::Element(e1));
}

#[test]
fn nodesets_with_different_order_are_not_equal() {
    let mut doc = Document::new(0);
    let e1 = doc.create_element(QName::new("one".to_string()));
    let e2 = doc.create_element(QName::new("two".to_string()));

    let mut a = Nodeset::new();
    a.add(e1);
    a.add(e2);
    let mut b = Nodeset::new();
    b.add(e2);
    b.add(e1);

    assert_ne!(a, b);
}

#[test]
fn iteration_is_restartable() {
    let mut doc = Document::new(0);
    let e = doc.create_element(QName::new("element".to_string()));
    let mut nodes = Nodeset::new();
    nodes.add(e);

    assert_eq!(1, collect(&nodes).len());
    assert_eq!(1, collect(&nodes).len());
}

#[test]
fn consuming_iteration_yields_members_in_order() {
    let mut doc = Document::new(0);
    let e1 = doc.create_element(QName::new("one".to_string()));
    let e2 = doc.create_element(QName::new("two".to_string()));
    let mut nodes = Nodeset::new();
    nodes.add(e1);
    nodes.add(e2);

    let mut it = nodes.into_iter();
    assert_eq!(Some(Node::Element(e1)), it.next());
    assert_eq!(Some(Node::Element(e2)), it.next());
    assert_eq!(None, it.next());
}

#[test]
fn from_pairs_collects_the_node_components() {
    let mut doc = Document::new(0);
    let e1 = doc.create_element(QName::new("one".to_string()));
    let e2 = doc.create_element(QName::new("two".to_string()));

    let pairs: Vec<(u32, Node)> = vec![(10, e1.into()), (20, e2.into())];
    let nodes = Nodeset::from_pairs(&pairs);

    assert_eq!(2, nodes.size());
    let members = collect(&nodes);
    assert_eq!(members[0], Node::Element(e1));
    assert_eq!(members[1], Node::Element(e2));
}

#[test]
fn children_and_parents_are_consistent() {
    let mut doc = Document::new(0);
    let parent = doc.create_element(QName::new("parent".to_string()));
    let child = doc.create_element(QName::new("child".to_string()));
    let attr = doc.set_attribute_value(parent, QName::new("a".to_string()), "v".to_string());
    doc.append_root_child(ChildOfRoot::Element(parent));
    doc.append_child(parent, ChildOfElement::Element(child));

    let root_node = into_node(doc.root());
    let root_children = root_node.children(&doc);
    assert_eq!(1, root_children.len());
    assert_eq!(root_children[0], Node::Element(parent));

    let parent_children = into_node(parent).children(&doc);
    assert_eq!(1, parent_children.len());
    assert_eq!(parent_children[0], Node::Element(child));

    assert_eq!(Some(root_node), into_node(parent).parent(&doc));
    assert_eq!(Some(into_node(parent)), into_node(child).parent(&doc));
    assert_eq!(Some(into_node(parent)), into_node(attr).parent(&doc));
    assert_eq!(0, into_node(attr).children(&doc).len());
}

#[test]
fn namespace_node_reports_its_parent_element() {
    let mut doc = Document::new(0);
    let e = doc.create_element(QName::new("element".to_string()));
    let ns = Namespace { parent: e, prefix: "pre".to_string(), uri: "uri".to_string() };
    assert_eq!(e, ns.parent());
    assert_eq!("pre", ns.prefix());
    assert_eq!("uri", ns.uri());
    assert_eq!(Some(Node::Element(e)), Node::Namespace(ns).parent(&doc));
}

#[test]
fn siblings_come_nearest_first() {
    let mut doc = Document::new(0);
    let c1 = doc.create_comment("one".to_string());
    let c2 = doc.create_comment("two".to_string());
    let c3 = doc.create_comment("three".to_string());
    doc.append_root_child(ChildOfRoot::Comment(c1));
    doc.append_root_child(ChildOfRoot::Comment(c2));
    doc.append_root_child(ChildOfRoot::Comment(c3));

    let preceding = into_node(c3).preceding_siblings(&doc);
    assert_eq!(2, preceding.len());
    assert_eq!(preceding[0], Node::Comment(c2));
    assert_eq!(preceding[1], Node::Comment(c1));

    let following = into_node(c1).following_siblings(&doc);
    assert_eq!(2, following.len());
    assert_eq!(following[0], Node::Comment(c2));
    assert_eq!(following[1], Node::Comment(c3));

    assert_eq!(0, into_node(doc.root()).preceding_siblings(&doc).len());
}

#[test]
fn element_siblings_include_text_and_comments() {
    let mut doc = Document::new(0);
    let e = doc.create_element(QName::new("element".to_string()));
    let t = doc.create_text("text".to_string());
    let c = doc.create_comment("comment".to_string());
    let child = doc.create_element(QName::new("child".to_string()));
    doc.append_child(e, ChildOfElement::Text(t));
    doc.append_child(e, ChildOfElement::Element(child));
    doc.append_child(e, ChildOfElement::Comment(c));

    let preceding = into_node(c).preceding_siblings(&doc);
    assert_eq!(2, preceding.len());
    assert_eq!(preceding[0], Node::Element(child));
    assert_eq!(preceding[1], Node::Text(t));

    let following = into_node(t).following_siblings(&doc);
    assert_eq!(2, following.len());
    assert_eq!(following[0], Node::Element(child));
    assert_eq!(following[1], Node::Comment(c));
}

#[test]
fn expanded_name_by_node_kind() {
    let mut doc = Document::new(0);
    let e = doc.create_element(QName::with_namespace("uri".to_string(), "wow".to_string()));
    let pi = doc.create_processing_instruction("target".to_string(), None);
    let t = doc.create_text("text".to_string());

    let en = into_node(e).expanded_name(&doc).unwrap();
    assert_eq!(Some(&"uri".to_string()), en.namespace_uri());
    assert_eq!(&"wow".to_string(), en.local_part());

    let pn = into_node(pi).expanded_name(&doc).unwrap();
    assert_eq!(None, pn.namespace_uri());
    assert_eq!(&"target".to_string(), pn.local_part());

    assert!(into_node(t).expanded_name(&doc).is_none());
    assert!(into_node(doc.root()).expanded_name(&doc).is_none());
}

#[test]
fn node_reports_its_owning_document() {
    let mut doc = Document::new(7);
    let e = doc.create_element(QName::new("element".to_string()));
    let t = doc.create_text("text".to_string());
    let ns = Namespace { parent: e, prefix: "pre".to_string(), uri: "uri".to_string() };
    assert_eq!(7, into_node(e).document());
    assert_eq!(7, into_node(t).document());
    assert_eq!(7, into_node(doc.root()).document());
    assert_eq!(7, Node::Namespace(ns).document());
}

#[test]
fn nodes_unpack_to_their_wrapped_handles() {
    let mut doc = Document::new(0);
    let e = doc.create_element(QName::new("element".to_string()));
    let t = doc.create_text("text".to_string());

    assert_eq!(Some(e), into_node(e).element());
    assert_eq!(None, into_node(e).text());
    assert_eq!(Some(t), into_node(t).text());
    assert_eq!(None, into_node(t).comment());
    assert_eq!(Some(doc.root()), into_node(doc.root()).root());
    assert_eq!(None, into_node(doc.root()).attribute());
}
