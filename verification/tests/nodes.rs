//! Tests of the per-node selector matcher, the style records and the
//! plain tree types.

use boxtree::css_parser::CssParser;
use boxtree::dom::node::{Element, Node};
use boxtree::dom::tree::NodeTree;
use boxtree::selector::matcher::matches_selector;
use boxtree::selector::matching_elements::get_matching_elements;
use boxtree::style::element_style::ElementStyle;
use boxtree::style::styles::{Color, FourSides};
use boxtree::tree::unaware_tree::UnawareTree;
use boxtree::tree::BasicTree;

fn attr(k: &str, v: &str) -> (String, String) {
    (k.to_string(), v.to_string())
}

#[test]
fn element_accessors() {
    let el = Element::new(
        "div".to_string(),
        vec![attr("id", "main  extra"), attr("class", "wide  tall wide")],
    );
    assert_eq!(el.get_tag_name(), "div");
    assert_eq!(el.get_id().unwrap(), "main");
    // the class list is a set: first occurrences kept, duplicates dropped
    let classes = el.get_class_list();
    assert_eq!(classes, vec!["wide", "tall"]);

    let none = Element::new("p".to_string(), vec![]);
    assert!(none.get_id().is_none());
    assert!(none.get_class_list().is_empty());
}

#[test]
fn node_conversions() {
    let mut n = Node::Element(Element::new("b".to_string(), vec![]));
    assert!(n.as_text().is_none());
    assert_eq!(n.as_element().unwrap().get_tag_name(), "b");
    assert!(n.as_element_mut().is_some());
    let t = Node::Text("hi".to_string());
    assert_eq!(t.as_text().unwrap(), "hi");
    assert!(t.as_element().is_none());
}

#[test]
fn per_element_matching() {
    let el = Element::new(
        "div".to_string(),
        vec![attr("class", "inner other-class"), attr("id", "outter")],
    );
    let sel = parse_sel(".inner.other-class");
    assert!(matches_selector(&el, &sel));
    let sel = parse_sel("#outter");
    assert!(matches_selector(&el, &sel));
    let sel = parse_sel("span, div");
    assert!(matches_selector(&el, &sel));
    let sel = parse_sel("span.inner");
    assert!(!matches_selector(&el, &sel));
}

fn parse_sel(src: &str) -> boxtree::css_parser::CssVariantSelector {
    let mut parser = CssParser::new(src);
    parser.parse_selector().unwrap()
}

#[test]
fn matching_elements_preorder() {
    let mut root = UnawareTree::new_node(Node::Element(Element::new(
        "div".to_string(),
        vec![attr("class", "hit")],
    )));
    root.add_child(UnawareTree::new_leaf(Node::Text("x".to_string())));
    root.add_child(UnawareTree::new_node(Node::Element(Element::new(
        "span".to_string(),
        vec![attr("class", "hit")],
    ))));
    root.add_child(UnawareTree::new_node(Node::Element(Element::new(
        "p".to_string(),
        vec![],
    ))));
    let sel = parse_sel(".hit");
    let found = get_matching_elements(&sel, &root);
    assert_eq!(found.len(), 2);
    assert_eq!(found[0].get_tag_name(), "div");
    assert_eq!(found[1].get_tag_name(), "span");
    assert_eq!(root.child_count(), 3);
    assert!(root.get_child(1).is_some());
    assert!(root.get_child(3).is_none());
}

#[test]
fn element_style_from_ruleset() {
    let mut parser = CssParser::new(
        "padding: 2px; margin: 1px 4px; background-color: red; color: #00ff00; margin: 7px;",
    );
    let mut rules = Vec::new();
    rules.push(parser.parse_rule().unwrap());
    rules.push(parser.parse_rule().unwrap());
    rules.push(parser.parse_rule().unwrap());
    rules.push(parser.parse_rule().unwrap());
    rules.push(parser.parse_rule().unwrap());
    let style = ElementStyle::from_ruleset(&rules);
    assert_eq!(
        style.padding.unwrap(),
        FourSides { left: 2, right: 2, top: 2, bottom: 2 }
    );
    // the later margin declaration wins
    assert_eq!(
        style.margin.unwrap(),
        FourSides { left: 7, right: 7, top: 7, bottom: 7 }
    );
    assert_eq!(
        style.background_color.unwrap(),
        Color { red: 255, green: 0, blue: 0, alpha: 255 }
    );
    assert_eq!(
        style.color.unwrap(),
        Color { red: 0, green: 255, blue: 0, alpha: 255 }
    );
}

#[test]
fn node_tree_single_root() {
    let root = UnawareTree::new_node(Node::Text("only".to_string()));
    let wrapped = NodeTree::from_tree_vec(vec![root]);
    assert_eq!(wrapped.tree.get_node().as_text().unwrap(), "only");
}
