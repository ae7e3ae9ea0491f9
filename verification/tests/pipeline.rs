//! Tests of the DOM, the selector engine, the cascade, the layout and the
//! whole pipeline with its diagnostic fallback.

use boxtree::css_matcher::QuerySelectorExt;
use boxtree::css_parser::CssParser;
use boxtree::dom_repr::{DomComponent, DomSystem};
use boxtree::ui::{DisplayType, Item, StretchType, StyleMap, StyleRule, StyleRuleTag, Ui};
use boxtree::xml_ui::{document_to_ui, parse_xml};

#[test]
fn test_dom_parser() {
    let input =
        r#"<?xml version="1.0" encoding="utf-8"?><div param="a">test<span></span>another text</div>"#;
    let sys = DomSystem::from_xml(input).unwrap();
    let el = sys.get_element(sys.root()).unwrap();
    assert_eq!(el.tag, "div");
    assert_eq!(el.get_attribute("param").unwrap(), "a");
    let children = el.children.clone();
    match sys.get_component(children[0]).unwrap() {
        DomComponent::Text(t) => assert_eq!(t.text, "test"),
        e => panic!("{:?}", e),
    }
    match sys.get_component(children[1]).unwrap() {
        DomComponent::Element(t) => assert_eq!(t.tag, "span"),
        e => panic!("{:?}", e),
    }
    match sys.get_component(children[2]).unwrap() {
        DomComponent::Text(t) => assert_eq!(t.text, "another text"),
        e => panic!("{:?}", e),
    }
}

const SELECTOR_DOC: &str = r#"<?xml version="1.0" encoding="utf-8"?>
<root>
    <div id="outter">
        <div class="inner">
        </div>
        <div class="inner other-class">
            <div class="inner">
            </div>
        </div>
        <div class="inner">
        </div>
    </div>
    rstrstin
    rst
    <div class="inner"></div>
</root>
    "#;

#[test]
fn test_dom_parser_selector() {
    let sys = DomSystem::from_xml(SELECTOR_DOC).unwrap();

    let el = sys.get_elements_by_tag_name(sys.root(), "div").unwrap();
    assert_eq!(el.len(), 6);

    // the origin itself is a candidate, so the root's own tag matches
    let el = sys.get_elements_by_tag_name(sys.root(), "root").unwrap();
    assert_eq!(el.len(), 1);

    let el = sys.get_elements_by_class_name(sys.root(), "inner").unwrap();
    assert_eq!(el.len(), 5);

    let outter = sys.get_element_by_id(sys.root(), "outter").unwrap();
    let el = sys.get_elements_by_class_name(outter, "inner").unwrap();
    assert_eq!(el.len(), 4);
}

#[test]
fn query_selector_test() {
    let input = r#"<?xml version="1.0" encoding="utf-8"?>
<root>
    <div id="outter">
        <div class="inner">
        </div>
        <div class="inner other-class">
            <div class="inner">
            </div>
        </div>
        <div class="inner">
        </div>
    </div>

    <div class="inner"></div>
</root>
    "#;

    let sys = DomSystem::from_xml(input).unwrap();

    let elements = sys.query_selector("#outter");
    assert_eq!(elements.len(), 1);

    let elements = sys.query_selector(".inner.other-class");
    assert_eq!(elements.len(), 1);

    let elements = sys.query_selector(".inner");
    assert_eq!(elements.len(), 5);

    let elements = sys.query_selector("div");
    assert_eq!(elements.len(), 6);
}

#[test]
fn root_element_matches_selectors() {
    // a selector can match the document root itself
    let sys = DomSystem::from_xml(r#"<div id="top" class="only"></div>"#).unwrap();
    assert_eq!(sys.query_selector("div").len(), 1);
    assert_eq!(sys.query_selector("#top").len(), 1);
    assert_eq!(sys.query_selector(".only").len(), 1);
    let mut parser = CssParser::new("div { color: blue; }");
    let css = parser.parse().unwrap();
    let ui = document_to_ui(&sys, &css);
    assert_eq!(ui.things.get(ui.root).unwrap().get_fg(), (0, 0, 255, 255));
}

#[test]
fn cascade_later_block_wins() {
    let sys = DomSystem::from_xml(r#"<root><div class="a"></div></root>"#).unwrap();
    let mut parser = CssParser::new("div { color: red; } div { color: blue; }");
    let css = parser.parse().unwrap();
    let ui = document_to_ui(&sys, &css);
    // the inner div is laid into the arena before its parent
    let div_elem = ui.things.get(0).unwrap();
    assert_eq!(div_elem.get_fg(), (0, 0, 255, 255));
}

#[test]
fn inline_style_overrides_blocks() {
    let sys = DomSystem::from_xml(r#"<div style="color: green;"></div>"#).unwrap();
    let mut parser = CssParser::new("div { color: red; }");
    let css = parser.parse().unwrap();
    let ui = document_to_ui(&sys, &css);
    let root_elem = ui.things.get(ui.root).unwrap();
    assert_eq!(root_elem.get_fg(), (0, 255, 0, 255));
}

#[test]
fn offset_shorthand_expansion() {
    let sys = DomSystem::from_xml(r#"<root><div></div></root>"#).unwrap();
    let mut parser = CssParser::new("div { padding: 2px 3px 10px 1px; margin: 1px 4px; }");
    let css = parser.parse().unwrap();
    let ui = document_to_ui(&sys, &css);
    let root_elem = ui.things.get(0).unwrap();
    match root_elem.styles.get(StyleRuleTag::Padding).unwrap().rule {
        StyleRule::Offset { l, t, r, b } => {
            assert_eq!((t, r, b, l), (2, 3, 10, 1));
        },
        other => panic!("{:?}", other),
    }
    match root_elem.styles.get(StyleRuleTag::Margin).unwrap().rule {
        StyleRule::Offset { l, t, r, b } => {
            assert_eq!((t, r, b, l), (1, 4, 1, 4));
        },
        other => panic!("{:?}", other),
    }
}

#[test]
fn layout_stretch() {
    // a block parent of width 100 (80 of text content plus 10px padding on
    // each side) and a stretching block child
    let text = Item::build().component(Ui::Text { text: "AAAAAAAAAA".to_string() });
    let child = Item::build().style(StyleRuleTag::Stretch, StyleRule::Stretch(StretchType::True));
    let parent = Item::build().padding(10, 10).with_children(vec![text, child]);
    let ui = parent.into_ui();
    let frames = ui.calculate_layout();
    // the parent's frame is emitted last and spans the full width
    let parent_frame = frames.last().unwrap();
    assert_eq!(parent_frame.for_id, ui.root);
    assert_eq!(parent_frame.rect.size.x, 100);
    // the child (second slot inserted) was stretched to 100 - 2*10
    let child_frame = frames.iter().find(|f| f.for_id == 1).unwrap();
    assert_eq!(child_frame.rect.size.x, 80);
}

#[test]
fn stretch_subtracts_own_padding() {
    // the stretched width is the parent's content width minus twice the
    // child's own padding and margin
    let text = Item::build().component(Ui::Text { text: "AAAAAAAAAA".to_string() });
    let child = Item::build()
        .style(StyleRuleTag::Stretch, StyleRule::Stretch(StretchType::True))
        .padding(5, 5);
    let parent = Item::build().padding(10, 10).with_children(vec![text, child]);
    let ui = parent.into_ui();
    let frames = ui.calculate_layout();
    let child_frame = frames.iter().find(|f| f.for_id == 1).unwrap();
    assert_eq!(child_frame.rect.size.x, 100 - 2 * 10 - 2 * 5);
}

#[test]
fn propagation_inherits_color_only() {
    let inner = Item::build();
    let parent = Item::build()
        .style(StyleRuleTag::Color, StyleRule::Color { color: (1, 2, 3, 255) })
        .style(StyleRuleTag::BackgroundColor, StyleRule::Color { color: (9, 9, 9, 255) })
        .with_children(vec![inner]);
    let mut ui = parent.into_ui();
    let root = ui.root;
    ui.propagate_styles_rec(root, StyleMap::new());
    let child = ui.things.get(0).unwrap();
    // the foreground colour propagates down
    assert_eq!(child.get_fg(), (1, 2, 3, 255));
    // the background colour does not: the child keeps the default
    assert_eq!(child.get_bg(), (255, 255, 255, 0));
}

#[test]
fn text_layout_dimensions() {
    let text = Item::build().component(Ui::Text { text: "abcd".to_string() });
    let ui = Item::build().with_children(vec![text]).into_ui();
    let frames = ui.calculate_layout();
    let text_frame = frames.iter().find(|f| f.for_id == 0).unwrap();
    assert_eq!(text_frame.rect.size.x, 4 * 8);
    assert_eq!(text_frame.rect.size.y, 16);
}

#[test]
fn block_children_stack_vertically() {
    let a = Item::build().component(Ui::Text { text: "aa".to_string() }).style(
        StyleRuleTag::Display,
        StyleRule::Display(DisplayType::Block),
    );
    let b = Item::build().component(Ui::Text { text: "bbb".to_string() }).style(
        StyleRuleTag::Display,
        StyleRule::Display(DisplayType::Block),
    );
    let ui = Item::build().with_children(vec![a, b]).into_ui();
    let frames = ui.calculate_layout();
    let parent = frames.last().unwrap();
    // widest child decides the width, heights add up
    assert_eq!(parent.rect.size.x, 24);
    assert_eq!(parent.rect.size.y, 32);
    let second = frames.iter().find(|f| f.for_id == 1).unwrap();
    assert_eq!(second.rect.pos.y, 16);
}

#[test]
fn end_to_end_failure() {
    let xml = Ok("<div></div>".to_string());
    let css: Result<String, String> = Err("No such file or directory".to_string());
    let ui = parse_xml(&xml, &css, "./test.xml", "./style.css");
    let frames = ui.calculate_layout();
    // the root frame carries the white diagnostic background
    let root_frame = frames.last().unwrap();
    assert_eq!(root_frame.for_id, ui.root);
    assert_eq!(ui.things.get(ui.root).unwrap().get_bg(), (255, 255, 255, 255));
    // and some frame belongs to the heading text
    let mut found_heading = false;
    for f in frames.iter() {
        if let Some(elem) = ui.things.get(f.for_id) {
            if let Ui::Text { text } = &elem.elem {
                if text == "Whoops! An error:" {
                    found_heading = true;
                }
            }
        }
    }
    assert!(found_heading);
}

#[test]
fn css_error_becomes_diagnostic_document() {
    let xml = Ok("<div></div>".to_string());
    let css = Ok("div { color }".to_string());
    let ui = parse_xml(&xml, &css, "./test.xml", "./style.css");
    let mut found_message = false;
    for id in ui.things.iter() {
        if let Ui::Text { text } = &ui.things.get(id).unwrap().elem {
            if text.starts_with("CSS error: Expected character ':'") {
                found_message = true;
            }
        }
    }
    assert!(found_message);
}

#[test]
fn malformed_markup_becomes_diagnostic_document() {
    let xml = Ok("<div><span></div>".to_string());
    let css = Ok("".to_string());
    let ui = parse_xml(&xml, &css, "./test.xml", "./style.css");
    let mut found_heading = false;
    for id in ui.things.iter() {
        if let Ui::Text { text } = &ui.things.get(id).unwrap().elem {
            if text == "Whoops! An error:" {
                found_heading = true;
            }
        }
    }
    assert!(found_heading);
}

#[test]
fn span_is_inline_and_raw_preserves_spaces() {
    let sys = DomSystem::from_xml("<div><Span>  a  b  </Span><Raw>  c  d  </Raw></div>").unwrap();
    let mut parser = CssParser::new("");
    let css = parser.parse().unwrap();
    let ui = document_to_ui(&sys, &css);
    let mut saw_collapsed = false;
    let mut saw_verbatim = false;
    for id in ui.things.iter() {
        if let Ui::Text { text } = &ui.things.get(id).unwrap().elem {
            if text == "a b " {
                saw_collapsed = true;
            }
            if text == "  c  d  " {
                saw_verbatim = true;
            }
        }
    }
    assert!(saw_collapsed);
    assert!(saw_verbatim);
}
