//! Tests of the arena, the string helpers and the CSS parser.

use boxtree::bucket_array::BucketArray;
use boxtree::css_parser::{CssError, CssErrorKind, CssParser, CssRuleParam, CssUnit};
use boxtree::util::{first_until_whitespace, remove_trailing_spaces, split_by_whitespace_trimmed};

#[test]
fn bucket_array_test() {
    let mut b = BucketArray::<usize>::new();
    b.insert(1);
    b.insert(4000);
    b.insert(5445);
    b.insert(342);
    let i1 = b.insert(343);
    let i2 = b.insert(23);
    b.remove(0);
    b.remove(4);
    assert!(b.has(i2));
    assert!(b.has(4345) == false);
    assert_eq!(b.get(i1), None);
    assert_eq!(b.get(434), None);
    assert_eq!(b.get(i2), Some(&23));
    *b.get_mut(i2).unwrap() = 0;
    assert_eq!(b.get_mut(23245345), None);
    assert_eq!(b.len(), 4);
    {
        let it = b.iter();
        assert_eq!(it.len(), 4);
        let (a1, a2, a3, a4) = (it[0], it[1], it[2], it[3]);
        assert_eq!(*b.get(a1).unwrap(), 4000);
        assert_eq!(a1, 1);
        assert_eq!(*b.get(a2).unwrap(), 5445);
        assert_eq!(a2, 2);
        assert_eq!(*b.get(a3).unwrap(), 342);
        assert_eq!(a3, 3);
        assert_eq!(*b.get(a4).unwrap(), 0);
        assert_eq!(a4, 5);
    }
    for k in b.iter_mut() {
        *b.get_mut(k).unwrap() = 123;
    }
    b.insert(3);
    assert_eq!(b.len(), 5);
    {
        let it = b.iter();
        assert_eq!(*b.get(it[0]).unwrap(), 3);
        assert_eq!(*b.get(it[1]).unwrap(), 123);
        assert_eq!(*b.get(it[2]).unwrap(), 123);
        assert_eq!(*b.get(it[3]).unwrap(), 123);
        assert_eq!(*b.get(it[4]).unwrap(), 123);
        assert_eq!(it.len(), 5);
    }
}

#[test]
fn arena_reuse_lowest() {
    let mut b = BucketArray::<u32>::new();
    for v in 0..6u32 {
        b.insert(v * 10);
    }
    b.remove(0);
    b.remove(4);
    assert_eq!(b.len(), 4);
    assert!(!b.has(0));
    let reused = b.insert(99);
    assert_eq!(reused, 0);
    let ids = b.iter();
    for w in ids.windows(2) {
        assert!(w[0] < w[1]);
    }
}

#[test]
fn test() {
    let tester = remove_trailing_spaces("   a   b       c  ");
    assert_eq!(tester.as_str(), "a b c");

    let tester = split_by_whitespace_trimmed("   a   bb       c  ");
    assert_eq!(tester, vec!["a", "bb", "c"]);

    let tester = first_until_whitespace("   a   bb       c  ");
    assert_eq!(tester.as_str(), "a");

    let tester = first_until_whitespace("test   bb       c  ");
    assert_eq!(tester.as_str(), "test");

    let tester = first_until_whitespace("");
    assert_eq!(tester.as_str(), "");
}

#[test]
fn test_integrity() {
    let mut parser = CssParser::new(
        "Div {} .test { color: red; } #ident { border: 2px; padding: 2px 3px 10px 1px; }",
    );
    parser.parse().unwrap();
}

#[test]
fn test_ignored() {
    let mut parser = CssParser::new("   .test");
    parser.no_rubbish();
    // The lookahead holds the dot, so only what follows it remains.
    let rest: String = parser.rest_chars().into_iter().collect();
    assert_eq!(rest.as_str(), "test");
}

#[test]
fn test_rule_parsing() {
    let mut parser = CssParser::new("background-color: red; border: 2px black;");
    let rule = parser.parse_rule().unwrap();
    assert_eq!(rule.name.as_str(), "background-color");
    let param = &rule.params[0];
    assert!(matches!(param, CssRuleParam::Color(255, 0, 0, 255)));

    let rule = parser.parse_rule().unwrap();
    assert_eq!(rule.name.as_str(), "border");
    let param = &rule.params[0];
    assert!(matches!(param, CssRuleParam::Unit(.., CssUnit::Px)));
    let param = &rule.params[1];
    assert!(matches!(param, CssRuleParam::Color(0, 0, 0, 255)));
}

#[test]
fn test_selector_parsing() {
    let mut parser = CssParser::new("   .test");
    let selector = parser.parse_selector_atomic().unwrap();
    assert_eq!(selector.to_string().as_str(), ".test");
    let mut parser = CssParser::new(" \n #test");
    let selector = parser.parse_selector_atomic().unwrap();
    assert_eq!(selector.to_string().as_str(), "#test");

    let mut parser = CssParser::new("\ttest");
    let selector = parser.parse_selector_atomic().unwrap();
    assert_eq!(selector.to_string().as_str(), "test");
}

#[test]
fn test_identifier_parsing() {
    let mut parser = CssParser::new("valid_1dentifier--");
    let ident = parser.parse_ident().unwrap();
    assert_eq!(ident, "valid_1dentifier--");

    // With unknown characters
    let mut parser = CssParser::new("-valid_1dentifier--$$$#$532485092385");
    let ident = parser.parse_ident().unwrap();
    assert_eq!(ident, "-valid_1dentifier--");

    // With ignored characters
    let mut parser = CssParser::new("_valid_1dentifier-- this_is_something-else");
    let ident = parser.parse_ident().unwrap();
    assert_eq!(ident, "_valid_1dentifier--");

    // Invalid
    let mut parser = CssParser::new("1valid_1dentifier-- this_is_something-else");
    let error = parser.parse_ident().unwrap_err();
    assert!(matches!(error.kind, CssErrorKind::InvalidSymbolInIdent));
}

#[test]
fn css_round_trip() {
    let mut parser = CssParser::new("a { color: red; }");
    let css = parser.parse().unwrap();
    assert_eq!(css.blocks.len(), 1);
    let block = &css.blocks[0];
    assert_eq!(block.selector.sels.len(), 1);
    assert_eq!(block.selector.sels[0].sels.len(), 1);
    assert_eq!(block.selector.sels[0].sels[0].to_string().as_str(), "a");
    assert_eq!(block.rules.len(), 1);
    assert_eq!(block.rules[0].name.as_str(), "color");
    assert!(matches!(block.rules[0].params[0], CssRuleParam::Color(255, 0, 0, 255)));
}

fn hex_param(src: &str) -> Result<CssRuleParam, CssError> {
    let mut parser = CssParser::new(src);
    let rule = parser.parse_rule()?;
    Ok(rule.params[0].clone())
}

#[test]
fn hex_expansion() {
    assert!(matches!(hex_param("color: #abc;").unwrap(), CssRuleParam::Color(0xAA, 0xBB, 0xCC, 255)));
    assert!(matches!(
        hex_param("color: #abcd;").unwrap(),
        CssRuleParam::Color(0xAA, 0xBB, 0xCC, 0xDD)
    ));
    assert!(matches!(
        hex_param("color: #aabbcc;").unwrap(),
        CssRuleParam::Color(0xAA, 0xBB, 0xCC, 255)
    ));
    assert!(matches!(
        hex_param("color: #aabbccdd;").unwrap(),
        CssRuleParam::Color(0xAA, 0xBB, 0xCC, 0xDD)
    ));
    let err = hex_param("color: #abcde;").unwrap_err();
    assert!(matches!(err.kind, CssErrorKind::HexColorLengthMayNotBe(5)));
}

#[test]
fn named_colors_and_units() {
    let mut parser = CssParser::new("x: lightblue 12px unknownword;");
    let rule = parser.parse_rule().unwrap();
    assert!(matches!(rule.params[0], CssRuleParam::Color(128, 128, 255, 255)));
    assert!(matches!(rule.params[1], CssRuleParam::Unit(12, CssUnit::Px)));
    match &rule.params[2] {
        CssRuleParam::UnknownIdent(s) => assert_eq!(s.as_str(), "unknownword"),
        other => panic!("{:?}", other),
    }
}

#[test]
fn error_kinds() {
    // unknown unit keeps the offending text
    let mut parser = CssParser::new("x: 4em;");
    let err = parser.parse_rule().unwrap_err();
    match err.kind {
        CssErrorKind::UnknownUnit(u) => assert_eq!(u.as_str(), "em"),
        other => panic!("{:?}", other),
    }
    // a sign without digits is an invalid number
    let mut parser = CssParser::new("x: -px;");
    let err = parser.parse_rule().unwrap_err();
    assert!(matches!(err.kind, CssErrorKind::InvalidNumber));
    // a missing colon is an expected-character error
    let mut parser = CssParser::new("x red;");
    let err = parser.parse_rule().unwrap_err();
    assert!(matches!(err.kind, CssErrorKind::ExpectedCharacter(':')));
    // a stray symbol makes an invalid rule parameter
    let mut parser = CssParser::new("x: $;");
    let err = parser.parse_rule().unwrap_err();
    assert!(matches!(err.kind, CssErrorKind::InvalidRuleParameter));
    // input ending before a block is an expected-character error
    let mut parser = CssParser::new("a");
    let err = parser.parse().unwrap_err();
    assert!(matches!(err.kind, CssErrorKind::ExpectedCharacter('{')));
    // an unterminated block fails on the missing declaration
    let mut parser = CssParser::new("a {");
    let err = parser.parse().unwrap_err();
    assert!(matches!(err.kind, CssErrorKind::InvalidSymbolInIdent));
}

#[test]
fn comments_and_positions() {
    let mut parser = CssParser::new("/* lead */ a { /* in */ color: red; }");
    let css = parser.parse().unwrap();
    assert_eq!(css.blocks.len(), 1);
    assert_eq!(css.blocks[0].rules.len(), 1);

    // errors carry the 0-based line and column
    let mut parser = CssParser::new("a {\n  color red;\n}");
    let err = parser.parse().unwrap_err();
    assert!(matches!(err.kind, CssErrorKind::ExpectedCharacter(':')));
    assert_eq!(err.line, 1);
}

#[test]
fn negative_and_fractional_numbers() {
    let mut parser = CssParser::new("m: -4px 2.9px;");
    let rule = parser.parse_rule().unwrap();
    assert!(matches!(rule.params[0], CssRuleParam::Unit(-4, CssUnit::Px)));
    // fractional digits are accepted by the grammar and truncated
    assert!(matches!(rule.params[1], CssRuleParam::Unit(2, CssUnit::Px)));
}
