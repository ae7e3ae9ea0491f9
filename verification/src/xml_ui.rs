//! The document pipeline: marries the DOM, the stylesheet and the builder.
//! Stylesheet blocks are matched against the document, applied to each
//! element in declaration order, topped by the element's inline `style`
//! attribute, and the result becomes a UI tree. Any failure along the way
//! yields a fixed diagnostic document instead — the pipeline always
//! returns a renderable tree.

use vstd::prelude::*;
use vstd::string::*;

use crate::atoms::Id;
use crate::css_gen::{g_apply_pairs, g_generate_from, generate_from};
use crate::css_matcher::{g_match_set, match_selector_against_dom};
use crate::css_parser::{g_parse, Css, CssError, CssParser, GBlock, GErr, GKind};
use crate::dom_repr::{assoc_get, g_children, DomError, DomSystem, GDom, GDomError};
use crate::ui::{
    g_item_leaf, item_view, item_wf, tree_of, DisplayType, GItem, GUi, Item, Style, StyleMap,
    StyleRule, StyleRuleTag, Ui, UiSystem,
};
use crate::util::{join_spaces, ws_tokens};

verus! {

broadcast use vstd::seq_lib::group_seq_properties;

// ---------------------------------------------------------------------------
// Number and message formatting
// ---------------------------------------------------------------------------
/// The decimal digits of a non-negative number.
pub open spec fn dec_str(n: int) -> Seq<char>
    decreases n,
{
    if n < 10 {
        seq![digit_char(n)]
    } else {
        dec_str(n / 10).push(digit_char(n % 10))
    }
}

pub open spec fn digit_char(d: int) -> char {
    if d == 0 {
        '0'
    } else if d == 1 {
        '1'
    } else if d == 2 {
        '2'
    } else if d == 3 {
        '3'
    } else if d == 4 {
        '4'
    } else if d == 5 {
        '5'
    } else if d == 6 {
        '6'
    } else if d == 7 {
        '7'
    } else if d == 8 {
        '8'
    } else {
        '9'
    }
}

fn digit_to_char(d: usize) -> (c: char)
    requires
        d < 10,
    ensures
        c == digit_char(d as int),
{
    match d {
        0 => '0',
        1 => '1',
        2 => '2',
        3 => '3',
        4 => '4',
        5 => '5',
        6 => '6',
        7 => '7',
        8 => '8',
        _ => '9',
    }
}

/// The decimal rendering of a number.
pub fn usize_to_string(n: usize) -> (s: String)
    ensures
        s@ == dec_str(n as int),
    decreases n,
{
    if n < 10 {
        let mut s = String::new();
        s.push(digit_to_char(n));
        proof {
            assert(s@ =~= seq![digit_char(n as int)]);
        }
        s
    } else {
        let mut s = usize_to_string(n / 10);
        s.push(digit_to_char(n % 10));
        s
    }
}

/// A printable stand-in for the character of an expected-character error;
/// the parser only ever expects this punctuation.
pub open spec fn char_repr(c: char) -> Seq<char> {
    if c == '{' {
        "{"@
    } else if c == '}' {
        "}"@
    } else if c == ':' {
        ":"@
    } else if c == ';' {
        ";"@
    } else if c == ',' {
        ","@
    } else if c == '#' {
        "#"@
    } else {
        "?"@
    }
}

/// The wording of each parse error kind.
pub open spec fn kind_msg(k: GKind) -> Seq<char> {
    match k {
        GKind::Eof => "Unexpected end of file"@,
        GKind::InvalidSymbolInIdent => "Invalid symbol in identifier"@,
        GKind::ExpectedCharacter(c) => "Expected character '"@ + char_repr(c) + "'"@,
        GKind::UnknownUnit(s) => "Unknown unit '"@ + s + "'"@,
        GKind::UnexpectedIdent(s) => "Unexpected identifier '"@ + s + "'"@,
        GKind::HexColorLengthMayNotBe(n) => "Hexadecimal color may not be of length "@ + dec_str(
            if n >= 0 {
                n
            } else {
                0
            },
        ),
        GKind::InvalidRuleParameter => "Invalid rule parameter"@,
        GKind::InvalidNumber => "Invalid number"@,
    }
}

/// One more than the coordinate, saturating (positions are reported
/// 1-based).
pub open spec fn sat_inc(n: int) -> int {
    if n + 1 <= usize::MAX as int {
        n + 1
    } else {
        n
    }
}

/// The diagnostic line for a stylesheet error.
pub open spec fn css_err_msg(e: GErr) -> Seq<char> {
    "CSS error: "@ + kind_msg(e.kind) + " at "@ + dec_str(sat_inc(e.line)) + ":"@ + dec_str(
        sat_inc(e.col),
    )
}

/// Renders a stylesheet error for the diagnostic document.
pub fn css_error_message(e: &CssError) -> (s: String)
    ensures
        s@ == css_err_msg(e@),
{
    let mut s = String::new();
    s.append("CSS error: ");
    match &e.kind {
        crate::css_parser::CssErrorKind::Eof => {
            s.append("Unexpected end of file");
        },
        crate::css_parser::CssErrorKind::InvalidSymbolInIdent => {
            s.append("Invalid symbol in identifier");
        },
        crate::css_parser::CssErrorKind::ExpectedCharacter(c) => {
            s.append("Expected character '");
            let repr: &str = if *c == '{' {
                "{"
            } else if *c == '}' {
                "}"
            } else if *c == ':' {
                ":"
            } else if *c == ';' {
                ";"
            } else if *c == ',' {
                ","
            } else if *c == '#' {
                "#"
            } else {
                "?"
            };
            s.append(repr);
            s.append("'");
        },
        crate::css_parser::CssErrorKind::UnknownUnit(u) => {
            s.append("Unknown unit '");
            s.append(u.as_str());
            s.append("'");
        },
        crate::css_parser::CssErrorKind::UnexpectedIdent(u) => {
            s.append("Unexpected identifier '");
            s.append(u.as_str());
            s.append("'");
        },
        crate::css_parser::CssErrorKind::HexColorLengthMayNotBe(n) => {
            s.append("Hexadecimal color may not be of length ");
            let num = usize_to_string(*n);
            s.append(num.as_str());
        },
        crate::css_parser::CssErrorKind::InvalidRuleParameter => {
            s.append("Invalid rule parameter");
        },
        crate::css_parser::CssErrorKind::InvalidNumber => {
            s.append("Invalid number");
        },
    }
    s.append(" at ");
    let line = usize_to_string(if e.line < usize::MAX {
        e.line + 1
    } else {
        e.line
    });
    s.append(line.as_str());
    s.append(":");
    let col = usize_to_string(if e.col < usize::MAX {
        e.col + 1
    } else {
        e.col
    });
    s.append(col.as_str());
    s
}

/// The wording of a document-building error.
pub open spec fn dom_err_msg(e: GDomError) -> Seq<char> {
    match e {
        GDomError::Reader(m) => m,
        GDomError::RootCount(n) => "document does not have exactly one root element ("@ + dec_str(
            if n >= 0 {
                n
            } else {
                0
            },
        ) + ")"@,
    }
}

/// Renders a document-building error for the diagnostic document.
pub fn dom_error_message(e: &DomError) -> (s: String)
    ensures
        s@ == dom_err_msg(e@),
{
    match e {
        DomError::Reader(m) => m.clone(),
        DomError::RootCount(n) => {
            let mut s = String::new();
            s.append("document does not have exactly one root element (");
            let num = usize_to_string(*n);
            s.append(num.as_str());
            s.append(")");
            s
        },
    }
}

// ---------------------------------------------------------------------------
// The diagnostic fallback document
// ---------------------------------------------------------------------------
/// A bare text leaf, displayed inline as text always is.
pub open spec fn g_text_leaf(t: Seq<char>) -> GItem {
    GItem {
        elem: GUi::Text(t),
        styles: StyleMap::spec_empty().spec_insert(
            StyleRuleTag::Display,
            Style { propagating: false, rule: StyleRule::Display(DisplayType::Inline) },
        ),
        children: Seq::empty(),
    }
}

/// The diagnostic document: red text on white, padded, holding a heading,
/// the error message, a separator, and the attempted call.
pub open spec fn g_error_document(
    msg: Seq<char>,
    path: Seq<char>,
    csspath: Seq<char>,
) -> GItem {
    let pad = Style {
        rule: StyleRule::Offset { l: 10, t: 10, r: 10, b: 10 },
        propagating: false,
    };
    let heading = GItem {
        elem: GUi::Div,
        styles: StyleMap::spec_empty().spec_insert(StyleRuleTag::Padding, pad),
        children: seq![g_text_leaf("Whoops! An error:"@)],
    };
    let call_line = "parse_xml(\""@ + path + "\", \""@ + csspath + "\")"@;
    GItem {
        elem: GUi::Div,
        styles: StyleMap::spec_empty().spec_insert(StyleRuleTag::Padding, pad).spec_insert(
            StyleRuleTag::Color,
            Style { rule: StyleRule::Color { color: (255, 0, 0, 255) }, propagating: true },
        ).spec_insert(
            StyleRuleTag::BackgroundColor,
            Style { rule: StyleRule::Color { color: (255, 255, 255, 255) }, propagating: false },
        ),
        children: seq![
            heading,
            g_text_leaf(msg),
            g_item_leaf(),
            g_text_leaf("-----------------------"@),
            g_item_leaf(),
            g_text_leaf(call_line),
        ],
    }
}

/// A text item of the document.
fn text_item(text: String) -> (r: Item)
    ensures
        item_wf(r),
        item_view(r) == g_text_leaf(text@),
{
    let ghost gt = text@;
    let r = Item::build().component(Ui::Text { text });
    proof {
        assert(r.spec_elem()@ == GUi::Text(gt));
        assert(r.spec_styles() == g_text_leaf(gt).styles);
        assert(r.children@.len() == 0);
        assert(item_view(r).children =~= Seq::<GItem>::empty());
        assert(item_view(r) =~~= g_text_leaf(gt));
    }
    r
}

/// The diagnostic document, built: the fixed layout around the message and
/// the attempted paths.
pub fn make_error(message: String, path: &str, pathcss: &str) -> (r: UiSystem)
    ensures
        r.wf(),
        tree_of(r.slots(), r.root as int) == g_error_document(message@, path@, pathcss@),
{
    let ghost gmsg = message@;
    let ghost gdoc = g_error_document(message@, path@, pathcss@);
    let heading_text = text_item(String::from_str("Whoops! An error:"));
    let ghost v_ht = item_view(heading_text);
    let mut hkids: Vec<Item> = Vec::new();
    hkids.push(heading_text);
    let heading = Item::build().padding(10, 10).with_children(hkids);
    let ghost v_heading = item_view(heading);
    proof {
        assert(v_heading.children =~= seq![v_ht]);
        assert(v_heading =~~= gdoc.children[0]);
    }
    let msg_item = text_item(message);
    let ghost v_msg = item_view(msg_item);
    let sep_item = text_item(String::from_str("-----------------------"));
    let ghost v_sep = item_view(sep_item);
    let mut call = String::new();
    call.append("parse_xml(\"");
    call.append(path);
    call.append("\", \"");
    call.append(pathcss);
    call.append("\")");
    let call_item = text_item(call);
    let ghost v_call = item_view(call_item);
    let blank1 = Item::build();
    let ghost v_b1 = item_view(blank1);
    let blank2 = Item::build();
    let ghost v_b2 = item_view(blank2);
    proof {
        assert(v_b1.children =~= Seq::<GItem>::empty());
        assert(v_b1 =~~= g_item_leaf());
        assert(v_b2.children =~= Seq::<GItem>::empty());
        assert(v_b2 =~~= g_item_leaf());
        assert(v_msg =~~= gdoc.children[1]);
        assert(v_sep =~~= gdoc.children[3]);
        assert(v_call =~~= gdoc.children[5]);
    }
    let mut kids: Vec<Item> = Vec::new();
    kids.push(heading);
    kids.push(msg_item);
    kids.push(blank1);
    kids.push(sep_item);
    kids.push(blank2);
    kids.push(call_item);
    let root_item = Item::build().padding(10, 10).style(
        StyleRuleTag::Color,
        StyleRule::Color { color: (255, 0, 0, 255) },
    ).style(
        StyleRuleTag::BackgroundColor,
        StyleRule::Color { color: (255, 255, 255, 255) },
    ).with_children(kids);
    proof {
        assert(kids@.map_values(|ci: Item| item_view(ci)) =~= seq![
            v_heading,
            v_msg,
            v_b1,
            v_sep,
            v_b2,
            v_call,
        ]);
        assert forall|j: int| 0 <= j < root_item.children@.len() implies item_view(root_item).children[j]
            == item_view(#[trigger] root_item.children@[j]) by {}
        assert(item_view(root_item).children =~= kids@.map_values(|ci: Item| item_view(ci)));
        assert(item_view(root_item).styles == gdoc.styles);
        assert(item_view(root_item) =~~= gdoc);
    }
    root_item.into_ui()
}

// ---------------------------------------------------------------------------
// Building the UI tree from the DOM
// ---------------------------------------------------------------------------
/// The styles an element gets from its matched blocks, in stylesheet
/// order.
pub open spec fn g_apply_blocks(
    m: StyleMap,
    css: Seq<GBlock>,
    list: Seq<usize>,
    k: int,
) -> StyleMap
    decreases list.len() - k,
{
    if 0 <= k < list.len() {
        let m2 = if (list[k] as int) < css.len() {
            g_apply_pairs(m, g_generate_from(css[list[k] as int].rules, 0), 0)
        } else {
            m
        };
        g_apply_blocks(m2, css, list, k + 1)
    } else {
        m
    }
}

/// Every pair the listed blocks generate, in stylesheet order.
pub open spec fn g_blocks_pairs(
    css: Seq<GBlock>,
    list: Seq<usize>,
    k: int,
) -> Seq<(StyleRuleTag, StyleRule)>
    decreases list.len() - k,
{
    if 0 <= k < list.len() {
        (if (list[k] as int) < css.len() {
            g_generate_from(css[list[k] as int].rules, 0)
        } else {
            Seq::empty()
        }) + g_blocks_pairs(css, list, k + 1)
    } else {
        Seq::empty()
    }
}

/// Applying the listed blocks is applying their generated pairs in order.
pub proof fn lemma_apply_blocks_as_pairs(
    m: StyleMap,
    css: Seq<GBlock>,
    list: Seq<usize>,
    k: int,
)
    requires
        0 <= k <= list.len(),
    ensures
        g_apply_blocks(m, css, list, k) == g_apply_pairs(m, g_blocks_pairs(css, list, k), 0),
    decreases list.len() - k,
{
    if k < list.len() {
        let gen: Seq<(StyleRuleTag, StyleRule)> = if (list[k] as int) < css.len() {
            g_generate_from(css[list[k] as int].rules, 0)
        } else {
            Seq::empty()
        };
        let m2 = g_apply_pairs(m, gen, 0);
        lemma_apply_blocks_as_pairs(m2, css, list, k + 1);
        crate::css_gen::lemma_apply_pairs_concat(m, gen, g_blocks_pairs(css, list, k + 1), 0);
        if (list[k] as int) < css.len() {
        } else {
            assert(Seq::<(StyleRuleTag, StyleRule)>::empty() + g_blocks_pairs(css, list, k + 1)
                =~= g_blocks_pairs(css, list, k + 1));
        }
    }
}

/// Cascade order across whole blocks: after applying the blocks matched
/// for an element, a property holds the value of the last generated pair
/// that set it — so when two matched blocks both set the same property,
/// the later block in stylesheet order wins.
pub proof fn lemma_cascade_blocks_later_wins(
    m: StyleMap,
    css: Seq<GBlock>,
    list: Seq<usize>,
    j: int,
    t: StyleRuleTag,
)
    requires
        0 <= j < g_blocks_pairs(css, list, 0).len(),
        g_blocks_pairs(css, list, 0)[j].0 == t,
        forall|i: int|
            j < i < g_blocks_pairs(css, list, 0).len() ==> (#[trigger] g_blocks_pairs(
                css,
                list,
                0,
            )[i]).0 != t,
    ensures
        g_apply_blocks(m, css, list, 0).spec_get(t) == Some(
            Style { rule: g_blocks_pairs(css, list, 0)[j].1, propagating: t is Color },
        ),
{
    lemma_apply_blocks_as_pairs(m, css, list, 0);
    crate::css_gen::lemma_cascade_later_wins(m, g_blocks_pairs(css, list, 0), j, t);
}

/// The UI node kind a tag maps to.
pub open spec fn g_tag_kind(tag: Seq<char>) -> GUi {
    if tag == "Button"@ {
        GUi::Button
    } else {
        GUi::Div
    }
}

/// A text run as it enters the UI: verbatim in raw mode; otherwise spaces
/// collapse, with one leading space kept when the run follows something
/// and one trailing space kept.
pub open spec fn g_text_value(t: Seq<char>, raw: bool, is_first: bool) -> Seq<char> {
    if raw {
        t
    } else {
        let pre: Seq<char> = if t.len() > 0 && t[0] == ' ' && !is_first {
            " "@
        } else {
            ""@
        };
        let post: Seq<char> = if t.len() > 0 && t.last() == ' ' {
            " "@
        } else {
            ""@
        };
        pre + join_spaces(ws_tokens(t)) + post
    }
}

/// The ghost UI tree the pipeline builds below a DOM element: tag kind,
/// span-inline default, matched block styles, the inline `style`
/// attribute on top, and the children in document order.
pub open spec fn g_build(
    slots: Seq<GDom>,
    id: int,
    bl: Seq<Seq<usize>>,
    css: Seq<GBlock>,
    raw: bool,
) -> GItem
    decreases slots.len() - id, 1int, 0int,
{
    if 0 <= id < slots.len() && slots[id] is Element {
        let e = slots[id]->Element_0;
        let raw2 = raw || e.tag == "Raw"@;
        let styles0 = if e.tag == "Span"@ {
            StyleMap::spec_empty().spec_insert(
                StyleRuleTag::Display,
                Style { propagating: false, rule: StyleRule::Display(DisplayType::Inline) },
            )
        } else {
            StyleMap::spec_empty()
        };
        let styles1 = g_apply_blocks(
            styles0,
            css,
            if 0 <= id < bl.len() {
                bl[id]
            } else {
                Seq::empty()
            },
            0,
        );
        let inline_src = match assoc_get(e.attrs, "style"@) {
            Some(v) => v,
            None => Seq::empty(),
        };
        let styles2 = g_apply_pairs(
            styles1,
            g_generate_from(crate::css_parser::g_parse_inline(inline_src), 0),
            0,
        );
        GItem {
            elem: g_tag_kind(e.tag),
            styles: styles2,
            children: g_build_kids(slots, id, e.children, 0, bl, css, raw2),
        }
    } else {
        g_item_leaf()
    }
}

pub open spec fn g_build_kids(
    slots: Seq<GDom>,
    id: int,
    kids: Seq<Id>,
    k: int,
    bl: Seq<Seq<usize>>,
    css: Seq<GBlock>,
    raw: bool,
) -> Seq<GItem>
    decreases slots.len() - id, 0int, kids.len() - k,
{
    if 0 <= k < kids.len() {
        let rest = g_build_kids(slots, id, kids, k + 1, bl, css, raw);
        if id < (kids[k] as int) < slots.len() {
            match slots[kids[k] as int] {
                GDom::Element(ce) => seq![g_build(slots, kids[k] as int, bl, css, raw)] + rest,
                GDom::Text(t) => seq![g_text_leaf(g_text_value(t, raw, k == 0))] + rest,
            }
        } else {
            rest
        }
    } else {
        Seq::empty()
    }
}

/// Builds the UI subtree for a DOM element, with `blocks_for` naming the
/// stylesheet blocks matched per element.
pub fn build_recursively(
    system: &DomSystem,
    root: Id,
    blocks_for: &Vec<Vec<usize>>,
    css: &Css,
    raw: bool,
) -> (r: Item)
    requires
        system.wf(),
        (root as int) < system.slots().len(),
        system.slots()[root as int] is Element,
    ensures
        item_wf(r),
        item_view(r) == g_build(
            system.slots(),
            root as int,
            blocks_for@.map_values(|v: Vec<usize>| v@),
            css@,
            raw,
        ),
    decreases system.slots().len() - root,
{
    let ghost slots = system.slots();
    let ghost gbl = blocks_for@.map_values(|v: Vec<usize>| v@);
    let el = match system.get_element(root) {
        Some(e) => e,
        None => {
            proof {
                assert(false);
            }
            return Item::build();
        },
    };
    let ghost ge = slots[root as int]->Element_0;
    let raw2 = raw || crate::util::str_eq(el.tag.as_str(), "Raw");
    let mut item = if crate::util::str_eq(el.tag.as_str(), "Span") {
        Item::build().style(
            StyleRuleTag::Display,
            StyleRule::Display(DisplayType::Inline),
        )
    } else {
        Item::build()
    };
    proof {
        assert(item.spec_styles() == if ge.tag == "Span"@ {
            StyleMap::spec_empty().spec_insert(
                StyleRuleTag::Display,
                Style { propagating: false, rule: StyleRule::Display(DisplayType::Inline) },
            )
        } else {
            StyleMap::spec_empty()
        });
    }
    // matched block styles, in stylesheet order
    let empty_blocks: Vec<usize> = Vec::new();
    let my_blocks: &Vec<usize> = if root < blocks_for.len() {
        &blocks_for[root]
    } else {
        &empty_blocks
    };
    let ghost glist: Seq<usize> = if 0 <= root < gbl.len() {
        gbl[root as int]
    } else {
        Seq::empty()
    };
    proof {
        assert(my_blocks@ == glist);
    }
    let mut b: usize = 0;
    while b < my_blocks.len()
        invariant
            item_wf(item),
            item.children@.len() == 0,
            item.spec_elem()@ is Div,
            b <= my_blocks@.len(),
            my_blocks@ == glist,
            css@ == css.blocks@.map_values(|q: crate::css_parser::CssBlock| q@),
            g_apply_blocks(item.spec_styles(), css@, glist, b as int) == g_apply_blocks(
                if ge.tag == "Span"@ {
                    StyleMap::spec_empty().spec_insert(
                        StyleRuleTag::Display,
                        Style {
                            propagating: false,
                            rule: StyleRule::Display(DisplayType::Inline),
                        },
                    )
                } else {
                    StyleMap::spec_empty()
                },
                css@,
                glist,
                0,
            ),
        decreases my_blocks@.len() - b,
    {
        let bi = my_blocks[b];
        if bi < css.blocks.len() {
            let pairs = generate_from(&css.blocks[bi].rules);
            proof {
                crate::css_gen::lemma_generate_from_shapes(
                    css.blocks@[bi as int]@.rules,
                    0,
                );
                assert(css@[bi as int] == css.blocks@[bi as int]@);
            }
            item = apply_pairs(item, &pairs);
        }
        b += 1;
    }
    // the inline style attribute, on top
    let inline_rules = match el.get_attribute("style") {
        Some(v) => CssParser::parse_inline(v.as_str()),
        None => CssParser::parse_inline(""),
    };
    proof {
        if assoc_get(ge.attrs, "style"@) is None {
            reveal_strlit("");
            assert(""@ =~= Seq::<char>::empty());
        }
    }
    let inline_pairs = generate_from(&inline_rules);
    proof {
        crate::css_gen::lemma_generate_from_shapes(
            inline_rules@.map_values(|q: crate::css_parser::CssRule| q@),
            0,
        );
    }
    item = apply_pairs(item, &inline_pairs);
    // children in document order
    let mut children: Vec<Item> = Vec::new();
    let mut k: usize = 0;
    proof {
        assert(children@.map_values(|c: Item| item_view(c)) =~= Seq::<GItem>::empty());
        assert(g_children(slots[root as int]) == el.children@);
    }
    while k < el.children.len()
        invariant
            system.wf(),
            slots == system.slots(),
            root < slots.len(),
            slots[root as int] is Element,
            ge == slots[root as int]->Element_0,
            g_children(slots[root as int]) == el.children@,
            GDom::Element(el@) == slots[root as int],
            gbl == blocks_for@.map_values(|v: Vec<usize>| v@),
            css@ == css.blocks@.map_values(|q: crate::css_parser::CssBlock| q@),
            k <= el.children@.len(),
            forall|j: int| 0 <= j < children@.len() ==> item_wf(#[trigger] children@[j]),
            g_build_kids(slots, root as int, ge.children, 0, gbl, css@, raw2) == children@.map_values(
                |c: Item| item_view(c),
            ) + g_build_kids(slots, root as int, ge.children, k as int, gbl, css@, raw2),
        decreases el.children@.len() - k,
    {
        let c = el.children[k];
        proof {
            assert((root as int) < (c as int) < slots.len());
        }
        let ghost pre = children@.map_values(|ci: Item| item_view(ci));
        match system.get_component(c) {
            Some(comp) => match comp {
                crate::dom_repr::DomComponent::Element(_) => {
                    let child_item = build_recursively(system, c, blocks_for, css, raw2);
                    let ghost cv = item_view(child_item);
                    children.push(child_item);
                    proof {
                        assert(children@.map_values(|ci: Item| item_view(ci)) =~= pre.push(cv));
                        assert(pre + (seq![cv] + g_build_kids(
                            slots,
                            root as int,
                            ge.children,
                            k + 1,
                            gbl,
                            css@,
                            raw2,
                        )) =~= children@.map_values(|ci: Item| item_view(ci)) + g_build_kids(
                            slots,
                            root as int,
                            ge.children,
                            k + 1,
                            gbl,
                            css@,
                            raw2,
                        ));
                    }
                },
                crate::dom_repr::DomComponent::Text(t) => {
                    let target: String = if raw2 {
                        t.text.clone()
                    } else {
                        let trimmed = crate::util::remove_trailing_spaces(t.text.as_str());
                        let mut out = String::new();
                        let starts_space = t.text.as_str().unicode_len() > 0 && t.text.as_str().get_char(
                            0,
                        ) == ' ';
                        let ends_space = {
                            let n = t.text.as_str().unicode_len();
                            n > 0 && t.text.as_str().get_char(n - 1) == ' '
                        };
                        if starts_space && k != 0 {
                            out.append(" ");
                        }
                        out.append(trimmed.as_str());
                        if ends_space {
                            out.append(" ");
                        }
                        out
                    };
                    proof {
                        reveal_strlit(" ");
                        reveal_strlit("");
                        assert(target@ =~= g_text_value(t.text@, raw2, k == 0));
                    }
                    let child_item = text_item(target);
                    let ghost cv = item_view(child_item);
                    children.push(child_item);
                    proof {
                        assert(children@.map_values(|ci: Item| item_view(ci)) =~= pre.push(cv));
                        assert(pre + (seq![cv] + g_build_kids(
                            slots,
                            root as int,
                            ge.children,
                            k + 1,
                            gbl,
                            css@,
                            raw2,
                        )) =~= children@.map_values(|ci: Item| item_view(ci)) + g_build_kids(
                            slots,
                            root as int,
                            ge.children,
                            k + 1,
                            gbl,
                            css@,
                            raw2,
                        ));
                    }
                },
            },
            None => {
                proof {
                    assert(false);
                }
            },
        }
        k += 1;
    }
    proof {
        assert(children@.map_values(|ci: Item| item_view(ci)) + g_build_kids(
            slots,
            root as int,
            ge.children,
            el.children@.len() as int,
            gbl,
            css@,
            raw2,
        ) =~= children@.map_values(|ci: Item| item_view(ci)));
    }
    let kind: Ui = if crate::util::str_eq(el.tag.as_str(), "Button") {
        Ui::Button
    } else {
        Ui::Div
    };
    proof {
        assert(g_apply_blocks(item.spec_styles(), css@, glist, glist.len() as int)
            == item.spec_styles());
    }
    let result = item.component(kind).with_children(children);
    proof {
        let gb = g_build(slots, root as int, gbl, css@, raw);
        assert forall|j: int| 0 <= j < result.children@.len() implies item_view(result).children[j]
            == item_view(#[trigger] result.children@[j]) by {}
        assert(item_view(result).children =~= children@.map_values(|ci: Item| item_view(ci)));
        assert(item_view(result).elem == gb.elem);
        assert(item_view(result).styles == gb.styles);
        assert(item_view(result) =~~= gb);
    }
    result
}

/// The stylesheet blocks (their indices, ascending) whose selector
/// matches element `i`, from block `b` on.
pub open spec fn g_elem_blocks(
    slots: Seq<GDom>,
    root: int,
    css: Seq<GBlock>,
    i: Id,
    b: int,
) -> Seq<usize>
    decreases css.len() - b,
{
    if 0 <= b < css.len() {
        let rest = g_elem_blocks(slots, root, css, i, b + 1);
        if g_match_set(slots, root, css[b].selector).contains(i) {
            seq![b as usize] + rest
        } else {
            rest
        }
    } else {
        Seq::empty()
    }
}

/// The per-element matched-block table of a whole stylesheet.
pub open spec fn g_blocks_for(slots: Seq<GDom>, root: int, css: Seq<GBlock>) -> Seq<Seq<usize>> {
    Seq::new(slots.len(), |i: int| g_elem_blocks(slots, root, css, i as Id, 0))
}

/// The resolved UI tree of a whole document and stylesheet.
pub open spec fn g_document_item(slots: Seq<GDom>, root: int, css: Seq<GBlock>) -> GItem {
    g_build(slots, root, g_blocks_for(slots, root, css), css, false)
}

/// Matches every stylesheet block against the document and builds the UI
/// tree: each element receives its matching blocks in declaration order,
/// so a later block's value for a property wins.
pub fn document_to_ui(system: &DomSystem, stylesheet: &Css) -> (r: UiSystem)
    requires
        system.wf(),
        system.slots()[system.spec_root() as int] is Element,
    ensures
        r.wf(),
        tree_of(r.slots(), r.root as int) == g_document_item(
            system.slots(),
            system.spec_root() as int,
            stylesheet@,
        ),
{
    let ghost slots = system.slots();
    let ghost groot = system.spec_root() as int;
    let ghost gcss = stylesheet@;
    let n = system.slot_len();
    let mut blocks_for: Vec<Vec<usize>> = Vec::new();
    while blocks_for.len() < n
        invariant
            blocks_for@.len() <= n,
            forall|i: int| 0 <= i < blocks_for@.len() ==> (#[trigger] blocks_for@[i])@.len() == 0,
        decreases n - blocks_for@.len(),
    {
        blocks_for.push(Vec::new());
    }
    let mut b: usize = 0;
    while b < stylesheet.blocks.len()
        invariant
            system.wf(),
            slots == system.slots(),
            groot == system.spec_root() as int,
            slots[groot] is Element,
            gcss == stylesheet@,
            b <= stylesheet.blocks@.len(),
            blocks_for@.len() == n,
            n == slots.len(),
            forall|i: int|
                0 <= i < n ==> g_elem_blocks(slots, groot, gcss, i as Id, 0) == (
                #[trigger] blocks_for@[i])@ + g_elem_blocks(slots, groot, gcss, i as Id, b as int),
        decreases stylesheet.blocks@.len() - b,
    {
        let matching = match_selector_against_dom(&stylesheet.blocks[b].selector, system);
        proof {
            assert(gcss[b as int].selector == stylesheet.blocks@[b as int]@.selector);
        }
        let ghost pre = blocks_for@;
        let mut j: usize = 0;
        while j < matching.len()
            invariant
                j <= matching@.len(),
                crate::css_matcher::uniq(matching@),
                matching@.to_set() == g_match_set(slots, groot, gcss[b as int].selector),
                b < gcss.len(),
                blocks_for@.len() == pre.len(),
                forall|i: int|
                    0 <= i < pre.len() ==> (#[trigger] blocks_for@[i])@ == if matching@.take(
                        j as int,
                    ).contains(i as Id) {
                        pre[i]@.push(b as usize)
                    } else {
                        pre[i]@
                    },
            decreases matching@.len() - j,
        {
            let id = matching[j];
            if id < blocks_for.len() {
                let ghost prev = blocks_for@;
                let mut row = blocks_for.remove(id);
                row.push(b);
                blocks_for.insert(id, row);
                proof {
                    assert forall|i: int|
                        0 <= i < pre.len() implies (#[trigger] blocks_for@[i])@ == if matching@.take(
                            j + 1,
                        ).contains(i as Id) {
                            pre[i]@.push(b as usize)
                        } else {
                            pre[i]@
                        } by {
                        assert(matching@.take(j + 1).drop_last() =~= matching@.take(j as int));
                        if i != id as int {
                            assert(blocks_for@[i] == prev[i]);
                            if matching@.take(j + 1).contains(i as Id) && !matching@.take(
                                j as int,
                            ).contains(i as Id) {
                                assert(matching@.take(j + 1).last() == i as Id);
                                assert(false);
                            }
                        } else {
                            assert(matching@.take(j + 1).contains(id));
                            assert(!matching@.take(j as int).contains(id));
                        }
                    }
                }
            } else {
                proof {
                    assert forall|i: int|
                        0 <= i < pre.len() implies (#[trigger] blocks_for@[i])@ == if matching@.take(
                            j + 1,
                        ).contains(i as Id) {
                            pre[i]@.push(b as usize)
                        } else {
                            pre[i]@
                        } by {
                        assert(matching@.take(j + 1).drop_last() =~= matching@.take(j as int));
                        if matching@.take(j + 1).contains(i as Id) && !matching@.take(
                            j as int,
                        ).contains(i as Id) {
                            assert(matching@.take(j + 1).last() == i as Id);
                            assert(false);
                        }
                    }
                }
            }
            j += 1;
        }
        proof {
            assert(matching@.take(matching@.len() as int) =~= matching@);
            assert forall|i: int|
                0 <= i < n implies g_elem_blocks(slots, groot, gcss, i as Id, 0) == (
                #[trigger] blocks_for@[i])@ + g_elem_blocks(slots, groot, gcss, i as Id, b + 1) by {
                if g_match_set(slots, groot, gcss[b as int].selector).contains(i as Id) {
                    assert(matching@.contains(i as Id));
                    assert(blocks_for@[i]@ =~= pre[i]@.push(b as usize));
                    assert(pre[i]@ + (seq![b as usize] + g_elem_blocks(
                        slots,
                        groot,
                        gcss,
                        i as Id,
                        b + 1,
                    )) =~= blocks_for@[i]@ + g_elem_blocks(slots, groot, gcss, i as Id, b + 1));
                } else {
                    assert(!matching@.contains(i as Id));
                    assert(blocks_for@[i]@ == pre[i]@);
                }
            }
        }
        b += 1;
    }
    proof {
        assert forall|i: int|
            0 <= i < n implies (#[trigger] blocks_for@[i])@ == g_elem_blocks(
            slots,
            groot,
            gcss,
            i as Id,
            0,
        ) by {
            assert(g_elem_blocks(slots, groot, gcss, i as Id, gcss.len() as int)
                =~= Seq::<usize>::empty());
            assert(blocks_for@[i]@ + Seq::<usize>::empty() =~= blocks_for@[i]@);
        }
        assert(blocks_for@.map_values(|v: Vec<usize>| v@) =~= g_blocks_for(slots, groot, gcss));
    }
    let root = system.root();
    let items = build_recursively(system, root, &blocks_for, stylesheet, false);
    items.into_ui()
}

/// Runs the whole pipeline on already-read sources: parse the stylesheet,
/// build the DOM, match, cascade and lay the UI tree out of them. Any
/// failure — an unreadable source, a stylesheet error, malformed markup,
/// a wrong root count or a text root — produces the diagnostic document
/// with that failure's message instead.
pub fn parse_xml(
    xml_source: &Result<String, String>,
    css_source: &Result<String, String>,
    path: &str,
    css_path: &str,
) -> (r: UiSystem)
    ensures
        r.wf(),
        css_source is Err ==> tree_of(r.slots(), r.root as int) == g_error_document(
            css_source->Err_0@,
            path@,
            css_path@,
        ),
        css_source is Ok ==> match g_parse(
            css_source->Ok_0@,
            crate::css_parser::nr(
                css_source->Ok_0@,
                crate::css_parser::PState { pos: 0, cur: ' ', line: 0, col: 0, eof: false },
            ),
        ).0 {
            Err(ge) => tree_of(r.slots(), r.root as int) == g_error_document(
                css_err_msg(ge),
                path@,
                css_path@,
            ),
            Ok(gblocks) => match xml_source {
                Err(m) => tree_of(r.slots(), r.root as int) == g_error_document(
                    m@,
                    path@,
                    css_path@,
                ),
                Ok(xsrc) => match crate::dom_repr::g_events_to_dom(
                    crate::dom_repr::doc_events(xsrc@),
                ) {
                    Err(de) => tree_of(r.slots(), r.root as int) == g_error_document(
                        dom_err_msg(de),
                        path@,
                        css_path@,
                    ),
                    Ok(g) => if 0 <= g.1 < g.0.len() && g.0[g.1 as int] is Element {
                        tree_of(r.slots(), r.root as int) == g_document_item(
                            g.0,
                            g.1 as int,
                            gblocks,
                        )
                    } else {
                        tree_of(r.slots(), r.root as int) == g_error_document(
                            "document root is not an element"@,
                            path@,
                            css_path@,
                        )
                    },
                },
            },
        },
{
    let css_text = match css_source {
        Ok(t) => t,
        Err(m) => {
            return make_error(m.clone(), path, css_path);
        },
    };
    let mut parser = CssParser::new(css_text.as_str());
    let stylesheet = match parser.parse() {
        Ok(x) => x,
        Err(e) => {
            let ghost ge = e@;
            let msg = css_error_message(&e);
            let r = make_error(msg, path, css_path);
            proof {
                assert(tree_of(r.slots(), r.root as int) == g_error_document(
                    css_err_msg(ge),
                    path@,
                    css_path@,
                ));
            }
            return r;
        },
    };
    let xml_text = match xml_source {
        Ok(t) => t,
        Err(m) => {
            return make_error(m.clone(), path, css_path);
        },
    };
    let system = match DomSystem::from_xml(xml_text.as_str()) {
        Ok(x) => x,
        Err(e) => {
            let msg = dom_error_message(&e);
            return make_error(msg, path, css_path);
        },
    };
    let root = system.root();
    let root_is_element = match system.get_component(root) {
        Some(c) => matches!(c, crate::dom_repr::DomComponent::Element(_)),
        None => false,
    };
    if !root_is_element {
        return make_error(
            String::from_str("document root is not an element"),
            path,
            css_path,
        );
    }
    document_to_ui(&system, &stylesheet)
}

/// Applies generated (tag, value) pairs to the item, in order.
fn apply_pairs(item: Item, pairs: &Vec<(StyleRuleTag, StyleRule)>) -> (r: Item)
    requires
        item_wf(item),
        forall|j: int|
            0 <= j < pairs@.len() ==> crate::ui::rule_matches_tag(
                (#[trigger] pairs@[j]).0,
                pairs@[j].1,
            ),
    ensures
        item_wf(r),
        r.spec_elem() == item.spec_elem(),
        r.children == item.children,
        r.spec_styles() == g_apply_pairs(item.spec_styles(), pairs@, 0),
{
    let mut cur = item;
    let mut k: usize = 0;
    while k < pairs.len()
        invariant
            item_wf(cur),
            cur.spec_elem() == item.spec_elem(),
            cur.children == item.children,
            k <= pairs@.len(),
            forall|j: int|
                0 <= j < pairs@.len() ==> crate::ui::rule_matches_tag(
                    (#[trigger] pairs@[j]).0,
                    pairs@[j].1,
                ),
            g_apply_pairs(item.spec_styles(), pairs@, 0) == g_apply_pairs(
                cur.spec_styles(),
                pairs@,
                k as int,
            ),
        decreases pairs@.len() - k,
    {
        let (tag, rule) = pairs[k];
        cur = cur.style(tag, rule);
        k += 1;
    }
    cur
}

} // verus!
