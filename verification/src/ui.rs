//! The UI tree: elements with resolved styles held in a slot arena, a
//! builder API for assembling trees, inheritance of propagating styles, and
//! the two-pass layout that turns the tree into a flat list of frames.

use vstd::prelude::*;
use vstd::string::*;

use crate::atoms::{add64, clip64, Id, Rect, Vec2};
use crate::bucket_array::BucketArray;

verus! {

/// What a UI node is: a button, a run of text, or a plain container.
#[derive(Debug, Clone)]
pub enum Ui {
    Button,
    Text { text: String },
    Div,
}

pub type UiId = usize;

/// The styleable properties, as a closed enumeration.
#[derive(Hash, Eq, PartialEq, Structural, Debug, Copy, Clone)]
pub enum StyleRuleTag {
    Padding,
    Margin,
    Border,
    BackgroundColor,
    Color,
    Display,
    Stretch,
}

#[derive(Debug, Clone, Copy, Eq, PartialEq, Structural)]
pub enum DisplayType {
    Inline,
    Block,
}

#[derive(Debug, Clone, Copy, Eq, PartialEq, Structural)]
pub enum StretchType {
    IfBlock,
    True,
    False,
}

/// A resolved style value. Lengths are whole pixels.
#[derive(Debug, Clone, Copy, PartialEq)]
pub enum StyleRule {
    Offset { l: i64, t: i64, r: i64, b: i64 },
    Outline { size: i64, color: (u8, u8, u8, u8) },
    Color { color: (u8, u8, u8, u8) },
    Display(DisplayType),
    Stretch(StretchType),
}

/// A style value together with whether it propagates to descendants.
#[derive(Debug, Clone, Copy, PartialEq)]
pub struct Style {
    pub rule: StyleRule,
    pub propagating: bool,
}

/// Whether a style value has the shape its property calls for.
pub open spec fn rule_matches_tag(tag: StyleRuleTag, rule: StyleRule) -> bool {
    match tag {
        StyleRuleTag::Padding => rule is Offset,
        StyleRuleTag::Margin => rule is Offset,
        StyleRuleTag::Border => rule is Outline,
        StyleRuleTag::BackgroundColor => rule is Color,
        StyleRuleTag::Color => rule is Color,
        StyleRuleTag::Display => rule is Display,
        StyleRuleTag::Stretch => rule is Stretch,
    }
}

impl StyleRuleTag {
    /// The property name this tag stands for.
    pub open spec fn spec_name(self) -> Seq<char> {
        match self {
            StyleRuleTag::Padding => "padding"@,
            StyleRuleTag::Margin => "margin"@,
            StyleRuleTag::Border => "border"@,
            StyleRuleTag::BackgroundColor => "background-color"@,
            StyleRuleTag::Color => "color"@,
            StyleRuleTag::Display => "display"@,
            StyleRuleTag::Stretch => "stretch"@,
        }
    }

    pub fn name(self) -> (r: &'static str)
        ensures
            r@ == self.spec_name(),
    {
        match self {
            StyleRuleTag::Padding => "padding",
            StyleRuleTag::Margin => "margin",
            StyleRuleTag::Border => "border",
            StyleRuleTag::BackgroundColor => "background-color",
            StyleRuleTag::Color => "color",
            StyleRuleTag::Display => "display",
            StyleRuleTag::Stretch => "stretch",
        }
    }

    /// The tag a property name maps to; `background` and `background-color`
    /// are synonyms, unknown names map to nothing.
    pub open spec fn spec_from(s: Seq<char>) -> Option<StyleRuleTag> {
        if s == "padding"@ {
            Some(StyleRuleTag::Padding)
        } else if s == "margin"@ {
            Some(StyleRuleTag::Margin)
        } else if s == "border"@ {
            Some(StyleRuleTag::Border)
        } else if s == "background"@ || s == "background-color"@ {
            Some(StyleRuleTag::BackgroundColor)
        } else if s == "color"@ {
            Some(StyleRuleTag::Color)
        } else if s == "display"@ {
            Some(StyleRuleTag::Display)
        } else if s == "stretch"@ {
            Some(StyleRuleTag::Stretch)
        } else {
            None
        }
    }

    pub fn from(s: &str) -> (r: Option<StyleRuleTag>)
        ensures
            r == Self::spec_from(s@),
    {
        if crate::util::str_eq(s, "padding") {
            Some(StyleRuleTag::Padding)
        } else if crate::util::str_eq(s, "margin") {
            Some(StyleRuleTag::Margin)
        } else if crate::util::str_eq(s, "border") {
            Some(StyleRuleTag::Border)
        } else if crate::util::str_eq(s, "background") || crate::util::str_eq(
            s,
            "background-color",
        ) {
            Some(StyleRuleTag::BackgroundColor)
        } else if crate::util::str_eq(s, "color") {
            Some(StyleRuleTag::Color)
        } else if crate::util::str_eq(s, "display") {
            Some(StyleRuleTag::Display)
        } else if crate::util::str_eq(s, "stretch") {
            Some(StyleRuleTag::Stretch)
        } else {
            None
        }
    }

    /// The value a property takes when nothing sets it; only `color`
    /// propagates by convention.
    pub open spec fn spec_default(self) -> Style {
        Style {
            propagating: self is Color,
            rule: match self {
                StyleRuleTag::Padding => StyleRule::Offset { l: 0, t: 0, b: 0, r: 0 },
                StyleRuleTag::Margin => StyleRule::Offset { l: 0, t: 0, b: 0, r: 0 },
                StyleRuleTag::Border => StyleRule::Outline { size: 0, color: (0, 0, 0, 0) },
                StyleRuleTag::BackgroundColor => StyleRule::Color { color: (255, 255, 255, 0) },
                StyleRuleTag::Color => StyleRule::Color { color: (0, 0, 0, 255) },
                StyleRuleTag::Display => StyleRule::Display(DisplayType::Block),
                StyleRuleTag::Stretch => StyleRule::Stretch(StretchType::IfBlock),
            },
        }
    }

    pub fn default(self) -> (r: Style)
        ensures
            r == self.spec_default(),
    {
        let propagating = matches!(self, StyleRuleTag::Color);
        Style {
            propagating,
            rule: match self {
                StyleRuleTag::Padding => StyleRule::Offset { l: 0, t: 0, b: 0, r: 0 },
                StyleRuleTag::Margin => StyleRule::Offset { l: 0, t: 0, b: 0, r: 0 },
                StyleRuleTag::Border => StyleRule::Outline { size: 0, color: (0, 0, 0, 0) },
                StyleRuleTag::BackgroundColor => StyleRule::Color { color: (255, 255, 255, 0) },
                StyleRuleTag::Color => StyleRule::Color { color: (0, 0, 0, 255) },
                StyleRuleTag::Display => StyleRule::Display(DisplayType::Block),
                StyleRuleTag::Stretch => StyleRule::Stretch(StretchType::IfBlock),
            },
        }
    }
}

/// The styles set on one element: at most one value per property.
#[derive(Debug, Clone, Copy, PartialEq)]
pub struct StyleMap {
    padding: Option<Style>,
    margin: Option<Style>,
    border: Option<Style>,
    background_color: Option<Style>,
    color: Option<Style>,
    display: Option<Style>,
    stretch: Option<Style>,
}

impl StyleMap {
    /// The value set for a property, if any.
    pub closed spec fn spec_get(self, t: StyleRuleTag) -> Option<Style> {
        match t {
            StyleRuleTag::Padding => self.padding,
            StyleRuleTag::Margin => self.margin,
            StyleRuleTag::Border => self.border,
            StyleRuleTag::BackgroundColor => self.background_color,
            StyleRuleTag::Color => self.color,
            StyleRuleTag::Display => self.display,
            StyleRuleTag::Stretch => self.stretch,
        }
    }

    /// Every set value has the shape of its property, and a background
    /// colour never propagates.
    pub open spec fn shape_ok(self) -> bool {
        &&& forall|t: StyleRuleTag|
            #[trigger] self.spec_get(t) is Some ==> rule_matches_tag(t, self.spec_get(t)->0.rule)
        &&& self.spec_get(StyleRuleTag::BackgroundColor) is Some ==> !self.spec_get(
            StyleRuleTag::BackgroundColor,
        )->0.propagating
    }

    pub fn new() -> (r: StyleMap)
        ensures
            r == StyleMap::spec_empty(),
            forall|t: StyleRuleTag| r.spec_get(t) is None,
            r.shape_ok(),
    {
        StyleMap {
            padding: None,
            margin: None,
            border: None,
            background_color: None,
            color: None,
            display: None,
            stretch: None,
        }
    }

    pub fn get(&self, t: StyleRuleTag) -> (r: Option<Style>)
        ensures
            r == self.spec_get(t),
    {
        match t {
            StyleRuleTag::Padding => self.padding,
            StyleRuleTag::Margin => self.margin,
            StyleRuleTag::Border => self.border,
            StyleRuleTag::BackgroundColor => self.background_color,
            StyleRuleTag::Color => self.color,
            StyleRuleTag::Display => self.display,
            StyleRuleTag::Stretch => self.stretch,
        }
    }

    pub fn contains_key(&self, t: StyleRuleTag) -> (r: bool)
        ensures
            r == (self.spec_get(t) is Some),
    {
        self.get(t).is_some()
    }

    /// Set the value for a property, replacing any earlier one.
    pub fn insert(&mut self, t: StyleRuleTag, s: Style)
        ensures
            *final(self) == old(self).spec_insert(t, s),
            final(self).spec_get(t) == Some(s),
            forall|t2: StyleRuleTag| t2 != t ==> final(self).spec_get(t2) == old(self).spec_get(
                t2,
            ),
    {
        match t {
            StyleRuleTag::Padding => {
                self.padding = Some(s);
            },
            StyleRuleTag::Margin => {
                self.margin = Some(s);
            },
            StyleRuleTag::Border => {
                self.border = Some(s);
            },
            StyleRuleTag::BackgroundColor => {
                self.background_color = Some(s);
            },
            StyleRuleTag::Color => {
                self.color = Some(s);
            },
            StyleRuleTag::Display => {
                self.display = Some(s);
            },
            StyleRuleTag::Stretch => {
                self.stretch = Some(s);
            },
        }
    }
}

impl StyleMap {
    /// The map with `s` set for `t`.
    pub closed spec fn spec_insert(self, t: StyleRuleTag, s: Style) -> StyleMap {
        match t {
            StyleRuleTag::Padding => StyleMap { padding: Some(s), ..self },
            StyleRuleTag::Margin => StyleMap { margin: Some(s), ..self },
            StyleRuleTag::Border => StyleMap { border: Some(s), ..self },
            StyleRuleTag::BackgroundColor => StyleMap { background_color: Some(s), ..self },
            StyleRuleTag::Color => StyleMap { color: Some(s), ..self },
            StyleRuleTag::Display => StyleMap { display: Some(s), ..self },
            StyleRuleTag::Stretch => StyleMap { stretch: Some(s), ..self },
        }
    }

    pub proof fn lemma_spec_insert(self, t: StyleRuleTag, s: Style)
        ensures
            self.spec_insert(t, s).spec_get(t) == Some(s),
            forall|t2: StyleRuleTag|
                t2 != t ==> self.spec_insert(t, s).spec_get(t2) == self.spec_get(t2),
    {
    }

    /// The merge used by inheritance: a value set here wins over `p`.
    pub closed spec fn spec_merge(self, p: StyleMap) -> StyleMap {
        StyleMap {
            padding: if self.padding is Some {
                self.padding
            } else {
                p.padding
            },
            margin: if self.margin is Some {
                self.margin
            } else {
                p.margin
            },
            border: if self.border is Some {
                self.border
            } else {
                p.border
            },
            background_color: if self.background_color is Some {
                self.background_color
            } else {
                p.background_color
            },
            color: if self.color is Some {
                self.color
            } else {
                p.color
            },
            display: if self.display is Some {
                self.display
            } else {
                p.display
            },
            stretch: if self.stretch is Some {
                self.stretch
            } else {
                p.stretch
            },
        }
    }

    pub proof fn lemma_spec_merge(self, p: StyleMap)
        ensures
            forall|t: StyleRuleTag|
                #[trigger] self.spec_merge(p).spec_get(t) == if self.spec_get(t) is Some {
                    self.spec_get(t)
                } else {
                    p.spec_get(t)
                },
    {
    }

    /// Values inherited by the children: a propagating value set here
    /// overrides the inherited one, everything else passes `p` through.
    pub closed spec fn spec_prop_out(self, p: StyleMap) -> StyleMap {
        StyleMap {
            padding: if self.padding is Some && self.padding->0.propagating {
                self.padding
            } else {
                p.padding
            },
            margin: if self.margin is Some && self.margin->0.propagating {
                self.margin
            } else {
                p.margin
            },
            border: if self.border is Some && self.border->0.propagating {
                self.border
            } else {
                p.border
            },
            background_color: if self.background_color is Some
                && self.background_color->0.propagating {
                self.background_color
            } else {
                p.background_color
            },
            color: if self.color is Some && self.color->0.propagating {
                self.color
            } else {
                p.color
            },
            display: if self.display is Some && self.display->0.propagating {
                self.display
            } else {
                p.display
            },
            stretch: if self.stretch is Some && self.stretch->0.propagating {
                self.stretch
            } else {
                p.stretch
            },
        }
    }

    pub proof fn lemma_spec_prop_out(self, p: StyleMap)
        ensures
            forall|t: StyleRuleTag|
                #[trigger] self.spec_prop_out(p).spec_get(t) == if self.spec_get(t) is Some
                    && self.spec_get(t)->0.propagating {
                    self.spec_get(t)
                } else {
                    p.spec_get(t)
                },
    {
    }

    /// The inheritance merge: a locally set value wins over an inherited one.
    pub fn merge(&self, p: &StyleMap) -> (r: StyleMap)
        ensures
            r == self.spec_merge(*p),
    {
        StyleMap {
            padding: if self.padding.is_some() {
                self.padding
            } else {
                p.padding
            },
            margin: if self.margin.is_some() {
                self.margin
            } else {
                p.margin
            },
            border: if self.border.is_some() {
                self.border
            } else {
                p.border
            },
            background_color: if self.background_color.is_some() {
                self.background_color
            } else {
                p.background_color
            },
            color: if self.color.is_some() {
                self.color
            } else {
                p.color
            },
            display: if self.display.is_some() {
                self.display
            } else {
                p.display
            },
            stretch: if self.stretch.is_some() {
                self.stretch
            } else {
                p.stretch
            },
        }
    }

    fn prop_entry(a: Option<Style>, b: Option<Style>) -> (r: Option<Style>)
        ensures
            r == if a is Some && a->0.propagating {
                a
            } else {
                b
            },
    {
        match a {
            Some(s) if s.propagating => Some(s),
            _ => b,
        }
    }

    /// What the children inherit, given what this element inherited.
    pub fn prop_out(&self, p: &StyleMap) -> (r: StyleMap)
        ensures
            r == self.spec_prop_out(*p),
    {
        StyleMap {
            padding: Self::prop_entry(self.padding, p.padding),
            margin: Self::prop_entry(self.margin, p.margin),
            border: Self::prop_entry(self.border, p.border),
            background_color: Self::prop_entry(self.background_color, p.background_color),
            color: Self::prop_entry(self.color, p.color),
            display: Self::prop_entry(self.display, p.display),
            stretch: Self::prop_entry(self.stretch, p.stretch),
        }
    }
}

/// The effective style of a property: the set value, or the default.
pub open spec fn eff_style(m: StyleMap, t: StyleRuleTag) -> Style {
    match m.spec_get(t) {
        Some(s) => s,
        None => t.spec_default(),
    }
}

/// The effective display mode of a style map.
pub open spec fn spec_display_of(m: StyleMap) -> DisplayType {
    match eff_style(m, StyleRuleTag::Display).rule {
        StyleRule::Display(d) => d,
        _ => DisplayType::Block,
    }
}

/// The effective stretch directive of a style map.
pub open spec fn spec_stretch_of(m: StyleMap) -> StretchType {
    match eff_style(m, StyleRuleTag::Stretch).rule {
        StyleRule::Stretch(s) => s,
        _ => StretchType::IfBlock,
    }
}

/// A node of the UI tree, stored in the arena.
#[derive(Debug, Clone)]
pub struct UiElem {
    pub elem: Ui,
    pub styles: StyleMap,
    pub parent: Option<UiId>,
    pub children: Vec<UiId>,
}

/// A position in the rendered scene.
#[derive(Debug, Clone, Copy, PartialEq, Eq, Structural)]
pub struct Transform {
    pub pos: Vec2,
}

/// The padding and the margin (margin includes the border size) of an
/// element, as the layout uses them.
pub struct ComputedStyle {
    pub padding: Vec2,
    pub margin: Vec2,
}

/// The spec-level padding vector of a style map.
pub open spec fn spec_padding(m: StyleMap) -> Vec2 {
    match eff_style(m, StyleRuleTag::Padding).rule {
        StyleRule::Offset { l, t, r, b } => Vec2 { x: l, y: t },
        _ => Vec2 { x: 0, y: 0 },
    }
}

/// The spec-level margin vector (margin plus border size) of a style map.
pub open spec fn spec_margin(m: StyleMap) -> Vec2 {
    let mg = match eff_style(m, StyleRuleTag::Margin).rule {
        StyleRule::Offset { l, t, r, b } => Vec2 { x: l, y: t },
        _ => Vec2 { x: 0, y: 0 },
    };
    let bs = match eff_style(m, StyleRuleTag::Border).rule {
        StyleRule::Outline { size, color } => size as int,
        _ => 0,
    };
    Vec2 { x: clip64(mg.x + bs) as i64, y: clip64(mg.y + bs) as i64 }
}

impl UiElem {
    fn get_style(&self, style: StyleRuleTag) -> (r: Style)
        ensures
            r == eff_style(self.styles, style),
    {
        match self.styles.get(style) {
            Some(s) => s,
            None => style.default(),
        }
    }

    /// The padding and margin the layout passes use.
    pub fn computed_style(&self) -> (r: ComputedStyle)
        requires
            self.styles.shape_ok(),
        ensures
            r.padding == spec_padding(self.styles),
            r.margin == spec_margin(self.styles),
    {
        let padding = self.get_style(StyleRuleTag::Padding).rule;
        let margin = self.get_style(StyleRuleTag::Margin).rule;
        let border = self.get_style(StyleRuleTag::Border).rule;
        let pad = match padding {
            StyleRule::Offset { l, t, r, b } => Vec2 { x: l, y: t },
            _ => Vec2 { x: 0, y: 0 },
        };
        let mg = match margin {
            StyleRule::Offset { l, t, r, b } => Vec2 { x: l, y: t },
            _ => Vec2 { x: 0, y: 0 },
        };
        let bs: i64 = match border {
            StyleRule::Outline { size, color: _ } => size,
            _ => 0,
        };
        ComputedStyle { padding: pad, margin: Vec2 { x: add64(mg.x, bs), y: add64(mg.y, bs) } }
    }

    /// The background colour, or its default.
    pub fn get_bg(&self) -> (r: (u8, u8, u8, u8))
        requires
            self.styles.shape_ok(),
        ensures
            eff_style(self.styles, StyleRuleTag::BackgroundColor).rule == (StyleRule::Color {
                color: r,
            }),
    {
        match self.get_style(StyleRuleTag::BackgroundColor).rule {
            StyleRule::Color { color } => color,
            _ => (0, 0, 0, 0),
        }
    }

    /// The border size and colour, or their defaults.
    pub fn get_border(&self) -> (r: (i64, (u8, u8, u8, u8)))
        requires
            self.styles.shape_ok(),
        ensures
            eff_style(self.styles, StyleRuleTag::Border).rule == (StyleRule::Outline {
                size: r.0,
                color: r.1,
            }),
    {
        match self.get_style(StyleRuleTag::Border).rule {
            StyleRule::Outline { size, color } => (size, color),
            _ => (0, (0, 0, 0, 0)),
        }
    }

    /// The foreground colour, or its default.
    pub fn get_fg(&self) -> (r: (u8, u8, u8, u8))
        requires
            self.styles.shape_ok(),
        ensures
            eff_style(self.styles, StyleRuleTag::Color).rule == (StyleRule::Color { color: r }),
    {
        match self.get_style(StyleRuleTag::Color).rule {
            StyleRule::Color { color } => color,
            _ => (0, 0, 0, 0),
        }
    }

    /// The display mode of the element.
    pub fn display(&self) -> (r: DisplayType)
        requires
            self.styles.shape_ok(),
        ensures
            eff_style(self.styles, StyleRuleTag::Display).rule == StyleRule::Display(r),
            r == spec_display_of(self.styles),
    {
        match self.get_style(StyleRuleTag::Display).rule {
            StyleRule::Display(d) => d,
            _ => DisplayType::Block,
        }
    }

    /// The stretch directive of the element.
    pub fn stretch(&self) -> (r: StretchType)
        requires
            self.styles.shape_ok(),
        ensures
            eff_style(self.styles, StyleRuleTag::Stretch).rule == StyleRule::Stretch(r),
            r == spec_stretch_of(self.styles),
    {
        match self.get_style(StyleRuleTag::Stretch).rule {
            StyleRule::Stretch(d) => d,
            _ => StretchType::IfBlock,
        }
    }
}

// ---------------------------------------------------------------------------
// Ghost views of the tree
// ---------------------------------------------------------------------------
/// Ghost value of a `Ui` node kind.
#[verifier::ext_equal]
pub ghost enum GUi {
    Button,
    Text(Seq<char>),
    Div,
}

impl View for Ui {
    type V = GUi;

    open spec fn view(&self) -> GUi {
        match self {
            Ui::Button => GUi::Button,
            Ui::Text { text } => GUi::Text(text@),
            Ui::Div => GUi::Div,
        }
    }
}

/// Ghost value of one arena slot.
#[verifier::ext_equal]
pub ghost struct GElem {
    pub elem: GUi,
    pub styles: StyleMap,
    pub parent: Option<UiId>,
    pub children: Seq<UiId>,
}

impl View for UiElem {
    type V = GElem;

    open spec fn view(&self) -> GElem {
        GElem {
            elem: self.elem@,
            styles: self.styles,
            parent: self.parent,
            children: self.children@,
        }
    }
}

/// The arena contents as a sequence of ghost slots.
pub open spec fn arena_slots(things: BucketArray<UiElem>) -> Seq<GElem> {
    things.slots().map_values(|e: UiElem| e@)
}

/// Every slot's children point strictly below it (parents are inserted
/// after their children).
pub open spec fn forest_ok(slots: Seq<GElem>) -> bool {
    forall|i: int, k: int|
        0 <= i < slots.len() && 0 <= k < slots[i].children.len() ==> (
        #[trigger] slots[i].children[k] as int) < i
}

/// Ghost value of a whole (sub)tree.
#[verifier::ext_equal]
pub ghost struct GItem {
    pub elem: GUi,
    pub styles: StyleMap,
    pub children: Seq<GItem>,
}

pub open spec fn g_item_leaf() -> GItem {
    GItem { elem: GUi::Div, styles: StyleMap::spec_empty(), children: Seq::empty() }
}

/// The tree stored in the arena below `id`, read back as a ghost tree.
/// Out-of-range or upward links read as empty leaves; a well-formed arena
/// has none.
pub open spec fn tree_of(slots: Seq<GElem>, id: int) -> GItem
    decreases id, 0int,
{
    if 0 <= id < slots.len() {
        let el = slots[id];
        GItem {
            elem: el.elem,
            styles: el.styles,
            children: Seq::new(
                el.children.len(),
                |k: int|
                    if 0 <= k < el.children.len() && (el.children[k] as int) < id && el.children[k]
                        as int >= 0 {
                        tree_of(slots, el.children[k] as int)
                    } else {
                        g_item_leaf()
                    },
            ),
        }
    } else {
        g_item_leaf()
    }
}

/// `tree_of` only reads slots at or below `id`, and never their parent
/// links: it agrees across arenas that agree there.
pub proof fn lemma_tree_of_agree(slots: Seq<GElem>, slots2: Seq<GElem>, id: int)
    requires
        0 <= id < slots.len(),
        id < slots2.len(),
        forall|j: int|
            0 <= j <= id ==> {
                &&& (#[trigger] slots2[j]).elem == slots[j].elem
                &&& slots2[j].styles == slots[j].styles
                &&& slots2[j].children == slots[j].children
            },
    ensures
        tree_of(slots2, id) == tree_of(slots, id),
    decreases id,
{
    let el = slots[id];
    assert forall|k: int| 0 <= k < el.children.len() implies tree_of(slots, id).children[k]
        == tree_of(slots2, id).children[k] by {
        if (el.children[k] as int) < id {
            lemma_tree_of_agree(slots, slots2, el.children[k] as int);
        }
    }
    assert(tree_of(slots2, id).children =~= tree_of(slots, id).children);
}

impl StyleMap {
    /// The empty style map.
    pub closed spec fn spec_empty() -> StyleMap {
        StyleMap {
            padding: None,
            margin: None,
            border: None,
            background_color: None,
            color: None,
            display: None,
            stretch: None,
        }
    }

    pub proof fn lemma_spec_empty()
        ensures
            forall|t: StyleRuleTag| Self::spec_empty().spec_get(t) is None,
            Self::spec_empty().shape_ok(),
    {
    }
}

// ---------------------------------------------------------------------------
// The builder
// ---------------------------------------------------------------------------
/// A tree under construction, before it is laid into an arena.
#[derive(Debug)]
pub struct Item {
    pub elem: Ui,
    pub styles: StyleMap,
    pub children: Vec<Item>,
}

/// Ghost value of an `Item` tree.
pub open spec fn item_view(item: Item) -> GItem
    decreases item, 0int,
{
    GItem {
        elem: item.spec_elem()@,
        styles: item.spec_styles(),
        children: Seq::new(
            item.children@.len(),
            |k: int|
                if 0 <= k < item.children@.len() {
                    item_view(item.children@[k])
                } else {
                    g_item_leaf()
                },
        ),
    }
}

/// Every style map in the tree is shape-correct.
pub open spec fn item_wf(item: Item) -> bool
    decreases item, 0int,
{
    &&& item.spec_styles().shape_ok()
    &&& forall|k: int| 0 <= k < item.children@.len() ==> item_wf(#[trigger] item.children@[k])
}

impl Item {
    pub open spec fn spec_elem(self) -> Ui {
        self.elem
    }

    pub open spec fn spec_styles(self) -> StyleMap {
        self.styles
    }

    /// A fresh container with no styles and no children.
    pub fn build() -> (r: Item)
        ensures
            r.spec_elem()@ == GUi::Div,
            r.spec_styles() == StyleMap::spec_empty(),
            r.children@.len() == 0,
            item_wf(r),
    {
        proof {
            StyleMap::lemma_spec_empty();
        }
        Item { elem: Ui::Div, styles: StyleMap::new(), children: vec![] }
    }

    /// Sets the node kind; text becomes inline by default.
    pub fn component(self, c: Ui) -> (r: Item)
        ensures
            r.spec_elem() == c,
            r.children == self.children,
            r.spec_styles() == if c@ is Text {
                self.spec_styles().spec_insert(
                    StyleRuleTag::Display,
                    Style { propagating: false, rule: StyleRule::Display(DisplayType::Inline) },
                )
            } else {
                self.spec_styles()
            },
            item_wf(self) ==> item_wf(r),
    {
        let mut this = self;
        if matches!(c, Ui::Text { .. }) {
            this.styles.insert(
                StyleRuleTag::Display,
                Style { propagating: false, rule: StyleRule::Display(DisplayType::Inline) },
            );
        }
        this.elem = c;
        this
    }

    /// Sets one style value; the value must have the property's shape.
    pub fn style(self, tag: StyleRuleTag, style: StyleRule) -> (r: Item)
        requires
            rule_matches_tag(tag, style),
        ensures
            r.spec_elem() == self.spec_elem(),
            r.children == self.children,
            r.spec_styles() == self.spec_styles().spec_insert(
                tag,
                Style { rule: style, propagating: tag is Color },
            ),
            item_wf(self) ==> item_wf(r),
    {
        let mut this = self;
        let propagating = matches!(tag, StyleRuleTag::Color);
        this.styles.insert(tag, Style { rule: style, propagating });
        this
    }

    /// Sets a symmetric padding: `x` on the left and right, `y` above and
    /// below.
    pub fn padding(self, x: i64, y: i64) -> (r: Item)
        ensures
            r.spec_elem() == self.spec_elem(),
            r.children == self.children,
            r.spec_styles() == self.spec_styles().spec_insert(
                StyleRuleTag::Padding,
                Style { rule: StyleRule::Offset { l: x, t: y, r: x, b: y }, propagating: false },
            ),
            item_wf(self) ==> item_wf(r),
    {
        let mut this = self;
        this.styles.insert(
            StyleRuleTag::Padding,
            Style { rule: StyleRule::Offset { l: x, t: y, r: x, b: y }, propagating: false },
        );
        this
    }

    /// Replaces the children.
    pub fn with_children(self, v: Vec<Item>) -> (r: Item)
        ensures
            r.spec_elem() == self.spec_elem(),
            r.spec_styles() == self.spec_styles(),
            r.children == v,
            (item_wf(self) && (forall|k: int|
                0 <= k < v@.len() ==> item_wf(#[trigger] v@[k]))) ==> item_wf(r),
    {
        let mut this = self;
        this.children = v;
        this
    }
}

/// A copy of a `Ui` value with the same content.
fn ui_dup(u: &Ui) -> (r: Ui)
    ensures
        r@ == u@,
{
    match u {
        Ui::Button => Ui::Button,
        Ui::Div => Ui::Div,
        Ui::Text { text } => Ui::Text { text: text.clone() },
    }
}

/// A well-formed element arena: strictly child-before-parent links and
/// shape-correct style maps in every slot.
pub open spec fn arena_ok(things: BucketArray<UiElem>) -> bool {
    &&& things.wf()
    &&& forest_ok(arena_slots(things))
    &&& forall|i: int|
        0 <= i < arena_slots(things).len() ==> (#[trigger] arena_slots(
            things,
        )[i]).styles.shape_ok()
}

impl Item {
    /// Lays the tree into the arena: children first, then this node, whose
    /// slot index is returned; the children's parent links point at it.
    fn into_elem(&self, things: &mut BucketArray<UiElem>, parent: Option<UiId>) -> (pid: UiId)
        requires
            arena_ok(*old(things)),
            old(things).free_count() == 0,
            item_wf(*self),
        ensures
            arena_ok(*final(things)),
            final(things).free_count() == 0,
            old(things).slot_count() < final(things).slot_count(),
            pid as int == final(things).slot_count() - 1,
            forall|j: int|
                0 <= j < old(things).slot_count() ==> arena_slots(*final(things))[j] == arena_slots(
                    *old(things),
                )[j],
            tree_of(arena_slots(*final(things)), pid as int) == item_view(*self),
            arena_slots(*final(things))[pid as int].parent == parent,
        decreases *self, 0int, 0int,
    {
        let ghost base = arena_slots(*old(things));
        let mut kid_ids: Vec<UiId> = Vec::new();
        let mut k: usize = 0;
        while k < self.children.len()
            invariant
                arena_ok(*things),
                things.free_count() == 0,
                item_wf(*self),
                k <= self.children@.len(),
                kid_ids@.len() == k,
                base.len() <= arena_slots(*things).len(),
                forall|j: int| 0 <= j < base.len() ==> arena_slots(*things)[j] == base[j],
                forall|j: int|
                    0 <= j < k ==> (#[trigger] kid_ids@[j] as int) < arena_slots(*things).len(),
                forall|j: int| 0 <= j < k ==> (#[trigger] kid_ids@[j] as int) >= base.len(),
                forall|j: int|
                    0 <= j < k ==> tree_of(arena_slots(*things), #[trigger] kid_ids@[j] as int)
                        == item_view(self.children@[j]),
            decreases self.children@.len() - k,
        {
            let ghost pre = arena_slots(*things);
            let id = self.children[k].into_elem(things, None);
            kid_ids.push(id);
            proof {
                assert forall|j: int|
                    0 <= j < k implies tree_of(arena_slots(*things), kid_ids@[j] as int)
                    == item_view(self.children@[j]) by {
                    lemma_tree_of_agree(pre, arena_slots(*things), kid_ids@[j] as int);
                }
            }
            k += 1;
        }
        let o = UiElem { elem: ui_dup(&self.elem), styles: self.styles, children: Vec::new(), parent };
        let ghost pre_ins = arena_slots(*things);
        let pid = things.insert(o);
        proof {
            assert(arena_slots(*things) =~= pre_ins.push(
                GElem { elem: self.elem@, styles: self.styles, parent, children: Seq::empty() },
            ));
            assert forall|j: int|
                0 <= j < kid_ids@.len() implies tree_of(arena_slots(*things), kid_ids@[j] as int)
                == item_view(self.children@[j]) by {
                lemma_tree_of_agree(pre_ins, arena_slots(*things), kid_ids@[j] as int);
            }
        }
        let ghost after_ins = arena_slots(*things);
        let mut k2: usize = 0;
        while k2 < kid_ids.len()
            invariant
                arena_ok(*things),
                things.free_count() == 0,
                k2 <= kid_ids@.len(),
                arena_slots(*things).len() == after_ins.len(),
                pid as int == after_ins.len() - 1,
                forall|j: int| 0 <= j < kid_ids@.len() ==> (#[trigger] kid_ids@[j] as int) < pid,
                forall|j: int|
                    0 <= j < kid_ids@.len() ==> (#[trigger] kid_ids@[j] as int) >= base.len(),
                forall|j: int|
                    0 <= j < arena_slots(*things).len() ==> {
                        &&& (#[trigger] arena_slots(*things)[j]).elem == after_ins[j].elem
                        &&& arena_slots(*things)[j].styles == after_ins[j].styles
                        &&& arena_slots(*things)[j].children == after_ins[j].children
                    },
                forall|j: int| 0 <= j < base.len() ==> arena_slots(*things)[j] == base[j],
                arena_slots(*things)[pid as int].parent == parent,
            decreases kid_ids@.len() - k2,
        {
            let ghost prev = arena_slots(*things);
            let kid = kid_ids[k2];
            match things.get_mut(kid) {
                Some(el) => {
                    el.parent = Some(pid);
                },
                None => {},
            }
            proof {
                let cur = arena_slots(*things);
                assert forall|j: int|
                    0 <= j < cur.len() implies {
                        &&& (#[trigger] cur[j]).elem == prev[j].elem
                        &&& cur[j].styles == prev[j].styles
                        &&& cur[j].children == prev[j].children
                        &&& (j != kid as int ==> cur[j] == prev[j])
                    } by {}
                assert forall|i: int, kk: int|
                    0 <= i < cur.len() && 0 <= kk < cur[i].children.len() implies (#[trigger] cur[i].children[kk] as int)
                    < i by {
                    assert(cur[i].children == prev[i].children);
                }
                assert forall|i: int| 0 <= i < cur.len() implies (#[trigger] cur[i]).styles.shape_ok() by {
                    assert(cur[i].styles == prev[i].styles);
                }
            }
            k2 += 1;
        }
        let ghost pre_fix = arena_slots(*things);
        match things.get_mut(pid) {
            Some(el) => {
                el.children = kid_ids;
            },
            None => {},
        }
        proof {
            let fin = arena_slots(*things);
            let ghost kids = fin[pid as int].children;
            assert forall|j: int| 0 <= j < pid implies #[trigger] fin[j] == pre_fix[j] by {}
            assert forall|j: int|
                0 <= j < kids.len() implies tree_of(fin, #[trigger] kids[j] as int) == item_view(
                self.children@[j],
            ) by {
                lemma_tree_of_agree(after_ins, pre_fix, kids[j] as int);
                lemma_tree_of_agree(pre_fix, fin, kids[j] as int);
            }
            assert(tree_of(fin, pid as int).children =~= item_view(*self).children);
            assert(tree_of(fin, pid as int) == item_view(*self));
            assert forall|j: int| 0 <= j < base.len() implies fin[j] == base[j] by {}
        }
        pid
    }

    /// Builds the whole tree into a fresh system; the root is the last slot.
    pub fn into_ui(self) -> (r: UiSystem)
        requires
            item_wf(self),
        ensures
            r.wf(),
            r.things.free_count() == 0,
            r.root as int == r.slots().len() - 1,
            tree_of(r.slots(), r.root as int) == item_view(self),
    {
        let mut arr: BucketArray<UiElem> = BucketArray::new();
        let root = (&self).into_elem(&mut arr, None);
        let sys = UiSystem { root, things: arr };
        proof {
            assert forall|i: usize, k: int|
                sys.things.is_live(i) && 0 <= k < sys.slots()[i as int].children.len() implies sys
                .things.is_live(#[trigger] sys.slots()[i as int].children[k]) by {
                assert((sys.slots()[i as int].children[k] as int) < i as int);
            }
        }
        sys
    }
}

/// The UI tree and its arena; the tree that layout and propagation walk.
pub struct UiSystem {
    pub things: BucketArray<UiElem>,
    pub root: UiId,
}

impl UiSystem {
    /// The arena contents as ghost slots.
    pub open spec fn slots(&self) -> Seq<GElem> {
        arena_slots(self.things)
    }

    /// Well-formed system: a well-formed arena, a live root, and live
    /// children everywhere.
    pub open spec fn wf(&self) -> bool {
        &&& arena_ok(self.things)
        &&& self.things.is_live(self.root)
        &&& forall|i: usize, k: int|
            self.things.is_live(i) && 0 <= k < self.slots()[i as int].children.len()
                ==> self.things.is_live(#[trigger] self.slots()[i as int].children[k])
    }
}

/// A copy of a handle vector.
pub(crate) fn clone_ids(v: &Vec<UiId>) -> (r: Vec<UiId>)
    ensures
        r@ == v@,
{
    let mut r: Vec<UiId> = Vec::new();
    let mut i: usize = 0;
    while i < v.len()
        invariant
            i <= v@.len(),
            r@ == v@.take(i as int),
        decreases v@.len() - i,
    {
        r.push(v[i]);
        proof {
            assert(r@ =~= v@.take(i + 1));
        }
        i += 1;
    }
    proof {
        assert(r@ =~= v@);
    }
    r
}

// ---------------------------------------------------------------------------
// Style propagation (inheritance)
// ---------------------------------------------------------------------------
/// One node of the propagation pass: the node's styles become the merge of
/// its own over the inherited ones, and its children inherit the result's
/// propagating values.
pub open spec fn g_prop(slots: Seq<GElem>, id: int, p: StyleMap) -> Seq<GElem>
    decreases id, 1int, 0int,
{
    if 0 <= id < slots.len() {
        let el = slots[id];
        let merged = el.styles.spec_merge(p);
        let p2 = merged.spec_prop_out(p);
        let slots1 = slots.update(
            id,
            GElem { elem: el.elem, styles: merged, parent: el.parent, children: el.children },
        );
        g_prop_kids(slots1, id, el.children, 0, p2)
    } else {
        slots
    }
}

pub open spec fn g_prop_kids(
    slots: Seq<GElem>,
    id: int,
    kids: Seq<UiId>,
    k: int,
    p: StyleMap,
) -> Seq<GElem>
    decreases id, 0int, kids.len() - k,
{
    if 0 <= k < kids.len() {
        if (kids[k] as int) < id {
            g_prop_kids(g_prop(slots, kids[k] as int, p), id, kids, k + 1, p)
        } else {
            g_prop_kids(slots, id, kids, k + 1, p)
        }
    } else {
        slots
    }
}

/// Propagation only rewrites style maps: the tree structure, the node
/// kinds and the shape-correctness of every slot are kept.
pub proof fn lemma_g_prop(slots: Seq<GElem>, id: int, p: StyleMap)
    requires
        p.shape_ok(),
        forall|i: int| 0 <= i < slots.len() ==> (#[trigger] slots[i]).styles.shape_ok(),
    ensures
        g_prop(slots, id, p).len() == slots.len(),
        forall|i: int|
            0 <= i < slots.len() ==> {
                &&& (#[trigger] g_prop(slots, id, p)[i]).elem == slots[i].elem
                &&& g_prop(slots, id, p)[i].children == slots[i].children
                &&& g_prop(slots, id, p)[i].parent == slots[i].parent
                &&& g_prop(slots, id, p)[i].styles.shape_ok()
            },
    decreases id, 1int, 0int,
{
    if 0 <= id < slots.len() {
        let el = slots[id];
        let merged = el.styles.spec_merge(p);
        let p2 = merged.spec_prop_out(p);
        el.styles.lemma_spec_merge(p);
        merged.lemma_spec_prop_out(p);
        assert(merged.shape_ok());
        assert(p2.shape_ok());
        let slots1 = slots.update(
            id,
            GElem { elem: el.elem, styles: merged, parent: el.parent, children: el.children },
        );
        lemma_g_prop_kids(slots1, id, el.children, 0, p2);
    }
}

pub proof fn lemma_g_prop_kids(
    slots: Seq<GElem>,
    id: int,
    kids: Seq<UiId>,
    k: int,
    p: StyleMap,
)
    requires
        p.shape_ok(),
        forall|i: int| 0 <= i < slots.len() ==> (#[trigger] slots[i]).styles.shape_ok(),
    ensures
        g_prop_kids(slots, id, kids, k, p).len() == slots.len(),
        forall|i: int|
            0 <= i < slots.len() ==> {
                &&& (#[trigger] g_prop_kids(slots, id, kids, k, p)[i]).elem == slots[i].elem
                &&& g_prop_kids(slots, id, kids, k, p)[i].children == slots[i].children
                &&& g_prop_kids(slots, id, kids, k, p)[i].parent == slots[i].parent
                &&& g_prop_kids(slots, id, kids, k, p)[i].styles.shape_ok()
            },
    decreases id, 0int, kids.len() - k,
{
    if 0 <= k < kids.len() {
        if (kids[k] as int) < id {
            lemma_g_prop(slots, kids[k] as int, p);
            lemma_g_prop_kids(g_prop(slots, kids[k] as int, p), id, kids, k + 1, p);
        } else {
            lemma_g_prop_kids(slots, id, kids, k + 1, p);
        }
    }
}

impl UiSystem {
    /// Pushes inherited styles down the subtree at `id`: a value already set
    /// on a node wins over the inherited one, and the node's propagating
    /// values replace what its children inherit. A background colour is
    /// never inherited.
    pub fn propagate_styles_rec(&mut self, id: UiId, propagate: StyleMap)
        requires
            old(self).wf(),
            old(self).things.is_live(id),
            propagate.shape_ok(),
            propagate.spec_get(StyleRuleTag::BackgroundColor) is None,
        ensures
            final(self).wf(),
            final(self).root == old(self).root,
            final(self).things.free_list() == old(self).things.free_list(),
            final(self).slots() == g_prop(old(self).slots(), id as int, propagate),
        decreases id,
    {
        let (merged, kids) = match self.things.get(id) {
            Some(el) => (el.styles.merge(&propagate), clone_ids(&el.children)),
            None => {
                proof {
                    assert(false);
                }
                return ;
            },
        };
        let p2 = merged.prop_out(&propagate);
        match self.things.get_mut(id) {
            Some(el) => {
                el.styles = merged;
            },
            None => {},
        }
        proof {
            let own = old(self).slots()[id as int].styles;
            own.lemma_spec_merge(propagate);
            merged.lemma_spec_prop_out(propagate);
            assert(own.shape_ok());
            assert forall|t: StyleRuleTag| #[trigger] merged.spec_get(t) is Some implies rule_matches_tag(
                t,
                merged.spec_get(t)->0.rule,
            ) by {
                assert(merged.spec_get(t) == own.spec_get(t) || merged.spec_get(t)
                    == propagate.spec_get(t));
            }
            assert(merged.shape_ok());
            assert(p2.spec_get(StyleRuleTag::BackgroundColor) == propagate.spec_get(
                StyleRuleTag::BackgroundColor,
            ));
            assert forall|t: StyleRuleTag| #[trigger] p2.spec_get(t) is Some implies rule_matches_tag(
                t,
                p2.spec_get(t)->0.rule,
            ) by {
                assert(p2.spec_get(t) == merged.spec_get(t) || p2.spec_get(t)
                    == propagate.spec_get(t));
            }
            assert(p2.shape_ok());
            assert(self.slots() =~= old(self).slots().update(
                id as int,
                GElem {
                    elem: old(self).slots()[id as int].elem,
                    styles: merged,
                    parent: old(self).slots()[id as int].parent,
                    children: old(self).slots()[id as int].children,
                },
            ));
        }
        let ghost base = self.slots();
        let mut k: usize = 0;
        while k < kids.len()
            invariant
                self.wf(),
                self.root == old(self).root,
                self.things.free_list() == old(self).things.free_list(),
                self.slots().len() == base.len(),
                k <= kids@.len(),
                p2.shape_ok(),
                p2.spec_get(StyleRuleTag::BackgroundColor) is None,
                self.things.is_live(id),
                self.slots()[id as int].children == kids@,
                forall|j: int| 0 <= j < kids@.len() ==> (#[trigger] kids@[j] as int) < id,
                g_prop(old(self).slots(), id as int, propagate) == g_prop_kids(
                    self.slots(),
                    id as int,
                    kids@,
                    k as int,
                    p2,
                ),
            decreases kids@.len() - k,
        {
            let kid = kids[k];
            let ghost pre = self.slots();
            proof {
                assert(self.things.is_live(kid));
            }
            self.propagate_styles_rec(kid, p2);
            proof {
                lemma_g_prop(pre, kid as int, p2);
            }
            k += 1;
        }
        proof {
            assert(g_prop_kids(self.slots(), id as int, kids@, kids@.len() as int, p2)
                == self.slots());
        }
    }
}

// ---------------------------------------------------------------------------
// Layout
// ---------------------------------------------------------------------------
/// One laid-out box: its rectangle, its z-order (the recursion depth that
/// produced it) and the element it belongs to.
#[derive(Debug, Clone, Copy, PartialEq)]
pub struct Frame {
    pub rect: Rect,
    pub zindex: usize,
    pub for_id: UiId,
}

/// Clamped `i64` addition, as the layout arithmetic uses it.
pub open spec fn cadd(a: i64, b: i64) -> i64 {
    clip64(a as int + b as int) as i64
}

/// Clamped `i64` subtraction.
pub open spec fn csub(a: i64, b: i64) -> i64 {
    clip64(a as int - b as int) as i64
}

pub open spec fn max64(a: i64, b: i64) -> i64 {
    if a >= b {
        a
    } else {
        b
    }
}

/// Component-wise clamped vector addition.
pub open spec fn vadd(a: Vec2, b: Vec2) -> Vec2 {
    Vec2 { x: cadd(a.x, b.x), y: cadd(a.y, b.y) }
}

/// The intrinsic width of a text run: eight pixels per character, clamped.
pub open spec fn text_width(t: Seq<char>) -> i64 {
    clip64(t.len() as int * 8) as i64
}

/// The running state of the child-flow loop: the content extent so far,
/// the previous child's display mode, the top of the current line and the
/// horizontal cursor on it.
pub ghost struct DivAcc {
    pub size: Vec2,
    pub pred: DisplayType,
    pub min_y: i64,
    pub acc_x: i64,
}

/// The sizing pass on the subtree at `id`: lays out the children in
/// block/inline flow, emits one frame per node in post-order, and returns
/// the node's outer size (content plus padding plus margin).
pub open spec fn g_diverge(slots: Seq<GElem>, id: int, offset: Vec2, depth: int) -> (
    Seq<Frame>,
    Vec2,
)
    decreases id, 1int, 0int,
{
    if 0 <= id < slots.len() {
        let el = slots[id];
        let pad = spec_padding(el.styles);
        let mar = spec_margin(el.styles);
        let go = vadd(offset, mar);
        let acc0 = DivAcc {
            size: Vec2 { x: 0, y: 0 },
            pred: DisplayType::Block,
            min_y: 0,
            acc_x: 0,
        };
        let (frames, acc) = g_div_kids(slots, id, el.children, 0, go, pad, depth, acc0);
        let size1 = match el.elem {
            GUi::Text(t) => vadd(acc.size, Vec2 { x: text_width(t), y: 16 }),
            _ => acc.size,
        };
        let size2 = vadd(size1, vadd(pad, pad));
        let frame = Frame {
            rect: Rect { pos: go, size: size2 },
            zindex: depth as usize,
            for_id: id as UiId,
        };
        (frames.push(frame), vadd(size2, vadd(mar, mar)))
    } else {
        (Seq::empty(), Vec2 { x: 0, y: 0 })
    }
}

/// The flow loop over the children of `id`, from child `k` on.
pub open spec fn g_div_kids(
    slots: Seq<GElem>,
    id: int,
    kids: Seq<UiId>,
    k: int,
    go: Vec2,
    pad: Vec2,
    depth: int,
    acc: DivAcc,
) -> (Seq<Frame>, DivAcc)
    decreases id, 0int, kids.len() - k,
{
    if 0 <= k < kids.len() {
        if 0 <= (kids[k] as int) < id && (kids[k] as int) < slots.len() {
            let child = slots[kids[k] as int];
            let disp = spec_display_of(child.styles);
            let acc_and_frames = if disp is Block {
                let (f, inner) = g_diverge(
                    slots,
                    kids[k] as int,
                    vadd(vadd(go, pad), Vec2 { x: 0, y: acc.size.y }),
                    depth + 1,
                );
                let ny = cadd(acc.size.y, inner.y);
                (
                    f,
                    DivAcc {
                        size: Vec2 { x: max64(acc.size.x, inner.x), y: ny },
                        pred: DisplayType::Block,
                        min_y: ny,
                        acc_x: 0,
                    },
                )
            } else if acc.pred is Block {
                let (f, inner) = g_diverge(
                    slots,
                    kids[k] as int,
                    vadd(vadd(go, pad), Vec2 { x: 0, y: acc.size.y }),
                    depth + 1,
                );
                (
                    f,
                    DivAcc {
                        size: Vec2 {
                            x: max64(acc.size.x, inner.x),
                            y: cadd(acc.size.y, inner.y),
                        },
                        pred: DisplayType::Inline,
                        min_y: acc.min_y,
                        acc_x: cadd(acc.acc_x, inner.x),
                    },
                )
            } else {
                let (f, inner) = g_diverge(
                    slots,
                    kids[k] as int,
                    vadd(vadd(go, pad), Vec2 { x: acc.acc_x, y: acc.min_y }),
                    depth + 1,
                );
                let nax = cadd(acc.acc_x, inner.x);
                (
                    f,
                    DivAcc {
                        size: Vec2 {
                            x: if nax > acc.size.x {
                                cadd(acc.size.x, inner.x)
                            } else {
                                acc.size.x
                            },
                            y: max64(acc.size.y, inner.y),
                        },
                        pred: DisplayType::Inline,
                        min_y: acc.min_y,
                        acc_x: nax,
                    },
                )
            };
            let (fs, accf) = g_div_kids(
                slots,
                id,
                kids,
                k + 1,
                go,
                pad,
                depth,
                acc_and_frames.1,
            );
            (acc_and_frames.0 + fs, accf)
        } else {
            g_div_kids(slots, id, kids, k + 1, go, pad, depth, acc)
        }
    } else {
        (Seq::empty(), acc)
    }
}

/// The first index of a frame for `id`, searching from `k`; -1 when none.
pub open spec fn find_frame(frames: Seq<Frame>, id: int, k: int) -> int
    decreases frames.len() - k,
{
    if 0 <= k < frames.len() {
        if frames[k].for_id as int == id {
            k
        } else {
            find_frame(frames, id, k + 1)
        }
    } else {
        -1
    }
}

/// Whether the stretch pass rewrites this frame's width: its element is a
/// child of `pid`, displays as a block, and asks for stretching (outright
/// or by the if-block default).
pub open spec fn stretch_applies(slots: Seq<GElem>, f: Frame, pid: UiId) -> bool {
    0 <= (f.for_id as int) < slots.len() && {
        let e = slots[f.for_id as int];
        &&& e.parent == Some(pid)
        &&& spec_display_of(e.styles) is Block
        &&& (spec_stretch_of(e.styles) is IfBlock || spec_stretch_of(e.styles) is True)
    }
}

/// The stretched width: the parent's content width (its frame width less
/// twice its padding) minus twice the node's own padding and twice its own
/// margin.
pub open spec fn stretched_width(slots: Seq<GElem>, f: Frame, pw: i64, ppad: Vec2) -> i64 {
    let cpad = spec_padding(slots[f.for_id as int].styles);
    let m = spec_margin(slots[f.for_id as int].styles);
    csub(csub(csub(pw, cadd(ppad.x, ppad.x)), cadd(cpad.x, cpad.x)), cadd(m.x, m.x))
}

/// One stretch sweep: every applicable frame's width is reset against the
/// parent frame's width `pw`.
pub open spec fn g_resize_pass(
    slots: Seq<GElem>,
    frames: Seq<Frame>,
    pid: UiId,
    pw: i64,
    ppad: Vec2,
) -> Seq<Frame> {
    Seq::new(
        frames.len(),
        |j: int|
            if 0 <= j < frames.len() && stretch_applies(slots, frames[j], pid) {
                Frame {
                    rect: Rect {
                        pos: frames[j].rect.pos,
                        size: Vec2 {
                            x: stretched_width(slots, frames[j], pw, ppad),
                            y: frames[j].rect.size.y,
                        },
                    },
                    zindex: frames[j].zindex,
                    for_id: frames[j].for_id,
                }
            } else {
                frames[j]
            },
    )
}

/// The stretch pass on the subtree at `id`: sweep this node's children,
/// then recurse; a node without a frame is left untouched.
pub open spec fn g_resize(slots: Seq<GElem>, frames: Seq<Frame>, id: int) -> Seq<Frame>
    decreases id, 1int, 0int,
{
    if 0 <= id < slots.len() {
        let fi = find_frame(frames, id, 0);
        if fi >= 0 {
            let pw = frames[fi].rect.size.x;
            let ppad = spec_padding(slots[id].styles);
            let frames1 = g_resize_pass(slots, frames, id as UiId, pw, ppad);
            g_resize_kids(slots, frames1, id, slots[id].children, 0)
        } else {
            frames
        }
    } else {
        frames
    }
}

pub open spec fn g_resize_kids(
    slots: Seq<GElem>,
    frames: Seq<Frame>,
    id: int,
    kids: Seq<UiId>,
    k: int,
) -> Seq<Frame>
    decreases id, 0int, kids.len() - k,
{
    if 0 <= k < kids.len() {
        if 0 <= (kids[k] as int) < id {
            g_resize_kids(slots, g_resize(slots, frames, kids[k] as int), id, kids, k + 1)
        } else {
            g_resize_kids(slots, frames, id, kids, k + 1)
        }
    } else {
        frames
    }
}

impl UiSystem {
    /// The sizing pass: appends the subtree's frames to `result` and
    /// returns the subtree's outer size.
    fn diverge(&self, id: UiId, offset: Vec2, depth: usize, result: &mut Vec<Frame>) -> (size:
        Vec2)
        requires
            self.wf(),
            self.things.is_live(id),
            depth as int + id as int <= usize::MAX as int,
        ensures
            final(result)@ == old(result)@ + g_diverge(
                self.slots(),
                id as int,
                offset,
                depth as int,
            ).0,
            size == g_diverge(self.slots(), id as int, offset, depth as int).1,
            forall|j: int|
                old(result)@.len() <= j < final(result)@.len() ==> self.things.is_live(
                    #[trigger] final(result)@[j].for_id,
                ),
        decreases id,
    {
        let el = match self.things.get(id) {
            Some(e) => e,
            None => {
                proof {
                    assert(false);
                }
                return Vec2 { x: 0, y: 0 };
            },
        };
        proof {
            assert(self.slots()[id as int].styles == el.styles);
            assert(self.slots()[id as int].children == el.children@);
            assert(self.slots()[id as int].styles.shape_ok());
        }
        let computed = el.computed_style();
        let go = offset.plus(computed.margin);
        let pad = computed.padding;
        proof {
            assert(go == vadd(offset, spec_margin(el.styles)));
            assert(pad == spec_padding(el.styles));
        }
        let ghost slots = self.slots();
        let ghost acc0 = DivAcc {
            size: Vec2 { x: 0, y: 0 },
            pred: DisplayType::Block,
            min_y: 0,
            acc_x: 0,
        };
        let ghost full = g_div_kids(slots, id as int, el.children@, 0, go, pad, depth as int, acc0);
        let ghost base = old(result)@;
        let mut size = Vec2 { x: 0, y: 0 };
        let mut predecessor = DisplayType::Block;
        let mut min_y: i64 = 0;
        let mut acc_x: i64 = 0;
        let mut k: usize = 0;
        proof {
            assert(result@.skip(base.len() as int) =~= Seq::<Frame>::empty());
        }
        while k < el.children.len()
            invariant
                self.wf(),
                self.things.is_live(id),
                depth as int + id as int <= usize::MAX as int,
                el == self.things.value_at(id),
                slots == self.slots(),
                full == g_div_kids(slots, id as int, el.children@, 0, go, pad, depth as int, acc0),
                k <= el.children@.len(),
                base.len() <= result@.len(),
                result@.take(base.len() as int) == base,
                forall|j: int|
                    base.len() <= j < result@.len() ==> self.things.is_live(
                        #[trigger] result@[j].for_id,
                    ),
                ({
                    let cur = DivAcc { size, pred: predecessor, min_y, acc_x };
                    let rem = g_div_kids(
                        slots,
                        id as int,
                        el.children@,
                        k as int,
                        go,
                        pad,
                        depth as int,
                        cur,
                    );
                    full.0 == result@.skip(base.len() as int) + rem.0 && full.1 == rem.1
                }),
            decreases el.children@.len() - k,
        {
            let child = el.children[k];
            proof {
                assert(self.slots()[id as int].children == el.children@);
                assert(self.things.is_live(self.slots()[id as int].children[k as int]));
                assert(self.things.is_live(child));
                assert((child as int) < id as int);
            }
            let cel = match self.things.get(child) {
                Some(e) => e,
                None => {
                    proof {
                        assert(false);
                    }
                    return Vec2 { x: 0, y: 0 };
                },
            };
            let ghost pre = result@;
            let ghost cur = DivAcc { size, pred: predecessor, min_y, acc_x };
            let disp = cel.display();
            match disp {
                DisplayType::Block => {
                    let inner = self.diverge(
                        child,
                        go.plus(pad).plus(Vec2 { x: 0, y: size.y }),
                        depth + 1,
                        result,
                    );
                    size = Vec2 {
                        x: if size.x >= inner.x {
                            size.x
                        } else {
                            inner.x
                        },
                        y: add64(size.y, inner.y),
                    };
                    min_y = size.y;
                    acc_x = 0;
                    predecessor = DisplayType::Block;
                },
                DisplayType::Inline => {
                    if matches!(predecessor, DisplayType::Block) {
                        let inner = self.diverge(
                            child,
                            go.plus(pad).plus(Vec2 { x: 0, y: size.y }),
                            depth + 1,
                            result,
                        );
                        size = Vec2 {
                            x: if size.x >= inner.x {
                                size.x
                            } else {
                                inner.x
                            },
                            y: add64(size.y, inner.y),
                        };
                        acc_x = add64(acc_x, inner.x);
                    } else {
                        let inner = self.diverge(
                            child,
                            go.plus(pad).plus(Vec2 { x: acc_x, y: min_y }),
                            depth + 1,
                            result,
                        );
                        let nax = add64(acc_x, inner.x);
                        size = Vec2 {
                            x: if nax > size.x {
                                add64(size.x, inner.x)
                            } else {
                                size.x
                            },
                            y: if size.y >= inner.y {
                                size.y
                            } else {
                                inner.y
                            },
                        };
                        acc_x = nax;
                    }
                    predecessor = DisplayType::Inline;
                },
            }
            proof {
                let rem_pre = g_div_kids(
                    slots,
                    id as int,
                    el.children@,
                    k as int,
                    go,
                    pad,
                    depth as int,
                    cur,
                );
                let cur2 = DivAcc { size, pred: predecessor, min_y, acc_x };
                let rem_post = g_div_kids(
                    slots,
                    id as int,
                    el.children@,
                    k + 1,
                    go,
                    pad,
                    depth as int,
                    cur2,
                );
                assert(result@.skip(base.len() as int) =~= pre.skip(base.len() as int) + (result@.skip(
                    pre.len() as int,
                )));
                assert(rem_pre.0 =~= result@.skip(pre.len() as int) + rem_post.0);
                assert(rem_pre.1 == rem_post.1);
                assert(full.0 =~= result@.skip(base.len() as int) + rem_post.0);
            }
            k += 1;
        }
        let size1 = match &el.elem {
            Ui::Text { text } => {
                let tl = text.as_str().unicode_len();
                let w64 = match (tl as u64).checked_mul(8) {
                    Some(v) => v,
                    None => u64::MAX,
                };
                let wi: i64 = if w64 > 9223372036854775807u64 {
                    i64::MAX
                } else {
                    w64 as i64
                };
                proof {
                    assert(wi == text_width(text@));
                }
                size.plus(Vec2 { x: wi, y: 16 })
            },
            _ => size,
        };
        let size2 = size1.plus(pad.plus(pad));
        let ghost pre_push = result@;
        result.push(
            Frame { rect: Rect { pos: go, size: size2 }, zindex: depth, for_id: id },
        );
        proof {
            let accf = g_div_kids(
                slots,
                id as int,
                el.children@,
                el.children@.len() as int,
                go,
                pad,
                depth as int,
                DivAcc { size, pred: predecessor, min_y, acc_x },
            );
            assert(full.0 =~= pre_push.skip(base.len() as int));
            assert(pre_push =~= base + full.0);
            let gsize1 = match self.slots()[id as int].elem {
                GUi::Text(t) => vadd(full.1.size, Vec2 { x: text_width(t), y: 16 }),
                _ => full.1.size,
            };
            assert(size1 == gsize1);
            assert(size2 == vadd(gsize1, vadd(pad, pad)));
            let (gframes, gsize) = g_diverge(self.slots(), id as int, offset, depth as int);
            assert(result@ =~= base + gframes);
        }
        size2.plus(computed.margin.plus(computed.margin))
    }

    /// The index of the first frame owned by `id`, if any.
    fn find_frame_in(result: &Vec<Frame>, id: UiId) -> (r: Option<usize>)
        ensures
            match r {
                Some(i) => find_frame(result@, id as int, 0) == i as int && i < result@.len(),
                None => find_frame(result@, id as int, 0) == -1,
            },
    {
        let mut k: usize = 0;
        while k < result.len()
            invariant
                k <= result@.len(),
                find_frame(result@, id as int, 0) == find_frame(result@, id as int, k as int),
            decreases result@.len() - k,
        {
            if result[k].for_id == id {
                return Some(k);
            }
            k += 1;
        }
        None
    }

    /// The stretch pass on the subtree at `id`: widens every stretching
    /// block child of `id` to this node's content width, then recurses.
    fn resize_children(&self, id: UiId, result: &mut Vec<Frame>)
        requires
            self.wf(),
            self.things.is_live(id),
            forall|j: int|
                0 <= j < old(result)@.len() ==> self.things.is_live(
                    (#[trigger] old(result)@[j]).for_id,
                ),
        ensures
            final(result)@ == g_resize(self.slots(), old(result)@, id as int),
            final(result)@.len() == old(result)@.len(),
            forall|j: int|
                0 <= j < old(result)@.len() ==> (#[trigger] final(result)@[j]).for_id == old(
                    result,
                )@[j].for_id,
        decreases id,
    {
        let fi = match Self::find_frame_in(result, id) {
            Some(i) => i,
            None => {
                return ;
            },
        };
        let pw = result[fi].rect.size.x;
        let (ppad, kids) = match self.things.get(id) {
            Some(el) => (el.computed_style().padding, clone_ids(&el.children)),
            None => {
                proof {
                    assert(false);
                }
                return ;
            },
        };
        proof {
            assert(self.slots()[id as int].styles == self.things.value_at(id).styles);
            assert(ppad == spec_padding(self.slots()[id as int].styles));
            assert(self.slots()[id as int].children == kids@);
        }
        let ghost frames0 = result@;
        let ghost pass = g_resize_pass(self.slots(), frames0, id, pw, ppad);
        let mut j: usize = 0;
        while j < result.len()
            invariant
                self.wf(),
                self.things.is_live(id),
                result@.len() == frames0.len(),
                j <= frames0.len(),
                pass == g_resize_pass(self.slots(), frames0, id, pw, ppad),
                forall|i: int| j <= i < frames0.len() ==> result@[i] == frames0[i],
                forall|i: int| 0 <= i < j ==> result@[i] == pass[i],
                forall|i: int|
                    0 <= i < frames0.len() ==> self.things.is_live(
                        (#[trigger] frames0[i]).for_id,
                    ),
            decreases frames0.len() - j,
        {
            let fid = result[j].for_id;
            match self.things.get(fid) {
                Some(e) => {
                    proof {
                        assert(self.slots()[fid as int].styles == e.styles);
                        assert(self.slots()[fid as int].parent == e.parent);
                    }
                    let pmatch = match e.parent {
                        Some(p) => p == id,
                        None => false,
                    };
                    let st = e.stretch();
                    let dp = e.display();
                    let applies = pmatch && matches!(dp, DisplayType::Block) && (matches!(
                        st,
                        StretchType::IfBlock,
                    ) || matches!(st, StretchType::True));
                    if applies {
                        let ecs = e.computed_style();
                        let w = crate::atoms::sub64(
                            crate::atoms::sub64(
                                crate::atoms::sub64(pw, add64(ppad.x, ppad.x)),
                                add64(ecs.padding.x, ecs.padding.x),
                            ),
                            add64(ecs.margin.x, ecs.margin.x),
                        );
                        let old_f = result[j];
                        let new_f = Frame {
                            rect: Rect {
                                pos: old_f.rect.pos,
                                size: Vec2 { x: w, y: old_f.rect.size.y },
                            },
                            zindex: old_f.zindex,
                            for_id: old_f.for_id,
                        };
                        result.set(j, new_f);
                        proof {
                            assert(stretch_applies(self.slots(), frames0[j as int], id));
                            assert(result@[j as int] == pass[j as int]);
                        }
                    } else {
                        proof {
                            assert(!stretch_applies(self.slots(), frames0[j as int], id));
                        }
                    }
                },
                None => {
                    proof {
                        assert(false);
                    }
                },
            }
            j += 1;
        }
        proof {
            assert(result@ =~= pass);
        }
        let mut k: usize = 0;
        while k < kids.len()
            invariant
                self.wf(),
                self.things.is_live(id),
                k <= kids@.len(),
                self.slots()[id as int].children == kids@,
                result@.len() == frames0.len(),
                forall|i: int|
                    0 <= i < frames0.len() ==> (#[trigger] result@[i]).for_id == frames0[i].for_id,
                forall|i: int|
                    0 <= i < frames0.len() ==> self.things.is_live(
                        (#[trigger] frames0[i]).for_id,
                    ),
                g_resize(self.slots(), frames0, id as int) == g_resize_kids(
                    self.slots(),
                    result@,
                    id as int,
                    kids@,
                    k as int,
                ),
            decreases kids@.len() - k,
        {
            let kid = kids[k];
            proof {
                assert(self.things.is_live(self.slots()[id as int].children[k as int]));
                assert((kid as int) < id as int);
            }
            let ghost pre = result@;
            self.resize_children(kid, result);
            k += 1;
        }
    }

    /// The whole layout: the sizing pass from the root, then the stretch
    /// pass over the frames it produced. One frame per node, in the order
    /// the sizing pass emits them.
    pub fn calculate_layout(&self) -> (r: Vec<Frame>)
        requires
            self.wf(),
        ensures
            r@ == g_resize(
                self.slots(),
                g_diverge(self.slots(), self.root as int, Vec2 { x: 0, y: 0 }, 0).0,
                self.root as int,
            ),
    {
        let mut result: Vec<Frame> = Vec::new();
        let _ = self.diverge(self.root, Vec2 { x: 0, y: 0 }, 0, &mut result);
        self.resize_children(self.root, &mut result);
        result
    }
}

} // verus!
