//! Recursive-descent parser for the CSS subset: selector groups, rule
//! blocks, colours (named and hexadecimal), pixel lengths and bare
//! identifiers. The parser consumes one character at a time, never
//! backtracks, and tracks a 0-based line and column for diagnostics.
//!
//! Every public parsing routine is specified against a ghost mirror of the
//! grammar: spec functions over the character sequence and a ghost cursor
//! state that say exactly which value and which final cursor each routine
//! must produce. Lengths are whole pixels; fractional digits are accepted
//! by the grammar and truncated.

use vstd::prelude::*;
use vstd::string::*;

use crate::util::chars_of;
use crate::util::str_eq;

verus! {

/// Whether `char::is_alphabetic` holds of the character; the result depends
/// on the character alone.
pub uninterp spec fn is_alphabetic_char(c: char) -> bool;

/// Relies on char::is_alphabetic; within ASCII the Alphabetic property
/// holds of exactly the letters.
#[verifier::external_body]
fn char_is_alphabetic(c: char) -> (r: bool)
    ensures
        r == is_alphabetic_char(c),
        (c as u32) < 128 ==> (r <==> (('a' <= c && c <= 'z') || ('A' <= c && c <= 'Z'))),
{
    c.is_alphabetic()
}

/// Whether `char::is_alphanumeric` holds of the character; the result
/// depends on the character alone.
pub uninterp spec fn is_alphanumeric_char(c: char) -> bool;

/// Relies on char::is_alphanumeric (Alphabetic or numeric); within ASCII
/// that is exactly the letters and digits.
#[verifier::external_body]
fn char_is_alphanumeric(c: char) -> (r: bool)
    ensures
        r == is_alphanumeric_char(c),
        (c as u32) < 128 ==> (r <==> (('a' <= c && c <= 'z') || ('A' <= c && c <= 'Z') || ('0'
            <= c && c <= '9'))),
{
    c.is_alphanumeric()
}

// ---------------------------------------------------------------------------
// AST
// ---------------------------------------------------------------------------
/// One atom of a selector: `#name`, `.name` or a bare tag name.
#[derive(Debug, Clone)]
pub enum CssSimpleSelector {
    Id(String),
    Class(String),
    Tag(String),
}

/// Ghost value of a selector atom.
pub ghost enum GSel {
    Id(Seq<char>),
    Class(Seq<char>),
    Tag(Seq<char>),
}

impl View for CssSimpleSelector {
    type V = GSel;

    open spec fn view(&self) -> GSel {
        match self {
            CssSimpleSelector::Id(s) => GSel::Id(s@),
            CssSimpleSelector::Class(s) => GSel::Class(s@),
            CssSimpleSelector::Tag(s) => GSel::Tag(s@),
        }
    }
}

/// The selector atom written back as text: `.name`, `#name` or the bare
/// tag.
pub open spec fn sel_text(g: GSel) -> Seq<char> {
    match g {
        GSel::Class(n) => "."@ + n,
        GSel::Id(n) => "#"@ + n,
        GSel::Tag(n) => n,
    }
}

impl CssSimpleSelector {
    /// The atom written back as selector text.
    pub fn to_string(&self) -> (r: String)
        ensures
            r@ == sel_text(self@),
    {
        let mut r = String::new();
        match self {
            CssSimpleSelector::Class(s) => {
                r.append(".");
                r.append(s.as_str());
                proof {
                    assert((Seq::<char>::empty() + "."@) + s@ =~= "."@ + s@);
                }
            },
            CssSimpleSelector::Id(s) => {
                r.append("#");
                r.append(s.as_str());
                proof {
                    assert((Seq::<char>::empty() + "#"@) + s@ =~= "#"@ + s@);
                }
            },
            CssSimpleSelector::Tag(s) => {
                r.append(s.as_str());
                proof {
                    assert(Seq::<char>::empty() + s@ =~= s@);
                }
            },
        }
        r
    }
}

/// AND-combination: every atom must match the same element.
#[derive(Debug, Clone)]
pub struct CssCompositeSelector {
    pub sels: Vec<CssSimpleSelector>,
}

impl View for CssCompositeSelector {
    type V = Seq<GSel>;

    open spec fn view(&self) -> Seq<GSel> {
        self.sels@.map_values(|s: CssSimpleSelector| s@)
    }
}

/// OR-combination: comma-separated composite selectors.
#[derive(Debug, Clone)]
pub struct CssVariantSelector {
    pub sels: Vec<CssCompositeSelector>,
}

impl View for CssVariantSelector {
    type V = Seq<Seq<GSel>>;

    open spec fn view(&self) -> Seq<Seq<GSel>> {
        self.sels@.map_values(|s: CssCompositeSelector| s@)
    }
}

pub type CssSelector = CssVariantSelector;

#[derive(Debug, Clone)]
pub enum CssUnit {
    Px,
}

/// One parameter of a rule: a resolved colour, a bare identifier left for
/// later interpretation, or a pixel length.
#[derive(Debug, Clone)]
pub enum CssRuleParam {
    Color(u8, u8, u8, u8),
    UnknownIdent(String),
    Unit(i64, CssUnit),
}

pub ghost enum GParam {
    Color(int, int, int, int),
    UnknownIdent(Seq<char>),
    Unit(int),
}

impl View for CssRuleParam {
    type V = GParam;

    open spec fn view(&self) -> GParam {
        match self {
            CssRuleParam::Color(r, g, b, a) => GParam::Color(
                *r as int,
                *g as int,
                *b as int,
                *a as int,
            ),
            CssRuleParam::UnknownIdent(s) => GParam::UnknownIdent(s@),
            CssRuleParam::Unit(v, _) => GParam::Unit(*v as int),
        }
    }
}

impl CssRuleParam {
    /// The colour components, for a colour parameter.
    pub fn into_color(&self) -> (r: Option<(u8, u8, u8, u8)>)
        ensures
            match self@ {
                GParam::Color(cr, cg, cb, ca) => r is Some && r.unwrap().0 == cr && r.unwrap().1
                    == cg && r.unwrap().2 == cb && r.unwrap().3 == ca,
                _ => r is None,
            },
    {
        if let CssRuleParam::Color(r, g, b, a) = self {
            return Some((*r, *g, *b, *a));
        }
        None
    }

    /// The identifier text, for an unresolved identifier parameter.
    pub fn into_ident(&self) -> (r: Option<&str>)
        ensures
            match self@ {
                GParam::UnknownIdent(s) => r is Some && r.unwrap()@ == s,
                _ => r is None,
            },
    {
        if let CssRuleParam::UnknownIdent(s) = self {
            return Some(s.as_str());
        }
        None
    }

    /// The pixel count, for a length parameter.
    pub fn into_px(&self) -> (r: Option<i64>)
        ensures
            match self@ {
                GParam::Unit(v) => r is Some && r.unwrap() == v,
                _ => r is None,
            },
    {
        if let CssRuleParam::Unit(v, _) = self {
            return Some(*v);
        }
        None
    }
}

/// A declaration: a property name and its parameters.
#[derive(Debug, Clone)]
pub struct CssRule {
    pub name: String,
    pub params: Vec<CssRuleParam>,
}

pub ghost struct GRule {
    pub name: Seq<char>,
    pub params: Seq<GParam>,
}

impl View for CssRule {
    type V = GRule;

    open spec fn view(&self) -> GRule {
        GRule { name: self.name@, params: self.params@.map_values(|p: CssRuleParam| p@) }
    }
}

pub type CssRuleset = Vec<CssRule>;

/// A selector group together with its declarations.
#[derive(Debug, Clone)]
pub struct CssBlock {
    pub selector: CssVariantSelector,
    pub rules: CssRuleset,
}

pub ghost struct GBlock {
    pub selector: Seq<Seq<GSel>>,
    pub rules: Seq<GRule>,
}

impl View for CssBlock {
    type V = GBlock;

    open spec fn view(&self) -> GBlock {
        GBlock { selector: self.selector@, rules: self.rules@.map_values(|r: CssRule| r@) }
    }
}

/// A whole stylesheet: the blocks in declaration order.
#[derive(Debug, Clone)]
pub struct Css {
    pub blocks: Vec<CssBlock>,
}

impl View for Css {
    type V = Seq<GBlock>;

    open spec fn view(&self) -> Seq<GBlock> {
        self.blocks@.map_values(|b: CssBlock| b@)
    }
}

// ---------------------------------------------------------------------------
// Errors
// ---------------------------------------------------------------------------
#[derive(Debug, Clone)]
pub enum CssErrorKind {
    Eof,
    InvalidSymbolInIdent,
    ExpectedCharacter(char),
    UnknownUnit(String),
    UnexpectedIdent(String),
    InvalidRuleParameter,
    InvalidNumber,
    HexColorLengthMayNotBe(usize),
}

pub ghost enum GKind {
    Eof,
    InvalidSymbolInIdent,
    ExpectedCharacter(char),
    UnknownUnit(Seq<char>),
    UnexpectedIdent(Seq<char>),
    InvalidRuleParameter,
    InvalidNumber,
    HexColorLengthMayNotBe(int),
}

impl View for CssErrorKind {
    type V = GKind;

    open spec fn view(&self) -> GKind {
        match self {
            CssErrorKind::Eof => GKind::Eof,
            CssErrorKind::InvalidSymbolInIdent => GKind::InvalidSymbolInIdent,
            CssErrorKind::ExpectedCharacter(c) => GKind::ExpectedCharacter(*c),
            CssErrorKind::UnknownUnit(s) => GKind::UnknownUnit(s@),
            CssErrorKind::UnexpectedIdent(s) => GKind::UnexpectedIdent(s@),
            CssErrorKind::InvalidRuleParameter => GKind::InvalidRuleParameter,
            CssErrorKind::InvalidNumber => GKind::InvalidNumber,
            CssErrorKind::HexColorLengthMayNotBe(n) => GKind::HexColorLengthMayNotBe(*n as int),
        }
    }
}

/// A fatal parse error: the position that produced it and its kind.
#[derive(Debug, Clone)]
pub struct CssError {
    pub line: usize,
    pub col: usize,
    pub kind: CssErrorKind,
}

pub ghost struct GErr {
    pub line: int,
    pub col: int,
    pub kind: GKind,
}

impl View for CssError {
    type V = GErr;

    open spec fn view(&self) -> GErr {
        GErr { line: self.line as int, col: self.col as int, kind: self.kind@ }
    }
}

// ---------------------------------------------------------------------------
// Ghost cursor state
// ---------------------------------------------------------------------------
/// Ghost cursor of the parser: the next unread index, the one-character
/// lookahead, the diagnostic position and the end-of-input flag.
pub ghost struct PState {
    pub pos: int,
    pub cur: char,
    pub line: int,
    pub col: int,
    pub eof: bool,
}

/// Well-formedness of a cursor over `src`.
pub open spec fn p_wf(src: Seq<char>, st: PState) -> bool {
    &&& 0 <= st.pos <= src.len()
    &&& st.eof ==> st.pos == src.len() && st.cur == '\0'
    &&& 0 <= st.line <= st.pos
    &&& 0 <= st.col <= st.pos
}

/// Termination measure: unread characters, plus one while the end-of-input
/// flag is still unset.
pub open spec fn p_measure(src: Seq<char>, st: PState) -> int {
    src.len() - st.pos + if st.eof {
        0int
    } else {
        1int
    }
}

/// Whether the character is insignificant between tokens.
pub open spec fn ignored_char(c: char) -> bool {
    c == ' ' || c == '\n' || c == '\t'
}

/// Advance by one character: load the next character into the lookahead and
/// update the diagnostic position, or raise the end-of-input flag.
pub open spec fn sk(src: Seq<char>, st: PState) -> PState {
    if st.pos == src.len() {
        PState { pos: st.pos, cur: '\0', line: st.line, col: st.col, eof: true }
    } else {
        let c = src[st.pos];
        PState {
            pos: st.pos + 1,
            cur: c,
            line: if c == '\n' {
                st.line + 1
            } else {
                st.line
            },
            col: if c == '\n' {
                0
            } else {
                st.col + 1
            },
            eof: false,
        }
    }
}

pub broadcast proof fn lemma_sk(src: Seq<char>, st: PState)
    requires
        p_wf(src, st),
    ensures
        p_wf(src, #[trigger] sk(src, st)),
        !st.eof ==> p_measure(src, sk(src, st)) < p_measure(src, st),
        p_measure(src, sk(src, st)) <= p_measure(src, st),
{
}

/// Consume insignificant whitespace.
pub open spec fn nr_ws(src: Seq<char>, st: PState) -> PState
    decreases p_measure(src, st),
    when p_wf(src, st)
{
    if !st.eof && ignored_char(st.cur) {
        nr_ws(src, sk(src, st))
    } else {
        st
    }
}

proof fn lemma_nr_ws(src: Seq<char>, st: PState)
    requires
        p_wf(src, st),
    ensures
        p_wf(src, nr_ws(src, st)),
        p_measure(src, nr_ws(src, st)) <= p_measure(src, st),
    decreases p_measure(src, st),
{
    if !st.eof && ignored_char(st.cur) {
        lemma_nr_ws(src, sk(src, st));
    }
}

/// Consume the body of a `/* ... */` comment, starting just before its `*`;
/// stops after the closing `*/`, or at the end of the input for an
/// unterminated comment.
pub open spec fn nr_comment(src: Seq<char>, st: PState) -> PState
    decreases p_measure(src, st),
    when p_wf(src, st)
{
    if st.eof {
        st
    } else {
        let s1 = sk(src, st);
        if s1.cur == '*' && !s1.eof {
            let s2 = sk(src, s1);
            if s2.cur == '/' && !s2.eof {
                sk(src, s2)
            } else {
                nr_comment(src, s2)
            }
        } else {
            nr_comment(src, s1)
        }
    }
}

proof fn lemma_nr_comment(src: Seq<char>, st: PState)
    requires
        p_wf(src, st),
    ensures
        p_wf(src, nr_comment(src, st)),
        p_measure(src, nr_comment(src, st)) <= p_measure(src, st),
        !st.eof ==> p_measure(src, nr_comment(src, st)) < p_measure(src, st),
    decreases p_measure(src, st),
{
    if !st.eof {
        let s1 = sk(src, st);
        if s1.cur == '*' && !s1.eof {
            let s2 = sk(src, s1);
            if s2.cur == '/' && !s2.eof {
            } else {
                lemma_nr_comment(src, s2);
            }
        } else {
            lemma_nr_comment(src, s1);
        }
    }
}

/// Consume whitespace and comments: the `no_rubbish` normalisation run
/// before and after every token. A `/` not opening a comment is consumed.
pub open spec fn nr(src: Seq<char>, st: PState) -> PState
    decreases p_measure(src, st),
    when p_wf(src, st)
    via nr_decreases
{
    let a = nr_ws(src, st);
    if a.cur == '/' && !a.eof {
        let b = sk(src, a);
        if b.cur == '*' && !b.eof {
            nr(src, nr_comment(src, b))
        } else {
            b
        }
    } else {
        a
    }
}

#[via_fn]
proof fn nr_decreases(src: Seq<char>, st: PState) {
    lemma_nr_ws(src, st);
    let a = nr_ws(src, st);
    if a.cur == '/' && !a.eof {
        lemma_sk(src, a);
        let b = sk(src, a);
        if b.cur == '*' && !b.eof {
            lemma_nr_comment(src, b);
        }
    }
}

proof fn lemma_nr(src: Seq<char>, st: PState)
    requires
        p_wf(src, st),
    ensures
        p_wf(src, nr(src, st)),
        p_measure(src, nr(src, st)) <= p_measure(src, st),
    decreases p_measure(src, st),
{
    lemma_nr_ws(src, st);
    let a = nr_ws(src, st);
    if a.cur == '/' && !a.eof {
        lemma_sk(src, a);
        let b = sk(src, a);
        if b.cur == '*' && !b.eof {
            lemma_nr_comment(src, b);
            lemma_nr(src, nr_comment(src, b));
        }
    }
}

/// The error value raised at the given cursor position.
pub open spec fn gerr(st: PState, kind: GKind) -> GErr {
    GErr { line: st.line, col: st.col, kind }
}

/// The run of characters satisfying `f` from the cursor on, and the cursor
/// after them.
pub open spec fn g_chars_while(src: Seq<char>, st: PState, f: spec_fn(char) -> bool) -> (
    Seq<char>,
    PState,
)
    decreases p_measure(src, st),
    when p_wf(src, st)
{
    if !st.eof && f(st.cur) {
        let (rest, fin) = g_chars_while(src, sk(src, st), f);
        (seq![st.cur] + rest, fin)
    } else {
        (Seq::empty(), st)
    }
}

proof fn lemma_g_chars_while(src: Seq<char>, st: PState, f: spec_fn(char) -> bool)
    requires
        p_wf(src, st),
    ensures
        p_wf(src, g_chars_while(src, st, f).1),
        p_measure(src, g_chars_while(src, st, f).1) + g_chars_while(src, st, f).0.len()
            <= p_measure(src, st),
        forall|i: int|
            0 <= i < g_chars_while(src, st, f).0.len() ==> f(
                #[trigger] g_chars_while(src, st, f).0[i],
            ),
    decreases p_measure(src, st),
{
    if !st.eof && f(st.cur) {
        lemma_g_chars_while(src, sk(src, st), f);
    }
}

/// First character class of an identifier: alphabetic, `_` or `-`.
pub open spec fn ident_first_ok(c: char) -> bool {
    is_alphabetic_char(c) || c == '_' || c == '-'
}

/// Later character class of an identifier: alphanumeric, `_` or `-`.
pub open spec fn ident_rest_ok(c: char) -> bool {
    is_alphanumeric_char(c) || c == '_' || c == '-'
}

/// An identifier: a non-empty run of alphabetic/`_`/`-` characters, then
/// optionally digits as well, then trailing rubbish consumed. Fails with an
/// invalid-identifier error when the first run is empty.
pub open spec fn g_parse_ident(src: Seq<char>, st: PState) -> (Result<Seq<char>, GErr>, PState) {
    let (a1, s1) = g_chars_while(src, st, |c: char| ident_first_ok(c));
    if a1.len() < 1 {
        (Err(gerr(s1, GKind::InvalidSymbolInIdent)), s1)
    } else {
        let (a2, s2) = g_chars_while(src, s1, |c: char| ident_rest_ok(c));
        (Ok(a1 + a2), nr(src, s2))
    }
}

proof fn lemma_g_parse_ident(src: Seq<char>, st: PState)
    requires
        p_wf(src, st),
    ensures
        p_wf(src, g_parse_ident(src, st).1),
        p_measure(src, g_parse_ident(src, st).1) <= p_measure(src, st),
        g_parse_ident(src, st).0 is Ok ==> p_measure(src, g_parse_ident(src, st).1) < p_measure(
            src,
            st,
        ),
{
    lemma_g_chars_while(src, st, |c: char| ident_first_ok(c));
    let (a1, s1) = g_chars_while(src, st, |c: char| ident_first_ok(c));
    if a1.len() >= 1 {
        lemma_g_chars_while(src, s1, |c: char| ident_rest_ok(c));
        let (a2, s2) = g_chars_while(src, s1, |c: char| ident_rest_ok(c));
        lemma_nr(src, s2);
    }
}

/// Expect exactly `ch` at the cursor, consume it and trailing rubbish.
pub open spec fn g_skip_char(src: Seq<char>, st: PState, ch: char) -> (Option<GErr>, PState) {
    if st.cur == ch {
        if st.eof {
            (Some(gerr(st, GKind::Eof)), st)
        } else {
            (None, nr(src, sk(src, st)))
        }
    } else {
        (Some(gerr(st, GKind::ExpectedCharacter(ch))), st)
    }
}

proof fn lemma_g_skip_char(src: Seq<char>, st: PState, ch: char)
    requires
        p_wf(src, st),
    ensures
        p_wf(src, g_skip_char(src, st, ch).1),
        p_measure(src, g_skip_char(src, st, ch).1) <= p_measure(src, st),
        g_skip_char(src, st, ch).0 is None ==> p_measure(src, g_skip_char(src, st, ch).1)
            < p_measure(src, st),
{
    if st.cur == ch && !st.eof {
        lemma_sk(src, st);
        lemma_nr(src, sk(src, st));
    }
}

/// A decimal digit.
pub open spec fn is_digit10(c: char) -> bool {
    '0' <= c && c <= '9'
}

pub open spec fn d2i(c: char) -> int {
    c as u32 - '0' as u32
}

/// One step of decimal accumulation, saturating at `u64::MAX`.
pub open spec fn dec_step(acc: int, d: int) -> int {
    if acc * 10 + d > u64::MAX as int {
        u64::MAX as int
    } else {
        acc * 10 + d
    }
}

/// Decimal accumulation of a digit run onto `acc`, saturating.
pub open spec fn dec_fold(ds: Seq<char>, acc: int) -> int
    decreases ds.len(),
{
    if ds.len() == 0 {
        acc
    } else {
        dec_fold(ds.drop_first(), dec_step(acc, d2i(ds[0])))
    }
}

/// The (saturating) value of a run of decimal digits.
pub open spec fn dec_value(ds: Seq<char>) -> int {
    dec_fold(ds, 0)
}

/// A number: optional `-`, digits, optional `.`, digits; at least one digit
/// must be present. The value is the whole-pixel part, clamped into `i64`.
pub open spec fn g_parse_number(src: Seq<char>, st: PState) -> (Result<int, GErr>, PState) {
    let s0 = if st.cur == '-' && !st.eof {
        sk(src, st)
    } else {
        st
    };
    let neg = st.cur == '-';
    let (ds1, s1) = g_chars_while(src, s0, |c: char| is_digit10(c));
    let s2 = if s1.cur == '.' && !s1.eof {
        sk(src, s1)
    } else {
        s1
    };
    let (ds2, s3) = g_chars_while(src, s2, |c: char| is_digit10(c));
    if ds1.len() == 0 && ds2.len() == 0 {
        (Err(gerr(s3, GKind::InvalidNumber)), s3)
    } else {
        let v = if neg {
            crate::atoms::clip64(-dec_value(ds1))
        } else {
            crate::atoms::clip64(dec_value(ds1))
        };
        (Ok(v), nr(src, s3))
    }
}

proof fn lemma_g_parse_number(src: Seq<char>, st: PState)
    requires
        p_wf(src, st),
    ensures
        p_wf(src, g_parse_number(src, st).1),
        p_measure(src, g_parse_number(src, st).1) <= p_measure(src, st),
        g_parse_number(src, st).0 is Ok && (is_digit10(st.cur) || st.cur == '-') ==> p_measure(
            src,
            g_parse_number(src, st).1,
        ) < p_measure(src, st),
{
    let s0 = if st.cur == '-' && !st.eof {
        sk(src, st)
    } else {
        st
    };
    lemma_g_chars_while(src, s0, |c: char| is_digit10(c));
    let (ds1, s1) = g_chars_while(src, s0, |c: char| is_digit10(c));
    let s2 = if s1.cur == '.' && !s1.eof {
        sk(src, s1)
    } else {
        s1
    };
    lemma_g_chars_while(src, s2, |c: char| is_digit10(c));
    let (ds2, s3) = g_chars_while(src, s2, |c: char| is_digit10(c));
    lemma_nr(src, s3);
    if g_parse_number(src, st).0 is Ok && (is_digit10(st.cur) || st.cur == '-') {
        if st.cur == '-' {
            assert(!st.eof);
        } else {
            assert(ds1.len() >= 1);
        }
    }
}

/// A selector atom: `.name`, `#name` or a bare tag name.
pub open spec fn g_sel_atomic(src: Seq<char>, st: PState) -> (Result<GSel, GErr>, PState) {
    if st.cur == '.' {
        if st.eof {
            (Err(gerr(st, GKind::Eof)), st)
        } else {
            let (r, s1) = g_parse_ident(src, sk(src, st));
            match r {
                Ok(id) => (Ok(GSel::Class(id)), s1),
                Err(e) => (Err(e), s1),
            }
        }
    } else if st.cur == '#' {
        if st.eof {
            (Err(gerr(st, GKind::Eof)), st)
        } else {
            let (r, s1) = g_parse_ident(src, sk(src, st));
            match r {
                Ok(id) => (Ok(GSel::Id(id)), s1),
                Err(e) => (Err(e), s1),
            }
        }
    } else {
        let (r, s1) = g_parse_ident(src, st);
        match r {
            Ok(id) => (Ok(GSel::Tag(id)), s1),
            Err(e) => (Err(e), s1),
        }
    }
}

proof fn lemma_g_sel_atomic(src: Seq<char>, st: PState)
    requires
        p_wf(src, st),
    ensures
        p_wf(src, g_sel_atomic(src, st).1),
        p_measure(src, g_sel_atomic(src, st).1) <= p_measure(src, st),
        g_sel_atomic(src, st).0 is Ok ==> p_measure(src, g_sel_atomic(src, st).1) < p_measure(
            src,
            st,
        ),
{
    if (st.cur == '.' || st.cur == '#') && !st.eof {
        lemma_sk(src, st);
        lemma_g_parse_ident(src, sk(src, st));
    } else if st.cur != '.' && st.cur != '#' {
        lemma_g_parse_ident(src, st);
    }
}

/// Further atoms of a composite selector, appended to `acc`.
pub open spec fn g_composite_more(src: Seq<char>, st: PState, acc: Seq<GSel>) -> (
    Result<Seq<GSel>, GErr>,
    PState,
)
    decreases p_measure(src, st),
    when p_wf(src, st)
    via g_composite_more_decreases
{
    if st.cur == '.' || st.cur == '#' {
        let (r, s1) = g_sel_atomic(src, st);
        match r {
            Ok(a) => g_composite_more(src, s1, acc.push(a)),
            Err(e) => (Err(e), s1),
        }
    } else {
        (Ok(acc), st)
    }
}

#[via_fn]
proof fn g_composite_more_decreases(src: Seq<char>, st: PState, acc: Seq<GSel>) {
    if st.cur == '.' || st.cur == '#' {
        lemma_g_sel_atomic(src, st);
    }
}

proof fn lemma_g_composite_more(src: Seq<char>, st: PState, acc: Seq<GSel>)
    requires
        p_wf(src, st),
    ensures
        p_wf(src, g_composite_more(src, st, acc).1),
        p_measure(src, g_composite_more(src, st, acc).1) <= p_measure(src, st),
    decreases p_measure(src, st),
{
    if st.cur == '.' || st.cur == '#' {
        lemma_g_sel_atomic(src, st);
        let (r, s1) = g_sel_atomic(src, st);
        if r is Ok {
            lemma_g_composite_more(src, s1, acc.push(r->Ok_0));
        }
    }
}

/// A composite selector: one or more atoms, AND-combined.
pub open spec fn g_composite(src: Seq<char>, st: PState) -> (Result<Seq<GSel>, GErr>, PState) {
    let (r, s1) = g_sel_atomic(src, st);
    match r {
        Ok(a) => g_composite_more(src, s1, seq![a]),
        Err(e) => (Err(e), s1),
    }
}

proof fn lemma_g_composite(src: Seq<char>, st: PState)
    requires
        p_wf(src, st),
    ensures
        p_wf(src, g_composite(src, st).1),
        p_measure(src, g_composite(src, st).1) <= p_measure(src, st),
        g_composite(src, st).0 is Ok ==> p_measure(src, g_composite(src, st).1) < p_measure(
            src,
            st,
        ),
{
    lemma_g_sel_atomic(src, st);
    let (r, s1) = g_sel_atomic(src, st);
    if r is Ok {
        lemma_g_composite_more(src, s1, seq![r->Ok_0]);
    }
}

/// Further comma-separated composites of a selector group.
pub open spec fn g_multiple_more(src: Seq<char>, st: PState, acc: Seq<Seq<GSel>>) -> (
    Result<Seq<Seq<GSel>>, GErr>,
    PState,
)
    decreases p_measure(src, st),
    when p_wf(src, st)
    via g_multiple_more_decreases
{
    if st.cur == ',' {
        let (e0, s1) = g_skip_char(src, st, ',');
        match e0 {
            Some(e) => (Err(e), s1),
            None => {
                let (r, s2) = g_composite(src, s1);
                match r {
                    Ok(c) => g_multiple_more(src, s2, acc.push(c)),
                    Err(e) => (Err(e), s2),
                }
            },
        }
    } else {
        (Ok(acc), st)
    }
}

#[via_fn]
proof fn g_multiple_more_decreases(src: Seq<char>, st: PState, acc: Seq<Seq<GSel>>) {
    if st.cur == ',' {
        lemma_g_skip_char(src, st, ',');
        let (e0, s1) = g_skip_char(src, st, ',');
        if e0 is None {
            lemma_g_composite(src, s1);
        }
    }
}

proof fn lemma_g_multiple_more(src: Seq<char>, st: PState, acc: Seq<Seq<GSel>>)
    requires
        p_wf(src, st),
    ensures
        p_wf(src, g_multiple_more(src, st, acc).1),
        p_measure(src, g_multiple_more(src, st, acc).1) <= p_measure(src, st),
    decreases p_measure(src, st),
{
    if st.cur == ',' {
        lemma_g_skip_char(src, st, ',');
        let (e0, s1) = g_skip_char(src, st, ',');
        if e0 is None {
            lemma_g_composite(src, s1);
            let (r, s2) = g_composite(src, s1);
            if r is Ok {
                lemma_g_multiple_more(src, s2, acc.push(r->Ok_0));
            }
        }
    }
}

/// A selector group: composites separated by commas, OR-combined.
pub open spec fn g_multiple(src: Seq<char>, st: PState) -> (Result<Seq<Seq<GSel>>, GErr>, PState) {
    let (r, s1) = g_composite(src, st);
    match r {
        Ok(c) => g_multiple_more(src, s1, seq![c]),
        Err(e) => (Err(e), s1),
    }
}

proof fn lemma_g_multiple(src: Seq<char>, st: PState)
    requires
        p_wf(src, st),
    ensures
        p_wf(src, g_multiple(src, st).1),
        p_measure(src, g_multiple(src, st).1) <= p_measure(src, st),
        g_multiple(src, st).0 is Ok ==> p_measure(src, g_multiple(src, st).1) < p_measure(src, st),
{
    lemma_g_composite(src, st);
    let (r, s1) = g_composite(src, st);
    if r is Ok {
        lemma_g_multiple_more(src, s1, seq![r->Ok_0]);
    }
}

/// A length: a number followed by a unit identifier; only `px` is known.
pub open spec fn g_unit_value(src: Seq<char>, st: PState) -> (Result<GParam, GErr>, PState) {
    let (rn, s1) = g_parse_number(src, st);
    match rn {
        Err(e) => (Err(e), s1),
        Ok(v) => {
            let (ri, s2) = g_parse_ident(src, s1);
            match ri {
                Err(e) => (Err(e), s2),
                Ok(unit) => if unit == "px"@ {
                    (Ok(GParam::Unit(v)), s2)
                } else {
                    (Err(gerr(s2, GKind::UnknownUnit(unit))), s2)
                },
            }
        },
    }
}

proof fn lemma_g_unit_value(src: Seq<char>, st: PState)
    requires
        p_wf(src, st),
    ensures
        p_wf(src, g_unit_value(src, st).1),
        p_measure(src, g_unit_value(src, st).1) <= p_measure(src, st),
        g_unit_value(src, st).0 is Ok ==> p_measure(src, g_unit_value(src, st).1) < p_measure(
            src,
            st,
        ),
{
    lemma_g_parse_number(src, st);
    let (rn, s1) = g_parse_number(src, st);
    if rn is Ok {
        lemma_g_parse_ident(src, s1);
    }
}

/// The fixed colour keywords.
pub open spec fn named_color(s: Seq<char>) -> Option<GParam> {
    if s == "red"@ {
        Some(GParam::Color(255, 0, 0, 255))
    } else if s == "green"@ {
        Some(GParam::Color(0, 255, 0, 255))
    } else if s == "blue"@ {
        Some(GParam::Color(0, 0, 255, 255))
    } else if s == "lightblue"@ {
        Some(GParam::Color(128, 128, 255, 255))
    } else if s == "white"@ {
        Some(GParam::Color(255, 255, 255, 255))
    } else if s == "black"@ {
        Some(GParam::Color(0, 0, 0, 255))
    } else if s == "yellow"@ {
        Some(GParam::Color(255, 255, 0, 255))
    } else {
        None
    }
}

/// An identifier parameter: a colour keyword resolves to its colour, any
/// other identifier is kept unresolved.
pub open spec fn g_ident_rule(src: Seq<char>, st: PState) -> (Result<GParam, GErr>, PState) {
    let (r, s1) = g_parse_ident(src, st);
    match r {
        Err(e) => (Err(e), s1),
        Ok(id) => match named_color(id) {
            Some(c) => (Ok(c), s1),
            None => (Ok(GParam::UnknownIdent(id)), s1),
        },
    }
}

proof fn lemma_g_ident_rule(src: Seq<char>, st: PState)
    requires
        p_wf(src, st),
    ensures
        p_wf(src, g_ident_rule(src, st).1),
        p_measure(src, g_ident_rule(src, st).1) <= p_measure(src, st),
        g_ident_rule(src, st).0 is Ok ==> p_measure(src, g_ident_rule(src, st).1) < p_measure(
            src,
            st,
        ),
{
    lemma_g_parse_ident(src, st);
}

/// A hexadecimal digit.
pub open spec fn is_hex_digit(c: char) -> bool {
    ('0' <= c && c <= '9') || ('a' <= c && c <= 'f') || ('A' <= c && c <= 'F')
}

/// The value of a hexadecimal digit.
pub open spec fn hexval(c: char) -> int {
    if '0' <= c && c <= '9' {
        c as u32 - 48
    } else if 'a' <= c && c <= 'f' {
        c as u32 - 87
    } else {
        c as u32 - 55
    }
}

/// A `#` colour: 3 or 4 digits duplicate each nibble, 6 or 8 digits give
/// the bytes directly; alpha defaults to 255; any other digit count is an
/// error naming that count.
pub open spec fn g_hex_color(src: Seq<char>, st: PState) -> (Result<GParam, GErr>, PState) {
    let (e0, s0) = g_skip_char(src, st, '#');
    match e0 {
        Some(e) => (Err(e), s0),
        None => {
            let (hs, s1) = g_chars_while(src, s0, |c: char| is_hex_digit(c));
            let s2 = nr(src, s1);
            if hs.len() == 3 {
                (
                    Ok(
                        GParam::Color(
                            17 * hexval(hs[0]),
                            17 * hexval(hs[1]),
                            17 * hexval(hs[2]),
                            255,
                        ),
                    ),
                    s2,
                )
            } else if hs.len() == 4 {
                (
                    Ok(
                        GParam::Color(
                            17 * hexval(hs[0]),
                            17 * hexval(hs[1]),
                            17 * hexval(hs[2]),
                            17 * hexval(hs[3]),
                        ),
                    ),
                    s2,
                )
            } else if hs.len() == 6 {
                (
                    Ok(
                        GParam::Color(
                            16 * hexval(hs[0]) + hexval(hs[1]),
                            16 * hexval(hs[2]) + hexval(hs[3]),
                            16 * hexval(hs[4]) + hexval(hs[5]),
                            255,
                        ),
                    ),
                    s2,
                )
            } else if hs.len() == 8 {
                (
                    Ok(
                        GParam::Color(
                            16 * hexval(hs[0]) + hexval(hs[1]),
                            16 * hexval(hs[2]) + hexval(hs[3]),
                            16 * hexval(hs[4]) + hexval(hs[5]),
                            16 * hexval(hs[6]) + hexval(hs[7]),
                        ),
                    ),
                    s2,
                )
            } else {
                (Err(gerr(s2, GKind::HexColorLengthMayNotBe(hs.len() as int))), s2)
            }
        },
    }
}

proof fn lemma_g_hex_color(src: Seq<char>, st: PState)
    requires
        p_wf(src, st),
    ensures
        p_wf(src, g_hex_color(src, st).1),
        p_measure(src, g_hex_color(src, st).1) <= p_measure(src, st),
        g_hex_color(src, st).0 is Ok ==> p_measure(src, g_hex_color(src, st).1) < p_measure(
            src,
            st,
        ),
{
    lemma_g_skip_char(src, st, '#');
    let (e0, s0) = g_skip_char(src, st, '#');
    if e0 is None {
        lemma_g_chars_while(src, s0, |c: char| is_hex_digit(c));
        let (hs, s1) = g_chars_while(src, s0, |c: char| is_hex_digit(c));
        lemma_nr(src, s1);
    }
}

/// One rule parameter, dispatched on the first character: a length, an
/// identifier or a `#` colour.
pub open spec fn g_value(src: Seq<char>, st: PState) -> (Result<GParam, GErr>, PState) {
    if is_digit10(st.cur) || st.cur == '-' {
        g_unit_value(src, st)
    } else if is_alphabetic_char(st.cur) {
        g_ident_rule(src, st)
    } else if st.cur == '#' {
        g_hex_color(src, st)
    } else {
        (Err(gerr(st, GKind::InvalidRuleParameter)), st)
    }
}

proof fn lemma_g_value(src: Seq<char>, st: PState)
    requires
        p_wf(src, st),
    ensures
        p_wf(src, g_value(src, st).1),
        p_measure(src, g_value(src, st).1) <= p_measure(src, st),
        g_value(src, st).0 is Ok ==> p_measure(src, g_value(src, st).1) < p_measure(src, st),
{
    lemma_g_unit_value(src, st);
    lemma_g_ident_rule(src, st);
    lemma_g_hex_color(src, st);
}

/// The parameters of a rule, up to the terminating `;`.
pub open spec fn g_rule_params(src: Seq<char>, st: PState, acc: Seq<GParam>) -> (
    Result<Seq<GParam>, GErr>,
    PState,
)
    decreases p_measure(src, st),
    when p_wf(src, st)
    via g_rule_params_decreases
{
    if st.cur != ';' {
        let (r, s1) = g_value(src, st);
        match r {
            Ok(p) => g_rule_params(src, s1, acc.push(p)),
            Err(e) => (Err(e), s1),
        }
    } else {
        (Ok(acc), st)
    }
}

#[via_fn]
proof fn g_rule_params_decreases(src: Seq<char>, st: PState, acc: Seq<GParam>) {
    if st.cur != ';' {
        lemma_g_value(src, st);
    }
}

proof fn lemma_g_rule_params(src: Seq<char>, st: PState, acc: Seq<GParam>)
    requires
        p_wf(src, st),
    ensures
        p_wf(src, g_rule_params(src, st, acc).1),
        p_measure(src, g_rule_params(src, st, acc).1) <= p_measure(src, st),
    decreases p_measure(src, st),
{
    if st.cur != ';' {
        lemma_g_value(src, st);
        let (r, s1) = g_value(src, st);
        if r is Ok {
            lemma_g_rule_params(src, s1, acc.push(r->Ok_0));
        }
    }
}

/// A declaration: `name ':' value* ';'`.
pub open spec fn g_rule(src: Seq<char>, st: PState) -> (Result<GRule, GErr>, PState) {
    let (rn, s1) = g_parse_ident(src, st);
    match rn {
        Err(e) => (Err(e), s1),
        Ok(name) => {
            let (e1, s2) = g_skip_char(src, s1, ':');
            match e1 {
                Some(e) => (Err(e), s2),
                None => {
                    let (rp, s3) = g_rule_params(src, s2, Seq::empty());
                    match rp {
                        Err(e) => (Err(e), s3),
                        Ok(ps) => {
                            let (e2, s4) = g_skip_char(src, s3, ';');
                            match e2 {
                                Some(e) => (Err(e), s4),
                                None => (Ok(GRule { name, params: ps }), s4),
                            }
                        },
                    }
                },
            }
        },
    }
}

proof fn lemma_g_rule(src: Seq<char>, st: PState)
    requires
        p_wf(src, st),
    ensures
        p_wf(src, g_rule(src, st).1),
        p_measure(src, g_rule(src, st).1) <= p_measure(src, st),
        g_rule(src, st).0 is Ok ==> p_measure(src, g_rule(src, st).1) < p_measure(src, st),
{
    lemma_g_parse_ident(src, st);
    let (rn, s1) = g_parse_ident(src, st);
    if rn is Ok {
        lemma_g_skip_char(src, s1, ':');
        let (e1, s2) = g_skip_char(src, s1, ':');
        if e1 is None {
            lemma_g_rule_params(src, s2, Seq::empty());
            let (rp, s3) = g_rule_params(src, s2, Seq::empty());
            if rp is Ok {
                lemma_g_skip_char(src, s3, ';');
            }
        }
    }
}

/// The declarations of a block, up to the closing `}`.
pub open spec fn g_block_rules(src: Seq<char>, st: PState, acc: Seq<GRule>) -> (
    Result<Seq<GRule>, GErr>,
    PState,
)
    decreases p_measure(src, st),
    when p_wf(src, st)
    via g_block_rules_decreases
{
    if st.cur != '}' {
        let (r, s1) = g_rule(src, st);
        match r {
            Ok(rule) => g_block_rules(src, s1, acc.push(rule)),
            Err(e) => (Err(e), s1),
        }
    } else {
        (Ok(acc), st)
    }
}

#[via_fn]
proof fn g_block_rules_decreases(src: Seq<char>, st: PState, acc: Seq<GRule>) {
    if st.cur != '}' {
        lemma_g_rule(src, st);
    }
}

proof fn lemma_g_block_rules(src: Seq<char>, st: PState, acc: Seq<GRule>)
    requires
        p_wf(src, st),
    ensures
        p_wf(src, g_block_rules(src, st, acc).1),
        p_measure(src, g_block_rules(src, st, acc).1) <= p_measure(src, st),
    decreases p_measure(src, st),
{
    if st.cur != '}' {
        lemma_g_rule(src, st);
        let (r, s1) = g_rule(src, st);
        if r is Ok {
            lemma_g_block_rules(src, s1, acc.push(r->Ok_0));
        }
    }
}

/// The blocks of a stylesheet, up to the end of the input.
pub open spec fn g_blocks(src: Seq<char>, st: PState, acc: Seq<GBlock>) -> (
    Result<Seq<GBlock>, GErr>,
    PState,
)
    decreases p_measure(src, st),
    when p_wf(src, st)
    via g_blocks_decreases
{
    if !st.eof {
        let (rs, s1) = g_multiple(src, st);
        match rs {
            Err(e) => (Err(e), s1),
            Ok(sel) => {
                let (e1, s2) = g_skip_char(src, s1, '{');
                match e1 {
                    Some(e) => (Err(e), s2),
                    None => {
                        let (rr, s3) = g_block_rules(src, s2, Seq::empty());
                        match rr {
                            Err(e) => (Err(e), s3),
                            Ok(rules) => {
                                let (e2, s4) = g_skip_char(src, s3, '}');
                                match e2 {
                                    Some(e) => (Err(e), s4),
                                    None => g_blocks(
                                        src,
                                        s4,
                                        acc.push(GBlock { selector: sel, rules }),
                                    ),
                                }
                            },
                        }
                    },
                }
            },
        }
    } else {
        (Ok(acc), st)
    }
}

#[via_fn]
proof fn g_blocks_decreases(src: Seq<char>, st: PState, acc: Seq<GBlock>) {
    if !st.eof {
        lemma_g_multiple(src, st);
        let (rs, s1) = g_multiple(src, st);
        if rs is Ok {
            lemma_g_skip_char(src, s1, '{');
            let (e1, s2) = g_skip_char(src, s1, '{');
            if e1 is None {
                lemma_g_block_rules(src, s2, Seq::empty());
                let (rr, s3) = g_block_rules(src, s2, Seq::empty());
                if rr is Ok {
                    lemma_g_skip_char(src, s3, '}');
                }
            }
        }
    }
}

/// A whole stylesheet: blocks until the end of the input.
pub open spec fn g_parse(src: Seq<char>, st: PState) -> (Result<Seq<GBlock>, GErr>, PState) {
    g_blocks(src, st, Seq::empty())
}

/// A bare declaration list (as in an inline `style` attribute): rules until
/// the end of the input; the first malformed declaration ends the list,
/// keeping what was read before it.
pub open spec fn g_inline_rules(src: Seq<char>, st: PState, acc: Seq<GRule>) -> Seq<GRule>
    decreases p_measure(src, st),
    when p_wf(src, st)
    via g_inline_rules_decreases
{
    if !st.eof {
        let (r, s1) = g_rule(src, st);
        match r {
            Ok(rule) => g_inline_rules(src, s1, acc.push(rule)),
            Err(e) => acc,
        }
    } else {
        acc
    }
}

#[via_fn]
proof fn g_inline_rules_decreases(src: Seq<char>, st: PState, acc: Seq<GRule>) {
    if !st.eof {
        lemma_g_rule(src, st);
    }
}

/// The inline declarations of the whole string, first error truncating.
pub open spec fn g_parse_inline(src: Seq<char>) -> Seq<GRule> {
    g_inline_rules(src, nr(src, PState { pos: 0, cur: ' ', line: 0, col: 0, eof: false }), Seq::empty())
}

// ---------------------------------------------------------------------------
// The parser
// ---------------------------------------------------------------------------
/// Character-at-a-time parser with one character of lookahead.
pub struct CssParser {
    src: Vec<char>,
    pos: usize,
    current: char,
    line: usize,
    col: usize,
    eof: bool,
}

impl CssParser {
    /// The characters being parsed.
    pub closed spec fn src(&self) -> Seq<char> {
        self.src@
    }

    /// The ghost cursor.
    pub closed spec fn st(&self) -> PState {
        PState {
            pos: self.pos as int,
            cur: self.current,
            line: self.line as int,
            col: self.col as int,
            eof: self.eof,
        }
    }

    pub open spec fn wf(&self) -> bool {
        p_wf(self.src(), self.st())
    }

    fn err(&self, kind: CssErrorKind) -> (e: CssError)
        ensures
            e@ == gerr(self.st(), kind@),
    {
        CssError { line: self.line, col: self.col, kind }
    }

    fn is_ignored(&self) -> (r: bool)
        ensures
            r == ignored_char(self.st().cur),
    {
        let peek = self.current;
        peek == ' ' || peek == '\n' || peek == '\t'
    }

    fn peek(&self) -> (c: char)
        ensures
            c == self.st().cur,
    {
        self.current
    }

    /// Advance the cursor by one character.
    fn skip(&mut self)
        requires
            old(self).wf(),
        ensures
            final(self).wf(),
            final(self).src() == old(self).src(),
            final(self).st() == sk(old(self).src(), old(self).st()),
    {
        if self.pos == self.src.len() {
            self.current = '\0';
            self.eof = true;
            return ;
        }
        self.current = self.src[self.pos];
        self.pos += 1;
        self.col += 1;
        if self.current == '\n' {
            self.line += 1;
            self.col = 0;
        }
    }

    /// Return the current character and advance, or fail at end of input.
    fn next(&mut self) -> (r: Result<char, CssError>)
        requires
            old(self).wf(),
        ensures
            final(self).wf(),
            final(self).src() == old(self).src(),
            old(self).st().eof ==> r is Err && r->Err_0@ == gerr(old(self).st(), GKind::Eof)
                && final(self).st() == old(self).st(),
            !old(self).st().eof ==> r is Ok && r->Ok_0 == old(self).st().cur
                && final(self).st() == sk(old(self).src(), old(self).st()),
    {
        let previous = self.current;
        if self.eof {
            return Err(self.err(CssErrorKind::Eof));
        }
        self.skip();
        Ok(previous)
    }

    fn skip_ws(&mut self)
        requires
            old(self).wf(),
        ensures
            final(self).wf(),
            final(self).src() == old(self).src(),
            final(self).st() == nr_ws(old(self).src(), old(self).st()),
        decreases p_measure(old(self).src(), old(self).st()),
    {
        if !self.eof && self.is_ignored() {
            self.skip();
            self.skip_ws();
        }
    }

    fn skip_comment(&mut self)
        requires
            old(self).wf(),
        ensures
            final(self).wf(),
            final(self).src() == old(self).src(),
            final(self).st() == nr_comment(old(self).src(), old(self).st()),
        decreases p_measure(old(self).src(), old(self).st()),
    {
        if self.eof {
            return ;
        }
        self.skip();
        if self.peek() == '*' && !self.eof {
            self.skip();
            if self.peek() == '/' && !self.eof {
                self.skip();
            } else {
                self.skip_comment();
            }
        } else {
            self.skip_comment();
        }
    }

    /// Consume whitespace and comments before the next token.
    pub fn no_rubbish(&mut self)
        requires
            old(self).wf(),
        ensures
            final(self).wf(),
            final(self).src() == old(self).src(),
            final(self).st() == nr(old(self).src(), old(self).st()),
        decreases p_measure(old(self).src(), old(self).st()),
    {
        self.skip_ws();
        proof {
            lemma_nr_ws(old(self).src(), old(self).st());
        }
        if self.peek() == '/' && !self.eof {
            self.skip();
            if self.peek() == '*' && !self.eof {
                proof {
                    lemma_nr_comment(self.src(), self.st());
                }
                self.skip_comment();
                self.no_rubbish();
            }
        }
    }

    /// Consume the run of identifier-start characters at the cursor.
    fn take_first_chars(&mut self, result: &mut String)
        requires
            old(self).wf(),
        ensures
            final(self).wf(),
            final(self).src() == old(self).src(),
            final(self).st() == g_chars_while(
                old(self).src(),
                old(self).st(),
                |c: char| ident_first_ok(c),
            ).1,
            final(result)@ == old(result)@ + g_chars_while(
                old(self).src(),
                old(self).st(),
                |c: char| ident_first_ok(c),
            ).0,
        decreases p_measure(old(self).src(), old(self).st()),
    {
        let c = self.current;
        if !self.eof && (char_is_alphabetic(c) || c == '_' || c == '-') {
            result.push(c);
            self.skip();
            self.take_first_chars(result);
            proof {
                let f = |c: char| ident_first_ok(c);
                let src = old(self).src();
                let st0 = old(self).st();
                assert(old(result)@ + g_chars_while(src, st0, f).0 =~= (old(result)@.push(c))
                    + g_chars_while(src, sk(src, st0), f).0);
            }
        } else {
            proof {
                let f = |c: char| ident_first_ok(c);
                assert(!(!old(self).st().eof && f(old(self).st().cur)));
                assert(old(result)@ + g_chars_while(old(self).src(), old(self).st(), f).0
                    =~= old(result)@);
            }
        }
    }

    /// Consume the run of identifier characters at the cursor.
    fn take_rest_chars(&mut self, result: &mut String)
        requires
            old(self).wf(),
        ensures
            final(self).wf(),
            final(self).src() == old(self).src(),
            final(self).st() == g_chars_while(
                old(self).src(),
                old(self).st(),
                |c: char| ident_rest_ok(c),
            ).1,
            final(result)@ == old(result)@ + g_chars_while(
                old(self).src(),
                old(self).st(),
                |c: char| ident_rest_ok(c),
            ).0,
        decreases p_measure(old(self).src(), old(self).st()),
    {
        let c = self.current;
        if !self.eof && (char_is_alphanumeric(c) || c == '_' || c == '-') {
            result.push(c);
            self.skip();
            self.take_rest_chars(result);
            proof {
                let f = |c: char| ident_rest_ok(c);
                let src = old(self).src();
                let st0 = old(self).st();
                assert(old(result)@ + g_chars_while(src, st0, f).0 =~= (old(result)@.push(c))
                    + g_chars_while(src, sk(src, st0), f).0);
            }
        } else {
            proof {
                let f = |c: char| ident_rest_ok(c);
                assert(!(!old(self).st().eof && f(old(self).st().cur)));
                assert(old(result)@ + g_chars_while(old(self).src(), old(self).st(), f).0
                    =~= old(result)@);
            }
        }
    }

    /// An identifier: letters, `_` or `-` first, digits allowed afterwards.
    pub fn parse_ident(&mut self) -> (r: Result<String, CssError>)
        requires
            old(self).wf(),
        ensures
            final(self).wf(),
            final(self).src() == old(self).src(),
            final(self).st() == g_parse_ident(old(self).src(), old(self).st()).1,
            match (r, g_parse_ident(old(self).src(), old(self).st()).0) {
                (Ok(s), Ok(gs)) => s@ == gs,
                (Err(e), Err(ge)) => e@ == ge,
                _ => false,
            },
    {
        let mut result = String::new();
        self.take_first_chars(&mut result);
        if result.as_str().is_empty() {
            return Err(self.err(CssErrorKind::InvalidSymbolInIdent));
        }
        self.take_rest_chars(&mut result);
        self.no_rubbish();
        Ok(result)
    }

    /// Expect `ch` at the cursor and consume it.
    pub fn skip_char(&mut self, ch: char) -> (r: Result<(), CssError>)
        requires
            old(self).wf(),
        ensures
            final(self).wf(),
            final(self).src() == old(self).src(),
            final(self).st() == g_skip_char(old(self).src(), old(self).st(), ch).1,
            match (r, g_skip_char(old(self).src(), old(self).st(), ch).0) {
                (Ok(_), None) => true,
                (Err(e), Some(ge)) => e@ == ge,
                _ => false,
            },
    {
        if self.peek() == ch {
            match self.next() {
                Ok(_) => {},
                Err(e) => {
                    return Err(e);
                },
            }
            self.no_rubbish();
            Ok(())
        } else {
            Err(self.err(CssErrorKind::ExpectedCharacter(ch)))
        }
    }

    /// Consume the run of decimal digits at the cursor, accumulating their
    /// saturating value onto `val` and recording whether any digit was seen.
    fn take_digits(&mut self, val: &mut u64, got: &mut bool)
        requires
            old(self).wf(),
        ensures
            final(self).wf(),
            final(self).src() == old(self).src(),
            ({
                let (ds, fin) = g_chars_while(
                    old(self).src(),
                    old(self).st(),
                    |c: char| is_digit10(c),
                );
                &&& final(self).st() == fin
                &&& *final(got) == (*old(got) || ds.len() > 0)
                &&& *final(val) as int == dec_fold(ds, *old(val) as int)
            }),
        decreases p_measure(old(self).src(), old(self).st()),
    {
        let ghost src = old(self).src();
        let ghost st0 = old(self).st();
        let ghost f = |c: char| is_digit10(c);
        let c = self.current;
        if !self.eof && '0' <= c && c <= '9' {
            let d: u64 = (c as u32 - 48) as u64;
            let v1 = match val.checked_mul(10) {
                Some(v) => v,
                None => u64::MAX,
            };
            let v2 = match v1.checked_add(d) {
                Some(v) => v,
                None => u64::MAX,
            };
            proof {
                assert(v2 as int == dec_step(*old(val) as int, d2i(c)));
            }
            *val = v2;
            *got = true;
            self.skip();
            self.take_digits(val, got);
            proof {
                let (ds, _fin) = g_chars_while(src, st0, f);
                let (ds_rest, _fin2) = g_chars_while(src, sk(src, st0), f);
                assert(ds =~= seq![c] + ds_rest);
                assert(ds.drop_first() =~= ds_rest);
                assert(ds[0] == c);
            }
        }
    }

    /// A number: optional minus sign, digits, optional dot, digits; its
    /// value in whole pixels, clamped into `i64`.
    pub fn parse_number(&mut self) -> (r: Result<i64, CssError>)
        requires
            old(self).wf(),
        ensures
            final(self).wf(),
            final(self).src() == old(self).src(),
            final(self).st() == g_parse_number(old(self).src(), old(self).st()).1,
            match (r, g_parse_number(old(self).src(), old(self).st()).0) {
                (Ok(v), Ok(gv)) => v as int == gv,
                (Err(e), Err(ge)) => e@ == ge,
                _ => false,
            },
    {
        let mut neg = false;
        if self.peek() == '-' {
            match self.next() {
                Ok(_) => {},
                Err(e) => {
                    return Err(e);
                },
            }
            neg = true;
        }
        let mut val: u64 = 0;
        let mut got1 = false;
        self.take_digits(&mut val, &mut got1);
        if self.peek() == '.' {
            match self.next() {
                Ok(_) => {},
                Err(e) => {
                    return Err(e);
                },
            }
        }
        let mut frac: u64 = 0;
        let mut got2 = false;
        self.take_digits(&mut frac, &mut got2);
        if !got1 && !got2 {
            return Err(self.err(CssErrorKind::InvalidNumber));
        }
        self.no_rubbish();
        let v: i64 = if neg {
            if val >= 9223372036854775808u64 {
                i64::MIN
            } else {
                -(val as i64)
            }
        } else {
            if val > 9223372036854775807u64 {
                i64::MAX
            } else {
                val as i64
            }
        };
        Ok(v)
    }

    /// A selector atom: `.class`, `#id` or a bare tag name.
    pub fn parse_selector_atomic(&mut self) -> (r: Result<CssSimpleSelector, CssError>)
        requires
            old(self).wf(),
        ensures
            final(self).wf(),
            final(self).src() == old(self).src(),
            final(self).st() == g_sel_atomic(old(self).src(), old(self).st()).1,
            match (r, g_sel_atomic(old(self).src(), old(self).st()).0) {
                (Ok(s), Ok(gs)) => s@ == gs,
                (Err(e), Err(ge)) => e@ == ge,
                _ => false,
            },
    {
        let c = self.peek();
        if c == '.' {
            match self.next() {
                Ok(_) => {},
                Err(e) => {
                    return Err(e);
                },
            }
            match self.parse_ident() {
                Ok(id) => Ok(CssSimpleSelector::Class(id)),
                Err(e) => Err(e),
            }
        } else if c == '#' {
            match self.next() {
                Ok(_) => {},
                Err(e) => {
                    return Err(e);
                },
            }
            match self.parse_ident() {
                Ok(id) => Ok(CssSimpleSelector::Id(id)),
                Err(e) => Err(e),
            }
        } else {
            match self.parse_ident() {
                Ok(id) => Ok(CssSimpleSelector::Tag(id)),
                Err(e) => Err(e),
            }
        }
    }

    /// Further `.`/`#` atoms of a composite selector.
    fn composite_more(&mut self, sels: &mut Vec<CssSimpleSelector>) -> (r: Result<(), CssError>)
        requires
            old(self).wf(),
        ensures
            final(self).wf(),
            final(self).src() == old(self).src(),
            ({
                let (gr, gst) = g_composite_more(
                    old(self).src(),
                    old(self).st(),
                    old(sels)@.map_values(|s: CssSimpleSelector| s@),
                );
                &&& final(self).st() == gst
                &&& match (r, gr) {
                    (Ok(_), Ok(gs)) => final(sels)@.map_values(|s: CssSimpleSelector| s@) == gs,
                    (Err(e), Err(ge)) => e@ == ge,
                    _ => false,
                }
            }),
        decreases p_measure(old(self).src(), old(self).st()),
    {
        let c = self.peek();
        if c == '.' || c == '#' {
            let ghost st0 = self.st();
            match self.parse_selector_atomic() {
                Ok(a) => {
                    let ghost acc0 = sels@.map_values(|s: CssSimpleSelector| s@);
                    let ghost av = a@;
                    sels.push(a);
                    proof {
                        lemma_g_sel_atomic(old(self).src(), st0);
                        assert(sels@.map_values(|s: CssSimpleSelector| s@) =~= acc0.push(av));
                    }
                    self.composite_more(sels)
                },
                Err(e) => Err(e),
            }
        } else {
            Ok(())
        }
    }

    /// A composite selector: one or more atoms, all of which must match.
    pub fn parse_composite_selector(&mut self) -> (r: Result<CssCompositeSelector, CssError>)
        requires
            old(self).wf(),
        ensures
            final(self).wf(),
            final(self).src() == old(self).src(),
            final(self).st() == g_composite(old(self).src(), old(self).st()).1,
            match (r, g_composite(old(self).src(), old(self).st()).0) {
                (Ok(s), Ok(gs)) => s@ == gs,
                (Err(e), Err(ge)) => e@ == ge,
                _ => false,
            },
    {
        let first = match self.parse_selector_atomic() {
            Ok(a) => a,
            Err(e) => {
                return Err(e);
            },
        };
        let ghost fv = first@;
        let mut sels: Vec<CssSimpleSelector> = Vec::new();
        sels.push(first);
        proof {
            assert(sels@.map_values(|s: CssSimpleSelector| s@) =~= seq![fv]);
        }
        match self.composite_more(&mut sels) {
            Ok(_) => Ok(CssCompositeSelector { sels }),
            Err(e) => Err(e),
        }
    }

    /// Further comma-separated composites of a selector group.
    fn multiple_more(&mut self, sels: &mut Vec<CssCompositeSelector>) -> (r: Result<
        (),
        CssError,
    >)
        requires
            old(self).wf(),
        ensures
            final(self).wf(),
            final(self).src() == old(self).src(),
            ({
                let (gr, gst) = g_multiple_more(
                    old(self).src(),
                    old(self).st(),
                    old(sels)@.map_values(|s: CssCompositeSelector| s@),
                );
                &&& final(self).st() == gst
                &&& match (r, gr) {
                    (Ok(_), Ok(gs)) => final(sels)@.map_values(|s: CssCompositeSelector| s@)
                        == gs,
                    (Err(e), Err(ge)) => e@ == ge,
                    _ => false,
                }
            }),
        decreases p_measure(old(self).src(), old(self).st()),
    {
        if self.peek() == ',' {
            let ghost st0 = self.st();
            match self.skip_char(',') {
                Ok(_) => {},
                Err(e) => {
                    return Err(e);
                },
            }
            let ghost st1 = self.st();
            match self.parse_composite_selector() {
                Ok(c) => {
                    let ghost acc0 = sels@.map_values(|s: CssCompositeSelector| s@);
                    let ghost cv = c@;
                    sels.push(c);
                    proof {
                        lemma_g_skip_char(old(self).src(), st0, ',');
                        lemma_g_composite(old(self).src(), st1);
                        assert(sels@.map_values(|s: CssCompositeSelector| s@) =~= acc0.push(cv));
                    }
                    self.multiple_more(sels)
                },
                Err(e) => Err(e),
            }
        } else {
            Ok(())
        }
    }

    /// A selector group: comma-separated composites, any of which may match.
    pub fn parse_multiple_selector(&mut self) -> (r: Result<CssVariantSelector, CssError>)
        requires
            old(self).wf(),
        ensures
            final(self).wf(),
            final(self).src() == old(self).src(),
            final(self).st() == g_multiple(old(self).src(), old(self).st()).1,
            match (r, g_multiple(old(self).src(), old(self).st()).0) {
                (Ok(s), Ok(gs)) => s@ == gs,
                (Err(e), Err(ge)) => e@ == ge,
                _ => false,
            },
    {
        let first = match self.parse_composite_selector() {
            Ok(c) => c,
            Err(e) => {
                return Err(e);
            },
        };
        let ghost fv = first@;
        let mut sels: Vec<CssCompositeSelector> = Vec::new();
        sels.push(first);
        proof {
            assert(sels@.map_values(|s: CssCompositeSelector| s@) =~= seq![fv]);
        }
        match self.multiple_more(&mut sels) {
            Ok(_) => Ok(CssVariantSelector { sels }),
            Err(e) => Err(e),
        }
    }

    /// A whole selector group, as used by the query API.
    pub fn parse_selector(&mut self) -> (r: Result<CssVariantSelector, CssError>)
        requires
            old(self).wf(),
        ensures
            final(self).wf(),
            final(self).src() == old(self).src(),
            final(self).st() == g_multiple(old(self).src(), old(self).st()).1,
            match (r, g_multiple(old(self).src(), old(self).st()).0) {
                (Ok(s), Ok(gs)) => s@ == gs,
                (Err(e), Err(ge)) => e@ == ge,
                _ => false,
            },
    {
        self.parse_multiple_selector()
    }

    /// A length parameter: a number followed by the unit `px`.
    fn parse_unit_value(&mut self) -> (r: Result<CssRuleParam, CssError>)
        requires
            old(self).wf(),
        ensures
            final(self).wf(),
            final(self).src() == old(self).src(),
            final(self).st() == g_unit_value(old(self).src(), old(self).st()).1,
            match (r, g_unit_value(old(self).src(), old(self).st()).0) {
                (Ok(p), Ok(gp)) => p@ == gp,
                (Err(e), Err(ge)) => e@ == ge,
                _ => false,
            },
    {
        let number = match self.parse_number() {
            Ok(v) => v,
            Err(e) => {
                return Err(e);
            },
        };
        let unit = match self.parse_ident() {
            Ok(u) => u,
            Err(e) => {
                return Err(e);
            },
        };
        if str_eq(unit.as_str(), "px") {
            Ok(CssRuleParam::Unit(number, CssUnit::Px))
        } else {
            Err(self.err(CssErrorKind::UnknownUnit(unit)))
        }
    }

    /// An identifier parameter: a colour keyword or an unresolved name.
    fn parse_ident_rule(&mut self) -> (r: Result<CssRuleParam, CssError>)
        requires
            old(self).wf(),
        ensures
            final(self).wf(),
            final(self).src() == old(self).src(),
            final(self).st() == g_ident_rule(old(self).src(), old(self).st()).1,
            match (r, g_ident_rule(old(self).src(), old(self).st()).0) {
                (Ok(p), Ok(gp)) => p@ == gp,
                (Err(e), Err(ge)) => e@ == ge,
                _ => false,
            },
    {
        let ident = match self.parse_ident() {
            Ok(u) => u,
            Err(e) => {
                return Err(e);
            },
        };
        if str_eq(ident.as_str(), "red") {
            Ok(CssRuleParam::Color(255, 0, 0, 255))
        } else if str_eq(ident.as_str(), "green") {
            Ok(CssRuleParam::Color(0, 255, 0, 255))
        } else if str_eq(ident.as_str(), "blue") {
            Ok(CssRuleParam::Color(0, 0, 255, 255))
        } else if str_eq(ident.as_str(), "lightblue") {
            Ok(CssRuleParam::Color(128, 128, 255, 255))
        } else if str_eq(ident.as_str(), "white") {
            Ok(CssRuleParam::Color(255, 255, 255, 255))
        } else if str_eq(ident.as_str(), "black") {
            Ok(CssRuleParam::Color(0, 0, 0, 255))
        } else if str_eq(ident.as_str(), "yellow") {
            Ok(CssRuleParam::Color(255, 255, 0, 255))
        } else {
            Ok(CssRuleParam::UnknownIdent(ident))
        }
    }

    /// Consume the run of hexadecimal digits at the cursor.
    fn take_hex_chars(&mut self, out: &mut Vec<char>)
        requires
            old(self).wf(),
        ensures
            final(self).wf(),
            final(self).src() == old(self).src(),
            final(self).st() == g_chars_while(
                old(self).src(),
                old(self).st(),
                |c: char| is_hex_digit(c),
            ).1,
            final(out)@ == old(out)@ + g_chars_while(
                old(self).src(),
                old(self).st(),
                |c: char| is_hex_digit(c),
            ).0,
        decreases p_measure(old(self).src(), old(self).st()),
    {
        let c = self.current;
        if !self.eof && (('0' <= c && c <= '9') || ('a' <= c && c <= 'f') || ('A' <= c && c
            <= 'F')) {
            out.push(c);
            self.skip();
            self.take_hex_chars(out);
            proof {
                let f = |c: char| is_hex_digit(c);
                let src = old(self).src();
                let st0 = old(self).st();
                assert(old(out)@ + g_chars_while(src, st0, f).0 =~= (old(out)@.push(c))
                    + g_chars_while(src, sk(src, st0), f).0);
            }
        } else {
            proof {
                let f = |c: char| is_hex_digit(c);
                assert(!(!old(self).st().eof && f(old(self).st().cur)));
                assert(old(out)@ + g_chars_while(old(self).src(), old(self).st(), f).0 =~= old(
                    out,
                )@);
            }
        }
    }

    /// The value of one hexadecimal digit.
    fn hex_digit_value(c: char) -> (r: u8)
        requires
            is_hex_digit(c),
        ensures
            r as int == hexval(c),
            r <= 15,
    {
        if '0' <= c && c <= '9' {
            (c as u32 - 48) as u8
        } else if 'a' <= c && c <= 'f' {
            (c as u32 - 87) as u8
        } else {
            (c as u32 - 55) as u8
        }
    }

    /// A `#rgb` / `#rgba` / `#rrggbb` / `#rrggbbaa` colour.
    pub fn parse_hex_color(&mut self) -> (r: Result<CssRuleParam, CssError>)
        requires
            old(self).wf(),
        ensures
            final(self).wf(),
            final(self).src() == old(self).src(),
            final(self).st() == g_hex_color(old(self).src(), old(self).st()).1,
            match (r, g_hex_color(old(self).src(), old(self).st()).0) {
                (Ok(p), Ok(gp)) => p@ == gp,
                (Err(e), Err(ge)) => e@ == ge,
                _ => false,
            },
    {
        match self.skip_char('#') {
            Ok(_) => {},
            Err(e) => {
                return Err(e);
            },
        }
        let ghost s0 = self.st();
        let mut hex: Vec<char> = Vec::new();
        self.take_hex_chars(&mut hex);
        proof {
            lemma_g_chars_while(old(self).src(), s0, |c: char| is_hex_digit(c));
            assert(hex@ =~= g_chars_while(old(self).src(), s0, |c: char| is_hex_digit(c)).0);
        }
        self.no_rubbish();
        let n = hex.len();
        if n == 3 {
            let r0 = Self::hex_digit_value(hex[0]);
            let g0 = Self::hex_digit_value(hex[1]);
            let b0 = Self::hex_digit_value(hex[2]);
            Ok(CssRuleParam::Color(r0 * 17, g0 * 17, b0 * 17, 255))
        } else if n == 4 {
            let r0 = Self::hex_digit_value(hex[0]);
            let g0 = Self::hex_digit_value(hex[1]);
            let b0 = Self::hex_digit_value(hex[2]);
            let a0 = Self::hex_digit_value(hex[3]);
            Ok(CssRuleParam::Color(r0 * 17, g0 * 17, b0 * 17, a0 * 17))
        } else if n == 6 {
            let rh = Self::hex_digit_value(hex[0]);
            let rl = Self::hex_digit_value(hex[1]);
            let gh = Self::hex_digit_value(hex[2]);
            let gl = Self::hex_digit_value(hex[3]);
            let bh = Self::hex_digit_value(hex[4]);
            let bl = Self::hex_digit_value(hex[5]);
            Ok(CssRuleParam::Color(rh * 16 + rl, gh * 16 + gl, bh * 16 + bl, 255))
        } else if n == 8 {
            let rh = Self::hex_digit_value(hex[0]);
            let rl = Self::hex_digit_value(hex[1]);
            let gh = Self::hex_digit_value(hex[2]);
            let gl = Self::hex_digit_value(hex[3]);
            let bh = Self::hex_digit_value(hex[4]);
            let bl = Self::hex_digit_value(hex[5]);
            let ah = Self::hex_digit_value(hex[6]);
            let al = Self::hex_digit_value(hex[7]);
            Ok(CssRuleParam::Color(rh * 16 + rl, gh * 16 + gl, bh * 16 + bl, ah * 16 + al))
        } else {
            Err(self.err(CssErrorKind::HexColorLengthMayNotBe(n)))
        }
    }

    /// One rule parameter, chosen by its first character.
    pub fn parse_value(&mut self) -> (r: Result<CssRuleParam, CssError>)
        requires
            old(self).wf(),
        ensures
            final(self).wf(),
            final(self).src() == old(self).src(),
            final(self).st() == g_value(old(self).src(), old(self).st()).1,
            match (r, g_value(old(self).src(), old(self).st()).0) {
                (Ok(p), Ok(gp)) => p@ == gp,
                (Err(e), Err(ge)) => e@ == ge,
                _ => false,
            },
    {
        let c = self.peek();
        if ('0' <= c && c <= '9') || c == '-' {
            self.parse_unit_value()
        } else if char_is_alphabetic(c) {
            self.parse_ident_rule()
        } else if c == '#' {
            self.parse_hex_color()
        } else {
            Err(self.err(CssErrorKind::InvalidRuleParameter))
        }
    }

    /// The parameters of a declaration, up to the `;`.
    fn rule_params(&mut self, params: &mut Vec<CssRuleParam>) -> (r: Result<(), CssError>)
        requires
            old(self).wf(),
        ensures
            final(self).wf(),
            final(self).src() == old(self).src(),
            ({
                let (gr, gst) = g_rule_params(
                    old(self).src(),
                    old(self).st(),
                    old(params)@.map_values(|p: CssRuleParam| p@),
                );
                &&& final(self).st() == gst
                &&& match (r, gr) {
                    (Ok(_), Ok(gs)) => final(params)@.map_values(|p: CssRuleParam| p@) == gs,
                    (Err(e), Err(ge)) => e@ == ge,
                    _ => false,
                }
            }),
        decreases p_measure(old(self).src(), old(self).st()),
    {
        if self.peek() != ';' {
            let ghost st0 = self.st();
            match self.parse_value() {
                Ok(p) => {
                    let ghost acc0 = params@.map_values(|q: CssRuleParam| q@);
                    let ghost pv = p@;
                    params.push(p);
                    proof {
                        lemma_g_value(old(self).src(), st0);
                        assert(params@.map_values(|q: CssRuleParam| q@) =~= acc0.push(pv));
                    }
                    self.rule_params(params)
                },
                Err(e) => Err(e),
            }
        } else {
            Ok(())
        }
    }

    /// A declaration: a property name, `:`, parameters, `;`.
    pub fn parse_rule(&mut self) -> (r: Result<CssRule, CssError>)
        requires
            old(self).wf(),
        ensures
            final(self).wf(),
            final(self).src() == old(self).src(),
            final(self).st() == g_rule(old(self).src(), old(self).st()).1,
            match (r, g_rule(old(self).src(), old(self).st()).0) {
                (Ok(rule), Ok(grule)) => rule@ == grule,
                (Err(e), Err(ge)) => e@ == ge,
                _ => false,
            },
    {
        let name = match self.parse_ident() {
            Ok(n) => n,
            Err(e) => {
                return Err(e);
            },
        };
        match self.skip_char(':') {
            Ok(_) => {},
            Err(e) => {
                return Err(e);
            },
        }
        let mut params: Vec<CssRuleParam> = Vec::new();
        proof {
            assert(params@.map_values(|q: CssRuleParam| q@) =~= Seq::<GParam>::empty());
        }
        match self.rule_params(&mut params) {
            Ok(_) => {},
            Err(e) => {
                return Err(e);
            },
        }
        match self.skip_char(';') {
            Ok(_) => {},
            Err(e) => {
                return Err(e);
            },
        }
        Ok(CssRule { name, params })
    }

    /// The declarations of a block, up to the closing `}`.
    fn block_rules(&mut self, rules: &mut Vec<CssRule>) -> (r: Result<(), CssError>)
        requires
            old(self).wf(),
        ensures
            final(self).wf(),
            final(self).src() == old(self).src(),
            ({
                let (gr, gst) = g_block_rules(
                    old(self).src(),
                    old(self).st(),
                    old(rules)@.map_values(|q: CssRule| q@),
                );
                &&& final(self).st() == gst
                &&& match (r, gr) {
                    (Ok(_), Ok(gs)) => final(rules)@.map_values(|q: CssRule| q@) == gs,
                    (Err(e), Err(ge)) => e@ == ge,
                    _ => false,
                }
            }),
        decreases p_measure(old(self).src(), old(self).st()),
    {
        if self.peek() != '}' {
            let ghost st0 = self.st();
            match self.parse_rule() {
                Ok(rule) => {
                    let ghost acc0 = rules@.map_values(|q: CssRule| q@);
                    let ghost rv = rule@;
                    rules.push(rule);
                    proof {
                        lemma_g_rule(old(self).src(), st0);
                        assert(rules@.map_values(|q: CssRule| q@) =~= acc0.push(rv));
                    }
                    self.block_rules(rules)
                },
                Err(e) => Err(e),
            }
        } else {
            Ok(())
        }
    }

    /// The blocks of the stylesheet, up to the end of the input.
    fn blocks_loop(&mut self, blocks: &mut Vec<CssBlock>) -> (r: Result<(), CssError>)
        requires
            old(self).wf(),
        ensures
            final(self).wf(),
            final(self).src() == old(self).src(),
            ({
                let (gr, gst) = g_blocks(
                    old(self).src(),
                    old(self).st(),
                    old(blocks)@.map_values(|b: CssBlock| b@),
                );
                &&& final(self).st() == gst
                &&& match (r, gr) {
                    (Ok(_), Ok(gs)) => final(blocks)@.map_values(|b: CssBlock| b@) == gs,
                    (Err(e), Err(ge)) => e@ == ge,
                    _ => false,
                }
            }),
        decreases p_measure(old(self).src(), old(self).st()),
    {
        if !self.eof {
            let ghost st0 = self.st();
            let selector = match self.parse_multiple_selector() {
                Ok(s) => s,
                Err(e) => {
                    return Err(e);
                },
            };
            let ghost st1 = self.st();
            match self.skip_char('{') {
                Ok(_) => {},
                Err(e) => {
                    return Err(e);
                },
            }
            let mut rules: Vec<CssRule> = Vec::new();
            proof {
                assert(rules@.map_values(|q: CssRule| q@) =~= Seq::<GRule>::empty());
            }
            match self.block_rules(&mut rules) {
                Ok(_) => {},
                Err(e) => {
                    return Err(e);
                },
            }
            let ghost st3 = self.st();
            match self.skip_char('}') {
                Ok(_) => {},
                Err(e) => {
                    return Err(e);
                },
            }
            let ghost acc0 = blocks@.map_values(|b: CssBlock| b@);
            let ghost bsel = selector@;
            let ghost brules = rules@.map_values(|q: CssRule| q@);
            blocks.push(CssBlock { rules, selector });
            proof {
                lemma_g_multiple(old(self).src(), st0);
                lemma_g_skip_char(old(self).src(), st1, '{');
                lemma_g_block_rules(
                    old(self).src(),
                    g_skip_char(old(self).src(), st1, '{').1,
                    Seq::<GRule>::empty(),
                );
                lemma_g_skip_char(old(self).src(), st3, '}');
                assert(blocks@.map_values(|b: CssBlock| b@) =~= acc0.push(
                    GBlock { selector: bsel, rules: brules },
                ));
            }
            self.blocks_loop(blocks)
        } else {
            Ok(())
        }
    }

    /// The whole stylesheet: every block, until the end of the input.
    pub fn parse(&mut self) -> (r: Result<Css, CssError>)
        requires
            old(self).wf(),
        ensures
            final(self).wf(),
            final(self).src() == old(self).src(),
            final(self).st() == g_parse(old(self).src(), old(self).st()).1,
            match (r, g_parse(old(self).src(), old(self).st()).0) {
                (Ok(css), Ok(gcss)) => css@ == gcss,
                (Err(e), Err(ge)) => e@ == ge,
                _ => false,
            },
    {
        let mut blocks: Vec<CssBlock> = Vec::new();
        proof {
            assert(blocks@.map_values(|b: CssBlock| b@) =~= Seq::<GBlock>::empty());
        }
        match self.blocks_loop(&mut blocks) {
            Ok(_) => Ok(Css { blocks }),
            Err(e) => Err(e),
        }
    }

    /// Declarations until the end of the input, as an inline `style`
    /// attribute holds them; the first malformed one ends the list.
    fn inline_rules(&mut self, rules: &mut Vec<CssRule>)
        requires
            old(self).wf(),
        ensures
            final(self).wf(),
            final(self).src() == old(self).src(),
            final(rules)@.map_values(|q: CssRule| q@) == g_inline_rules(
                old(self).src(),
                old(self).st(),
                old(rules)@.map_values(|q: CssRule| q@),
            ),
        decreases p_measure(old(self).src(), old(self).st()),
    {
        if !self.eof {
            let ghost st0 = self.st();
            match self.parse_rule() {
                Ok(rule) => {
                    let ghost acc0 = rules@.map_values(|q: CssRule| q@);
                    let ghost rv = rule@;
                    rules.push(rule);
                    proof {
                        lemma_g_rule(old(self).src(), st0);
                        assert(rules@.map_values(|q: CssRule| q@) =~= acc0.push(rv));
                    }
                    self.inline_rules(rules);
                },
                Err(_) => {},
            }
        }
    }

    /// Parses a whole string as a bare declaration list.
    pub fn parse_inline(source: &str) -> (r: Vec<CssRule>)
        ensures
            r@.map_values(|q: CssRule| q@) == g_parse_inline(source@),
    {
        let mut p = CssParser::new(source);
        let mut rules: Vec<CssRule> = Vec::new();
        proof {
            assert(rules@.map_values(|q: CssRule| q@) =~= Seq::<GRule>::empty());
        }
        p.inline_rules(&mut rules);
        rules
    }

    /// The characters not yet consumed (those past the lookahead).
    pub fn rest_chars(&self) -> (r: Vec<char>)
        requires
            self.wf(),
        ensures
            r@ == self.src().skip(self.st().pos),
    {
        let mut r: Vec<char> = Vec::new();
        let mut i: usize = self.pos;
        while i < self.src.len()
            invariant
                self.st().pos <= i <= self.src().len(),
                r@ == self.src().subrange(self.st().pos, i as int),
            decreases self.src().len() - i,
        {
            r.push(self.src[i]);
            proof {
                assert(r@ =~= self.src().subrange(self.st().pos, i + 1));
            }
            i += 1;
        }
        proof {
            assert(r@ =~= self.src().skip(self.st().pos));
        }
        r
    }

    /// A parser over `source`, positioned at the first significant
    /// character.
    pub fn new(source: &str) -> (p: CssParser)
        ensures
            p.wf(),
            p.src() == source@,
            p.st() == nr(
                source@,
                PState { pos: 0, cur: ' ', line: 0, col: 0, eof: false },
            ),
    {
        let src = chars_of(source);
        let mut this = CssParser { src, pos: 0, current: ' ', line: 0, col: 0, eof: false };
        this.no_rubbish();
        this
    }
}

} // verus!
