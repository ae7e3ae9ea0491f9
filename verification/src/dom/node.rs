//! Document nodes: a text run, or an element with a tag, attributes and a
//! style record. Classes and the id are read straight off the attributes.

use vstd::prelude::*;

use crate::dom_repr::{assoc_get, attrs_view, strs_view};
use crate::style::element_style::ElementStyle;
use crate::util::{first_token, first_until_whitespace};

verus! {

/// Attributes of an element, as name/value pairs.
pub type ElementAttributes = Vec<(String, String)>;

/// An element: its tag, its attributes and its resolved styles.
#[derive(Debug)]
pub struct Element {
    pub styles: ElementStyle,
    pub tag_name: String,
    pub attributes: ElementAttributes,
}

/// The classes named by a `class` attribute value: its space-separated
/// tokens.
pub open spec fn g_class_tokens(attrs: Seq<(Seq<char>, Seq<char>)>) -> Seq<Seq<char>> {
    match assoc_get(attrs, "class"@) {
        Some(v) => crate::util::ws_tokens(v),
        None => Seq::empty(),
    }
}

impl Element {
    pub fn new(tag_name: String, attributes: ElementAttributes) -> (r: Element)
        ensures
            r.tag_name == tag_name,
            r.attributes == attributes,
            r.styles == (ElementStyle {
                padding: None,
                margin: None,
                background_color: None,
                color: None,
            }),
    {
        Element {
            tag_name,
            attributes,
            styles: ElementStyle {
                padding: None,
                margin: None,
                background_color: None,
                color: None,
            },
        }
    }

    pub fn get_tag_name(&self) -> (r: &str)
        ensures
            r@ == self.tag_name@,
    {
        self.tag_name.as_str()
    }

    /// The first token of the `id` attribute, if the attribute is there.
    pub fn get_id(&self) -> (r: Option<String>)
        ensures
            match r {
                Some(s) => exists|v: Seq<char>|
                    assoc_get(attrs_view(self.attributes@), "id"@) == Some(v) && s@ == first_token(
                        v,
                    ),
                None => assoc_get(attrs_view(self.attributes@), "id"@) is None,
            },
    {
        let mut i: usize = 0;
        while i < self.attributes.len()
            invariant
                i <= self.attributes@.len(),
                assoc_get(attrs_view(self.attributes@), "id"@) == crate::dom_repr::assoc_get_from(
                    attrs_view(self.attributes@),
                    "id"@,
                    i as int,
                ),
            decreases self.attributes@.len() - i,
        {
            if crate::util::str_eq(self.attributes[i].0.as_str(), "id") {
                proof {
                    assert(attrs_view(self.attributes@)[i as int].0 == "id"@);
                }
                return Some(first_until_whitespace(self.attributes[i].1.as_str()));
            }
            proof {
                assert(attrs_view(self.attributes@)[i as int].0 == self.attributes@[i as int].0@);
            }
            i += 1;
        }
        None
    }

    /// The classes of the element, as a set: the space-separated tokens of
    /// its `class` attribute, first occurrences kept in order.
    pub fn get_class_list(&self) -> (r: Vec<String>)
        ensures
            ({
                let toks = g_class_tokens(attrs_view(self.attributes@));
                strs_view(r@) == crate::dom_repr::dedup_prefix(toks, toks.len() as int)
            }),
    {
        let mut i: usize = 0;
        while i < self.attributes.len()
            invariant
                i <= self.attributes@.len(),
                assoc_get(attrs_view(self.attributes@), "class"@)
                    == crate::dom_repr::assoc_get_from(
                    attrs_view(self.attributes@),
                    "class"@,
                    i as int,
                ),
            decreases self.attributes@.len() - i,
        {
            if crate::util::str_eq(self.attributes[i].0.as_str(), "class") {
                proof {
                    assert(attrs_view(self.attributes@)[i as int].0 == "class"@);
                }
                let toks = crate::util::split_by_whitespace_trimmed(
                    self.attributes[i].1.as_str(),
                );
                return crate::dom_repr::dedup_strings(&toks);
            }
            proof {
                assert(attrs_view(self.attributes@)[i as int].0 == self.attributes@[i as int].0@);
            }
            i += 1;
        }
        let r: Vec<String> = Vec::new();
        proof {
            assert(strs_view(r@) =~= Seq::<Seq<char>>::empty());
        }
        r
    }
}

/// A node: a text run or an element.
#[derive(Debug)]
pub enum Node {
    Text(String),
    Element(Element),
}

impl Node {
    /// The text, for a text node.
    pub fn as_text(&self) -> (r: Option<&str>)
        ensures
            match r {
                Some(t) => self is Text && t@ == self->Text_0@,
                None => !(self is Text),
            },
    {
        if let Node::Text(text) = self {
            return Some(text.as_str());
        }
        None
    }

    /// The element, for an element node.
    pub fn as_element(&self) -> (r: Option<&Element>)
        ensures
            match r {
                Some(e) => self is Element && *e == self->Element_0,
                None => !(self is Element),
            },
    {
        if let Node::Element(el) = self {
            return Some(el);
        }
        None
    }

    /// Mutable access to the element, for an element node.
    pub fn as_element_mut(&mut self) -> (r: Option<&mut Element>)
        ensures
            match r {
                Some(e) => *old(self) is Element && *e == (*old(self))->Element_0 && *final(self)
                    == Node::Element(*final(e)),
                None => !(*old(self) is Element) && *final(self) == *old(self),
            },
    {
        if let Node::Element(el) = self {
            return Some(el);
        }
        None
    }
}

} // verus!
