//! The DOM: element and text nodes held in a slot arena, built from a
//! stream of markup events. The streaming reader of the `xml` crate
//! produces the events behind trusted wrappers; everything that consumes
//! them — tree construction, attribute post-processing and the query
//! helpers — is verified against a ghost mirror of the builder.

use vstd::prelude::*;
use vstd::string::*;

use crate::atoms::Id;
use crate::bucket_array::BucketArray;
use crate::util::{first_token, ws_tokens};

verus! {

/// The ghost value of a string pair list.
pub open spec fn attrs_view(m: Seq<(String, String)>) -> Seq<(Seq<char>, Seq<char>)> {
    m.map_values(|p: (String, String)| (p.0@, p.1@))
}

/// The ghost value of a string list.
pub open spec fn strs_view(m: Seq<String>) -> Seq<Seq<char>> {
    m.map_values(|c: String| c@)
}

/// The ghost value of an event list.
pub open spec fn events_view(m: Seq<MarkupEvent>) -> Seq<GEvent> {
    m.map_values(|e: MarkupEvent| e@)
}

// ---------------------------------------------------------------------------
// Markup events
// ---------------------------------------------------------------------------
/// One event of the markup stream, reduced to plain values.
pub enum MarkupEvent {
    /// An opening tag with its raw attributes.
    Start { name: String, attrs: Vec<(String, String)> },
    /// A closing tag.
    End,
    /// A run of character data.
    Text(String),
    /// Anything else the reader reports (declarations, comments, …).
    Other,
    /// The end of the document; the reader repeats it forever afterwards.
    EndOfDocument,
    /// A reader failure, with its native diagnostic.
    Failed(String),
}

#[verifier::ext_equal]
pub ghost enum GEvent {
    Start(Seq<char>, Seq<(Seq<char>, Seq<char>)>),
    End,
    Text(Seq<char>),
    Other,
    EndOfDocument,
    Failed(Seq<char>),
}

impl View for MarkupEvent {
    type V = GEvent;

    open spec fn view(&self) -> GEvent {
        match self {
            MarkupEvent::Start { name, attrs } => GEvent::Start(name@, attrs_view(attrs@)),
            MarkupEvent::End => GEvent::End,
            MarkupEvent::Text(t) => GEvent::Text(t@),
            MarkupEvent::Other => GEvent::Other,
            MarkupEvent::EndOfDocument => GEvent::EndOfDocument,
            MarkupEvent::Failed(m) => GEvent::Failed(m@),
        }
    }
}

/// Holds the `xml` crate's pull parser over the document bytes. Opaque to
/// the verifier: the reader's `Read` bound cannot be declared, so the
/// whole struct is held behind `external_body` and touched only through
/// the wrappers below.
#[verifier::external_body]
struct MarkupReader {
    inner: xml::reader::EventReader<std::io::Cursor<Vec<u8>>>,
}

/// The events the `xml` pull parser yields for the given document bytes,
/// up to and including the first end-of-document or failure event. The
/// parse depends on the bytes alone.
pub uninterp spec fn markup_events(bytes: Seq<u8>) -> Seq<GEvent>;

/// The events a reader has yet to yield; the final one repeats forever.
pub uninterp spec fn reader_rest(r: MarkupReader) -> Seq<GEvent>;

/// Relies on xml::reader::EventReader::new: a pull parser that will yield
/// exactly the events of the bytes. The stream is finite, its last event
/// is the first end-of-document or failure, and no earlier event is one.
#[verifier::external_body]
fn reader_new(bytes: Vec<u8>) -> (r: MarkupReader)
    ensures
        reader_rest(r) == markup_events(bytes@),
        reader_rest(r).len() > 0,
        (reader_rest(r).last() is EndOfDocument || reader_rest(r).last() is Failed),
        forall|j: int|
            0 <= j < reader_rest(r).len() - 1 ==> !((#[trigger] reader_rest(r)[j])
                is EndOfDocument || reader_rest(r)[j] is Failed),
{
    MarkupReader { inner: xml::reader::EventReader::new(std::io::Cursor::new(bytes)) }
}

/// Relies on xml::reader::EventReader::next: yields the head of the
/// remaining stream, repeating the final event once the stream is down to
/// it (the reader's documentation: after an error or the end of the
/// document, further calls return that event again). The event variants
/// are told apart one arm each, their fields moved out; an opening tag's
/// qualified name and attribute pairs become strings, a failure its
/// diagnostic.
#[verifier::external_body]
fn next_event(reader: &mut MarkupReader) -> (ev: MarkupEvent)
    ensures
        reader_rest(*old(reader)).len() > 0 ==> ev@ == reader_rest(*old(reader))[0],
        reader_rest(*old(reader)).len() > 1 ==> reader_rest(*final(reader)) == reader_rest(
            *old(reader),
        ).drop_first(),
        reader_rest(*old(reader)).len() <= 1 ==> reader_rest(*final(reader)) == reader_rest(
            *old(reader),
        ),
{
    match reader.inner.next() {
        Ok(xml::reader::XmlEvent::StartElement { name, attributes, .. }) => MarkupEvent::Start {
            name: name.to_string(),
            attrs: attributes.iter().map(|a| (a.name.to_string(), a.value.clone())).collect(),
        },
        Ok(xml::reader::XmlEvent::EndElement { .. }) => MarkupEvent::End,
        Ok(xml::reader::XmlEvent::EndDocument) => MarkupEvent::EndOfDocument,
        Ok(xml::reader::XmlEvent::Characters(t)) => MarkupEvent::Text(t),
        Ok(_) => MarkupEvent::Other,
        Err(e) => MarkupEvent::Failed(e.to_string()),
    }
}

/// The event stream of a document source: the named parse of its UTF-8
/// bytes.
pub open spec fn doc_events(s: Seq<char>) -> Seq<GEvent> {
    markup_events(vstd::utf8::encode_utf8(s))
}

/// Reads the whole event stream of the source: every event up to and
/// including the first end-of-document or failure.
fn collect_events(source: &str) -> (events: Vec<MarkupEvent>)
    ensures
        events_view(events@) == doc_events(source@),
        events@.len() > 0,
        (events@.last()@ is EndOfDocument || events@.last()@ is Failed),
{
    let bytes = source.as_bytes_vec();
    let mut reader = reader_new(bytes);
    let ghost stream = doc_events(source@);
    let mut events: Vec<MarkupEvent> = Vec::new();
    loop
        invariant
            stream == doc_events(source@),
            stream.len() > 0,
            (stream.last() is EndOfDocument || stream.last() is Failed),
            forall|j: int|
                0 <= j < stream.len() - 1 ==> !((#[trigger] stream[j]) is EndOfDocument
                    || stream[j] is Failed),
            events@.len() < stream.len(),
            events_view(events@) == stream.take(events@.len() as int),
            reader_rest(reader) == stream.skip(events@.len() as int),
        decreases reader_rest(reader).len(),
    {
        let ghost pre = events_view(events@);
        let ghost n0 = events@.len() as int;
        let ev = next_event(&mut reader);
        let ghost gev = ev@;
        proof {
            assert(stream.skip(n0).len() > 0);
            assert(stream.skip(n0)[0] == stream[n0]);
            assert(gev == stream[n0]);
        }
        match ev {
            MarkupEvent::EndOfDocument => {
                events.push(MarkupEvent::EndOfDocument);
                proof {
                    assert(events_view(events@) =~= pre.push(GEvent::EndOfDocument));
                    assert(stream[n0] is EndOfDocument);
                    assert(n0 == stream.len() - 1);
                    assert(events_view(events@) =~= stream);
                }
                return events;
            },
            MarkupEvent::Failed(m) => {
                events.push(MarkupEvent::Failed(m));
                proof {
                    assert(gev is Failed);
                    assert(events_view(events@) =~= pre.push(gev));
                    assert(n0 == stream.len() - 1);
                    assert(events_view(events@) =~= stream);
                }
                return events;
            },
            other => {
                events.push(other);
                proof {
                    assert(events_view(events@) =~= pre.push(gev));
                    assert(!(stream[n0] is EndOfDocument || stream[n0] is Failed));
                    assert(n0 < stream.len() - 1);
                    assert(events_view(events@) =~= stream.take(n0 + 1));
                    assert(stream.skip(n0).drop_first() =~= stream.skip(n0 + 1));
                }
            },
        }
    }
}

// ---------------------------------------------------------------------------
// DOM nodes
// ---------------------------------------------------------------------------
/// An element: its tag, raw attributes, extracted classes and id, and its
/// children in document order.
#[derive(Debug)]
pub struct Element {
    pub tag: String,
    pub attrs: Vec<(String, String)>,
    pub class_list: Vec<String>,
    pub id: Option<String>,
    pub children: Vec<Id>,
    pub parent: Option<Id>,
}

#[derive(Debug)]
pub struct Text {
    pub text: String,
}

#[derive(Debug)]
pub enum DomComponent {
    Text(Text),
    Element(Element),
}

#[verifier::ext_equal]
pub ghost struct GDomElement {
    pub tag: Seq<char>,
    pub attrs: Seq<(Seq<char>, Seq<char>)>,
    pub class_list: Seq<Seq<char>>,
    pub id: Option<Seq<char>>,
    pub children: Seq<Id>,
    pub parent: Option<Id>,
}

#[verifier::ext_equal]
pub ghost enum GDom {
    Text(Seq<char>),
    Element(GDomElement),
}

impl View for Element {
    type V = GDomElement;

    open spec fn view(&self) -> GDomElement {
        GDomElement {
            tag: self.tag@,
            attrs: attrs_view(self.attrs@),
            class_list: strs_view(self.class_list@),
            id: match self.id {
                Some(s) => Some(s@),
                None => None,
            },
            children: self.children@,
            parent: self.parent,
        }
    }
}

impl View for DomComponent {
    type V = GDom;

    open spec fn view(&self) -> GDom {
        match self {
            DomComponent::Text(t) => GDom::Text(t.text@),
            DomComponent::Element(e) => GDom::Element(e@),
        }
    }
}

impl Element {
    /// The raw value of an attribute, if the tag carried it.
    pub fn get_attribute(&self, name: &str) -> (r: Option<&String>)
        ensures
            match r {
                Some(v) => assoc_get(self@.attrs, name@) == Some(v@),
                None => assoc_get(self@.attrs, name@) is None,
            },
    {
        let mut i: usize = 0;
        while i < self.attrs.len()
            invariant
                i <= self.attrs@.len(),
                forall|j: int| 0 <= j < i ==> self@.attrs[j].0 != name@,
                assoc_get(self@.attrs, name@) == assoc_get_from(self@.attrs, name@, i as int),
            decreases self.attrs@.len() - i,
        {
            if crate::util::str_eq(self.attrs[i].0.as_str(), name) {
                return Some(&self.attrs[i].1);
            }
            i += 1;
        }
        None
    }
}

/// The value under `key` in an association list, first match.
pub open spec fn assoc_get_from(
    attrs: Seq<(Seq<char>, Seq<char>)>,
    key: Seq<char>,
    k: int,
) -> Option<Seq<char>>
    decreases attrs.len() - k,
{
    if 0 <= k < attrs.len() {
        if attrs[k].0 == key {
            Some(attrs[k].1)
        } else {
            assoc_get_from(attrs, key, k + 1)
        }
    } else {
        None
    }
}

pub open spec fn assoc_get(attrs: Seq<(Seq<char>, Seq<char>)>, key: Seq<char>) -> Option<
    Seq<char>,
> {
    assoc_get_from(attrs, key, 0)
}

/// The association list without the entries under `key`, from index `k` on.
pub open spec fn assoc_remove_from(
    attrs: Seq<(Seq<char>, Seq<char>)>,
    key: Seq<char>,
    k: int,
) -> Seq<(Seq<char>, Seq<char>)>
    decreases attrs.len() - k,
{
    if 0 <= k < attrs.len() {
        if attrs[k].0 == key {
            assoc_remove_from(attrs, key, k + 1)
        } else {
            seq![attrs[k]] + assoc_remove_from(attrs, key, k + 1)
        }
    } else {
        Seq::empty()
    }
}

pub open spec fn assoc_remove(attrs: Seq<(Seq<char>, Seq<char>)>, key: Seq<char>) -> Seq<
    (Seq<char>, Seq<char>),
> {
    assoc_remove_from(attrs, key, 0)
}

/// The list with the value under `key` replaced, or appended when absent;
/// `j` is the scan position.
pub open spec fn assoc_set(
    m: Seq<(Seq<char>, Seq<char>)>,
    key: Seq<char>,
    v: Seq<char>,
    j: int,
) -> Seq<(Seq<char>, Seq<char>)>
    decreases m.len() - j,
{
    if 0 <= j < m.len() {
        if m[j].0 == key {
            m.update(j, (key, v))
        } else {
            assoc_set(m, key, v, j + 1)
        }
    } else {
        m.push((key, v))
    }
}

/// The attribute map of an opening tag: its pairs folded in order, a later
/// duplicate overriding an earlier one (as a hash-map collect keeps the
/// last value).
pub open spec fn g_attrs_build(
    pairs: Seq<(Seq<char>, Seq<char>)>,
    k: int,
    acc: Seq<(Seq<char>, Seq<char>)>,
) -> Seq<(Seq<char>, Seq<char>)>
    decreases pairs.len() - k,
{
    if 0 <= k < pairs.len() {
        g_attrs_build(pairs, k + 1, assoc_set(acc, pairs[k].0, pairs[k].1, 0))
    } else {
        acc
    }
}

/// The classes of a token list, first occurrences kept in order.
pub open spec fn dedup_prefix(ts: Seq<Seq<char>>, k: int) -> Seq<Seq<char>>
    decreases k,
{
    if k <= 0 {
        Seq::empty()
    } else {
        let d = dedup_prefix(ts, k - 1);
        if d.contains(ts[k - 1]) {
            d
        } else {
            d.push(ts[k - 1])
        }
    }
}

/// Deduplication keeps membership: the set of tokens is unchanged.
pub proof fn lemma_dedup_contains(ts: Seq<Seq<char>>, k: int)
    requires
        0 <= k <= ts.len(),
    ensures
        forall|x: Seq<char>|
            #[trigger] dedup_prefix(ts, k).contains(x) <==> ts.take(k).contains(x),
    decreases k,
{
    broadcast use vstd::seq_lib::group_seq_properties;

    if k > 0 {
        lemma_dedup_contains(ts, k - 1);
        let d1 = dedup_prefix(ts, k - 1);
        let d = dedup_prefix(ts, k);
        assert(ts.take(k).drop_last() =~= ts.take(k - 1));
        assert forall|x: Seq<char>| #[trigger] d.contains(x) implies ts.take(k).contains(x) by {
            if d1.contains(x) {
                let i = choose|i: int| 0 <= i < ts.take(k - 1).len() && (#[trigger] ts.take(k - 1)[i]) == x;
                assert(ts.take(k)[i] == x);
            } else {
                let j = choose|j: int| 0 <= j < d.len() && d[j] == x;
                assert(j == d1.len());
                assert(x == ts[k - 1]);
                assert(ts.take(k)[k - 1] == x);
            }
        }
        assert forall|x: Seq<char>| ts.take(k).contains(x) implies #[trigger] d.contains(x) by {
            let i = choose|i: int| 0 <= i < ts.take(k).len() && (#[trigger] ts.take(k)[i]) == x;
            if i < k - 1 {
                assert(ts.take(k - 1)[i] == x);
                assert(d1.contains(x));
                if !d1.contains(ts[k - 1]) {
                    let j = choose|j: int| 0 <= j < d1.len() && d1[j] == x;
                    assert(d[j] == x);
                }
            } else {
                assert(x == ts[k - 1]);
                if d1.contains(x) {
                } else {
                    assert(d[d1.len() as int] == x);
                }
            }
        }
    } else {
        assert(ts.take(0) =~= Seq::<Seq<char>>::empty());
    }
}

/// The attribute post-pass on one element: `class` splits into the class
/// list, the first token of `id` becomes the id (or none when empty), and
/// both keys leave the attribute map.
pub open spec fn g_post_elem(e: GDomElement) -> GDomElement {
    let classes = match assoc_get(e.attrs, "class"@) {
        Some(v) => v,
        None => Seq::empty(),
    };
    let idv = match assoc_get(e.attrs, "id"@) {
        Some(v) => v,
        None => Seq::empty(),
    };
    let toks = ws_tokens(classes);
    GDomElement {
        tag: e.tag,
        attrs: assoc_remove(assoc_remove(e.attrs, "class"@), "id"@),
        class_list: dedup_prefix(toks, toks.len() as int),
        id: if first_token(idv).len() == 0 {
            None
        } else {
            Some(first_token(idv))
        },
        children: e.children,
        parent: e.parent,
    }
}

/// The post-pass over every element slot; text slots are untouched.
pub open spec fn g_post(slots: Seq<GDom>, k: int) -> Seq<GDom>
    decreases slots.len() - k,
{
    if 0 <= k < slots.len() {
        let s1 = match slots[k] {
            GDom::Element(e) => slots.update(k, GDom::Element(g_post_elem(e))),
            GDom::Text(t) => slots,
        };
        g_post(s1, k + 1)
    } else {
        slots
    }
}

// ---------------------------------------------------------------------------
// Building the tree from events
// ---------------------------------------------------------------------------
/// Why a document could not be built: the reader's native diagnostic, or a
/// wrong number of top-level elements.
#[derive(Debug)]
pub enum DomError {
    Reader(String),
    RootCount(usize),
}

pub ghost enum GDomError {
    Reader(Seq<char>),
    RootCount(int),
}

impl View for DomError {
    type V = GDomError;

    open spec fn view(&self) -> GDomError {
        match self {
            DomError::Reader(m) => GDomError::Reader(m@),
            DomError::RootCount(n) => GDomError::RootCount(*n as int),
        }
    }
}

/// The children list of a slot; empty for text.
pub open spec fn g_children(d: GDom) -> Seq<Id> {
    match d {
        GDom::Element(e) => e.children,
        GDom::Text(t) => Seq::empty(),
    }
}

/// Every element's children lie strictly between its own index and the end
/// of the arena: children are inserted after their parent.
pub open spec fn dom_ok(slots: Seq<GDom>) -> bool {
    forall|i: int, k: int|
        0 <= i < slots.len() && 0 <= k < g_children(#[trigger] slots[i]).len() ==> i < (
        #[trigger] g_children(slots[i])[k] as int) < slots.len()
}

/// One level of the event stream, starting at `pos`: nodes until the
/// closing tag (or the end of the document), inserted into `slots`.
/// Returns the ids of that level, the position after the consumed events
/// and the grown arena.
pub open spec fn g_parse_elements(
    events: Seq<GEvent>,
    pos: int,
    slots: Seq<GDom>,
    parent: Option<Id>,
) -> (Result<Seq<Id>, GDomError>, int, Seq<GDom>)
    decreases events.len() - pos, 0nat,
{
    if 0 <= pos < events.len() {
        match events[pos] {
            GEvent::Start(name, rawattrs) => {
                let id = slots.len() as int;
                let el = GDomElement {
                    tag: name,
                    attrs: g_attrs_build(rawattrs, 0, Seq::empty()),
                    class_list: Seq::empty(),
                    id: None,
                    children: Seq::empty(),
                    parent,
                };
                let slots1 = slots.push(GDom::Element(el));
                let (r, p2, slots2) = g_parse_elements(
                    events,
                    pos + 1,
                    slots1,
                    Some(id as Id),
                );
                match r {
                    Err(e) => (Err(e), p2, slots2),
                    Ok(kids) => {
                        let slots3 = if 0 <= id < slots2.len() && slots2[id] is Element {
                            slots2.update(
                                id,
                                GDom::Element(
                                    GDomElement {
                                        children: kids,
                                        ..slots2[id]->Element_0
                                    },
                                ),
                            )
                        } else {
                            slots2
                        };
                        let np = if p2 > pos && p2 <= events.len() {
                            p2
                        } else {
                            pos + 1
                        };
                        let (r2, p3, slots4) = g_parse_elements(events, np, slots3, parent);
                        match r2 {
                            Ok(ids) => (Ok(seq![id as Id] + ids), p3, slots4),
                            Err(e) => (Err(e), p3, slots4),
                        }
                    },
                }
            },
            GEvent::End => (Ok(Seq::empty()), pos + 1, slots),
            GEvent::EndOfDocument => (Ok(Seq::empty()), pos + 1, slots),
            GEvent::Text(t) => {
                let id = slots.len() as int;
                let slots1 = slots.push(GDom::Text(t));
                let (r2, p3, slots4) = g_parse_elements(events, pos + 1, slots1, parent);
                match r2 {
                    Ok(ids) => (Ok(seq![id as Id] + ids), p3, slots4),
                    Err(e) => (Err(e), p3, slots4),
                }
            },
            GEvent::Other => g_parse_elements(events, pos + 1, slots, parent),
            GEvent::Failed(m) => (Err(GDomError::Reader(m)), pos + 1, slots),
        }
    } else {
        (Ok(Seq::empty()), pos, slots)
    }
}

/// The arena contents as ghost slots.
pub open spec fn dom_slots(a: BucketArray<DomComponent>) -> Seq<GDom> {
    a.slots().map_values(|c: DomComponent| c@)
}

/// Replace the value under `key`, or append it when absent.
fn attr_set(m: &mut Vec<(String, String)>, key: &String, v: &String)
    ensures
        attrs_view(final(m)@) == assoc_set(
            attrs_view(old(m)@),
            key@,
            v@,
            0,
        ),
{
    let ghost gm = attrs_view(m@);
    let mut j: usize = 0;
    while j < m.len()
        invariant
            j <= m@.len(),
            gm == attrs_view(m@),
            gm == attrs_view(old(m)@),
            assoc_set(gm, key@, v@, 0) == assoc_set(gm, key@, v@, j as int),
        decreases m@.len() - j,
    {
        if crate::util::str_eq(m[j].0.as_str(), key.as_str()) {
            proof {
                assert(gm[j as int].0 == key@);
            }
            m.set(j, (key.clone(), v.clone()));
            proof {
                assert(attrs_view(m@) =~= gm.update(
                    j as int,
                    (key@, v@),
                ));
                assert(assoc_set(gm, key@, v@, j as int) == gm.update(j as int, (key@, v@)));
            }
            return ;
        }
        j += 1;
    }
    m.push((key.clone(), v.clone()));
    proof {
        assert(attrs_view(m@) =~= gm.push((key@, v@)));
    }
}

/// The attribute map of an opening tag, later duplicates overriding.
fn build_attrs(pairs: &Vec<(String, String)>) -> (m: Vec<(String, String)>)
    ensures
        attrs_view(m@) == g_attrs_build(attrs_view(pairs@), 0, Seq::empty()),
{
    let ghost gpairs = attrs_view(pairs@);
    let mut m: Vec<(String, String)> = Vec::new();
    proof {
        assert(attrs_view(m@) =~= Seq::<(Seq<char>, Seq<char>)>::empty());
    }
    let mut k: usize = 0;
    while k < pairs.len()
        invariant
            k <= gpairs.len(),
            gpairs == attrs_view(pairs@),
            g_attrs_build(gpairs, 0, Seq::empty()) == g_attrs_build(
                gpairs,
                k as int,
                attrs_view(m@),
            ),
        decreases gpairs.len() - k,
    {
        attr_set(&mut m, &pairs[k].0, &pairs[k].1);
        k += 1;
    }
    m
}

/// One level of the markup stream: elements and text runs until the
/// closing tag, inserted into the arena with back-patched children lists.
#[verifier::rlimit(50)]
fn parse_elements(
    events: &Vec<MarkupEvent>,
    pos: &mut usize,
    arena: &mut BucketArray<DomComponent>,
    parent: Option<Id>,
) -> (r: Result<Vec<Id>, DomError>)
    requires
        *old(pos) <= events@.len(),
        old(arena).wf(),
        old(arena).free_count() == 0,
        dom_ok(dom_slots(*old(arena))),
    ensures
        final(arena).wf(),
        final(arena).free_count() == 0,
        dom_ok(dom_slots(*final(arena))),
        dom_slots(*final(arena)).len() >= dom_slots(*old(arena)).len(),
        *old(pos) <= *final(pos) <= events@.len(),
        *old(pos) < events@.len() ==> *final(pos) > *old(pos),
        forall|j: int|
            0 <= j < dom_slots(*old(arena)).len() ==> dom_slots(*final(arena))[j] == dom_slots(
                *old(arena),
            )[j],
        ({
            let (gr, gp, gs) = g_parse_elements(
                events_view(events@),
                *old(pos) as int,
                dom_slots(*old(arena)),
                parent,
            );
            &&& gp == *final(pos) as int
            &&& gs == dom_slots(*final(arena))
            &&& match (r, gr) {
                (Ok(ids), Ok(gids)) => ids@ == gids && (forall|j: int|
                    0 <= j < ids@.len() ==> dom_slots(*old(arena)).len() <= (
                    #[trigger] ids@[j] as int) < dom_slots(*final(arena)).len()),
                (Err(e), Err(ge)) => e@ == ge,
                _ => false,
            }
        }),
    decreases events@.len() - *old(pos),
{
    let ghost gevents = events_view(events@);
    let ghost pos0 = *pos as int;
    let ghost slots0 = dom_slots(*arena);
    let ghost full = g_parse_elements(gevents, pos0, slots0, parent);
    let mut ids: Vec<Id> = Vec::new();
    loop
        invariant
            *old(pos) <= *pos <= events@.len(),
            arena.wf(),
            arena.free_count() == 0,
            dom_ok(dom_slots(*arena)),
            gevents == events_view(events@),
            pos0 == *old(pos) as int,
            slots0 == dom_slots(*old(arena)),
            full == g_parse_elements(gevents, pos0, slots0, parent),
            slots0.len() <= dom_slots(*arena).len(),
            forall|j: int|
                0 <= j < slots0.len() ==> dom_slots(*arena)[j] == slots0[j],
            forall|j: int|
                0 <= j < ids@.len() ==> slots0.len() <= (#[trigger] ids@[j] as int) < dom_slots(
                    *arena,
                ).len(),
            ({
                let (gr, gp, gs) = g_parse_elements(
                    gevents,
                    *pos as int,
                    dom_slots(*arena),
                    parent,
                );
                &&& full.1 == gp
                &&& full.2 == gs
                &&& full.0 == match gr {
                    Ok(gids) => Ok::<Seq<Id>, GDomError>(ids@ + gids),
                    Err(e) => Err::<Seq<Id>, GDomError>(e),
                }
            }),
        decreases events@.len() - *pos,
    {
        let p = *pos;
        let ghost ids_pre = ids@;
        if p >= events.len() {
            proof {
                assert(full.0 == Ok::<Seq<Id>, GDomError>(ids@ + Seq::<Id>::empty()));
                assert(ids@ + Seq::<Id>::empty() =~= ids@);
            }
            return Ok(ids);
        }
        let ghost pre_slots = dom_slots(*arena);
        match &events[p] {
            MarkupEvent::Start { name, attrs } => {
                *pos = p + 1;
                let el = Element {
                    tag: name.clone(),
                    attrs: build_attrs(attrs),
                    class_list: Vec::new(),
                    id: None,
                    children: Vec::new(),
                    parent,
                };
                let ghost elv = el@;
                let current_id = arena.insert(DomComponent::Element(el));
                proof {
                    assert(elv =~~= GDomElement {
                        tag: name@,
                        attrs: g_attrs_build(attrs_view(attrs@), 0, Seq::empty()),
                        class_list: Seq::empty(),
                        id: None,
                        children: Seq::empty(),
                        parent,
                    });
                    assert(dom_slots(*arena) =~~= pre_slots.push(GDom::Element(elv)));
                }
                let kids = match parse_elements(events, pos, arena, Some(current_id)) {
                    Ok(k) => k,
                    Err(e) => {
                        return Err(e);
                    },
                };
                let ghost post_child = dom_slots(*arena);
                let ghost kidsv = kids@;
                match arena.get_mut(current_id) {
                    Some(c) => {
                        match c {
                            DomComponent::Element(cel) => {
                                cel.children = kids;
                            },
                            DomComponent::Text(_) => {},
                        }
                    },
                    None => {},
                }
                proof {
                    assert(post_child[current_id as int] is Element);
                    assert(dom_slots(*arena) =~~= post_child.update(
                        current_id as int,
                        GDom::Element(
                            GDomElement {
                                children: kidsv,
                                ..post_child[current_id as int]->Element_0
                            },
                        ),
                    ));
                }
                ids.push(current_id);
                proof {
                    reveal_with_fuel(g_parse_elements, 3);
                    assert(gevents[p as int] == GEvent::Start(name@, attrs_view(attrs@)));
                    assert(current_id as int == pre_slots.len() as int);
                    assert(ids@ =~= ids_pre.push(current_id));
                    let slots1_g = pre_slots.push(GDom::Element(elv));
                    let (cr, cp, cs) = g_parse_elements(
                        gevents,
                        p + 1,
                        slots1_g,
                        Some(current_id),
                    );
                    assert(cp == *pos as int);
                    assert(cs == post_child);
                    assert(cr == Ok::<Seq<Id>, GDomError>(kidsv));
                    assert(cp > p as int && cp <= gevents.len());
                    let (gr_l, gp_l, gs_l) = g_parse_elements(
                        gevents,
                        p as int,
                        pre_slots,
                        parent,
                    );
                    let (gr2, gp2, gs2) = g_parse_elements(
                        gevents,
                        *pos as int,
                        dom_slots(*arena),
                        parent,
                    );
                    match gr2 {
                        Ok(gids) => {
                            assert(ids@ + gids =~= ids_pre + (seq![current_id] + gids));
                        },
                        Err(_) => {},
                    }
                    assert(gp_l == gp2);
                    assert(gs_l == gs2);
                    assert(full.1 == gp2);
                    assert(full.2 == gs2);
                    assert(full.0 == match gr2 {
                        Ok(gids) => Ok::<Seq<Id>, GDomError>(ids@ + gids),
                        Err(e) => Err::<Seq<Id>, GDomError>(e),
                    });
                }
            },
            MarkupEvent::End => {
                *pos = p + 1;
                proof {
                    assert(ids@ + Seq::<Id>::empty() =~= ids@);
                }
                return Ok(ids);
            },
            MarkupEvent::EndOfDocument => {
                *pos = p + 1;
                proof {
                    assert(ids@ + Seq::<Id>::empty() =~= ids@);
                }
                return Ok(ids);
            },
            MarkupEvent::Text(t) => {
                let id = arena.insert(DomComponent::Text(Text { text: t.clone() }));
                proof {
                    assert(dom_slots(*arena) =~= pre_slots.push(GDom::Text(t@)));
                }
                ids.push(id);
                *pos = p + 1;
                proof {
                    assert(ids@ =~= ids_pre.push(id));
                    let (gr2, gp2, gs2) = g_parse_elements(
                        gevents,
                        *pos as int,
                        dom_slots(*arena),
                        parent,
                    );
                    match gr2 {
                        Ok(gids) => {
                            assert(ids@ + gids =~= ids_pre + (seq![id] + gids));
                        },
                        Err(_) => {},
                    }
                }
            },
            MarkupEvent::Other => {
                *pos = p + 1;
            },
            MarkupEvent::Failed(m) => {
                *pos = p + 1;
                return Err(DomError::Reader(m.clone()));
            },
        }
    }
}

/// Whether a string list holds the given text.
fn vec_contains_str(v: &Vec<String>, s: &str) -> (r: bool)
    ensures
        r == strs_view(v@).contains(s@),
{
    let mut i: usize = 0;
    while i < v.len()
        invariant
            i <= v@.len(),
            forall|j: int| 0 <= j < i ==> strs_view(v@)[j] != s@,
        decreases v@.len() - i,
    {
        if crate::util::str_eq(v[i].as_str(), s) {
            proof {
                assert(strs_view(v@)[i as int] == s@);
            }
            return true;
        }
        i += 1;
    }
    proof {
        assert forall|j: int| 0 <= j < strs_view(v@).len() implies strs_view(v@)[j] != s@ by {}
    }
    false
}

/// The value of an attribute, cloned out of the list.
fn attrs_get(attrs: &Vec<(String, String)>, key: &str) -> (r: Option<String>)
    ensures
        match r {
            Some(v) => assoc_get(attrs_view(attrs@), key@) == Some(v@),
            None => assoc_get(attrs_view(attrs@), key@) is None,
        },
{
    let mut i: usize = 0;
    while i < attrs.len()
        invariant
            i <= attrs@.len(),
            assoc_get(attrs_view(attrs@), key@) == assoc_get_from(
                attrs_view(attrs@),
                key@,
                i as int,
            ),
        decreases attrs@.len() - i,
    {
        if crate::util::str_eq(attrs[i].0.as_str(), key) {
            proof {
                assert(attrs_view(attrs@)[i as int].0 == key@);
            }
            return Some(attrs[i].1.clone());
        }
        proof {
            assert(attrs_view(attrs@)[i as int].0 == attrs@[i as int].0@);
        }
        i += 1;
    }
    None
}

/// The attribute list without the entries under `key`.
fn attrs_remove(attrs: &Vec<(String, String)>, key: &str) -> (out: Vec<(String, String)>)
    ensures
        attrs_view(out@) == assoc_remove(attrs_view(attrs@), key@),
{
    let ghost gm = attrs_view(attrs@);
    let mut out: Vec<(String, String)> = Vec::new();
    proof {
        assert(attrs_view(out@) =~= Seq::<(Seq<char>, Seq<char>)>::empty());
    }
    let mut i: usize = 0;
    while i < attrs.len()
        invariant
            i <= attrs@.len(),
            gm == attrs_view(attrs@),
            assoc_remove(gm, key@) == attrs_view(out@) + assoc_remove_from(gm, key@, i as int),
        decreases attrs@.len() - i,
    {
        let ghost pre = attrs_view(out@);
        if !crate::util::str_eq(attrs[i].0.as_str(), key) {
            out.push((attrs[i].0.clone(), attrs[i].1.clone()));
            proof {
                assert(gm[i as int].0 != key@);
                assert(attrs_view(out@) =~= pre.push(gm[i as int]));
                assert(pre + (seq![gm[i as int]] + assoc_remove_from(gm, key@, i + 1))
                    =~= attrs_view(out@) + assoc_remove_from(gm, key@, i + 1));
            }
        } else {
            proof {
                assert(gm[i as int].0 == key@);
            }
        }
        i += 1;
    }
    proof {
        assert(assoc_remove(gm, key@) =~= attrs_view(out@));
    }
    out
}

/// The tokens with first occurrences kept, in order.
pub(crate) fn dedup_strings(toks: &Vec<String>) -> (out: Vec<String>)
    ensures
        strs_view(out@) == dedup_prefix(strs_view(toks@), strs_view(toks@).len() as int),
{
    let ghost gt = strs_view(toks@);
    let mut out: Vec<String> = Vec::new();
    proof {
        assert(strs_view(out@) =~= Seq::<Seq<char>>::empty());
    }
    let mut k: usize = 0;
    while k < toks.len()
        invariant
            k <= toks@.len(),
            gt == strs_view(toks@),
            strs_view(out@) == dedup_prefix(gt, k as int),
        decreases toks@.len() - k,
    {
        let ghost pre = strs_view(out@);
        if !vec_contains_str(&out, toks[k].as_str()) {
            out.push(toks[k].clone());
            proof {
                assert(strs_view(out@) =~= pre.push(gt[k as int]));
            }
        }
        proof {
            assert(gt[k as int] == toks@[k as int]@);
        }
        k += 1;
    }
    out
}

/// The attribute post-pass: extracts each element's class list and id from
/// its raw attributes and removes those keys.
fn post_process_attributes(arena: &mut BucketArray<DomComponent>)
    requires
        old(arena).wf(),
        old(arena).free_count() == 0,
        dom_ok(dom_slots(*old(arena))),
    ensures
        final(arena).wf(),
        final(arena).free_count() == 0,
        dom_ok(dom_slots(*final(arena))),
        dom_slots(*final(arena)) == g_post(dom_slots(*old(arena)), 0),
        dom_slots(*final(arena)).len() == dom_slots(*old(arena)).len(),
{
    let ghost slots0 = dom_slots(*old(arena));
    let n = arena.len();
    proof {
        assert(n == slots0.len());
    }
    let mut i: usize = 0;
    while i < n
        invariant
            arena.wf(),
            arena.free_count() == 0,
            n == slots0.len(),
            i <= n,
            dom_slots(*arena).len() == slots0.len(),
            forall|j: int|
                0 <= j < slots0.len() ==> g_children(#[trigger] dom_slots(*arena)[j])
                    == g_children(slots0[j]),
            dom_ok(dom_slots(*arena)),
            g_post(slots0, 0) == g_post(dom_slots(*arena), i as int),
        decreases n - i,
    {
        let ghost pre = dom_slots(*arena);
        let upd: Option<Element>;
        match arena.get(i) {
            Some(DomComponent::Element(el)) => {
                let classes = match attrs_get(&el.attrs, "class") {
                    Some(v) => v,
                    None => String::new(),
                };
                let idv = match attrs_get(&el.attrs, "id") {
                    Some(v) => v,
                    None => String::new(),
                };
                let toks = crate::util::split_by_whitespace_trimmed(classes.as_str());
                let class_list = dedup_strings(&toks);
                let id_value = crate::util::first_until_whitespace(idv.as_str());
                let new_id: Option<String> = if id_value.as_str().is_empty() {
                    None
                } else {
                    Some(id_value)
                };
                let attrs2 = attrs_remove(&attrs_remove(&el.attrs, "class"), "id");
                upd = Some(
                    Element {
                        tag: el.tag.clone(),
                        attrs: attrs2,
                        class_list,
                        id: new_id,
                        children: crate::ui::clone_ids(&el.children),
                        parent: el.parent,
                    },
                );
            },
            _ => {
                upd = None;
            },
        }
        match upd {
            Some(newel) => {
                let ghost nv = newel@;
                match arena.get_mut(i) {
                    Some(c) => {
                        *c = DomComponent::Element(newel);
                    },
                    None => {},
                }
                proof {
                    assert(pre[i as int] is Element);
                    assert(nv =~~= g_post_elem(pre[i as int]->Element_0));
                    assert(dom_slots(*arena) =~~= pre.update(i as int, GDom::Element(nv)));
                }
            },
            None => {
                proof {
                    assert(dom_slots(*arena) =~~= pre);
                }
            },
        }
        i += 1;
    }
    proof {
        assert(g_post(dom_slots(*arena), n as int) == dom_slots(*arena));
    }
}

// ---------------------------------------------------------------------------
// Descendant composition and lookups
// ---------------------------------------------------------------------------
/// The children of `kids` (from `k` on) that are element slots.
pub open spec fn g_elem_kids(slots: Seq<GDom>, kids: Seq<Id>, k: int) -> Seq<Id>
    decreases kids.len() - k,
{
    if 0 <= k < kids.len() {
        let rest = g_elem_kids(slots, kids, k + 1);
        if 0 <= (kids[k] as int) < slots.len() && slots[kids[k] as int] is Element {
            seq![kids[k]] + rest
        } else {
            rest
        }
    } else {
        Seq::empty()
    }
}

/// The composed descendants of the children from `k` on, in order.
pub open spec fn g_desc(slots: Seq<GDom>, id: int, kids: Seq<Id>, k: int) -> Seq<Id>
    decreases slots.len() - id, 0int, kids.len() - k,
{
    if 0 <= k < kids.len() {
        let rest = g_desc(slots, id, kids, k + 1);
        if id < (kids[k] as int) < slots.len() {
            match g_compose(slots, kids[k] as int) {
                Some(c) => c + rest,
                None => rest,
            }
        } else {
            rest
        }
    } else {
        Seq::empty()
    }
}

/// The descendant elements of `id`: its element children, then each
/// child's composed descendants; `None` for text or out of range.
pub open spec fn g_compose(slots: Seq<GDom>, id: int) -> Option<Seq<Id>>
    decreases slots.len() - id, 1int, 0int,
{
    if 0 <= id < slots.len() {
        match slots[id] {
            GDom::Element(e) => Some(
                g_elem_kids(slots, e.children, 0) + g_desc(slots, id, e.children, 0),
            ),
            GDom::Text(t) => None,
        }
    } else {
        None
    }
}

/// The ids among `pool` (from `k` on) whose element carries the class.
pub open spec fn g_filter_class(slots: Seq<GDom>, pool: Seq<Id>, k: int, name: Seq<char>) -> Seq<
    Id,
>
    decreases pool.len() - k,
{
    if 0 <= k < pool.len() {
        let rest = g_filter_class(slots, pool, k + 1, name);
        if 0 <= (pool[k] as int) < slots.len() && slots[pool[k] as int] is Element
            && slots[pool[k] as int]->Element_0.class_list.contains(name) {
            seq![pool[k]] + rest
        } else {
            rest
        }
    } else {
        Seq::empty()
    }
}

/// The ids among `pool` (from `k` on) whose element has the tag.
pub open spec fn g_filter_tag(slots: Seq<GDom>, pool: Seq<Id>, k: int, name: Seq<char>) -> Seq<
    Id,
>
    decreases pool.len() - k,
{
    if 0 <= k < pool.len() {
        let rest = g_filter_tag(slots, pool, k + 1, name);
        if 0 <= (pool[k] as int) < slots.len() && slots[pool[k] as int] is Element
            && slots[pool[k] as int]->Element_0.tag == name {
            seq![pool[k]] + rest
        } else {
            rest
        }
    } else {
        Seq::empty()
    }
}

/// The first id in `pool` (from `k` on) whose element's id is `name`.
pub open spec fn g_find_id(slots: Seq<GDom>, pool: Seq<Id>, k: int, name: Seq<char>) -> Option<
    Id,
>
    decreases pool.len() - k,
{
    if 0 <= k < pool.len() {
        if 0 <= (pool[k] as int) < slots.len() && slots[pool[k] as int] is Element
            && slots[pool[k] as int]->Element_0.id == Some(name) {
            Some(pool[k])
        } else {
            g_find_id(slots, pool, k + 1, name)
        }
    } else {
        None
    }
}

/// The class lookup over `id` and its descendants, the origin last.
pub open spec fn g_by_class(slots: Seq<GDom>, id: int, name: Seq<char>) -> Option<Seq<Id>> {
    match g_compose(slots, id) {
        Some(c) => Some(g_filter_class(slots, c + seq![id as Id], 0, name)),
        None => None,
    }
}

/// The tag lookup over `id` and its descendants, the origin last.
pub open spec fn g_by_tag(slots: Seq<GDom>, id: int, name: Seq<char>) -> Option<Seq<Id>> {
    match g_compose(slots, id) {
        Some(c) => Some(g_filter_tag(slots, c + seq![id as Id], 0, name)),
        None => None,
    }
}

/// The id lookup over `id` and its descendants, the origin last.
pub open spec fn g_by_id(slots: Seq<GDom>, id: int, name: Seq<char>) -> Option<Id> {
    match g_compose(slots, id) {
        Some(c) => g_find_id(slots, c + seq![id as Id], 0, name),
        None => None,
    }
}

// ---------------------------------------------------------------------------
// The document system
// ---------------------------------------------------------------------------
/// The whole outcome of building a document from its event stream.
pub open spec fn g_events_to_dom(events: Seq<GEvent>) -> Result<(Seq<GDom>, Id), GDomError> {
    let (r, p, slots) = g_parse_elements(events, 0, Seq::empty(), None);
    match r {
        Err(e) => Err(e),
        Ok(ids) => if ids.len() != 1 {
            Err(GDomError::RootCount(ids.len() as int))
        } else {
            Ok((g_post(slots, 0), ids[0]))
        },
    }
}

/// The DOM: the node arena and the root handle.
#[derive(Debug)]
pub struct DomSystem {
    elements: BucketArray<DomComponent>,
    root: Id,
}

impl DomSystem {
    /// The node slots, as ghost values.
    pub closed spec fn slots(&self) -> Seq<GDom> {
        dom_slots(self.elements)
    }

    pub closed spec fn spec_root(&self) -> Id {
        self.root
    }

    /// Well-formed document: nothing freed, every child link points past
    /// its parent, and the root is in range.
    pub open spec fn wf(&self) -> bool {
        &&& self.arena_wf()
        &&& dom_ok(self.slots())
        &&& (self.spec_root() as int) < self.slots().len()
    }

    pub closed spec fn arena_wf(&self) -> bool {
        &&& self.elements.wf()
        &&& self.elements.free_count() == 0
    }

    /// Builds the DOM from an already-collected event stream: the tree,
    /// then the attribute post-pass; fails on a reader failure or when the
    /// stream has no single top-level element.
    pub fn events_to_dom(events: &Vec<MarkupEvent>) -> (r: Result<DomSystem, DomError>)
        ensures
            match (r, g_events_to_dom(events_view(events@))) {
                (Ok(sys), Ok(g)) => sys.wf() && sys.slots() == g.0 && sys.spec_root() == g.1,
                (Err(e), Err(ge)) => e@ == ge,
                _ => false,
            },
    {
        let mut arena: BucketArray<DomComponent> = BucketArray::new();
        proof {
            assert(dom_slots(arena) =~= Seq::<GDom>::empty());
        }
        let mut pos: usize = 0;
        let res = match parse_elements(events, &mut pos, &mut arena, None) {
            Ok(ids) => ids,
            Err(e) => {
                return Err(e);
            },
        };
        if res.len() != 1 {
            return Err(DomError::RootCount(res.len()));
        }
        let root = res[0];
        post_process_attributes(&mut arena);
        Ok(DomSystem { elements: arena, root })
    }

    /// Builds the DOM from markup text: exactly the document of the
    /// source's named event stream, or the error that stream carries.
    pub fn from_xml(xml: &str) -> (r: Result<DomSystem, DomError>)
        ensures
            match (r, g_events_to_dom(doc_events(xml@))) {
                (Ok(sys), Ok(g)) => sys.wf() && sys.slots() == g.0 && sys.spec_root() == g.1,
                (Err(e), Err(ge)) => e@ == ge,
                _ => false,
            },
    {
        let events = collect_events(xml);
        Self::events_to_dom(&events)
    }

    /// The number of node slots.
    pub fn slot_len(&self) -> (r: usize)
        requires
            self.wf(),
        ensures
            r == self.slots().len(),
    {
        self.elements.len()
    }

    /// The root handle.
    pub fn root(&self) -> (r: Id)
        ensures
            r == self.spec_root(),
    {
        self.root
    }

    /// The component under a handle, text included.
    pub fn get_component(&self, origin: Id) -> (r: Option<&DomComponent>)
        requires
            self.wf(),
        ensures
            match r {
                Some(c) => origin < self.slots().len() && c@ == self.slots()[origin as int],
                None => origin >= self.slots().len(),
            },
    {
        self.elements.get(origin)
    }

    /// Mutable access to a component, text included.
    pub fn get_component_mut(&mut self, origin: Id) -> (r: Option<&mut DomComponent>)
        requires
            old(self).wf(),
        ensures
            match r {
                Some(c) => origin < old(self).slots().len() && (*c)@ == old(self).slots()[origin as int]
                    && final(self).slots() == old(self).slots().update(
                    origin as int,
                    (*final(c))@,
                ) && final(self).spec_root() == old(self).spec_root(),
                None => origin >= old(self).slots().len() && *final(self) == *old(self),
            },
    {
        self.elements.get_mut(origin)
    }

    /// The element under a handle, or nothing for text or a bad handle.
    pub fn get_element(&self, origin: Id) -> (r: Option<&Element>)
        requires
            self.wf(),
        ensures
            match r {
                Some(e) => origin < self.slots().len() && self.slots()[origin as int]
                    == GDom::Element(e@),
                None => origin >= self.slots().len() || !(self.slots()[origin as int] is Element),
            },
    {
        match self.elements.get(origin) {
            Some(DomComponent::Element(el)) => Some(el),
            _ => None,
        }
    }

    /// Mutable access to an element.
    pub fn get_element_mut(&mut self, origin: Id) -> (r: Option<&mut Element>)
        requires
            old(self).wf(),
        ensures
            match r {
                Some(e) => origin < old(self).slots().len() && old(self).slots()[origin as int]
                    == GDom::Element((*e)@) && final(self).slots() == old(self).slots().update(
                    origin as int,
                    GDom::Element((*final(e))@),
                ) && final(self).spec_root() == old(self).spec_root(),
                None => (origin >= old(self).slots().len() || !(old(self).slots()[origin as int]
                    is Element)) && final(self).slots() == old(self).slots()
                    && final(self).spec_root() == old(self).spec_root() && final(self).wf(),
            },
    {
        let is_el = match self.elements.get(origin) {
            Some(DomComponent::Element(_)) => true,
            _ => false,
        };
        if !is_el {
            return None;
        }
        match self.elements.get_mut(origin) {
            Some(c) => match c {
                DomComponent::Element(el) => Some(el),
                DomComponent::Text(_) => None,
            },
            None => None,
        }
    }

    /// The descendant elements of `origin` (text excluded): its element
    /// children first, then every child's composed descendants, depth
    /// first. `None` when `origin` is text or out of range.
    pub fn compose_children(&self, origin: Id) -> (r: Option<Vec<Id>>)
        requires
            self.wf(),
        ensures
            match r {
                Some(v) => g_compose(self.slots(), origin as int) == Some(v@),
                None => g_compose(self.slots(), origin as int) is None,
            },
        decreases self.slots().len() - origin,
    {
        let el = match self.elements.get(origin) {
            Some(DomComponent::Element(e)) => e,
            _ => {
                return None;
            },
        };
        let ghost slots = self.slots();
        let mut out: Vec<Id> = Vec::new();
        let mut k: usize = 0;
        proof {
            assert(slots[origin as int] is Element);
            assert(g_children(slots[origin as int]) == el.children@);
        }
        while k < el.children.len()
            invariant
                self.wf(),
                slots == self.slots(),
                origin < slots.len(),
                slots[origin as int] is Element,
                g_children(slots[origin as int]) == el.children@,
                el == self.elements.value_at(origin)->Element_0,
                k <= el.children@.len(),
                g_elem_kids(slots, el.children@, 0) == out@ + g_elem_kids(
                    slots,
                    el.children@,
                    k as int,
                ),
            decreases el.children@.len() - k,
        {
            let c = el.children[k];
            proof {
                assert((origin as int) < (c as int) < slots.len());
            }
            let ghost pre = out@;
            match self.elements.get(c) {
                Some(DomComponent::Element(_)) => {
                    out.push(c);
                    proof {
                        assert(pre + (seq![c] + g_elem_kids(slots, el.children@, k + 1)) =~= out@
                            + g_elem_kids(slots, el.children@, k + 1));
                    }
                },
                _ => {},
            }
            k += 1;
        }
        proof {
            assert(out@ + g_elem_kids(slots, el.children@, el.children@.len() as int) =~= out@);
        }
        let mut k2: usize = 0;
        while k2 < el.children.len()
            invariant
                self.wf(),
                slots == self.slots(),
                origin < slots.len(),
                slots[origin as int] is Element,
                g_children(slots[origin as int]) == el.children@,
                el == self.elements.value_at(origin)->Element_0,
                k2 <= el.children@.len(),
                out@ + g_desc(slots, origin as int, el.children@, k2 as int) == g_elem_kids(
                    slots,
                    el.children@,
                    0,
                ) + g_desc(slots, origin as int, el.children@, 0),
            decreases el.children@.len() - k2,
        {
            let c = el.children[k2];
            proof {
                assert((origin as int) < (c as int) < slots.len());
            }
            let ghost pre = out@;
            match self.compose_children(c) {
                Some(mut sub) => {
                    let ghost subv = sub@;
                    out.append(&mut sub);
                    proof {
                        assert(out@ =~= pre + subv);
                        assert(pre + (subv + g_desc(slots, origin as int, el.children@, k2 + 1))
                            =~= out@ + g_desc(slots, origin as int, el.children@, k2 + 1));
                    }
                },
                None => {},
            }
            k2 += 1;
        }
        proof {
            assert(out@ + g_desc(slots, origin as int, el.children@, el.children@.len() as int)
                =~= out@);
        }
        Some(out)
    }

    /// The elements among `origin` and its descendants that carry the
    /// class; `None` when `origin` is not an element.
    pub fn get_elements_by_class_name(&self, origin: Id, class_name: &str) -> (r: Option<
        Vec<Id>,
    >)
        requires
            self.wf(),
        ensures
            match r {
                Some(v) => g_by_class(self.slots(), origin as int, class_name@) == Some(v@),
                None => g_by_class(self.slots(), origin as int, class_name@) is None,
            },
    {
        let composed = match self.compose_children(origin) {
            Some(c) => c,
            None => {
                return None;
            },
        };
        let ghost slots = self.slots();
        let ghost pool = g_compose(slots, origin as int)->0 + seq![origin];
        let mut out: Vec<Id> = Vec::new();
        let mut k: usize = 0;
        proof {
            assert(composed@ + seq![origin] =~= pool);
        }
        while k < composed.len()
            invariant
                self.wf(),
                slots == self.slots(),
                pool == composed@ + seq![origin],
                origin < slots.len(),
                k <= composed@.len(),
                g_filter_class(slots, pool, 0, class_name@) == out@ + g_filter_class(
                    slots,
                    pool,
                    k as int,
                    class_name@,
                ),
            decreases composed@.len() - k,
        {
            let id = composed[k];
            proof {
                assert(pool[k as int] == id);
            }
            let ghost pre = out@;
            match self.elements.get(id) {
                Some(DomComponent::Element(e)) => {
                    if vec_contains_str(&e.class_list, class_name) {
                        out.push(id);
                        proof {
                            assert(pre + (seq![id] + g_filter_class(slots, pool, k + 1, class_name@))
                                =~= out@ + g_filter_class(slots, pool, k + 1, class_name@));
                        }
                    }
                },
                _ => {},
            }
            k += 1;
        }
        let ghost pre = out@;
        proof {
            assert(pool[composed@.len() as int] == origin);
        }
        match self.elements.get(origin) {
            Some(DomComponent::Element(e)) => {
                if vec_contains_str(&e.class_list, class_name) {
                    out.push(origin);
                    proof {
                        assert(pre + (seq![origin] + g_filter_class(
                            slots,
                            pool,
                            pool.len() as int,
                            class_name@,
                        )) =~= out@ + g_filter_class(slots, pool, pool.len() as int, class_name@));
                    }
                }
            },
            _ => {},
        }
        proof {
            assert(out@ + g_filter_class(slots, pool, pool.len() as int, class_name@) =~= out@);
        }
        Some(out)
    }

    /// The elements among `origin` and its descendants with the given tag.
    pub fn get_elements_by_tag_name(&self, origin: Id, tagname: &str) -> (r: Option<Vec<Id>>)
        requires
            self.wf(),
        ensures
            match r {
                Some(v) => g_by_tag(self.slots(), origin as int, tagname@) == Some(v@),
                None => g_by_tag(self.slots(), origin as int, tagname@) is None,
            },
    {
        let composed = match self.compose_children(origin) {
            Some(c) => c,
            None => {
                return None;
            },
        };
        let ghost slots = self.slots();
        let ghost pool = g_compose(slots, origin as int)->0 + seq![origin];
        let mut out: Vec<Id> = Vec::new();
        let mut k: usize = 0;
        proof {
            assert(composed@ + seq![origin] =~= pool);
        }
        while k < composed.len()
            invariant
                self.wf(),
                slots == self.slots(),
                pool == composed@ + seq![origin],
                origin < slots.len(),
                k <= composed@.len(),
                g_filter_tag(slots, pool, 0, tagname@) == out@ + g_filter_tag(
                    slots,
                    pool,
                    k as int,
                    tagname@,
                ),
            decreases composed@.len() - k,
        {
            let id = composed[k];
            proof {
                assert(pool[k as int] == id);
            }
            let ghost pre = out@;
            match self.elements.get(id) {
                Some(DomComponent::Element(e)) => {
                    if crate::util::str_eq(e.tag.as_str(), tagname) {
                        out.push(id);
                        proof {
                            assert(pre + (seq![id] + g_filter_tag(slots, pool, k + 1, tagname@))
                                =~= out@ + g_filter_tag(slots, pool, k + 1, tagname@));
                        }
                    }
                },
                _ => {},
            }
            k += 1;
        }
        let ghost pre = out@;
        proof {
            assert(pool[composed@.len() as int] == origin);
        }
        match self.elements.get(origin) {
            Some(DomComponent::Element(e)) => {
                if crate::util::str_eq(e.tag.as_str(), tagname) {
                    out.push(origin);
                    proof {
                        assert(pre + (seq![origin] + g_filter_tag(
                            slots,
                            pool,
                            pool.len() as int,
                            tagname@,
                        )) =~= out@ + g_filter_tag(slots, pool, pool.len() as int, tagname@));
                    }
                }
            },
            _ => {},
        }
        proof {
            assert(out@ + g_filter_tag(slots, pool, pool.len() as int, tagname@) =~= out@);
        }
        Some(out)
    }

    /// The first of `origin`'s descendants (or `origin` itself, last) whose
    /// id equals `identifier`.
    pub fn get_element_by_id(&self, origin: Id, identifier: &str) -> (r: Option<Id>)
        requires
            self.wf(),
        ensures
            r == g_by_id(self.slots(), origin as int, identifier@),
    {
        let composed = match self.compose_children(origin) {
            Some(c) => c,
            None => {
                return None;
            },
        };
        let ghost slots = self.slots();
        let ghost pool = g_compose(slots, origin as int)->0 + seq![origin];
        let mut k: usize = 0;
        proof {
            assert(composed@ + seq![origin] =~= pool);
        }
        while k < composed.len()
            invariant
                self.wf(),
                slots == self.slots(),
                pool == composed@ + seq![origin],
                origin < slots.len(),
                g_compose(slots, origin as int) == Some(composed@),
                k <= composed@.len(),
                g_find_id(slots, pool, 0, identifier@) == g_find_id(
                    slots,
                    pool,
                    k as int,
                    identifier@,
                ),
            decreases composed@.len() - k,
        {
            let id = composed[k];
            proof {
                assert(pool[k as int] == id);
            }
            match self.elements.get(id) {
                Some(DomComponent::Element(e)) => {
                    proof {
                        assert(slots[id as int] == GDom::Element(e@));
                    }
                    let hit = match &e.id {
                        Some(s) => crate::util::str_eq(s.as_str(), identifier),
                        None => false,
                    };
                    if hit {
                        proof {
                            assert(e@.id == Some(identifier@));
                            assert(g_find_id(slots, pool, k as int, identifier@) == Some(id));
                        }
                        return Some(id);
                    }
                },
                _ => {},
            }
            k += 1;
        }
        proof {
            assert(pool[composed@.len() as int] == origin);
        }
        match self.elements.get(origin) {
            Some(DomComponent::Element(e)) => {
                proof {
                    assert(slots[origin as int] == GDom::Element(e@));
                }
                let hit = match &e.id {
                    Some(id_text) => crate::util::str_eq(id_text.as_str(), identifier),
                    None => false,
                };
                if hit {
                    proof {
                        assert(e@.id == Some(identifier@));
                        assert(g_find_id(slots, pool, composed@.len() as int, identifier@)
                            == Some(origin));
                    }
                    return Some(origin);
                }
                proof {
                    assert(e@.id != Some(identifier@));
                    assert(g_find_id(slots, pool, pool.len() as int, identifier@) is None);
                    assert(g_find_id(slots, pool, composed@.len() as int, identifier@) is None);
                }
            },
            _ => {
                proof {
                    assert(false);
                }
            },
        }
        None
    }

    /// The direct children of an element, text nodes included.
    pub fn firstlevel_components(&self, origin: Id) -> (r: Option<&Vec<Id>>)
        requires
            self.wf(),
        ensures
            match r {
                Some(v) => origin < self.slots().len() && self.slots()[origin as int] is Element
                    && v@ == g_children(self.slots()[origin as int]),
                None => origin >= self.slots().len() || !(self.slots()[origin as int] is Element),
            },
    {
        match self.elements.get(origin) {
            Some(DomComponent::Element(e)) => Some(&e.children),
            _ => None,
        }
    }
}

} // verus!
