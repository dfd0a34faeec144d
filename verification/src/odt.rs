//! The ODT parser: a state machine over the XML events of `content.xml` that
//! collects the automatic styles and builds the document tree.
//!
//! What this parser reads, and what it does not:
//! - headings, paragraphs and spans (`text:h`, `text:p`, `text:span`) become
//!   elements named by their local name, with their character data as text
//!   nodes and their nested blocks as child elements;
//! - the automatic styles are collected by name, each as the map of the
//!   attributes of its properties tags;
//! - an element's styles are always empty: no automatic style is applied to
//!   it, and no underline is set or cleared on spans (the underline flags are
//!   kept per open element but nothing sets them);
//! - tables are not read: `table:` tags (including `table:table-column`) are
//!   ignored, so the text inside a table lands in the enclosing elements;
//! - empty `text:` tags (such as spaces or line breaks) are ignored.

use vstd::prelude::*;
use crate::document::{
    element_model, elements_model, lemma_element_model, lemma_push_child, node_model,
    nodes_model, DistanceUnit, Document, Element, ElementModel, Node, NodeModel, PaperSize, Text,
};
use crate::escape::{attribute_text, character_text, decode_attribute_value, decode_text};
use crate::names::{
    copy_range, decode_name, decoded_name, is_word, lemma_ascii_word, name_local, name_prefix, split_name,
    splittable, splittable_name, word,
};
use crate::table::Table;
use crate::archive::{member, read_member};
use quick_xml::events::attributes::Attributes;
use quick_xml::events::Event::{
    Empty as XmlEmpty, End as XmlEnd, Eof as XmlEof, Start as XmlStart, Text as XmlText,
};
use quick_xml::Reader;

verus! {

/// A raw attribute of a tag: its key and its value as written (escaped).
pub struct RawAttribute {
    pub key: Vec<u8>,
    pub value: Vec<u8>,
}

pub struct RawAttributeModel {
    pub key: Seq<u8>,
    pub value: Seq<u8>,
}

impl View for RawAttribute {
    type V = RawAttributeModel;

    open spec fn view(&self) -> RawAttributeModel {
        RawAttributeModel { key: self.key@, value: self.value@ }
    }
}

/// The attributes of a tag in order; `None` stands for one that could not be read.
pub open spec fn attrs_model(a: Seq<Option<RawAttribute>>) -> Seq<Option<RawAttributeModel>> {
    a.map_values(
        |x: Option<RawAttribute>|
            match x {
                Some(r) => Some(r@),
                None => None,
            },
    )
}

/// The value of the first readable `style:name` attribute, as text; empty if there is none.
pub open spec fn style_name_of(attrs: Seq<Option<RawAttributeModel>>) -> Seq<u8>
    decreases attrs.len(),
{
    if attrs.len() == 0 {
        seq![]
    } else {
        match attrs[0] {
            Some(a) => if decoded_name(a.key) == word("style:name") {
                attribute_text(a.value)
            } else {
                style_name_of(attrs.drop_first())
            },
            None => style_name_of(attrs.drop_first()),
        }
    }
}

/// The properties that the readable attributes give: each key (as a name)
/// mapped to its value (as text), a later attribute winning over an earlier one.
pub open spec fn properties_of(attrs: Seq<Option<RawAttributeModel>>) -> Map<Seq<u8>, Seq<u8>>
    decreases attrs.len(),
{
    if attrs.len() == 0 {
        Map::empty()
    } else {
        let m = properties_of(attrs.drop_last());
        match attrs.last() {
            Some(a) => m.insert(decoded_name(a.key), attribute_text(a.value)),
            None => m,
        }
    }
}

/// The name of the style that a `style:style` tag opens.
fn style_begin(attributes: &Vec<Option<RawAttribute>>) -> (r: Vec<u8>)
    ensures
        r@ == style_name_of(attrs_model(attributes@)),
{
    let ghost all = attrs_model(attributes@);
    let mut i: usize = 0;
    assert(all.skip(0) =~= all);
    while i < attributes.len()
        invariant
            i <= attributes@.len(),
            all == attrs_model(attributes@),
            style_name_of(all.skip(i as int)) == style_name_of(all),
        decreases attributes@.len() - i,
    {
        assert(all.skip(i as int)[0] == all[i as int]);
        assert(all.skip(i as int).drop_first() =~= all.skip(i + 1));
        match &attributes[i] {
            Some(a) => {
                let key = decode_name(a.key.as_slice());
                if is_word(key.as_slice(), "style:name") {
                    return decode_attribute_value(a.value.as_slice());
                }
            },
            None => {},
        }
        i = i + 1;
    }
    assert(all.skip(i as int).len() == 0);
    Vec::new()
}

/// The properties that the attributes of a properties tag give.
fn properties_begin(attributes: &Vec<Option<RawAttribute>>) -> (r: Table<Vec<u8>>)
    ensures
        r@ == properties_of(attrs_model(attributes@)),
{
    let ghost all = attrs_model(attributes@);
    let mut r: Table<Vec<u8>> = Table::new();
    let mut i: usize = 0;
    assert(all.take(0) =~= Seq::<Option<RawAttributeModel>>::empty());
    while i < attributes.len()
        invariant
            i <= attributes@.len(),
            all == attrs_model(attributes@),
            r@ == properties_of(all.take(i as int)),
        decreases attributes@.len() - i,
    {
        assert(all.take(i + 1).drop_last() =~= all.take(i as int));
        assert(all.take(i + 1).last() == all[i as int]);
        match &attributes[i] {
            Some(a) => {
                let key = decode_name(a.key.as_slice());
                let value = decode_attribute_value(a.value.as_slice());
                r.insert(key, value);
            },
            None => {},
        }
        i = i + 1;
    }
    assert(all.take(attributes@.len() as int) =~= all);
    r
}

/// The ODT parser's state.
pub struct ODTParser {
    body_begin: bool,
    styles_begin: bool,
    auto_styles: Table<Table<Vec<u8>>>,
    /// One flag per open element: its children are to be underlined. Each
    /// element pushes `false` when it opens and pops it when it closes; since
    /// no style is applied, nothing sets a flag.
    set_children_underline: Vec<bool>,
    /// One flag per open element: its children are to have no underline;
    /// kept like `set_children_underline`.
    ensure_children_no_underline: Vec<bool>,
    document_root: Document,
    document_hierarchy: Vec<Element>,
}

/// What the parser's state stands for.
pub struct ParserModel {
    /// The document body has begun.
    pub body_begin: bool,
    /// The automatic styles are being read.
    pub styles_begin: bool,
    /// The automatic styles read so far, by name.
    pub auto_styles: Map<Seq<u8>, Map<Seq<u8>, Seq<u8>>>,
    pub set_children_underline: Seq<bool>,
    pub ensure_children_no_underline: Seq<bool>,
    pub title: Seq<char>,
    pub paper: PaperSize,
    /// The finished top-level nodes of the document.
    pub root: Seq<NodeModel>,
    /// The elements opened and not yet closed, outermost first.
    pub hierarchy: Seq<ElementModel>,
}

impl View for ODTParser {
    type V = ParserModel;

    closed spec fn view(&self) -> ParserModel {
        ParserModel {
            body_begin: self.body_begin,
            styles_begin: self.styles_begin,
            auto_styles: self.auto_styles@,
            set_children_underline: self.set_children_underline@,
            ensure_children_no_underline: self.ensure_children_no_underline@,
            title: self.document_root.title@,
            paper: self.document_root.paper,
            root: nodes_model(self.document_root.children@),
            hierarchy: elements_model(self.document_hierarchy@),
        }
    }
}

/// The tags of the text blocks that become elements: headings, paragraphs and spans.
pub open spec fn is_text_block(local: Seq<u8>) -> bool {
    local == word("h") || local == word("p") || local == word("span")
}

/// The state after a text tag opens in the body: a text block opens a new,
/// empty element with no styles, whose underline flags are unset.
pub open spec fn open_text(s: ParserModel, local: Seq<u8>) -> ParserModel {
    if is_text_block(local) {
        ParserModel {
            hierarchy: s.hierarchy.push(
                ElementModel { name: local, styles: Map::empty(), children: seq![] },
            ),
            set_children_underline: s.set_children_underline.push(false),
            ensure_children_no_underline: s.ensure_children_no_underline.push(false),
            ..s
        }
    } else {
        s
    }
}

/// The tag opens one of the style properties that a `style:style` holds.
pub open spec fn is_style_properties(local: Seq<u8>) -> bool {
    local == word("table-row-properties") || local == word("table-properties") || local == word(
        "table-cell-properties",
    )
}

/// A start tag: the new state, the new current style name (if the tag sets
/// it) and the new current style properties (if the tag sets them).
pub open spec fn start_transition(
    s: ParserModel,
    name: Seq<u8>,
    attrs: Seq<Option<RawAttributeModel>>,
) -> (ParserModel, Option<Seq<u8>>, Option<Map<Seq<u8>, Seq<u8>>>) {
    let prefix = name_prefix(name);
    let local = name_local(name);
    if name == word("office:body") {
        (ParserModel { body_begin: true, ..s }, None, None)
    } else if s.body_begin {
        if prefix == word("text") {
            (open_text(s, local), None, None)
        } else {
            (s, None, None)
        }
    } else if name == word("office:automatic-styles") {
        (ParserModel { styles_begin: true, ..s }, None, None)
    } else if s.styles_begin && prefix == word("style") {
        if local == word("style") {
            (s, Some(style_name_of(attrs)), None)
        } else if is_style_properties(local) {
            (s, None, Some(properties_of(attrs)))
        } else {
            (s, None, None)
        }
    } else {
        (s, None, None)
    }
}

/// Character data: appended as a text node to the innermost open element,
/// unless there is none or the text is empty.
pub open spec fn characters_transition(s: ParserModel, c: Seq<u8>) -> ParserModel {
    if s.hierarchy.len() == 0 || c.len() == 0 {
        s
    } else {
        let top = s.hierarchy.last();
        ParserModel {
            hierarchy: s.hierarchy.update(
                s.hierarchy.len() - 1,
                ElementModel { children: top.children.push(NodeModel::Text(c)), ..top },
            ),
            ..s
        }
    }
}

/// A stack without its top, if it has one.
pub open spec fn pop_flag(s: Seq<bool>) -> Seq<bool> {
    if s.len() > 0 {
        s.drop_last()
    } else {
        s
    }
}

/// The innermost open element closes: it becomes the last child of the
/// element around it, or a top-level node of the document.
pub open spec fn close_text(s: ParserModel) -> ParserModel {
    let child = s.hierarchy.last();
    let rest = s.hierarchy.drop_last();
    let s1 = ParserModel {
        set_children_underline: pop_flag(s.set_children_underline),
        ensure_children_no_underline: pop_flag(s.ensure_children_no_underline),
        ..s
    };
    if rest.len() == 0 {
        ParserModel { root: s.root.push(NodeModel::Element(child)), hierarchy: rest, ..s1 }
    } else {
        let parent = rest.last();
        ParserModel {
            hierarchy: rest.update(
                rest.len() - 1,
                ElementModel { children: parent.children.push(NodeModel::Element(child)), ..parent },
            ),
            ..s1
        }
    }
}

/// An end tag, given the current style name and properties: the new state,
/// and the style name and properties handed back (`None` where a `style:style`
/// ends and they were stored).
pub open spec fn end_transition(
    s: ParserModel,
    name: Seq<u8>,
    sn: Seq<u8>,
    sv: Map<Seq<u8>, Seq<u8>>,
) -> (ParserModel, Option<(Seq<u8>, Map<Seq<u8>, Seq<u8>>)>) {
    let prefix = name_prefix(name);
    let local = name_local(name);
    if s.body_begin {
        if s.hierarchy.len() > 0 && name != word("office:body") && prefix == word("text")
            && is_text_block(local) {
            (close_text(s), Some((sn, sv)))
        } else {
            (s, Some((sn, sv)))
        }
    } else if s.styles_begin {
        if name == word("office:automatic-styles") {
            (ParserModel { styles_begin: false, ..s }, Some((sn, sv)))
        } else if name == word("style:style") {
            (ParserModel { auto_styles: s.auto_styles.insert(sn, sv), ..s }, None)
        } else {
            (s, Some((sn, sv)))
        }
    } else {
        (s, Some((sn, sv)))
    }
}

/// An empty tag: the style properties it sets, if any.
pub open spec fn empty_result(name: Seq<u8>, attrs: Seq<Option<RawAttributeModel>>) -> Option<
    Map<Seq<u8>, Seq<u8>>,
> {
    if name == word("style:text-properties") || name == word("style:table-column-properties") {
        Some(properties_of(attrs))
    } else {
        None
    }
}

pub open spec fn opt_props(o: Option<Table<Vec<u8>>>) -> Option<Map<Seq<u8>, Seq<u8>>> {
    match o {
        Some(t) => Some(t@),
        None => None,
    }
}

pub open spec fn opt_bytes(o: Option<Vec<u8>>) -> Option<Seq<u8>> {
    match o {
        Some(v) => Some(v@),
        None => None,
    }
}

/// What `quick_xml` reads as the attributes of the tag `tag` whose name is
/// `name_len` bytes long: each attribute in order, `None` for one it reports
/// as an error.
pub uninterp spec fn quick_xml_attributes(tag: Seq<u8>, name_len: usize) -> Seq<
    Option<RawAttributeModel>,
>;

/// Runs `quick_xml::events::attributes::Attributes::new(tag, name_len)`, the
/// iterator that `BytesStart::attributes` gives, and converts each item.
/// Stated of it: the result is `quick_xml_attributes` of the arguments.
#[verifier::external_body]
pub fn read_attributes(tag: &[u8], name_len: usize) -> (r: Vec<Option<RawAttribute>>)
    ensures
        attrs_model(r@) == quick_xml_attributes(tag@, name_len),
{
    Attributes::new(tag, name_len).map(|a| {
        a.ok().map(|a| RawAttribute { key: a.key.to_vec(), value: a.value.into_owned() })
    }).collect()
}

/// The name of a tag: its first `name_len` bytes.
pub open spec fn tag_name(tag: Seq<u8>, name_len: usize) -> Seq<u8> {
    if name_len <= tag.len() {
        tag.take(name_len as int)
    } else {
        tag
    }
}

/// The name of a tag, as `tag_name` says.
fn raw_tag_name(tag: &Vec<u8>, name_len: usize) -> (r: Vec<u8>)
    ensures
        r@ == tag_name(tag@, name_len),
{
    if name_len <= tag.len() {
        copy_range(tag.as_slice(), 0, name_len)
    } else {
        copy_range(tag.as_slice(), 0, tag.len())
    }
}

/// An event of the XML reader. A start or empty tag is given as the bytes
/// between its `<` and `>` (its name, then its attributes) with the length of
/// its name.
pub enum OdtEvent {
    /// A start tag: its bytes and the length of its name.
    Start(Vec<u8>, usize),
    /// An empty tag: its bytes and the length of its name.
    Empty(Vec<u8>, usize),
    /// An end tag: its name.
    End(Vec<u8>),
    /// Character data, as written (escaped).
    Text(Vec<u8>),
    Eof,
    /// The reader failed, with its message.
    Error(String),
    Other,
}

pub enum OdtEventModel {
    Start { tag: Seq<u8>, name_len: usize },
    Empty { tag: Seq<u8>, name_len: usize },
    End { name: Seq<u8> },
    Text(Seq<u8>),
    Eof,
    Error(Seq<char>),
    Other,
}

impl View for OdtEvent {
    type V = OdtEventModel;

    open spec fn view(&self) -> OdtEventModel {
        match self {
            OdtEvent::Start(tag, name_len) => OdtEventModel::Start {
                tag: tag@,
                name_len: *name_len,
            },
            OdtEvent::Empty(tag, name_len) => OdtEventModel::Empty {
                tag: tag@,
                name_len: *name_len,
            },
            OdtEvent::End(name) => OdtEventModel::End { name: name@ },
            OdtEvent::Text(t) => OdtEventModel::Text(t@),
            OdtEvent::Eof => OdtEventModel::Eof,
            OdtEvent::Error(m) => OdtEventModel::Error(m@),
            OdtEvent::Other => OdtEventModel::Other,
        }
    }
}

pub open spec fn events_model(e: Seq<OdtEvent>) -> Seq<OdtEventModel> {
    e.map_values(|x: OdtEvent| x@)
}

/// The state of a parse: the parser's state and the current style's name
/// and properties.
pub struct RunState {
    pub parser: ParserModel,
    pub style_name: Seq<u8>,
    pub style_value: Map<Seq<u8>, Seq<u8>>,
}

/// The state of a parse after one event (other than the end or a failure).
pub open spec fn apply_event(r: RunState, e: OdtEventModel) -> RunState {
    match e {
        OdtEventModel::Start { tag, name_len } => {
            let (p, n, v) = start_transition(
                r.parser,
                decoded_name(tag_name(tag, name_len)),
                quick_xml_attributes(tag, name_len),
            );
            RunState {
                parser: p,
                style_name: match n {
                    Some(x) => x,
                    None => r.style_name,
                },
                style_value: match v {
                    Some(x) => x,
                    None => r.style_value,
                },
            }
        },
        OdtEventModel::Text(raw) => match character_text(raw) {
            Some(c) => RunState { parser: characters_transition(r.parser, c), ..r },
            None => r,
        },
        OdtEventModel::End { name } => {
            let (p, back) = end_transition(
                r.parser,
                decoded_name(name),
                r.style_name,
                r.style_value,
            );
            match back {
                Some((n, v)) => RunState { parser: p, style_name: n, style_value: v },
                None => RunState { parser: p, style_name: seq![], style_value: Map::empty() },
            }
        },
        OdtEventModel::Empty { tag, name_len } => match empty_result(
            decoded_name(tag_name(tag, name_len)),
            quick_xml_attributes(tag, name_len),
        ) {
            Some(v) => RunState { style_value: v, ..r },
            None => r,
        },
        _ => r,
    }
}

/// The event ends the parse.
pub open spec fn ends_parse(e: OdtEventModel) -> bool {
    e is Eof || e is Error
}

/// A parse of the events from state `r`: the final parser state, and the
/// failure message of the first failure met before the end of the events.
pub open spec fn run(r: RunState, evs: Seq<OdtEventModel>) -> (ParserModel, Result<(), Seq<char>>)
    decreases evs.len(),
{
    if evs.len() == 0 {
        (r.parser, Ok(()))
    } else {
        match evs[0] {
            OdtEventModel::Eof => (r.parser, Ok(())),
            OdtEventModel::Error(m) => (r.parser, Err(m)),
            e => run(apply_event(r, e), evs.drop_first()),
        }
    }
}

/// The name of a tag event (as decoded) can be cut in two.
pub open spec fn name_ok(e: OdtEventModel) -> bool {
    match e {
        OdtEventModel::Start { tag, name_len } => splittable(decoded_name(tag_name(tag, name_len))),
        OdtEventModel::Empty { tag, name_len } => splittable(decoded_name(tag_name(tag, name_len))),
        OdtEventModel::End { name } => splittable(decoded_name(name)),
        _ => true,
    }
}

/// Every tag event that a parse reaches has a name that can be cut in two.
pub open spec fn names_ok(evs: Seq<OdtEventModel>) -> bool {
    forall|i: int|
        0 <= i < evs.len() && (forall|j: int| 0 <= j < i ==> !ends_parse(#[trigger] evs[j]))
            ==> name_ok(#[trigger] evs[i])
}

pub open spec fn result_model(r: Result<(), String>) -> Result<(), Seq<char>> {
    match r {
        Ok(()) => Ok(()),
        Err(m) => Err(m@),
    }
}

/// Each open element has its own pair of underline flags: both flag stacks
/// are exactly as deep as the stack of open elements.
pub open spec fn parser_wf(s: ParserModel) -> bool {
    &&& s.set_children_underline.len() == s.hierarchy.len()
    &&& s.ensure_children_no_underline.len() == s.hierarchy.len()
}

/// The flag stacks keep pace with the open elements under every event.
pub proof fn lemma_wf_kept(
    s: ParserModel,
    name: Seq<u8>,
    attrs: Seq<Option<RawAttributeModel>>,
    c: Seq<u8>,
    sn: Seq<u8>,
    sv: Map<Seq<u8>, Seq<u8>>,
)
    requires
        parser_wf(s),
    ensures
        parser_wf(start_transition(s, name, attrs).0),
        parser_wf(characters_transition(s, c)),
        parser_wf(end_transition(s, name, sn, sv).0),
{
}

/// A whole parse keeps the flag stacks in pace with the open elements.
pub proof fn lemma_wf_run(r: RunState, evs: Seq<OdtEventModel>)
    requires
        parser_wf(r.parser),
    ensures
        parser_wf(run(r, evs).0),
    decreases evs.len(),
{
    if evs.len() > 0 && !ends_parse(evs[0]) {
        let e = evs[0];
        match e {
            OdtEventModel::Start { tag, name_len } => {
                lemma_wf_kept(
                    r.parser,
                    decoded_name(tag_name(tag, name_len)),
                    quick_xml_attributes(tag, name_len),
                    seq![],
                    seq![],
                    Map::empty(),
                );
            },
            OdtEventModel::Text(raw) => {
                lemma_wf_kept(r.parser, seq![], seq![], character_text(raw).unwrap_or(seq![]), seq![], Map::empty());
            },
            OdtEventModel::End { name } => {
                lemma_wf_kept(r.parser, decoded_name(name), seq![], seq![], r.style_name, r.style_value);
            },
            _ => {},
        }
        lemma_wf_run(apply_event(r, e), evs.drop_first());
    }
}

/// When a `style:style` element ends among the automatic styles, the current
/// style's properties are stored under its name, and nothing is handed back.
pub proof fn lemma_style_stored(s: ParserModel, sn: Seq<u8>, sv: Map<Seq<u8>, Seq<u8>>)
    requires
        !s.body_begin,
        s.styles_begin,
    ensures
        end_transition(s, word("style:style"), sn, sv) == (
        ParserModel { auto_styles: s.auto_styles.insert(sn, sv), ..s },
        None::<(Seq<u8>, Map<Seq<u8>, Seq<u8>>)>,
        ),
        end_transition(s, word("style:style"), sn, sv).0.auto_styles[sn] == sv,
{
    reveal_strlit("style:style");
    reveal_strlit("office:automatic-styles");
    lemma_ascii_word("style:style");
    lemma_ascii_word("office:automatic-styles");
    assert(word("style:style").len() != word("office:automatic-styles").len());
}

/// Stored styles are kept: no event forgets a style name, and an end tag
/// changes the properties of no style other than the one it stores.
pub proof fn lemma_styles_kept(
    s: ParserModel,
    name: Seq<u8>,
    attrs: Seq<Option<RawAttributeModel>>,
    c: Seq<u8>,
    sn: Seq<u8>,
    sv: Map<Seq<u8>, Seq<u8>>,
)
    ensures
        start_transition(s, name, attrs).0.auto_styles == s.auto_styles,
        characters_transition(s, c).auto_styles == s.auto_styles,
        forall|k: Seq<u8>|
            #[trigger] s.auto_styles.contains_key(k) ==> end_transition(
                s,
                name,
                sn,
                sv,
            ).0.auto_styles.contains_key(k),
        forall|k: Seq<u8>|
            s.auto_styles.contains_key(k) && k != sn ==> #[trigger] end_transition(
                s,
                name,
                sn,
                sv,
            ).0.auto_styles[k] == s.auto_styles[k],
{
}

/// Once the body has begun the parser stays in it, and the automatic styles
/// and the styles flag no longer change, whatever tag starts or ends and
/// whatever text comes.
pub proof fn lemma_body_mode_kept(
    s: ParserModel,
    name: Seq<u8>,
    attrs: Seq<Option<RawAttributeModel>>,
    c: Seq<u8>,
    sn: Seq<u8>,
    sv: Map<Seq<u8>, Seq<u8>>,
)
    requires
        s.body_begin,
    ensures
        start_transition(s, name, attrs).0.body_begin,
        start_transition(s, name, attrs).0.styles_begin == s.styles_begin,
        start_transition(s, name, attrs).0.auto_styles == s.auto_styles,
        end_transition(s, name, sn, sv).0.body_begin,
        end_transition(s, name, sn, sv).0.styles_begin == s.styles_begin,
        end_transition(s, name, sn, sv).0.auto_styles == s.auto_styles,
        characters_transition(s, c).body_begin,
        characters_transition(s, c).styles_begin == s.styles_begin,
        characters_transition(s, c).auto_styles == s.auto_styles,
{
}

/// The office:body tag does not have the prefix `text`.
proof fn lemma_office_body_not_text()
    ensures
        name_prefix(word("office:body")) != word("text"),
{
    reveal_strlit("office:body");
    reveal_strlit("text");
    lemma_ascii_word("office:body");
    lemma_ascii_word("text");
    let s = word("office:body");
    if name_prefix(s) == word("text") {
        assert(name_prefix(s).len() == 4);
        assert(name_prefix(s)[0] == s[0]);
        assert(word("text")[0] != s[0]);
    }
}

/// The tag is a heading, paragraph or span of the `text` namespace.
pub open spec fn is_block_tag(name: Seq<u8>) -> bool {
    &&& name_prefix(name) == word("text")
    &&& (name_local(name) == word("h") || name_local(name) == word("p") || name_local(name)
        == word("span"))
}

/// Character data (not empty) goes at the end of the innermost open
/// element's children, after every child it already has; the other open
/// elements, the document's nodes and everything else stay as they were.
/// Empty character data, or character data with no open element, changes
/// nothing.
pub proof fn lemma_text_node_appended(s: ParserModel, c: Seq<u8>)
    ensures
        (s.hierarchy.len() == 0 || c.len() == 0) ==> characters_transition(s, c) == s,
        s.hierarchy.len() > 0 && c.len() > 0 ==> {
            let n = characters_transition(s, c);
            &&& n.hierarchy.len() == s.hierarchy.len()
            &&& forall|i: int| 0 <= i < s.hierarchy.len() - 1 ==> n.hierarchy[i] == s.hierarchy[i]
            &&& n.hierarchy.last().children == s.hierarchy.last().children.push(NodeModel::Text(c))
            &&& n.hierarchy.last().name == s.hierarchy.last().name
            &&& n.hierarchy.last().styles == s.hierarchy.last().styles
            &&& n == ParserModel { hierarchy: n.hierarchy, ..s }
        },
{
}

/// In the body, a start tag other than a heading, paragraph or span (such as
/// a sequence declaration, a link or a table) opens nothing and changes
/// nothing, and sets no current style.
pub proof fn lemma_other_start_ignored(
    s: ParserModel,
    name: Seq<u8>,
    attrs: Seq<Option<RawAttributeModel>>,
)
    requires
        s.body_begin,
        !is_block_tag(name),
    ensures
        start_transition(s, name, attrs) == (s, None::<Seq<u8>>, None::<Map<Seq<u8>, Seq<u8>>>),
{
    assert(ParserModel { body_begin: true, ..s } == s);
}

/// In the body, a heading, paragraph or span start tag opens a new innermost
/// element, named by the tag's local name, with no styles and no children,
/// and gives it a pair of unset underline flags; nothing else changes.
pub proof fn lemma_block_start_opens(
    s: ParserModel,
    name: Seq<u8>,
    attrs: Seq<Option<RawAttributeModel>>,
)
    requires
        s.body_begin,
        is_block_tag(name),
    ensures
        start_transition(s, name, attrs) == (
            ParserModel {
                hierarchy: s.hierarchy.push(
                    ElementModel { name: name_local(name), styles: Map::empty(), children: seq![] },
                ),
                set_children_underline: s.set_children_underline.push(false),
                ensure_children_no_underline: s.ensure_children_no_underline.push(false),
                ..s
            },
            None::<Seq<u8>>,
            None::<Map<Seq<u8>, Seq<u8>>>,
        ),
{
    lemma_office_body_not_text();
}

/// In the body, an end tag other than that of a heading, paragraph or span
/// (such as the end of a link) closes nothing and changes nothing; the
/// current style is handed back.
pub proof fn lemma_other_end_ignored(
    s: ParserModel,
    name: Seq<u8>,
    sn: Seq<u8>,
    sv: Map<Seq<u8>, Seq<u8>>,
)
    requires
        s.body_begin,
        !is_block_tag(name),
    ensures
        end_transition(s, name, sn, sv) == (s, Some((sn, sv))),
{
}

/// `n` is `s` with its only open element closed into the document's
/// top-level nodes, after the nodes already there.
pub open spec fn closed_at_top(s: ParserModel, n: ParserModel) -> bool {
    n == ParserModel {
        root: s.root.push(NodeModel::Element(s.hierarchy[0])),
        hierarchy: seq![],
        set_children_underline: seq![],
        ensure_children_no_underline: seq![],
        ..s
    }
}

/// `n` is `s` with its innermost open element closed into the element around
/// it, after that element's other children; the other open elements, the
/// document and the styles stay, and the closed element's flags go.
pub open spec fn closed_into_parent(s: ParserModel, n: ParserModel) -> bool {
    let k = s.hierarchy.len() - 2;
    &&& n.hierarchy.len() == s.hierarchy.len() - 1
    &&& forall|i: int| 0 <= i < k ==> n.hierarchy[i] == s.hierarchy[i]
    &&& n.hierarchy[k].children == s.hierarchy[k].children.push(
        NodeModel::Element(s.hierarchy[k + 1]),
    )
    &&& n.hierarchy[k].name == s.hierarchy[k].name
    &&& n.hierarchy[k].styles == s.hierarchy[k].styles
    &&& n.set_children_underline == s.set_children_underline.drop_last()
    &&& n.ensure_children_no_underline == s.ensure_children_no_underline.drop_last()
    &&& n == ParserModel {
        hierarchy: n.hierarchy,
        set_children_underline: n.set_children_underline,
        ensure_children_no_underline: n.ensure_children_no_underline,
        ..s
    }
}

/// In the body, the end of a heading, paragraph or span closes the innermost
/// open element: it becomes the last child of the element around it (after
/// that element's other children), or the last top-level node of the
/// document when no element is around it; the underline flags of the closed
/// element go; nothing else changes. With no open element nothing changes.
pub proof fn lemma_block_end_closes(
    s: ParserModel,
    name: Seq<u8>,
    sn: Seq<u8>,
    sv: Map<Seq<u8>, Seq<u8>>,
)
    requires
        s.body_begin,
        is_block_tag(name),
        parser_wf(s),
    ensures
        end_transition(s, name, sn, sv).1 == Some((sn, sv)),
        s.hierarchy.len() == 0 ==> end_transition(s, name, sn, sv).0 == s,
        s.hierarchy.len() == 1 ==> closed_at_top(s, end_transition(s, name, sn, sv).0),
        s.hierarchy.len() > 1 ==> closed_into_parent(s, end_transition(s, name, sn, sv).0),
{
    lemma_office_body_not_text();
    if s.hierarchy.len() == 1 {
        assert(s.hierarchy.drop_last() =~= seq![]);
        assert(s.set_children_underline.drop_last() =~= seq![]);
        assert(s.ensure_children_no_underline.drop_last() =~= seq![]);
    }
}

/// Every open element is a heading, paragraph or span.
pub open spec fn open_elements_are_blocks(s: ParserModel) -> bool {
    forall|i: int|
        0 <= i < s.hierarchy.len() ==> (#[trigger] s.hierarchy[i]).name == word("h")
            || s.hierarchy[i].name == word("p") || s.hierarchy[i].name == word("span")
}

/// Only headings, paragraphs and spans are ever open: every event keeps it so.
pub proof fn lemma_open_elements_are_blocks(
    s: ParserModel,
    name: Seq<u8>,
    attrs: Seq<Option<RawAttributeModel>>,
    c: Seq<u8>,
    sn: Seq<u8>,
    sv: Map<Seq<u8>, Seq<u8>>,
)
    requires
        open_elements_are_blocks(s),
    ensures
        open_elements_are_blocks(start_transition(s, name, attrs).0),
        open_elements_are_blocks(characters_transition(s, c)),
        open_elements_are_blocks(end_transition(s, name, sn, sv).0),
{
    let n = start_transition(s, name, attrs).0;
    assert forall|i: int| 0 <= i < n.hierarchy.len() implies (#[trigger] n.hierarchy[i]).name
        == word("h") || n.hierarchy[i].name == word("p") || n.hierarchy[i].name == word("span") by {
        if i < s.hierarchy.len() {
            assert(n.hierarchy[i] == s.hierarchy[i]);
        }
    }
    let m = end_transition(s, name, sn, sv).0;
    assert forall|i: int| 0 <= i < m.hierarchy.len() implies (#[trigger] m.hierarchy[i]).name
        == word("h") || m.hierarchy[i].name == word("p") || m.hierarchy[i].name == word("span") by {
        assert(m.hierarchy[i].name == s.hierarchy[i].name);
    }
    let t = characters_transition(s, c);
    assert forall|i: int| 0 <= i < t.hierarchy.len() implies (#[trigger] t.hierarchy[i]).name
        == word("h") || t.hierarchy[i].name == word("p") || t.hierarchy[i].name == word("span") by {
        assert(t.hierarchy[i].name == s.hierarchy[i].name);
    }
}

/// Finished nodes are kept: no event removes or changes a top-level node of
/// the document, nor its title or paper size.
pub proof fn lemma_root_kept(
    s: ParserModel,
    name: Seq<u8>,
    attrs: Seq<Option<RawAttributeModel>>,
    c: Seq<u8>,
    sn: Seq<u8>,
    sv: Map<Seq<u8>, Seq<u8>>,
)
    ensures
        start_transition(s, name, attrs).0.root == s.root,
        characters_transition(s, c).root == s.root,
        end_transition(s, name, sn, sv).0.root.subrange(0, s.root.len() as int) == s.root,
        end_transition(s, name, sn, sv).0.root.len() >= s.root.len(),
        start_transition(s, name, attrs).0.title == s.title,
        end_transition(s, name, sn, sv).0.title == s.title,
        start_transition(s, name, attrs).0.paper == s.paper,
        end_transition(s, name, sn, sv).0.paper == s.paper,
{
    assert(s.root.subrange(0, s.root.len() as int) =~= s.root);
    assert(s.root.push(NodeModel::Element(s.hierarchy.last())).subrange(0, s.root.len() as int)
        =~= s.root);
}

/// One step of a parse: at an end or a failure the parse stops there;
/// otherwise it goes on from the state after the event. At an event that a
/// parse of `evs` from its start reaches, the names are fine.
pub proof fn lemma_run_step(r: RunState, evs: Seq<OdtEventModel>, i: int)
    requires
        0 <= i < evs.len(),
        names_ok(evs),
        forall|j: int| 0 <= j < i ==> !ends_parse(#[trigger] evs[j]),
    ensures
        name_ok(evs[i]),
        evs[i] is Eof ==> run(r, evs.skip(i)) == (r.parser, Ok::<(), Seq<char>>(())),
        evs[i] matches OdtEventModel::Error(m) ==> run(r, evs.skip(i)) == (r.parser, Err::<(), Seq<char>>(m)),
        !ends_parse(evs[i]) ==> run(r, evs.skip(i)) == run(apply_event(r, evs[i]), evs.skip(i + 1)),
{
    assert(evs.skip(i)[0] == evs[i]);
    assert(evs.skip(i).drop_first() =~= evs.skip(i + 1));
}

/// Nothing is read past the end: a parse gives the same as a parse of the
/// events up to the first end or failure.
pub proof fn lemma_parse_stops(r: RunState, evs: Seq<OdtEventModel>, k: int)
    requires
        0 <= k < evs.len(),
        ends_parse(evs[k]),
    ensures
        run(r, evs) == run(r, evs.take(k + 1)),
    decreases k,
{
    assert(evs.take(k + 1)[0] == evs[0]);
    if k > 0 && !ends_parse(evs[0]) {
        assert(evs.take(k + 1).drop_first() =~= evs.drop_first().take(k));
        lemma_parse_stops(apply_event(r, evs[0]), evs.drop_first(), k - 1);
    }
}

/// What `quick_xml` reads from `xml`: the events of a `quick_xml::Reader`
/// over the bytes, in order, up to the end of the input (not included) or up to
/// and including the first error (with its message), each taken as an
/// `OdtEventModel`.
pub uninterp spec fn quick_xml_events(xml: Seq<u8>) -> Seq<OdtEventModel>;

/// Runs `quick_xml::Reader::read_event` over the bytes until the end of the
/// input or the first error, and converts each event (a start or empty tag as
/// its bytes and name length, an end tag as its name, text as its raw bytes,
/// an error as its message, the rest as `Other`). Stated of it: the result is
/// `quick_xml_events` of the bytes.
#[verifier::external_body]
pub fn read_events(xml: &[u8]) -> (r: Vec<OdtEvent>)
    ensures
        events_model(r@) == quick_xml_events(xml@),
{
    let (mut reader, mut buf, mut out) = (Reader::from_reader(xml), Vec::new(), Vec::new());
    loop {
        let e = match reader.read_event(&mut buf) {
            Ok(XmlStart(c)) => OdtEvent::Start(c.to_vec(), c.name().len()),
            Ok(XmlEmpty(c)) => OdtEvent::Empty(c.to_vec(), c.name().len()),
            Ok(XmlEnd(c)) => OdtEvent::End(c.name().to_vec()),
            Ok(XmlText(c)) => OdtEvent::Text(c.to_vec()),
            Ok(XmlEof) => return out,
            Err(e) => return { out.push(OdtEvent::Error(e.to_string())); out },
            _ => OdtEvent::Other,
        };
        out.push(e);
    }
}

pub open spec fn opt_message(o: Option<String>) -> Option<Seq<char>> {
    match o {
        Some(m) => Some(m@),
        None => None,
    }
}

/// The message that `quick_xml` gives for an I/O error with message `m`.
pub open spec fn io_message(m: Seq<char>) -> Seq<char> {
    "I/O error: "@ + m
}

/// Formats `quick_xml::Error::Io` of an I/O error carrying `m`. Stated of it:
/// the text is `I/O error: ` and then `m` (its `Display` writes
/// `I/O error: {}`, and an error made by `std::io::Error::new` displays its
/// message).
#[verifier::external_body]
fn io_error_message(m: String) -> (r: String)
    ensures
        r@ == io_message(m@),
{
    quick_xml::Error::Io(std::io::Error::new(std::io::ErrorKind::Other, m)).to_string()
}

/// The events of a member, followed by the I/O error that stopped its
/// reading, if one did (the reader meets it where the bytes run out).
pub open spec fn with_fault(evs: Seq<OdtEventModel>, fault: Option<Seq<char>>) -> Seq<OdtEventModel> {
    match fault {
        Some(m) => evs.push(OdtEventModel::Error(io_message(m))),
        None => evs,
    }
}

/// A parse that may have been refused (`None`, when a tag name cannot be
/// cut, leaving the state as it was) went as `run` says over `evs`.
pub open spec fn parsed(
    old: ParserModel,
    new: ParserModel,
    r: Option<Result<(), String>>,
    evs: Seq<OdtEventModel>,
) -> bool {
    &&& r is None <==> !names_ok(evs)
    &&& r is None ==> new == old
    &&& r matches Some(res) ==> (new, result_model(res)) == run(
        RunState { parser: old, style_name: seq![], style_value: Map::empty() },
        evs,
    )
}

impl ODTParser {
    /// A parser before the first event, with an empty A4 document.
    pub fn new() -> (r: ODTParser)
        ensures
            r@ == (ParserModel {
                body_begin: false,
                styles_begin: false,
                auto_styles: Map::empty(),
                set_children_underline: seq![],
                ensure_children_no_underline: seq![],
                title: "Kauri (Working Title)"@,
                paper: PaperSize { height: 297, width: 210, units: DistanceUnit::Millimetres },
                root: seq![],
                hierarchy: seq![],
            }),
    {
        let document_root = Document::new(
            "Kauri (Working Title)".to_owned(),
            PaperSize::new(297, 210, DistanceUnit::Millimetres),
        );
        let r = ODTParser {
            body_begin: false,
            styles_begin: false,
            auto_styles: Table::new(),
            set_children_underline: Vec::new(),
            ensure_children_no_underline: Vec::new(),
            document_root,
            document_hierarchy: Vec::new(),
        };
        assert(r@.root =~= seq![]);
        assert(r@.hierarchy =~= seq![]);
        assert(r@.set_children_underline =~= seq![]);
        assert(r@.ensure_children_no_underline =~= seq![]);
        r
    }

    /// The document built so far.
    pub fn document(&self) -> (r: &Document)
        ensures
            r.title@ == self@.title,
            r.paper == self@.paper,
            nodes_model(r.children@) == self@.root,
    {
        &self.document_root
    }

    /// The properties stored for the automatic style `name`, if any.
    pub fn style(&self, name: &[u8]) -> (r: Option<&Table<Vec<u8>>>)
        ensures
            match r {
                Some(t) => self@.auto_styles.contains_key(name@) && t@ == self@.auto_styles[name@],
                None => !self@.auto_styles.contains_key(name@),
            },
    {
        self.auto_styles.get(name)
    }

    /// Character data: appended as a text node to the innermost open element.
    pub fn handle_characters(&mut self, contents: Vec<u8>)
        ensures
            final(self)@ == characters_transition(old(self)@, contents@),
    {
        if self.document_hierarchy.len() == 0 || contents.len() == 0 {
            return;
        }
        let ghost before = self.document_hierarchy@;
        let text = Text::new(contents);
        let mut top = self.document_hierarchy.pop().unwrap();
        let ghost old_top = top;
        top.children.push(Node::Text(text));
        proof {
            lemma_push_child(old_top, top, Node::Text(text));
        }
        self.document_hierarchy.push(top);
        assert(elements_model(self.document_hierarchy@) =~= elements_model(before).update(
            before.len() - 1,
            ElementModel {
                children: element_model(old_top).children.push(node_model(Node::Text(text))),
                ..element_model(old_top)
            },
        ));
    }

    /// A text tag in the body: a heading, paragraph or span opens a new element.
    fn handle_element_start_text(&mut self, local: Vec<u8>)
        ensures
            final(self)@ == open_text(old(self)@, local@),
    {
        if is_word(local.as_slice(), "h") || is_word(local.as_slice(), "p") || is_word(
            local.as_slice(),
            "span",
        ) {
            let ghost before = self.document_hierarchy@;
            let element = Element { name: local, styles: Table::new(), children: Vec::new() };
            proof {
                lemma_element_model(element);
                assert(nodes_model(element.children@) =~= seq![]);
            }
            self.document_hierarchy.push(element);
            self.set_children_underline.push(false);
            self.ensure_children_no_underline.push(false);
            assert(elements_model(self.document_hierarchy@) =~= elements_model(before).push(
                element_model(element),
            ));
        }
    }

    /// A start tag: updates the state and gives the new current style name
    /// and properties, where the tag sets them. `table:` tags are ignored.
    pub fn handle_element_start(
        &mut self,
        name: &[u8],
        attributes: &Vec<Option<RawAttribute>>,
    ) -> (r: (Option<Vec<u8>>, Option<Table<Vec<u8>>>))
        requires
            splittable(name@),
        ensures
            (final(self)@, opt_bytes(r.0), opt_props(r.1)) == start_transition(
                old(self)@,
                name@,
                attrs_model(attributes@),
            ),
    {
        let (prefix, local) = split_name(name);
        if is_word(name, "office:body") {
            self.body_begin = true;
            (None, None)
        } else if self.body_begin {
            if is_word(prefix.as_slice(), "text") {
                self.handle_element_start_text(local);
            }
            (None, None)
        } else if is_word(name, "office:automatic-styles") {
            self.styles_begin = true;
            (None, None)
        } else if self.styles_begin && is_word(prefix.as_slice(), "style") {
            if is_word(local.as_slice(), "style") {
                (Some(style_begin(attributes)), None)
            } else if is_word(local.as_slice(), "table-row-properties") || is_word(
                local.as_slice(),
                "table-properties",
            ) || is_word(local.as_slice(), "table-cell-properties") {
                (None, Some(properties_begin(attributes)))
            } else {
                (None, None)
            }
        } else {
            (None, None)
        }
    }

    /// An empty tag: the style properties it sets, if any. Nothing else is
    /// read from an empty tag (`table:table-column` and `text:` tags are
    /// ignored), so the state is left as it was.
    pub fn handle_element_empty(
        &mut self,
        name: &[u8],
        attributes: &Vec<Option<RawAttribute>>,
    ) -> (r: Option<Table<Vec<u8>>>)
        requires
            splittable(name@),
        ensures
            final(self)@ == old(self)@,
            opt_props(r) == empty_result(name@, attrs_model(attributes@)),
    {
        if is_word(name, "style:text-properties") || is_word(name, "style:table-column-properties") {
            Some(properties_begin(attributes))
        } else {
            None
        }
    }

    /// The innermost open element closes into its parent or the document.
    fn close_text(&mut self)
        requires
            old(self)@.hierarchy.len() > 0,
        ensures
            final(self)@ == close_text(old(self)@),
    {
        let ghost before = self.document_hierarchy@;
        self.set_children_underline.pop();
        self.ensure_children_no_underline.pop();
        let child = self.document_hierarchy.pop().unwrap();
        assert(elements_model(self.document_hierarchy@) =~= elements_model(before).drop_last());
        if self.document_hierarchy.len() == 0 {
            let ghost old_root = self.document_root.children@;
            self.document_root.children.push(Node::Element(child));
            assert(nodes_model(self.document_root.children@) =~= nodes_model(old_root).push(
                node_model(Node::Element(child)),
            ));
        } else {
            let ghost rest = self.document_hierarchy@;
            let mut parent = self.document_hierarchy.pop().unwrap();
            let ghost old_parent = parent;
            parent.children.push(Node::Element(child));
            proof {
                lemma_push_child(old_parent, parent, Node::Element(child));
            }
            self.document_hierarchy.push(parent);
            assert(elements_model(self.document_hierarchy@) =~= elements_model(rest).update(
                rest.len() - 1,
                ElementModel {
                    children: element_model(old_parent).children.push(
                        node_model(Node::Element(child)),
                    ),
                    ..element_model(old_parent)
                },
            ));
        }
    }

    /// An end tag, given the current style name and properties: updates the
    /// state and hands the style back, unless a `style:style` ended and the
    /// style was stored. A closing span keeps its (empty) styles; `table:`
    /// tags are ignored.
    pub fn handle_element_end(
        &mut self,
        name: &[u8],
        current_style_name: Vec<u8>,
        current_style_value: Table<Vec<u8>>,
    ) -> (r: Option<(Vec<u8>, Table<Vec<u8>>)>)
        requires
            splittable(name@),
        ensures
            ({
                let (s, back) = end_transition(
                    old(self)@,
                    name@,
                    current_style_name@,
                    current_style_value@,
                );
                &&& final(self)@ == s
                &&& match r {
                    Some(p) => back == Some((p.0@, p.1@)),
                    None => back is None,
                }
            }),
    {
        let (prefix, local) = split_name(name);
        if self.body_begin {
            if self.document_hierarchy.len() > 0 && !is_word(name, "office:body") && is_word(
                prefix.as_slice(),
                "text",
            ) && (is_word(local.as_slice(), "h") || is_word(local.as_slice(), "p") || is_word(
                local.as_slice(),
                "span",
            )) {
                self.close_text();
            }
            Some((current_style_name, current_style_value))
        } else if self.styles_begin {
            if is_word(name, "office:automatic-styles") {
                self.styles_begin = false;
                Some((current_style_name, current_style_value))
            } else if is_word(name, "style:style") {
                self.auto_styles.insert(current_style_name, current_style_value);
                None
            } else {
                Some((current_style_name, current_style_value))
            }
        } else {
            Some((current_style_name, current_style_value))
        }
    }

    /// Whether every tag event that a parse of `events` reaches has a name
    /// that can be cut in two, as `parse` requires.
    pub fn names_ok(events: &Vec<OdtEvent>) -> (r: bool)
        ensures
            r == names_ok(events_model(events@)),
    {
        let ghost m = events_model(events@);
        let mut i: usize = 0;
        while i < events.len()
            invariant
                i <= events@.len(),
                m == events_model(events@),
                forall|j: int| 0 <= j < i ==> !ends_parse(#[trigger] m[j]),
                forall|j: int| 0 <= j < i ==> name_ok(#[trigger] m[j]),
            decreases events@.len() - i,
        {
            assert(m[i as int] == events@[i as int]@);
            let ok = match &events[i] {
                OdtEvent::Start(tag, name_len) => splittable_name(
                    decode_name(raw_tag_name(tag, *name_len).as_slice()).as_slice(),
                ),
                OdtEvent::Empty(tag, name_len) => splittable_name(
                    decode_name(raw_tag_name(tag, *name_len).as_slice()).as_slice(),
                ),
                OdtEvent::End(name) => splittable_name(decode_name(name.as_slice()).as_slice()),
                OdtEvent::Eof => {
                    return true;
                },
                OdtEvent::Error(_) => {
                    return true;
                },
                OdtEvent::Other => true,
                OdtEvent::Text(_) => true,
            };
            if !ok {
                return false;
            }
            i = i + 1;
        }
        true
    }

    /// One event that neither ends the parse nor fails it, given the current
    /// style name and properties: updates the state and gives the new current
    /// style name and properties.
    fn handle_event(
        &mut self,
        ev: &OdtEvent,
        style_name: Vec<u8>,
        style_value: Table<Vec<u8>>,
    ) -> (r: (Vec<u8>, Table<Vec<u8>>))
        requires
            !ends_parse(ev@),
            name_ok(ev@),
        ensures
            (RunState { parser: final(self)@, style_name: r.0@, style_value: r.1@ }) == apply_event(
                RunState { parser: old(self)@, style_name: style_name@, style_value: style_value@ },
                ev@,
            ),
    {
        match ev {
            OdtEvent::Start(tag, name_len) => {
                let name = decode_name(raw_tag_name(tag, *name_len).as_slice());
                let attributes = read_attributes(tag.as_slice(), *name_len);
                let (n, v) = self.handle_element_start(name.as_slice(), &attributes);
                let n = match n {
                    Some(x) => x,
                    None => style_name,
                };
                let v = match v {
                    Some(x) => x,
                    None => style_value,
                };
                (n, v)
            },
            OdtEvent::Text(raw) => {
                match decode_text(raw.as_slice()) {
                    Some(c) => self.handle_characters(c),
                    None => {},
                }
                (style_name, style_value)
            },
            OdtEvent::End(name) => {
                let name = decode_name(name.as_slice());
                match self.handle_element_end(name.as_slice(), style_name, style_value) {
                    Some((n, v)) => (n, v),
                    None => {
                        let n: Vec<u8> = Vec::new();
                        assert(n@ =~= seq![]);
                        (n, Table::new())
                    },
                }
            },
            OdtEvent::Empty(tag, name_len) => {
                let name = decode_name(raw_tag_name(tag, *name_len).as_slice());
                let attributes = read_attributes(tag.as_slice(), *name_len);
                match self.handle_element_empty(name.as_slice(), &attributes) {
                    Some(v) => (style_name, v),
                    None => (style_name, style_value),
                }
            },
            _ => (style_name, style_value),
        }
    }

    /// Parses the events of a document's `content.xml`, up to its end or the
    /// first failure, whose message is then the error.
    pub fn parse_events(&mut self, events: Vec<OdtEvent>) -> (r: Result<(), String>)
        requires
            names_ok(events_model(events@)),
        ensures
            (final(self)@, result_model(r)) == run(
                RunState { parser: old(self)@, style_name: seq![], style_value: Map::empty() },
                events_model(events@),
            ),
    {
        let ghost all = events_model(events@);
        let ghost start = RunState { parser: self@, style_name: seq![], style_value: Map::empty() };
        let mut style_name: Vec<u8> = Vec::new();
        let mut style_value: Table<Vec<u8>> = Table::new();
        let mut i: usize = 0;
        assert(all.skip(0) =~= all);
        assert(style_name@ =~= seq![]);
        while i < events.len()
            invariant
                i <= events@.len(),
                all == events_model(events@),
                names_ok(all),
                start == (RunState { parser: old(self)@, style_name: seq![], style_value: Map::empty() }),
                forall|j: int| 0 <= j < i ==> !ends_parse(#[trigger] all[j]),
                run(
                    RunState { parser: self@, style_name: style_name@, style_value: style_value@ },
                    all.skip(i as int),
                ) == run(start, all),
            decreases events@.len() - i,
        {
            proof {
                lemma_run_step(
                    RunState { parser: self@, style_name: style_name@, style_value: style_value@ },
                    all,
                    i as int,
                );
            }
            assert(all[i as int] == events@[i as int]@);
            match &events[i] {
                OdtEvent::Eof => {
                    return Ok(());
                },
                OdtEvent::Error(m) => {
                    let m2 = m.clone();
                    assert(result_model(Err::<(), String>(m2)) == Err::<(), Seq<char>>(m@));
                    return Err(m2);
                },
                ev => {
                    let (n, v) = self.handle_event(ev, style_name, style_value);
                    style_name = n;
                    style_value = v;
                },
            }
            i = i + 1;
        }
        Ok(())
    }

    /// Parses the bytes of a document's `content.xml` as `quick_xml` reads
    /// them; `None` where a tag name cannot be cut in two.
    pub fn parse_xml(&mut self, xml: &[u8]) -> (r: Option<Result<(), String>>)
        ensures
            parsed(old(self)@, final(self)@, r, quick_xml_events(xml@)),
    {
        let ghost evs = quick_xml_events(xml@);
        assert(with_fault(evs, None) == evs);
        self.parse_content(xml, None)
    }

    /// Parses the bytes of `content.xml` that could be read; where reading
    /// stopped on an error (`fault`), the reader meets that error after them.
    fn parse_content(&mut self, xml: &[u8], fault: Option<String>) -> (r: Option<Result<(), String>>)
        ensures
            parsed(old(self)@, final(self)@, r, with_fault(quick_xml_events(xml@), opt_message(fault))),
    {
        let mut events = read_events(xml);
        match fault {
            Some(m) => {
                let ghost before = events@;
                events.push(OdtEvent::Error(io_error_message(m)));
                assert(events_model(events@) =~= events_model(before).push(events@.last()@));
            },
            None => {},
        }
        if !ODTParser::names_ok(&events) {
            return None;
        }
        Some(self.parse_events(events))
    }

    /// Parses an ODT file's bytes: the message why the archive gives no
    /// `content.xml`, or the parse of its `content.xml`.
    pub fn parse(&mut self, archive: &[u8]) -> (r: Option<Result<(), String>>)
        ensures
            match member(archive@) {
                Err(m) => final(self)@ == old(self)@ && (r matches Some(Err(e)) && e@ == m),
                Ok((xml, fault)) => parsed(
                    old(self)@,
                    final(self)@,
                    r,
                    with_fault(quick_xml_events(xml), fault),
                ),
            },
    {
        match read_member(archive) {
            Err(m) => Some(Err(m)),
            Ok((xml, fault)) => self.parse_content(xml.as_slice(), fault),
        }
    }
}

} // verus!
