//! The reading of a `content.xml` event stream into a flat document of
//! headings and paragraphs.
//!
//! The reader is a state machine: the caller reads events and hands each one
//! to `ContentReader::step`, which says what to do next.

use vstd::prelude::*;
use crate::archive::{member, read_member};
use crate::names::{copy_range, is_word, lemma_ascii_word, word};
use xml::name::OwnedName;
use xml::reader::{EventReader, XmlEvent};

verus! {

/// A name cut at the `:` into its prefix (if it has one) and its local part.
pub struct QName {
    pub prefix: Option<Vec<u8>>,
    pub local: Vec<u8>,
}

pub struct QNameModel {
    pub prefix: Option<Seq<u8>>,
    pub local: Seq<u8>,
}

/// An attribute of a start tag.
pub struct Attr {
    pub name: QName,
    pub value: Vec<u8>,
}

pub struct AttrModel {
    pub name: QNameModel,
    pub value: Seq<u8>,
}

pub open spec fn opt_bytes(o: Option<Vec<u8>>) -> Option<Seq<u8>> {
    match o {
        Some(v) => Some(v@),
        None => None,
    }
}

impl View for QName {
    type V = QNameModel;

    open spec fn view(&self) -> QNameModel {
        QNameModel { prefix: opt_bytes(self.prefix), local: self.local@ }
    }
}

impl View for Attr {
    type V = AttrModel;

    open spec fn view(&self) -> AttrModel {
        AttrModel { name: self.name@, value: self.value@ }
    }
}

pub open spec fn attrs_model(attrs: Seq<Attr>) -> Seq<AttrModel> {
    attrs.map_values(|a: Attr| a@)
}

/// An event of the XML stream, as far as the reader looks at it.
pub enum ContentEvent {
    /// A start tag.
    Start { name: QName, attributes: Vec<Attr> },
    /// Character data.
    Characters(Vec<u8>),
    /// An end tag.
    End { name: QName },
    /// The stream could not be read further.
    Failure,
    /// Any other event.
    Other,
}

pub enum EventModel {
    Start { name: QNameModel, attributes: Seq<AttrModel> },
    Characters(Seq<u8>),
    End { name: QNameModel },
    Failure,
    Other,
}

impl View for ContentEvent {
    type V = EventModel;

    open spec fn view(&self) -> EventModel {
        match self {
            ContentEvent::Start { name, attributes } => EventModel::Start {
                name: name@,
                attributes: attrs_model(attributes@),
            },
            ContentEvent::Characters(c) => EventModel::Characters(c@),
            ContentEvent::End { name } => EventModel::End { name: name@ },
            ContentEvent::Failure => EventModel::Failure,
            ContentEvent::Other => EventModel::Other,
        }
    }
}

/// A heading or a paragraph with the texts found inside it.
pub enum Block {
    /// A heading; `level` is the value of its last `text:outline-level`
    /// attribute, as written in the file.
    Heading { level: Option<Vec<u8>>, texts: Vec<Vec<u8>> },
    Paragraph { texts: Vec<Vec<u8>> },
}

pub enum BlockModel {
    Heading { level: Option<Seq<u8>>, texts: Seq<Seq<u8>> },
    Paragraph { texts: Seq<Seq<u8>> },
}

pub open spec fn texts_model(t: Seq<Vec<u8>>) -> Seq<Seq<u8>> {
    t.map_values(|v: Vec<u8>| v@)
}

impl View for Block {
    type V = BlockModel;

    open spec fn view(&self) -> BlockModel {
        match self {
            Block::Heading { level, texts } => BlockModel::Heading {
                level: opt_bytes(*level),
                texts: texts_model(texts@),
            },
            Block::Paragraph { texts } => BlockModel::Paragraph { texts: texts_model(texts@) },
        }
    }
}

pub open spec fn opt_block(b: Option<Block>) -> Option<BlockModel> {
    match b {
        Some(b) => Some(b@),
        None => None,
    }
}

/// What the caller does after a step.
pub enum Action {
    /// Read the next event.
    Continue,
    /// Every value here must read as a number (in this order); then read on.
    CheckLevels(Vec<Vec<u8>>),
    /// The body has ended: stop reading and take the document.
    Stop,
    /// The stream failed (or the member could not be read to its end, and the
    /// body had not ended): the answer is the empty document.
    Abort,
}

pub enum ActionModel {
    Continue,
    CheckLevels(Seq<Seq<u8>>),
    Stop,
    Abort,
}

impl View for Action {
    type V = ActionModel;

    open spec fn view(&self) -> ActionModel {
        match self {
            Action::Continue => ActionModel::Continue,
            Action::CheckLevels(v) => ActionModel::CheckLevels(texts_model(v@)),
            Action::Stop => ActionModel::Stop,
            Action::Abort => ActionModel::Abort,
        }
    }
}

/// The state of a reading: whether the body has begun, the block being
/// read, and the blocks read so far (`None` where an end tag closed no block).
pub struct ContentReader {
    begun: bool,
    current: Option<Block>,
    children: Vec<Option<Block>>,
}

pub struct ReaderModel {
    pub begun: bool,
    pub current: Option<BlockModel>,
    pub children: Seq<Option<BlockModel>>,
}

pub open spec fn blocks_model(c: Seq<Option<Block>>) -> Seq<Option<BlockModel>> {
    c.map_values(|b: Option<Block>| opt_block(b))
}

impl View for ContentReader {
    type V = ReaderModel;

    closed spec fn view(&self) -> ReaderModel {
        ReaderModel {
            begun: self.begun,
            current: opt_block(self.current),
            children: blocks_model(self.children@),
        }
    }
}

/// The document that a reading yields.
pub struct ContentDocument {
    pub title: String,
    pub paper: String,
    pub children: Vec<Option<Block>>,
}

pub open spec fn is_prefix(p: Option<Seq<u8>>, w: &str) -> bool {
    p == Some(word(w))
}

/// An attribute that gives a heading's level.
pub open spec fn is_outline_level(a: AttrModel) -> bool {
    is_prefix(a.name.prefix, "text") && a.name.local == word("outline-level")
}

/// The values of the level attributes among `attrs`, in order.
pub open spec fn outline_levels(attrs: Seq<AttrModel>) -> Seq<Seq<u8>>
    decreases attrs.len(),
{
    if attrs.len() == 0 {
        seq![]
    } else {
        let rest = outline_levels(attrs.drop_last());
        if is_outline_level(attrs.last()) {
            rest.push(attrs.last().value)
        } else {
            rest
        }
    }
}

pub open spec fn last_of(s: Seq<Seq<u8>>) -> Option<Seq<u8>> {
    if s.len() > 0 {
        Some(s.last())
    } else {
        None
    }
}

/// The start tag opens the body.
pub open spec fn opens_body(prefix: Option<Seq<u8>>, local: Seq<u8>) -> bool {
    is_prefix(prefix, "office") && local == word("body")
}

/// The tag is `text:h` (inside the body).
pub open spec fn is_heading_tag(prefix: Option<Seq<u8>>, local: Seq<u8>) -> bool {
    is_prefix(prefix, "text") && local == word("h")
}

/// The tag is `text:p` (inside the body).
pub open spec fn is_paragraph_tag(prefix: Option<Seq<u8>>, local: Seq<u8>) -> bool {
    is_prefix(prefix, "text") && local == word("p")
}

/// The start tag opens a heading.
pub open spec fn starts_heading(s: ReaderModel, prefix: Option<Seq<u8>>, local: Seq<u8>) -> bool {
    !opens_body(prefix, local) && s.begun && is_heading_tag(prefix, local)
}

/// The events on which a step is defined: character data only inside a
/// block, and a heading only when each of its attributes has a prefix.
pub open spec fn step_ok(s: ReaderModel, e: EventModel) -> bool {
    match e {
        EventModel::Characters(_) => s.current is Some,
        EventModel::Start { name, attributes } => starts_heading(s, name.prefix, name.local)
            ==> forall|i: int|
            0 <= i < attributes.len() ==> (#[trigger] attributes[i]).name.prefix is Some,
        _ => true,
    }
}

/// The state after an event.
pub open spec fn next_state(s: ReaderModel, e: EventModel) -> ReaderModel {
    match e {
        EventModel::Start { name: QNameModel { prefix, local }, attributes } => if opens_body(
            prefix,
            local,
        ) {
            ReaderModel { begun: true, ..s }
        } else if s.begun && is_heading_tag(prefix, local) {
            ReaderModel {
                current: Some(
                    BlockModel::Heading { level: last_of(outline_levels(attributes)), texts: seq![] },
                ),
                ..s
            }
        } else if s.begun && is_paragraph_tag(prefix, local) {
            ReaderModel { current: Some(BlockModel::Paragraph { texts: seq![] }), ..s }
        } else {
            s
        },
        EventModel::Characters(c) => ReaderModel { current: add_text(s.current, c), ..s },
        EventModel::End { name: QNameModel { prefix, local } } => if s.begun && !opens_body(prefix, local) && (
        is_heading_tag(prefix, local) || is_paragraph_tag(prefix, local)) {
            ReaderModel { current: None, children: s.children.push(s.current), ..s }
        } else {
            s
        },
        _ => s,
    }
}

/// A block with one more text at its end.
pub open spec fn add_text(b: Option<BlockModel>, c: Seq<u8>) -> Option<BlockModel> {
    match b {
        Some(BlockModel::Heading { level, texts }) => Some(
            BlockModel::Heading { level, texts: texts.push(c) },
        ),
        Some(BlockModel::Paragraph { texts }) => Some(BlockModel::Paragraph { texts: texts.push(c) }),
        None => None,
    }
}

/// What the caller does after an event.
pub open spec fn next_action(s: ReaderModel, e: EventModel) -> ActionModel {
    match e {
        EventModel::Start { name: QNameModel { prefix, local }, attributes } => if starts_heading(
            s,
            prefix,
            local,
        ) {
            ActionModel::CheckLevels(outline_levels(attributes))
        } else {
            ActionModel::Continue
        },
        EventModel::End { name: QNameModel { prefix, local } } => if s.begun && opens_body(
            prefix,
            local,
        ) {
            ActionModel::Stop
        } else {
            ActionModel::Continue
        },
        EventModel::Failure => ActionModel::Abort,
        _ => ActionModel::Continue,
    }
}

/// Nothing is read before the body: while the body has not begun, no block
/// is open and none has been read.
pub open spec fn reader_wf(s: ReaderModel) -> bool {
    !s.begun ==> s.current is None && s.children.len() == 0
}

/// A fresh reader has read nothing, and every step keeps it so until the body begins.
pub proof fn lemma_nothing_before_body(s: ReaderModel, e: EventModel)
    requires
        reader_wf(s),
        step_ok(s, e),
    ensures
        reader_wf(next_state(s, e)),
        reader_wf(ReaderModel { begun: false, current: None, children: seq![] }),
{
}

/// Blocks once read are kept: each step leaves the blocks read so far in
/// place and adds at most one block at the end.
pub proof fn lemma_blocks_kept(s: ReaderModel, e: EventModel)
    requires
        step_ok(s, e),
    ensures
        s.children.len() <= next_state(s, e).children.len() <= s.children.len() + 1,
        next_state(s, e).children.subrange(0, s.children.len() as int) == s.children,
{
    assert(s.children.push(s.current).subrange(0, s.children.len() as int) =~= s.children);
    assert(s.children.subrange(0, s.children.len() as int) =~= s.children);
}

/// Once the body has begun, it stays begun.
pub proof fn lemma_body_stays_begun(s: ReaderModel, e: EventModel)
    requires
        s.begun,
    ensures
        next_state(s, e).begun,
{
}

/// A block that an end tag closes is read as it stood, with every text that
/// arrived since it opened; no block is open afterwards.
pub proof fn lemma_block_closed(s: ReaderModel, prefix: Option<Seq<u8>>, local: Seq<u8>)
    requires
        s.begun,
        is_heading_tag(prefix, local) || is_paragraph_tag(prefix, local),
    ensures
        next_state(s, EventModel::End { name: QNameModel { prefix, local } }).children == s.children.push(s.current),
        next_state(s, EventModel::End { name: QNameModel { prefix, local } }).current is None,
        next_action(s, EventModel::End { name: QNameModel { prefix, local } }) == ActionModel::Continue,
{
    reveal_strlit("text");
    reveal_strlit("office");
    lemma_ascii_word("text");
    lemma_ascii_word("office");
    assert(word("text")[0] != word("office")[0]);
}

/// The texts that a block holds.
pub open spec fn block_texts(b: BlockModel) -> Seq<Seq<u8>> {
    match b {
        BlockModel::Heading { texts, .. } => texts,
        BlockModel::Paragraph { texts } => texts,
    }
}

/// Character data inside a block goes at the end of the block's texts: the
/// block keeps its kind, its level and every text it held, in order, however
/// many texts it already holds; nothing else changes.
pub proof fn lemma_text_appended(s: ReaderModel, c: Seq<u8>)
    requires
        s.current is Some,
    ensures
        next_state(s, EventModel::Characters(c)).current is Some,
        block_texts(next_state(s, EventModel::Characters(c)).current.unwrap()) == block_texts(
            s.current.unwrap(),
        ).push(c),
        s.current.unwrap() is Heading <==> next_state(
            s,
            EventModel::Characters(c),
        ).current.unwrap() is Heading,
        s.current.unwrap() is Heading ==> next_state(
            s,
            EventModel::Characters(c),
        ).current.unwrap()->Heading_level == s.current.unwrap()->Heading_level,
        next_state(s, EventModel::Characters(c)).begun == s.begun,
        next_state(s, EventModel::Characters(c)).children == s.children,
        next_action(s, EventModel::Characters(c)) == ActionModel::Continue,
{
}

/// Where the level attributes are: `outline_levels` is empty exactly when
/// there is none, and otherwise ends with the value of the last one.
proof fn lemma_outline_levels(attrs: Seq<AttrModel>)
    ensures
        outline_levels(attrs).len() == 0 <==> forall|i: int|
            0 <= i < attrs.len() ==> !is_outline_level(#[trigger] attrs[i]),
        outline_levels(attrs).len() > 0 ==> exists|i: int|
            0 <= i < attrs.len() && is_outline_level(#[trigger] attrs[i]) && attrs[i].value
                == outline_levels(attrs).last() && forall|j: int|
                i < j < attrs.len() ==> !is_outline_level(#[trigger] attrs[j]),
    decreases attrs.len(),
{
    if attrs.len() > 0 {
        let rest = attrs.drop_last();
        lemma_outline_levels(rest);
        let n = attrs.len() - 1;
        if is_outline_level(attrs.last()) {
            assert(is_outline_level(attrs[n]));
        } else {
            assert forall|i: int| 0 <= i < n implies attrs[i] == rest[i] by {}
            if outline_levels(rest).len() > 0 {
                let i = choose|i: int|
                    0 <= i < rest.len() && is_outline_level(#[trigger] rest[i]) && rest[i].value
                        == outline_levels(rest).last() && forall|j: int|
                        i < j < rest.len() ==> !is_outline_level(#[trigger] rest[j]);
                assert(attrs[i] == rest[i]);
                assert forall|j: int| i < j < attrs.len() implies !is_outline_level(
                    #[trigger] attrs[j],
                ) by {
                    if j < n {
                        assert(attrs[j] == rest[j]);
                    }
                }
            }
        }
    }
}

/// `text` and `office` are different prefixes.
proof fn lemma_text_is_not_office()
    ensures
        word("text") != word("office"),
{
    reveal_strlit("text");
    reveal_strlit("office");
    lemma_ascii_word("text");
    lemma_ascii_word("office");
    assert(word("text")[0] != word("office")[0]);
}

/// A `text:h` start tag in the body opens an empty heading whose level is
/// the value of the last `text:outline-level` attribute, or none when there
/// is no such attribute; the blocks read so far stay.
pub proof fn lemma_heading_opened(s: ReaderModel, name: QNameModel, attrs: Seq<AttrModel>)
    requires
        s.begun,
        name.prefix == Some(word("text")),
        name.local == word("h"),
    ensures
        next_state(s, EventModel::Start { name, attributes: attrs }).children == s.children,
        next_state(s, EventModel::Start { name, attributes: attrs }).current matches Some(
            BlockModel::Heading { level, texts },
        ) && texts.len() == 0 && (level is None <==> forall|i: int|
            0 <= i < attrs.len() ==> !(#[trigger] attrs[i]).name.prefix.is_some() || attrs[i].name.prefix
                != Some(word("text")) || attrs[i].name.local != word("outline-level")) && (
        level is Some ==> exists|i: int|
            0 <= i < attrs.len() && attrs[i].name.prefix == Some(word("text"))
                && attrs[i].name.local == word("outline-level") && (#[trigger] attrs[i]).value
                == level.unwrap() && forall|j: int|
                i < j < attrs.len() ==> (#[trigger] attrs[j]).name.prefix != Some(word("text"))
                    || attrs[j].name.local != word("outline-level")),
{
    lemma_text_is_not_office();
    lemma_outline_levels(attrs);
}

fn prefix_is(p: &Option<Vec<u8>>, w: &str) -> (r: bool)
    ensures
        r == is_prefix(opt_bytes(*p), w),
{
    match p {
        Some(v) => is_word(v, w),
        None => false,
    }
}

fn copy_bytes(v: &Vec<u8>) -> (r: Vec<u8>)
    ensures
        r@ == v@,
{
    copy_range(v.as_slice(), 0, v.len())
}

/// The values of the level attributes among `attrs`, in order.
fn collect_levels(attrs: &Vec<Attr>) -> (r: Vec<Vec<u8>>)
    ensures
        texts_model(r@) == outline_levels(attrs_model(attrs@)),
{
    let ghost all = attrs_model(attrs@);
    let mut r: Vec<Vec<u8>> = Vec::new();
    let mut i: usize = 0;
    while i < attrs.len()
        invariant
            i <= attrs@.len(),
            all == attrs_model(attrs@),
            texts_model(r@) == outline_levels(all.take(i as int)),
        decreases attrs@.len() - i,
    {
        let a = &attrs[i];
        assert(all.take(i + 1).drop_last() =~= all.take(i as int));
        assert(all.take(i + 1).last() == a@);
        if prefix_is(&a.name.prefix, "text") && is_word(a.name.local.as_slice(), "outline-level") {
            let v = copy_bytes(&a.value);
            let ghost before = r@;
            r.push(v);
            assert(texts_model(r@) =~= texts_model(before).push(v@));
        }
        i = i + 1;
    }
    assert(all.take(attrs@.len() as int) =~= all);
    r
}

/// Whether every attribute has a prefix.
fn all_prefixed(attrs: &Vec<Attr>) -> (r: bool)
    ensures
        r == forall|i: int|
            0 <= i < attrs_model(attrs@).len() ==> (#[trigger] attrs_model(attrs@)[i]).name.prefix is Some,
{
    let mut i: usize = 0;
    while i < attrs.len()
        invariant
            i <= attrs@.len(),
            forall|j: int| 0 <= j < i ==> (#[trigger] attrs_model(attrs@)[j]).name.prefix is Some,
        decreases attrs@.len() - i,
    {
        if attrs[i].name.prefix.is_none() {
            assert(attrs_model(attrs@)[i as int].name.prefix is None);
            return false;
        }
        i = i + 1;
    }
    true
}

fn push_text(b: Block, c: Vec<u8>) -> (r: Block)
    ensures
        Some(r@) == add_text(Some(b@), c@),
{
    match b {
        Block::Heading { level, mut texts } => {
            let ghost before = texts@;
            texts.push(c);
            assert(texts_model(texts@) =~= texts_model(before).push(c@));
            Block::Heading { level, texts }
        },
        Block::Paragraph { mut texts } => {
            let ghost before = texts@;
            texts.push(c);
            assert(texts_model(texts@) =~= texts_model(before).push(c@));
            Block::Paragraph { texts }
        },
    }
}

impl ContentReader {
    /// A reader before the first event.
    pub fn new() -> (r: ContentReader)
        ensures
            r@ == (ReaderModel { begun: false, current: None, children: seq![] }),
    {
        let r = ContentReader { begun: false, current: None, children: Vec::new() };
        assert(r@.children =~= seq![]);
        r
    }

    /// Whether `step` is defined on this event in this state.
    pub fn accepts(&self, ev: &ContentEvent) -> (r: bool)
        ensures
            r == step_ok(self@, ev@),
    {
        match ev {
            ContentEvent::Characters(_) => self.current.is_some(),
            ContentEvent::Start { name: QName { prefix, local }, attributes } => {
                let opens = prefix_is(prefix, "office") && is_word(local.as_slice(), "body");
                let heading = prefix_is(prefix, "text") && is_word(local.as_slice(), "h");
                if !opens && self.begun && heading {
                    all_prefixed(attributes)
                } else {
                    true
                }
            },
            _ => true,
        }
    }

    /// Takes one event: updates the state and says what the caller does next.
    pub fn step(&mut self, ev: &ContentEvent) -> (r: Action)
        requires
            step_ok(old(self)@, ev@),
        ensures
            final(self)@ == next_state(old(self)@, ev@),
            r@ == next_action(old(self)@, ev@),
    {
        match ev {
            ContentEvent::Start { name: QName { prefix, local }, attributes } => {
                if prefix_is(prefix, "office") && is_word(local.as_slice(), "body") {
                    self.begun = true;
                    Action::Continue
                } else if self.begun && prefix_is(prefix, "text") && is_word(local.as_slice(), "h") {
                    let levels = collect_levels(attributes);
                    let level = if levels.len() > 0 {
                        Some(copy_bytes(&levels[levels.len() - 1]))
                    } else {
                        None
                    };
                    self.current = Some(Block::Heading { level, texts: Vec::new() });
                    assert(texts_model(Seq::<Vec<u8>>::empty()) =~= seq![]);
                    Action::CheckLevels(levels)
                } else if self.begun && prefix_is(prefix, "text") && is_word(local.as_slice(), "p") {
                    self.current = Some(Block::Paragraph { texts: Vec::new() });
                    assert(texts_model(Seq::<Vec<u8>>::empty()) =~= seq![]);
                    Action::Continue
                } else {
                    Action::Continue
                }
            },
            ContentEvent::Characters(c) => {
                let cur = self.current.take();
                match cur {
                    Some(b) => {
                        self.current = Some(push_text(b, copy_bytes(c)));
                    },
                    None => {},
                }
                Action::Continue
            },
            ContentEvent::End { name: QName { prefix, local } } => {
                if self.begun {
                    if prefix_is(prefix, "office") && is_word(local.as_slice(), "body") {
                        Action::Stop
                    } else if prefix_is(prefix, "text") && (is_word(local.as_slice(), "h")
                        || is_word(local.as_slice(), "p")) {
                        let cur = self.current.take();
                        let ghost before = self.children@;
                        self.children.push(cur);
                        assert(blocks_model(self.children@) =~= blocks_model(before).push(
                            opt_block(cur),
                        ));
                        Action::Continue
                    } else {
                        Action::Continue
                    }
                } else {
                    Action::Continue
                }
            },
            ContentEvent::Failure => Action::Abort,
            ContentEvent::Other => Action::Continue,
        }
    }

    /// The document read so far.
    pub fn finish(self) -> (r: ContentDocument)
        ensures
            r.title@ == "Kauri (Working title)"@,
            r.paper@ == "A4"@,
            blocks_model(r.children@) == self@.children,
    {
        ContentDocument {
            title: "Kauri (Working title)".to_owned(),
            paper: "A4".to_owned(),
            children: self.children,
        }
    }
}

/// What `xml-rs` reads from `xml`: the events of `xml::reader::EventReader`
/// in order, up to and including the end of the document or the first error
/// (which stands as `Failure`), each taken as an `EventModel`.
pub uninterp spec fn xml_rs_events(xml: Seq<u8>) -> Seq<EventModel>;

pub open spec fn events_model(e: Seq<ContentEvent>) -> Seq<EventModel> {
    e.map_values(|x: ContentEvent| x@)
}

/// Runs `xml::reader::EventReader` over the bytes, to its end or first error,
/// and converts each event (start tags, character data and end tags with
/// their names; an error as `Failure`; the rest as `Other`). Stated of it: the
/// result is `xml_rs_events` of the bytes.
#[verifier::external_body]
pub fn content_events(xml: &[u8]) -> (r: Vec<ContentEvent>)
    ensures
        events_model(r@) == xml_rs_events(xml@),
{
    let q = |n: OwnedName|
        QName { prefix: n.prefix.map(String::into_bytes), local: n.local_name.into_bytes() };
    EventReader::new(xml).into_iter().map(|e| match e {
        Ok(XmlEvent::StartElement { name, attributes, .. }) => ContentEvent::Start {
            name: q(name),
            attributes: attributes.into_iter().map(|a| Attr { name: q(a.name), value: a.value.into_bytes() }).collect(),
        },
        Ok(XmlEvent::Characters(c)) => ContentEvent::Characters(c.into_bytes()),
        Ok(XmlEvent::EndElement { name }) => ContentEvent::End { name: q(name) },
        Ok(_) => ContentEvent::Other,
        Err(_) => ContentEvent::Failure,
    }).collect()
}

/// How a reading ends.
pub enum Outcome {
    /// The document, when the body ended, or the events ran out and the
    /// member was read to its end.
    Document(ContentDocument),
    /// The stream failed (or the member could not be read to its end, and the
    /// body had not ended): the answer is the empty document.
    Empty,
    /// An event on which no step is defined came (the caller fails).
    Refused,
    /// The archive gave no `content.xml` (or was refused because its offsets
    /// do not fit), with the message why.
    Unreadable(String),
}

pub enum OutcomeModel {
    Document(Seq<Option<BlockModel>>),
    Empty,
    Refused,
    Unreadable(Seq<char>),
}

/// The result of a reading: the level texts to check (one list per heading,
/// in order), and how the reading ended.
pub struct ContentReading {
    pub levels: Vec<Vec<Vec<u8>>>,
    pub outcome: Outcome,
}

pub open spec fn levels_model(l: Seq<Vec<Vec<u8>>>) -> Seq<Seq<Seq<u8>>> {
    l.map_values(|v: Vec<Vec<u8>>| texts_model(v@))
}

/// The outcome stands for `o`, a document carrying its fixed title and paper.
pub open spec fn outcome_is(r: Outcome, o: OutcomeModel) -> bool {
    match r {
        Outcome::Document(d) => {
            &&& d.title@ == "Kauri (Working title)"@
            &&& d.paper@ == "A4"@
            &&& o == OutcomeModel::Document(blocks_model(d.children@))
        },
        Outcome::Empty => o == OutcomeModel::Empty,
        Outcome::Refused => o == OutcomeModel::Refused,
        Outcome::Unreadable(m) => o == OutcomeModel::Unreadable(m@),
    }
}

/// A reading of the events from state `s`, where `cut` says the member they
/// come from could not be read to its end: the level lists to check, and how
/// the reading ends.
pub open spec fn read_from(s: ReaderModel, evs: Seq<EventModel>, cut: bool) -> (
    Seq<Seq<Seq<u8>>>,
    OutcomeModel,
)
    decreases evs.len(),
{
    if evs.len() == 0 {
        if cut {
            (seq![], OutcomeModel::Empty)
        } else {
            (seq![], OutcomeModel::Document(s.children))
        }
    } else if !step_ok(s, evs[0]) {
        (seq![], OutcomeModel::Refused)
    } else {
        let s2 = next_state(s, evs[0]);
        match next_action(s, evs[0]) {
            ActionModel::Stop => (seq![], OutcomeModel::Document(s2.children)),
            ActionModel::Abort => (seq![], OutcomeModel::Empty),
            ActionModel::CheckLevels(l) => {
                let (ls, o) = read_from(s2, evs.drop_first(), cut);
                (seq![l] + ls, o)
            },
            ActionModel::Continue => read_from(s2, evs.drop_first(), cut),
        }
    }
}

pub open spec fn fresh_reader() -> ReaderModel {
    ReaderModel { begun: false, current: None, children: seq![] }
}

/// A reading of an ODT file's bytes: its `content.xml`, read by `xml-rs`, from a fresh reader.
pub open spec fn read_archive(archive: Seq<u8>) -> (Seq<Seq<Seq<u8>>>, OutcomeModel) {
    match member(archive) {
        Ok((xml, fault)) => read_from(fresh_reader(), xml_rs_events(xml), fault is Some),
        Err(m) => (seq![], OutcomeModel::Unreadable(m)),
    }
}

/// Reads the events of `content.xml` (as bytes) into a document; `cut`
/// says the bytes stop where reading the member failed.
pub fn read_content(xml: &[u8], cut: bool) -> (r: ContentReading)
    ensures
        levels_model(r.levels@) == read_from(fresh_reader(), xml_rs_events(xml@), cut).0,
        outcome_is(r.outcome, read_from(fresh_reader(), xml_rs_events(xml@), cut).1),
{
    let events = content_events(xml);
    let ghost all = events_model(events@);
    let ghost total = read_from(fresh_reader(), all, cut);
    let mut reader = ContentReader::new();
    let mut levels: Vec<Vec<Vec<u8>>> = Vec::new();
    let mut i: usize = 0;
    assert(all.skip(0) =~= all);
    assert(levels_model(levels@) =~= seq![]);
    while i < events.len()
        invariant
            i <= events@.len(),
            all == events_model(events@),
            all == xml_rs_events(xml@),
            total == read_from(fresh_reader(), all, cut),
            levels_model(levels@) + read_from(reader@, all.skip(i as int), cut).0 == total.0,
            read_from(reader@, all.skip(i as int), cut).1 == total.1,
        decreases events@.len() - i,
    {
        let ghost here = reader@;
        assert(all.skip(i as int)[0] == all[i as int]);
        assert(all[i as int] == events@[i as int]@);
        assert(all.skip(i as int).drop_first() =~= all.skip(i + 1));
        if !reader.accepts(&events[i]) {
            assert(!step_ok(here, all.skip(i as int)[0]));
            assert(read_from(here, all.skip(i as int), cut) == (
                Seq::<Seq<Seq<u8>>>::empty(),
                OutcomeModel::Refused,
            ));
            assert(levels_model(levels@) + seq![] =~= levels_model(levels@));
            return ContentReading { levels, outcome: Outcome::Refused };
        }
        match reader.step(&events[i]) {
            Action::Stop => {
                assert(read_from(here, all.skip(i as int), cut).0 =~= seq![]);
                assert(levels_model(levels@) + seq![] =~= levels_model(levels@));
                return ContentReading { levels, outcome: Outcome::Document(reader.finish()) };
            },
            Action::Abort => {
                assert(levels_model(levels@) + seq![] =~= levels_model(levels@));
                return ContentReading { levels, outcome: Outcome::Empty };
            },
            Action::CheckLevels(l) => {
                let ghost before = levels@;
                let ghost lm = texts_model(l@);
                levels.push(l);
                assert(levels_model(levels@) =~= levels_model(before).push(lm));
                assert(levels_model(before) + (seq![lm] + read_from(reader@, all.skip(i + 1), cut).0)
                    =~= levels_model(levels@) + read_from(reader@, all.skip(i + 1), cut).0);
            },
            Action::Continue => {},
        }
        i = i + 1;
    }
    assert(levels_model(levels@) + seq![] =~= levels_model(levels@));
    if cut {
        ContentReading { levels, outcome: Outcome::Empty }
    } else {
        ContentReading { levels, outcome: Outcome::Document(reader.finish()) }
    }
}

/// Reads an ODT file's bytes: its `content.xml` member into a document.
pub fn read_document(archive: &[u8]) -> (r: ContentReading)
    ensures
        levels_model(r.levels@) == read_archive(archive@).0,
        outcome_is(r.outcome, read_archive(archive@).1),
{
    match read_member(archive) {
        Ok((xml, fault)) => read_content(xml.as_slice(), fault.is_some()),
        Err(m) => {
            let r = ContentReading { levels: Vec::new(), outcome: Outcome::Unreadable(m) };
            assert(levels_model(r.levels@) =~= seq![]);
            r
        },
    }
}

} // verus!
