//! Reading markup text into tokens, and documents from text.

use crate::designspace::{copy_attributes, document_of, DesignSpaceDocument, LoadError};
use crate::encode::document_tokens;
use crate::markup::{Token, TokenView};
use crate::round_trip::valid_document;
use crate::writer::{document_text, write_document};
use quick_xml::events::{BytesCData, BytesEnd, BytesStart, BytesText};
use quick_xml::Reader;
use vstd::prelude::*;

verus! {

/// The markup reader of quick-xml, opaque here.
#[verifier::external_type_specification]
#[verifier::external_body]
#[verifier::reject_recursive_types(R)]
pub struct ExReader<R>(Reader<R>);

/// An opening tag as quick-xml hands it out, opaque here.
#[verifier::external_type_specification]
#[verifier::external_body]
pub struct ExBytesStart<'a>(BytesStart<'a>);

/// A closing tag as quick-xml hands it out, opaque here.
#[verifier::external_type_specification]
#[verifier::external_body]
pub struct ExBytesEnd<'a>(BytesEnd<'a>);

/// Character data as quick-xml hands it out, opaque here.
#[verifier::external_type_specification]
#[verifier::external_body]
pub struct ExBytesText<'a>(BytesText<'a>);

/// A character data section as quick-xml hands it out, opaque here.
#[verifier::external_type_specification]
#[verifier::external_body]
pub struct ExBytesCData<'a>(BytesCData<'a>);

/// The error of quick-xml, opaque here.
#[verifier::external_type_specification]
#[verifier::external_body]
pub struct ExMarkupError(quick_xml::Error);

/// One event of the reader, by kind.
enum Piece {
    /// An opening tag.
    Open(BytesStart<'static>),
    /// A closing tag.
    Close(BytesEnd<'static>),
    /// Character data.
    Text(BytesText<'static>),
    /// A character data section.
    Data(BytesCData<'static>),
    /// A declaration, a comment, a processing instruction or a document type.
    Aside,
    /// A self-closing tag that was not expanded.
    Unsupported,
    /// The end of the text.
    End,
}

/// What one reading step gives, as plain values, before anything is made
/// of it.
pub ghost enum PieceView {
    /// An opening tag: its name and what it holds as attributes.
    Open { name: Seq<char>, attributes: Seq<Option<(Seq<char>, Seq<char>)>> },
    /// A closing tag.
    Close { name: Seq<char> },
    /// Character data, `None` where its entities cannot be resolved.
    Text { content: Option<Seq<char>> },
    /// A declaration, a comment, a processing instruction or a document type.
    Aside,
    /// A self-closing tag that was not expanded.
    Unsupported,
    /// The end of the text.
    End,
    /// The reader's error.
    Failed,
}

/// What quick-xml's reader yields for a text, step by step, with trimming
/// of text and expansion of self-closing tags switched on, up to and with
/// the end of the text or the reader's first error.
pub uninterp spec fn pieces_of(text: Seq<char>) -> Seq<PieceView>;

/// What a reader has yet to yield, read with trimming and expansion
/// switched on, up to and with the end of its text or its first error.
pub uninterp spec fn pending(reader: Reader<&[u8]>) -> Seq<PieceView>;

/// Whether a reader trims text, and whether it expands self-closing tags.
pub uninterp spec fn settings(reader: Reader<&[u8]>) -> (bool, bool);

/// The name of an opening tag.
pub uninterp spec fn start_name_of(e: BytesStart<'static>) -> Seq<char>;

/// The attributes that an opening tag holds, in the order in which its
/// attribute iterator hands them out: the name and the value, with its
/// entities resolved, of each that could be read, and `None` in the place of
/// each that could not.
pub uninterp spec fn attributes_of(e: BytesStart<'static>) -> Seq<Option<(Seq<char>, Seq<char>)>>;

/// The name of a closing tag.
pub uninterp spec fn end_name_of(e: BytesEnd<'static>) -> Seq<char>;

/// The character data of a text event with its entities resolved; `None`
/// where they cannot be resolved.
pub uninterp spec fn text_of(e: BytesText<'static>) -> Option<Seq<char>>;

/// The content of a character data section.
pub uninterp spec fn data_of(e: BytesCData<'static>) -> Seq<char>;

/// What a reading step's result is as plain values.
spec fn handed(r: Result<Piece, quick_xml::Error>) -> PieceView {
    match r {
        Ok(Piece::Open(e)) => PieceView::Open {
            name: start_name_of(e),
            attributes: attributes_of(e),
        },
        Ok(Piece::Close(e)) => PieceView::Close { name: end_name_of(e) },
        Ok(Piece::Text(e)) => PieceView::Text { content: text_of(e) },
        Ok(Piece::Data(e)) => PieceView::Text { content: Some(data_of(e)) },
        Ok(Piece::Aside) => PieceView::Aside,
        Ok(Piece::Unsupported) => PieceView::Unsupported,
        Ok(Piece::End) => PieceView::End,
        Err(_) => PieceView::Failed,
    }
}

/// Calls `quick_xml::Reader::from_str`. Trusted: what the new reader has
/// yet to yield, read with trimming and expansion on, is what the text
/// yields so.
#[verifier::external_body]
fn open_reader<'a>(text: &'a str) -> (r: Reader<&'a [u8]>)
    ensures
        pending(r) == pieces_of(text@),
{
    Reader::from_str(text)
}

/// Calls `quick_xml::Reader::trim_text` with `true`. Trusted: the reader
/// then trims text; nothing else about it changes.
#[verifier::external_body]
fn trim_text(reader: &mut Reader<&[u8]>)
    ensures
        settings(*final(reader)) == (true, settings(*old(reader)).1),
        pending(*final(reader)) == pending(*old(reader)),
{
    reader.trim_text(true);
}

/// Calls `quick_xml::Reader::expand_empty_elements` with `true`. Trusted:
/// the reader then reads a self-closing tag as an opening and a closing tag;
/// nothing else about it changes.
#[verifier::external_body]
fn expand_empty_elements(reader: &mut Reader<&[u8]>)
    ensures
        settings(*final(reader)) == (settings(*old(reader)).0, true),
        pending(*final(reader)) == pending(*old(reader)),
{
    reader.expand_empty_elements(true);
}

/// Calls `quick_xml::Reader::read_event` and tells the kinds of event apart.
/// Trusted: a reader always has something yet to yield, at least the end of
/// its text; where trimming and expansion are on, the result is the first
/// of what the reader had yet to yield, and unless that is the end or an
/// error, the rest is what it has yet to yield afterwards. The settings
/// stay.
#[verifier::external_body]
fn read_event(reader: &mut Reader<&[u8]>) -> (r: Result<Piece, quick_xml::Error>)
    ensures
        pending(*old(reader)).len() > 0,
        settings(*final(reader)) == settings(*old(reader)),
        settings(*old(reader)) == (true, true) ==> handed(r) == pending(*old(reader))[0],
        settings(*old(reader)) == (true, true) && r is Ok && !(r->Ok_0 is End) ==> pending(
            *final(reader),
        ) == pending(*old(reader)).drop_first(),
{
    Ok(
        match reader.read_event()? {
            quick_xml::events::Event::Start(e) => Piece::Open(e.into_owned()),
            quick_xml::events::Event::End(e) => Piece::Close(e.into_owned()),
            quick_xml::events::Event::Text(e) => Piece::Text(e.into_owned()),
            quick_xml::events::Event::CData(e) => Piece::Data(e.into_owned()),
            quick_xml::events::Event::Eof => Piece::End,
            quick_xml::events::Event::Empty(_) => Piece::Unsupported,
            quick_xml::events::Event::Comment(_) => Piece::Aside,
            quick_xml::events::Event::Decl(_) => Piece::Aside,
            quick_xml::events::Event::PI(_) => Piece::Aside,
            quick_xml::events::Event::DocType(_) => Piece::Aside,
        },
    )
}

/// Calls `quick_xml::events::BytesStart::name` and hands the name out as a
/// string. Trusted: the result is the tag's name; what the name is is not
/// stated.
#[verifier::external_body]
fn start_name(e: &BytesStart<'static>) -> (r: String)
    ensures
        r@ == start_name_of(*e),
{
    String::from_utf8_lossy(e.name().as_ref()).into_owned()
}

/// Calls `quick_xml::events::BytesEnd::name` and hands the name out as a
/// string. Trusted: the result is the tag's name; what the name is is not
/// stated.
#[verifier::external_body]
fn end_name(e: &BytesEnd<'static>) -> (r: String)
    ensures
        r@ == end_name_of(*e),
{
    String::from_utf8_lossy(e.name().as_ref()).into_owned()
}

/// Calls `quick_xml::events::BytesText::unescape`, which resolves entities.
/// Trusted: the result is the event's character data, and an error exactly
/// where the entities cannot be resolved; what the data is is not stated.
#[verifier::external_body]
fn text_content(e: &BytesText<'static>) -> (r: Result<String, quick_xml::Error>)
    ensures
        match r {
            Ok(content) => text_of(*e) == Some(content@),
            Err(_) => text_of(*e) is None,
        },
{
    Ok(e.unescape()?.into_owned())
}

/// Hands out the content of a character data section, which
/// `quick_xml::events::BytesCData` holds as bytes, as a string. Trusted:
/// the result is the section's content; what the content is is not stated.
#[verifier::external_body]
fn data_content(e: &BytesCData<'static>) -> (r: String)
    ensures
        r@ == data_of(*e),
{
    String::from_utf8_lossy(e).into_owned()
}

/// Calls `quick_xml::events::BytesStart::attributes`, takes the item at
/// position `k` from the iterator, and on an attribute calls
/// `quick_xml::events::attributes::Attribute::unescape_value`. Trusted: the
/// result is the item at `k` of what the tag holds, an error where that item
/// could not be read, and `None` exactly where the tag holds no item at `k`.
/// What the items are is not stated.
#[verifier::external_body]
fn attribute_at(e: &BytesStart<'static>, k: usize) -> (r: Option<
    Result<(String, String), quick_xml::Error>,
>)
    ensures
        match r {
            None => k >= attributes_of(*e).len(),
            Some(Ok(pair)) => k < attributes_of(*e).len() && attributes_of(*e)[k as int] == Some(
                (pair.0@, pair.1@),
            ),
            Some(Err(_)) => k < attributes_of(*e).len() && attributes_of(*e)[k as int] is None,
        },
{
    match e.attributes().nth(k) {
        None => None,
        Some(Err(e)) => Some(Err(e.into())),
        Some(Ok(a)) => match a.unescape_value() {
            Ok(v) => Some(Ok((String::from_utf8_lossy(a.key.as_ref()).into_owned(), v.into_owned()))),
            Err(e) => Some(Err(e)),
        },
    }
}

/// The attributes read from a list of items: all of them, where each could
/// be read; `None` otherwise.
pub open spec fn gathered(items: Seq<Option<(Seq<char>, Seq<char>)>>) -> Option<
    Seq<(Seq<char>, Seq<char>)>,
> {
    if forall|i: int| 0 <= i < items.len() ==> (#[trigger] items[i]) is Some {
        Some(Seq::new(items.len(), |i: int| items[i]->0))
    } else {
        None
    }
}

/// Reads the attributes of an opening tag: all that it holds, in order,
/// where each can be read.
fn read_attributes(e: &BytesStart<'static>) -> (r: Option<Vec<(String, String)>>)
    ensures
        match gathered(attributes_of(*e)) {
            Some(v) => r is Some && r->0.deep_view() == v,
            None => r is None,
        },
{
    let ghost items = attributes_of(*e);
    let mut out: Vec<(String, String)> = Vec::new();
    loop
        invariant
            items == attributes_of(*e),
            out.len() <= items.len(),
            out.deep_view().len() == out.len(),
            forall|i: int| 0 <= i < out.len() ==> #[trigger] items[i] == Some(out.deep_view()[i]),
        decreases items.len() - out.len(),
    {
        let k = out.len();
        match attribute_at(e, k) {
            None => {
                assert(out.deep_view() =~= Seq::new(items.len(), |i: int| items[i]->0));
                return Some(out);
            },
            Some(Ok(pair)) => {
                let ghost before = out.deep_view();
                out.push(pair);
                assert(out.deep_view() =~= before.push((pair.0@, pair.1@)));
            },
            Some(Err(_)) => {
                assert(items[k as int] is None);
                return None;
            },
        }
    }
}

/// What the reader hands out, as plain values.
#[derive(Clone, Debug, PartialEq, Eq)]
pub enum Event {
    /// An opening tag with its attributes.
    Open { name: String, attributes: Vec<(String, String)> },
    /// A closing tag.
    Close { name: String },
    /// Character data, with entities resolved.
    Text { content: String },
    /// A declaration, a comment, a processing instruction or a document type.
    Aside,
    /// The end of the text.
    End,
    /// Something that could not be read, or that tokens do not model.
    Broken,
}

/// The mathematical value of an [`Event`].
pub ghost enum EventView {
    Open { name: Seq<char>, attributes: Seq<(Seq<char>, Seq<char>)> },
    Close { name: Seq<char> },
    Text { content: Seq<char> },
    Aside,
    End,
    Broken,
}

impl DeepView for Event {
    type V = EventView;

    open spec fn deep_view(&self) -> EventView {
        match self {
            Event::Open { name, attributes } => EventView::Open {
                name: name@,
                attributes: attributes.deep_view(),
            },
            Event::Close { name } => EventView::Close { name: name@ },
            Event::Text { content } => EventView::Text { content: content@ },
            Event::Aside => EventView::Aside,
            Event::End => EventView::End,
            Event::Broken => EventView::Broken,
        }
    }
}

/// The token that an event gives; `None` for an event that gives none.
pub open spec fn token_of(e: EventView) -> Option<TokenView> {
    match e {
        EventView::Open { name, attributes } => Some(TokenView::Open { name, attributes }),
        EventView::Close { name } => Some(TokenView::Close { name }),
        EventView::Text { content } => Some(TokenView::Text { content }),
        _ => None,
    }
}

/// The tokens that a sequence of events gives: one for each tag and each
/// text before the end of the text, in order, with asides passed over.
/// `None` where something broken comes before the end, or the end does not
/// come.
pub open spec fn tokens_of(events: Seq<EventView>) -> Option<Seq<TokenView>>
    decreases events.len(),
{
    if events.len() == 0 {
        None
    } else {
        match events[0] {
            EventView::End => Some(Seq::empty()),
            EventView::Broken => None,
            EventView::Aside => tokens_of(events.drop_first()),
            _ => match tokens_of(events.drop_first()) {
                Some(rest) => Some(seq![token_of(events[0])->0] + rest),
                None => None,
            },
        }
    }
}

/// Turns the events of a text into its tokens. Succeeds exactly where
/// [`tokens_of`] is defined, with those tokens; every failure is
/// [`LoadError::Markup`].
pub fn assemble(events: &Vec<Event>) -> (r: Result<Vec<Token>, LoadError>)
    ensures
        match tokens_of(events.deep_view()) {
            Some(ts) => r is Ok && r->Ok_0.deep_view() == ts,
            None => r == Err::<Vec<Token>, LoadError>(LoadError::Markup),
        },
{
    let ghost all = events.deep_view();
    let mut out: Vec<Token> = Vec::new();
    let mut k: usize = 0;
    assert(all.skip(0) =~= all);
    assert(out.deep_view() =~= Seq::<TokenView>::empty());
    while k < events.len()
        invariant
            all == events.deep_view(),
            k <= events.len(),
            tokens_of(all) == match tokens_of(all.skip(k as int)) {
                Some(rest) => Some(out.deep_view() + rest),
                None => None,
            },
        decreases events.len() - k,
    {
        let ghost before = out.deep_view();
        assert(all.skip(k as int)[0] == events@[k as int].deep_view());
        assert(all.skip(k as int).drop_first() =~= all.skip(k as int + 1));
        match &events[k] {
            Event::Open { name, attributes } => {
                out.push(Token::Open { name: name.clone(), attributes: copy_attributes(attributes) });
            },
            Event::Close { name } => {
                out.push(Token::Close { name: name.clone() });
            },
            Event::Text { content } => {
                out.push(Token::Text { content: content.clone() });
            },
            Event::Aside => {},
            Event::End => {
                assert(out.deep_view() + Seq::<TokenView>::empty() =~= out.deep_view());
                return Ok(out);
            },
            Event::Broken => {
                return Err(LoadError::Markup);
            },
        }
        proof {
            match tokens_of(all.skip(k as int + 1)) {
                Some(rest) => {
                    if token_of(all[k as int]) is Some {
                        let t = token_of(all[k as int])->0;
                        assert(out.deep_view() =~= before.push(t));
                        assert(before + (seq![t] + rest) =~= out.deep_view() + rest);
                    }
                },
                None => {},
            }
        }
        k = k + 1;
    }
    Err(LoadError::Markup)
}

/// The event that is made of one reading step: a tag with the attributes
/// that it holds where each could be read, text where its entities could be
/// resolved, an aside, the end, and something broken for everything else.
pub open spec fn event_of(p: PieceView) -> EventView {
    match p {
        PieceView::Open { name, attributes } => match gathered(attributes) {
            Some(a) => EventView::Open { name, attributes: a },
            None => EventView::Broken,
        },
        PieceView::Close { name } => EventView::Close { name },
        PieceView::Text { content } => match content {
            Some(c) => EventView::Text { content: c },
            None => EventView::Broken,
        },
        PieceView::Aside => EventView::Aside,
        PieceView::End => EventView::End,
        PieceView::Unsupported => EventView::Broken,
        PieceView::Failed => EventView::Broken,
    }
}

/// The events of a text: what is made of each step of reading it.
pub open spec fn events_of(text: Seq<char>) -> Seq<EventView> {
    Seq::new(pieces_of(text).len(), |i: int| event_of(pieces_of(text)[i]))
}

/// The tokens of events are those of the events up to and with the first
/// that ends the reading.
pub proof fn lemma_tokens_up_to_the_end(events: Seq<EventView>, j: int)
    requires
        0 <= j < events.len(),
        events[j] is End || events[j] is Broken,
    ensures
        tokens_of(events.take(j + 1)) == tokens_of(events),
    decreases j,
{
    let part = events.take(j + 1);
    assert(part[0] == events[0]);
    if j > 0 {
        assert(part.drop_first() =~= events.drop_first().take(j));
        lemma_tokens_up_to_the_end(events.drop_first(), j - 1);
    }
}

/// Reads markup text into tokens.
///
/// The text is read step by step, until its end or until something is
/// broken, and the events are turned into tokens as [`assemble`] says:
/// white space around text is dropped, a self-closing tag gives an opening
/// and a closing token, a character data section gives text, and
/// declarations, comments and processing instructions are passed over.
/// Every failure is [`LoadError::Markup`].
pub fn tokenize(text: &str) -> (r: Result<Vec<Token>, LoadError>)
    ensures
        match tokens_of(events_of(text@)) {
            Some(ts) => r is Ok && r->Ok_0.deep_view() == ts,
            None => r == Err::<Vec<Token>, LoadError>(LoadError::Markup),
        },
{
    let ghost all = pieces_of(text@);
    let mut reader = open_reader(text);
    trim_text(&mut reader);
    expand_empty_elements(&mut reader);
    let mut events: Vec<Event> = Vec::new();
    assert(all.skip(0) =~= all);
    loop
        invariant
            all == pieces_of(text@),
            settings(reader) == (true, true),
            events.len() <= all.len(),
            pending(reader) == all.skip(events.len() as int),
            events.deep_view() =~= Seq::new(events.len() as nat, |i: int| event_of(all[i])),
        decreases pending(reader).len(),
    {
        let ghost k = events.len() as int;
        let ghost before = events.deep_view();
        let step = read_event(&mut reader);
        assert(all.skip(k).len() > 0);
        assert(all.skip(k)[0] == all[k]);
        assert(all.skip(k).drop_first() =~= all.skip(k + 1));
        let event = match step {
            Ok(Piece::Open(e)) => match read_attributes(&e) {
                Some(attributes) => Event::Open { name: start_name(&e), attributes },
                None => Event::Broken,
            },
            Ok(Piece::Close(e)) => Event::Close { name: end_name(&e) },
            Ok(Piece::Text(e)) => match text_content(&e) {
                Ok(content) => Event::Text { content },
                Err(_) => Event::Broken,
            },
            Ok(Piece::Data(e)) => Event::Text { content: data_content(&e) },
            Ok(Piece::Aside) => Event::Aside,
            Ok(Piece::End) => Event::End,
            Ok(Piece::Unsupported) => Event::Broken,
            Err(_) => Event::Broken,
        };
        assert(event.deep_view() == event_of(all[k]));
        let last = match &event {
            Event::End => true,
            Event::Broken => true,
            _ => false,
        };
        events.push(event);
        assert(events.deep_view() =~= before.push(event.deep_view()));
        if last {
            proof {
                assert(events.deep_view() =~= events_of(text@).take(k + 1));
                lemma_tokens_up_to_the_end(events_of(text@), k);
            }
            return assemble(&events);
        }
    }
}

impl DesignSpaceDocument {
    /// Decodes a document from markup text: the document that the tokens of
    /// the text decode to. A text that has no tokens fails as
    /// [`LoadError::Markup`], and tokens that decode to no document fail as
    /// [`LoadError::Structure`]. A document that comes back is valid, so its
    /// tokens decode to it.
    pub fn load(text: &str) -> (r: Result<DesignSpaceDocument, LoadError>)
        ensures
            match tokens_of(events_of(text@)) {
                Some(ts) => match document_of(ts) {
                    Some(d) => r is Ok && r->Ok_0.deep_view() == d,
                    None => r == Err::<DesignSpaceDocument, LoadError>(LoadError::Structure),
                },
                None => r == Err::<DesignSpaceDocument, LoadError>(LoadError::Markup),
            },
            r is Ok ==> valid_document(r->Ok_0.deep_view()),
    {
        match tokenize(text) {
            Ok(tokens) => DesignSpaceDocument::from_tokens(&tokens),
            Err(_) => Err(LoadError::Markup),
        }
    }

    /// Encodes the document as markup text: the declaration, the tokens of
    /// the document indented by two spaces a level, and a newline at the end.
    pub fn save(&self) -> (r: String)
        ensures
            r@ == document_text(document_tokens(self.deep_view())),
    {
        let tokens = self.to_tokens();
        write_document(&tokens)
    }
}

} // verus!
