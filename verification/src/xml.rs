//! Reading an XML document event by event with `quick_xml`.
use self::RawEvent::{
    Alone, Closing, Declaration, Definition, Finish, Instruction, Opening, Reference, Remark, Verbatim, Words,
};
use quick_xml::events::BytesStart;
use quick_xml::events::Event::{CData, Comment, Decl, DocType, Empty, End, Eof, GeneralRef, Start, Text, PI};
use quick_xml::Reader;
use vstd::prelude::*;

verus! {

/// An attribute of a tag: its name, and its value with the escapes resolved, or nothing where
/// they do not resolve.
#[derive(Debug)]
pub struct XmlAttribute(pub Vec<u8>, pub Option<String>);

/// A tag: its name and its attributes. An attribute that is malformed or repeated stands as
/// `None`.
pub type XmlTag = (Vec<u8>, Vec<Option<XmlAttribute>>);

/// An event of `quick_xml`, each of its kinds by itself.
#[derive(Debug)]
pub enum RawEvent {
    /// A start tag.
    Opening(XmlTag),
    /// An empty-element tag.
    Alone(XmlTag),
    /// An end tag, by its name.
    Closing(Vec<u8>),
    /// Text.
    Words,
    /// A CDATA section.
    Verbatim,
    /// A comment.
    Remark,
    /// An XML declaration.
    Declaration,
    /// A processing instruction.
    Instruction,
    /// A document type definition.
    Definition,
    /// A reference to an entity or a character.
    Reference,
    /// The end of the document.
    Finish,
}

/// What one step of reading an XML document says to a reader of tags.
#[derive(Debug)]
pub enum XmlEvent {
    /// A start tag or an empty-element tag.
    Open { name: Vec<u8>, attributes: Vec<Option<XmlAttribute>> },
    /// An end tag.
    Close { name: Vec<u8> },
    /// The end of the document.
    Eof,
    /// Text, a comment, a declaration or anything else between tags.
    Other,
    /// The document is not well-formed here.
    Failed { message: String },
}

/// What an attribute says: its name, and its value where the escapes resolve.
pub struct AttributeView {
    pub key: Seq<u8>,
    pub value: Option<Seq<char>>,
}

/// What an event of `quick_xml`, or its error, says.
pub enum RawToken {
    Opening { name: Seq<u8>, attributes: Seq<Option<AttributeView>> },
    Alone { name: Seq<u8>, attributes: Seq<Option<AttributeView>> },
    Closing { name: Seq<u8> },
    Words,
    Verbatim,
    Remark,
    Declaration,
    Instruction,
    Definition,
    Reference,
    Finish,
    Failed { message: Seq<char> },
}

/// What an event says.
pub enum Token {
    Open { name: Seq<u8>, attributes: Seq<Option<AttributeView>> },
    Close { name: Seq<u8> },
    Eof,
    Other,
    Failed { message: Seq<char> },
}

impl Token {
    /// Whether reading stops here.
    pub open spec fn ends(self) -> bool {
        self is Eof || self is Failed
    }
}

impl View for XmlAttribute {
    type V = AttributeView;

    open spec fn view(&self) -> AttributeView {
        AttributeView {
            key: self.0@,
            value: match self.1 {
                Some(text) => Some(text@),
                None => None,
            },
        }
    }
}

/// What an attribute slot says.
pub open spec fn slot_view(slot: Option<XmlAttribute>) -> Option<AttributeView> {
    match slot {
        Some(attribute) => Some(attribute@),
        None => None,
    }
}

/// What a tag's attribute slots say, in order.
pub open spec fn slots_view(slots: Seq<Option<XmlAttribute>>) -> Seq<Option<AttributeView>> {
    slots.map_values(|slot: Option<XmlAttribute>| slot_view(slot))
}

/// What an event of `quick_xml`, or its error, says.
pub open spec fn raw_token(event: Result<RawEvent, String>) -> RawToken {
    match event {
        Ok(RawEvent::Opening(tag)) => RawToken::Opening {
            name: tag.0@,
            attributes: slots_view(tag.1@),
        },
        Ok(RawEvent::Alone(tag)) => RawToken::Alone {
            name: tag.0@,
            attributes: slots_view(tag.1@),
        },
        Ok(RawEvent::Closing(name)) => RawToken::Closing { name: name@ },
        Ok(RawEvent::Words) => RawToken::Words,
        Ok(RawEvent::Verbatim) => RawToken::Verbatim,
        Ok(RawEvent::Remark) => RawToken::Remark,
        Ok(RawEvent::Declaration) => RawToken::Declaration,
        Ok(RawEvent::Instruction) => RawToken::Instruction,
        Ok(RawEvent::Definition) => RawToken::Definition,
        Ok(RawEvent::Reference) => RawToken::Reference,
        Ok(RawEvent::Finish) => RawToken::Finish,
        Err(message) => RawToken::Failed { message: message@ },
    }
}

/// What an event says to a reader of tags: an empty-element tag opens an element as a start tag
/// does, and what stands between tags is of no account.
pub open spec fn told(token: RawToken) -> Token {
    match token {
        RawToken::Opening { name, attributes } => Token::Open { name, attributes },
        RawToken::Alone { name, attributes } => Token::Open { name, attributes },
        RawToken::Closing { name } => Token::Close { name },
        RawToken::Finish => Token::Eof,
        RawToken::Failed { message } => Token::Failed { message },
        _ => Token::Other,
    }
}

/// What events say to a reader of tags, in order.
pub open spec fn all_told(tokens: Seq<RawToken>) -> Seq<Token> {
    tokens.map_values(|token: RawToken| told(token))
}

impl View for XmlEvent {
    type V = Token;

    open spec fn view(&self) -> Token {
        match *self {
            XmlEvent::Open { name, attributes } => Token::Open {
                name: name@,
                attributes: slots_view(attributes@),
            },
            XmlEvent::Close { name } => Token::Close { name: name@ },
            XmlEvent::Eof => Token::Eof,
            XmlEvent::Other => Token::Other,
            XmlEvent::Failed { message } => Token::Failed { message: message@ },
        }
    }
}

/// The reader of `quick_xml`: where it has got to in a document. What is inside is not looked at.
#[verifier::external_type_specification]
#[verifier::external_body]
#[verifier::reject_recursive_types(R)]
pub struct ExReader<R>(Reader<R>);

/// What `quick_xml` reads from a text, with leading and trailing blanks of text trimmed: the
/// events up to and with the first one that is the end of the document or an error.
pub uninterp spec fn raw_tokens(text: Seq<char>) -> Seq<RawToken>;

/// The events that a reader is still to give, up to and with the first one that is the end
/// of the document or an error.
pub uninterp spec fn pending(reader: Reader<&[u8]>) -> Seq<RawToken>;

/// Reading stops at the last of these and not before.
pub open spec fn stops_at_last(tokens: Seq<Token>) -> bool {
    &&& tokens.len() > 0
    &&& tokens.last().ends()
    &&& forall|i: int| 0 <= i < tokens.len() - 1 ==> !(#[trigger] tokens[i]).ends()
}

/// What a text says to a reader of tags, event by event.
pub open spec fn xml_tokens(text: Seq<char>) -> Seq<Token> {
    all_told(raw_tokens(text))
}

/// `Reader::from_str`, with `Config::trim_text` switched on.
///
/// Trusted: the events that the reader will give depend on the text alone, and there are
/// finitely many before the end of the document or an error is met.
#[verifier::external_body]
pub(crate) fn open_xml<'a>(text: &'a str) -> (reader: Reader<&'a [u8]>)
    ensures
        pending(reader) == raw_tokens(text@),
        stops_at_last(all_told(pending(reader))),
{
    let mut reader = Reader::from_str(text);
    reader.config_mut().trim_text(true);
    reader
}

/// `Reader::read_event_into`, its event turned into plain values: tag names by
/// `BytesStart::name` and the bytes of `BytesEnd`, attributes by `BytesStart::attributes`, values
/// by `Attribute::unescape_value`, errors by their message.
///
/// Trusted: it gives the first event that was pending. Unless that is the end of the document
/// or an error, the rest stays pending; of a reader that has met either, nothing is said.
#[verifier::external_body]
pub(crate) fn next_event(reader: &mut Reader<&[u8]>, buf: &mut Vec<u8>) -> (event: Result<
    RawEvent,
    String,
>)
    requires
        pending(*old(reader)).len() > 0,
        old(buf)@.len() == 0,
    ensures
        raw_token(event) == pending(*old(reader)).first(),
        !told(raw_token(event)).ends() ==> pending(*final(reader)) == pending(
            *old(reader),
        ).drop_first(),
{
    let tag = |e: BytesStart| (
        e.name().0.to_vec(),
        e.attributes().map(|a| a.ok().map(|a|
            XmlAttribute(a.key.0.to_vec(), a.unescape_value().ok().map(Into::into)))).collect(),
    );
    Ok(match reader.read_event_into(buf).map_err(|e| e.to_string())? {
        Start(e) => Opening(tag(e)),
        Empty(e) => Alone(tag(e)),
        End(e) => Closing(e.to_vec()),
        Text(_) => Words, CData(_) => Verbatim, Comment(_) => Remark,
        Decl(_) => Declaration, PI(_) => Instruction, DocType(_) => Definition,
        GeneralRef(_) => Reference,
        Eof => Finish,
    })
}

/// What an event says to a reader of tags.
pub fn tell(event: Result<RawEvent, String>) -> (r: XmlEvent)
    ensures
        r@ == told(raw_token(event)),
{
    match event {
        Ok(RawEvent::Opening(tag)) => XmlEvent::Open { name: tag.0, attributes: tag.1 },
        Ok(RawEvent::Alone(tag)) => XmlEvent::Open { name: tag.0, attributes: tag.1 },
        Ok(RawEvent::Closing(name)) => XmlEvent::Close { name },
        Ok(RawEvent::Finish) => XmlEvent::Eof,
        Err(message) => XmlEvent::Failed { message },
        Ok(_) => XmlEvent::Other,
    }
}

/// Every event of a document, in order, up to and with the end of the document or an error.
pub fn read_xml(text: &str) -> (events: Vec<XmlEvent>)
    ensures
        events@.map_values(|e: XmlEvent| e@) == xml_tokens(text@),
        stops_at_last(xml_tokens(text@)),
{
    let mut reader = open_xml(text);
    let mut buf: Vec<u8> = Vec::new();
    let mut events: Vec<XmlEvent> = Vec::new();
    let mut done = false;
    while !done
        invariant
            buf@.len() == 0,
            stops_at_last(xml_tokens(text@)),
            !done ==> events@.map_values(|e: XmlEvent| e@) + all_told(pending(reader))
                == xml_tokens(text@),
            !done ==> stops_at_last(all_told(pending(reader))),
            done ==> events@.map_values(|e: XmlEvent| e@) == xml_tokens(text@),
        decreases if done { 0int } else { pending(reader).len() as int },
    {
        let ghost coming = pending(reader);
        let event = tell(next_event(&mut reader, &mut buf));
        buf.clear();
        assert(all_told(coming).first() == event@);
        assert(all_told(coming.drop_first()) == all_told(coming).drop_first());
        match event {
            XmlEvent::Eof => { done = true; },
            XmlEvent::Failed { .. } => { done = true; },
            _ => {},
        }
        events.push(event);
    }
    events
}

/// A start tag and an empty-element tag say the same: that an element opens, with the tag's own name
/// and attributes. An end tag says that the element of its name closes, an error says its message,
/// and only the end of the document and an error end the reading.
pub proof fn tags_say_what_they_are(
    name: Seq<u8>,
    attributes: Seq<Option<AttributeView>>,
    message: Seq<char>,
    token: RawToken,
)
    ensures
        told(RawToken::Opening { name, attributes }) == (Token::Open { name, attributes }),
        told(RawToken::Alone { name, attributes }) == (Token::Open { name, attributes }),
        told(RawToken::Closing { name }) == (Token::Close { name }),
        told(RawToken::Failed { message }) == (Token::Failed { message }),
        told(token).ends() <==> token is Finish || token is Failed,
        told(token) is Open <==> token is Opening || token is Alone,
        told(token) is Close <==> token is Closing,
{
}

/// Every event of a document is told, in order.
pub proof fn events_are_told_one_by_one(tokens: Seq<RawToken>, i: int)
    requires
        0 <= i < tokens.len(),
    ensures
        all_told(tokens).len() == tokens.len(),
        all_told(tokens)[i] == told(tokens[i]),
{
}

} // verus!
