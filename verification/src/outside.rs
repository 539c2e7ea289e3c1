//! Calls into other crates and the standard library whose results the rest of
//! the library only names.
use pulldown_cmark::{Event, Parser, Tag, TagEnd};
use vstd::prelude::*;
use vstd::utf8::{decode_utf8, valid_utf8};

verus! {

/// What a YAML document holds under a key of its top-level mapping.
pub enum YamlField {
    /// The text is no YAML document, or no mapping with that key.
    Missing,
    /// A sequence; an item that is no string is `None`.
    List(Vec<Option<String>>),
    /// A string.
    Text(String),
    /// Any other value.
    Other,
}

/// The texts of a [`YamlField`].
pub enum FieldText {
    Missing,
    List(Seq<Option<Seq<char>>>),
    Text(Seq<char>),
    Other,
}

impl View for YamlField {
    type V = FieldText;

    open spec fn view(&self) -> FieldText {
        match self {
            YamlField::Missing => FieldText::Missing,
            YamlField::List(items) => FieldText::List(
                Seq::new(items@.len(), |i: int| crate::text::opt_text(items@[i])),
            ),
            YamlField::Text(s) => FieldText::Text(s@),
            YamlField::Other => FieldText::Other,
        }
    }
}

/// What `serde_norway` finds under `key` in the YAML text `document`.
pub uninterp spec fn yaml_field(document: Seq<char>, key: Seq<char>) -> FieldText;

/// `serde_norway::from_str` parses `document` into a `Value`, and `Value::get`,
/// `as_sequence` and `as_str` look up `key` in it. A text that does not parse
/// counts as one without the key. The claim is that what is found depends on
/// the two texts alone.
#[verifier::external_body]
pub(crate) fn read_yaml_field(document: &str, key: &str) -> (r: YamlField)
    ensures
        r@ == yaml_field(document@, key@),
{
    let parsed = serde_norway::from_str::<serde_norway::Value>(document).ok();
    let found = parsed.as_ref().and_then(|v| v.get(key));
    match (found, found.and_then(|v| v.as_sequence()), found.and_then(|v| v.as_str())) {
        (None, _, _) => YamlField::Missing,
        (_, Some(items), _) => {
            YamlField::List(items.iter().map(|v| v.as_str().map(str::to_string)).collect())
        },
        (_, _, Some(text)) => YamlField::Text(text.to_string()),
        _ => YamlField::Other,
    }
}

/// A step in reading a markdown text.
pub enum MarkdownEvent {
    HeadingStart,
    /// The end of a heading of this level, one to six.
    HeadingEnd(u8),
    Text(String),
    Code(String),
    SoftBreak,
    HardBreak,
    ParagraphEnd,
    ItemEnd,
    CodeBlockEnd,
    Other,
}

/// The texts of a [`MarkdownEvent`].
pub enum EventText {
    HeadingStart,
    HeadingEnd(u8),
    Text(Seq<char>),
    Code(Seq<char>),
    SoftBreak,
    HardBreak,
    ParagraphEnd,
    ItemEnd,
    CodeBlockEnd,
    Other,
}

impl View for MarkdownEvent {
    type V = EventText;

    open spec fn view(&self) -> EventText {
        match self {
            MarkdownEvent::HeadingStart => EventText::HeadingStart,
            MarkdownEvent::HeadingEnd(level) => EventText::HeadingEnd(*level),
            MarkdownEvent::Text(t) => EventText::Text(t@),
            MarkdownEvent::Code(t) => EventText::Code(t@),
            MarkdownEvent::SoftBreak => EventText::SoftBreak,
            MarkdownEvent::HardBreak => EventText::HardBreak,
            MarkdownEvent::ParagraphEnd => EventText::ParagraphEnd,
            MarkdownEvent::ItemEnd => EventText::ItemEnd,
            MarkdownEvent::CodeBlockEnd => EventText::CodeBlockEnd,
            MarkdownEvent::Other => EventText::Other,
        }
    }
}

/// The texts of some events.
pub open spec fn event_texts(v: Seq<MarkdownEvent>) -> Seq<EventText> {
    Seq::new(v.len(), |i: int| v[i]@)
}

/// The events that `pulldown_cmark` reads from a markdown text.
pub uninterp spec fn markdown_events(body: Seq<char>) -> Seq<EventText>;

/// `pulldown_cmark::Parser::new` reads `body` as CommonMark without extensions,
/// and its events come out in order, each as a [`MarkdownEvent`]. The claim is
/// that they depend on the text alone.
#[verifier::external_body]
pub(crate) fn read_markdown(body: &str) -> (r: Vec<MarkdownEvent>)
    ensures
        event_texts(r@) == markdown_events(body@),
{
    Parser::new(body).map(|event| match event {
        Event::Start(Tag::Heading { .. }) => MarkdownEvent::HeadingStart,
        Event::End(TagEnd::Heading(level)) => MarkdownEvent::HeadingEnd(level as u8),
        Event::Text(t) => MarkdownEvent::Text(t.to_string()),
        Event::Code(t) => MarkdownEvent::Code(t.to_string()),
        Event::SoftBreak => MarkdownEvent::SoftBreak,
        Event::HardBreak => MarkdownEvent::HardBreak,
        Event::End(TagEnd::Paragraph) => MarkdownEvent::ParagraphEnd,
        Event::End(TagEnd::Item) => MarkdownEvent::ItemEnd,
        Event::End(TagEnd::CodeBlock) => MarkdownEvent::CodeBlockEnd,
        _ => MarkdownEvent::Other,
    }).collect()
}

/// `dirs::home_dir` looks up the user's home directory, by the environment and
/// the user database: nothing is claimed of what it finds. A part of the path
/// that is not Unicode is replaced.
#[verifier::external_body]
pub(crate) fn home_dir() -> (r: Option<String>) {
    dirs::home_dir().map(|p| p.to_string_lossy().into_owned())
}

/// The BLAKE3 digest of some bytes.
pub uninterp spec fn blake3_digest(bytes: Seq<u8>) -> Seq<u8>;

/// `blake3::hash` computes the digest of `bytes`, and `Hash::as_bytes` gives its
/// 32 bytes. The claim is that they depend on the bytes alone.
#[verifier::external_body]
pub(crate) fn content_hash(bytes: &[u8]) -> (r: Vec<u8>)
    ensures
        r@ == blake3_digest(bytes@),
        r@.len() == 32,
{
    blake3::hash(bytes).as_bytes().to_vec()
}

/// The text that some bytes are read as, where what is not UTF-8 is replaced.
pub uninterp spec fn lossy_text(bytes: Seq<u8>) -> Seq<char>;

/// `String::from_utf8_lossy` reads `bytes` as UTF-8, with a replacement
/// character for each part that is not. The claim is that the text depends on
/// the bytes alone, and that valid UTF-8 is decoded unchanged.
#[verifier::external_body]
pub(crate) fn read_lossy(bytes: &[u8]) -> (r: String)
    ensures
        r@ == lossy_text(bytes@),
        valid_utf8(bytes@) ==> r@ == decode_utf8(bytes@),
{
    String::from_utf8_lossy(bytes).into_owned()
}

} // verus!
