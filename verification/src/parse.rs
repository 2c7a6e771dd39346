//! The parse of markdown text into the library's events, done by
//! pulldown-cmark. Its events are turned into the library's own, kind for
//! kind, as they come.
use vstd::prelude::*;
use crate::events::{events_view, EventView, HeadingDepth, MdEvent, MdTag, MdTagEnd, SourceSpan, SpannedEvent};
use crate::options::{options_for, parser_options_math};
use pulldown_cmark::{CodeBlockKind, Event, Tag, TagEnd};

verus! {

#[verifier::external_type_specification]
#[verifier::external_body]
pub struct ExParserEvent<'a>(pulldown_cmark::Event<'a>);

#[verifier::external_type_specification]
#[verifier::external_body]
pub struct ExParserTag<'a>(pulldown_cmark::Tag<'a>);

#[verifier::external_type_specification]
#[verifier::external_body]
pub struct ExParserTagEnd(pulldown_cmark::TagEnd);

#[verifier::external_type_specification]
#[verifier::external_body]
pub struct ExParserHeadingLevel(pulldown_cmark::HeadingLevel);

#[verifier::external_type_specification]
#[verifier::external_body]
pub struct ExParserCodeBlockKind<'a>(pulldown_cmark::CodeBlockKind<'a>);

/// The events, each with the byte range of the text it came from, that
/// pulldown-cmark's parser yields for `text` with the extensions whose bits
/// are set in `options`.
pub uninterp spec fn markdown_events(text: Seq<char>, options: u32) -> Seq<(EventView, SourceSpan)>;

/// Runs `pulldown_cmark::Parser::new_ext` on `text`, with the extension bits
/// of `options` (`Options::from_bits_truncate`), over
/// `into_offset_iter`. Claimed: the events that come out, in order, are
/// `markdown_events` of the text and the bits, which depends on nothing else.
/// Each event keeps what the viewer reads of it; heading ids and classes,
/// link and image titles, table alignments and the kind of a block quote
/// are dropped. What the parser yields for a given text is not stated.
#[verifier::external_body]
fn parse_markdown(text: &str, options: u32) -> (r: Vec<SpannedEvent>)
    ensures
        events_view(r@) == markdown_events(text@, options),
{
    let parser = pulldown_cmark::Parser::new_ext(text, pulldown_cmark::Options::from_bits_truncate(options));
    let mut out = Vec::new();
    for (event, range) in parser.into_offset_iter() {
        out.push((lower_event(event), SourceSpan { start: range.start, end: range.end }));
    }
    out
}

/// A parser event as the library's event: the containers, the text and the
/// code; `lower_inline_event` takes the others.
#[verifier::external_body]
fn lower_event(event: pulldown_cmark::Event<'_>) -> MdEvent {
    match event {
        Event::Start(tag) => MdEvent::Start(lower_tag(tag)),
        Event::End(tag) => MdEvent::End(lower_end(tag)),
        Event::Text(s) => MdEvent::Text(s.to_string()),
        Event::Code(s) => MdEvent::Code(s.to_string()),
        Event::InlineMath(s) => MdEvent::InlineMath(s.to_string()),
        Event::DisplayMath(s) => MdEvent::DisplayMath(s.to_string()),
        other => lower_inline_event(other),
    }
}

/// The events that `lower_event` hands on; the rule is the last of them.
#[verifier::external_body]
fn lower_inline_event(event: pulldown_cmark::Event<'_>) -> MdEvent {
    match event {
        Event::Html(s) => MdEvent::Html(s.to_string()),
        Event::InlineHtml(s) => MdEvent::InlineHtml(s.to_string()),
        Event::FootnoteReference(s) => MdEvent::FootnoteReference(s.to_string()),
        Event::SoftBreak => MdEvent::SoftBreak,
        Event::HardBreak => MdEvent::HardBreak,
        Event::TaskListMarker(checked) => MdEvent::TaskListMarker(checked),
        _ => MdEvent::Rule,
    }
}

/// A heading level of the parser as the library's.
#[verifier::external_body]
fn lower_level(level: pulldown_cmark::HeadingLevel) -> HeadingDepth {
    match level {
        pulldown_cmark::HeadingLevel::H1 => HeadingDepth::H1,
        pulldown_cmark::HeadingLevel::H2 => HeadingDepth::H2,
        pulldown_cmark::HeadingLevel::H3 => HeadingDepth::H3,
        pulldown_cmark::HeadingLevel::H4 => HeadingDepth::H4,
        pulldown_cmark::HeadingLevel::H5 => HeadingDepth::H5,
        pulldown_cmark::HeadingLevel::H6 => HeadingDepth::H6,
    }
}

/// A start tag of the parser as the library's: the block tags;
/// `lower_table_tag` takes the others.
#[verifier::external_body]
fn lower_tag(tag: pulldown_cmark::Tag<'_>) -> MdTag {
    match tag {
        Tag::Paragraph => MdTag::Paragraph,
        Tag::Heading { level, .. } => MdTag::Heading(lower_level(level)),
        Tag::BlockQuote(_) => MdTag::BlockQuote,
        Tag::CodeBlock(kind) => MdTag::CodeBlock(fence_language(kind)),
        Tag::HtmlBlock => MdTag::HtmlBlock,
        Tag::List(first) => MdTag::List(first),
        Tag::Item => MdTag::Item,
        Tag::FootnoteDefinition(label) => MdTag::FootnoteDefinition(label.to_string()),
        other => lower_table_tag(other),
    }
}

/// The language of a fenced code block; none for an indented one.
#[verifier::external_body]
fn fence_language(kind: pulldown_cmark::CodeBlockKind<'_>) -> Option<String> {
    match kind {
        CodeBlockKind::Fenced(lang) => Some(lang.to_string()),
        CodeBlockKind::Indented => None,
    }
}

/// The tags that `lower_tag` hands on: definition lists and tables;
/// `lower_inline_tag` takes the others.
#[verifier::external_body]
fn lower_table_tag(tag: pulldown_cmark::Tag<'_>) -> MdTag {
    match tag {
        Tag::DefinitionList => MdTag::DefinitionList,
        Tag::DefinitionListTitle => MdTag::DefinitionListTitle,
        Tag::DefinitionListDefinition => MdTag::DefinitionListDefinition,
        Tag::Table(_) => MdTag::Table,
        Tag::TableHead => MdTag::TableHead,
        Tag::TableRow => MdTag::TableRow,
        Tag::TableCell => MdTag::TableCell,
        other => lower_inline_tag(other),
    }
}

/// The tags that `lower_table_tag` hands on; the metadata block is the last
/// of them.
#[verifier::external_body]
fn lower_inline_tag(tag: pulldown_cmark::Tag<'_>) -> MdTag {
    match tag {
        Tag::Emphasis => MdTag::Emphasis,
        Tag::Strong => MdTag::Strong,
        Tag::Strikethrough => MdTag::Strikethrough,
        Tag::Superscript => MdTag::Superscript,
        Tag::Subscript => MdTag::Subscript,
        Tag::Link { dest_url, .. } => MdTag::Link(dest_url.to_string()),
        Tag::Image { dest_url, .. } => MdTag::Image(dest_url.to_string()),
        _ => MdTag::MetadataBlock,
    }
}

/// An end tag of the parser as the library's: the block tags;
/// `lower_inline_end` takes the others.
#[verifier::external_body]
fn lower_end(tag: pulldown_cmark::TagEnd) -> MdTagEnd {
    match tag {
        TagEnd::Paragraph => MdTagEnd::Paragraph,
        TagEnd::Heading(_) => MdTagEnd::Heading,
        TagEnd::BlockQuote(_) => MdTagEnd::BlockQuote,
        TagEnd::CodeBlock => MdTagEnd::CodeBlock,
        TagEnd::HtmlBlock => MdTagEnd::HtmlBlock,
        TagEnd::List(_) => MdTagEnd::List,
        TagEnd::Item => MdTagEnd::Item,
        TagEnd::FootnoteDefinition => MdTagEnd::FootnoteDefinition,
        TagEnd::DefinitionList => MdTagEnd::DefinitionList,
        TagEnd::DefinitionListTitle => MdTagEnd::DefinitionListTitle,
        TagEnd::DefinitionListDefinition => MdTagEnd::DefinitionListDefinition,
        other => lower_inline_end(other),
    }
}

/// The end tags that `lower_end` hands on; the metadata block is the last
/// of them.
#[verifier::external_body]
fn lower_inline_end(tag: pulldown_cmark::TagEnd) -> MdTagEnd {
    match tag {
        TagEnd::Table => MdTagEnd::Table,
        TagEnd::TableHead => MdTagEnd::TableHead,
        TagEnd::TableRow => MdTagEnd::TableRow,
        TagEnd::TableCell => MdTagEnd::TableCell,
        TagEnd::Emphasis => MdTagEnd::Emphasis,
        TagEnd::Strong => MdTagEnd::Strong,
        TagEnd::Strikethrough => MdTagEnd::Strikethrough,
        TagEnd::Superscript => MdTagEnd::Superscript,
        TagEnd::Subscript => MdTagEnd::Subscript,
        TagEnd::Link => MdTagEnd::Link,
        TagEnd::Image => MdTagEnd::Image,
        _ => MdTagEnd::MetadataBlock,
    }
}

/// The events of `text`, parsed with the extensions the viewer asks for:
/// tables, task lists, strikethrough, footnotes and definition lists, and
/// math as well when `is_math_enabled`.
pub fn parse_events(text: &str, is_math_enabled: bool) -> (r: Vec<SpannedEvent>)
    ensures
        events_view(r@) == markdown_events(text@, options_for(is_math_enabled)),
{
    parse_markdown(text, parser_options_math(is_math_enabled))
}

} // verus!
