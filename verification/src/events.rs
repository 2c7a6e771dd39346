//! The markdown events that drive the viewer, held as plain values.
use vstd::prelude::*;

verus! {

/// The level of a heading, `#` to `######`.
#[derive(Clone, Copy, Debug, PartialEq, Eq, Structural)]
pub enum HeadingDepth {
    H1,
    H2,
    H3,
    H4,
    H5,
    H6,
}

/// Start of an element that contains other elements.
#[derive(Clone, Debug)]
pub enum MdTag {
    Paragraph,
    Heading(HeadingDepth),
    BlockQuote,
    /// A code block: `Some(lang)` when fenced (the language may be empty),
    /// `None` when indented.
    CodeBlock(Option<String>),
    HtmlBlock,
    /// A list; ordered lists carry the number of their first item.
    List(Option<u64>),
    Item,
    /// A footnote definition with its label.
    FootnoteDefinition(String),
    DefinitionList,
    DefinitionListTitle,
    DefinitionListDefinition,
    Table,
    TableHead,
    TableRow,
    TableCell,
    Emphasis,
    Strong,
    Strikethrough,
    Superscript,
    Subscript,
    /// A link with its destination.
    Link(String),
    /// An image with its destination.
    Image(String),
    MetadataBlock,
}

/// End of an element.
#[derive(Clone, Copy, Debug, PartialEq, Eq, Structural)]
pub enum MdTagEnd {
    Paragraph,
    Heading,
    BlockQuote,
    CodeBlock,
    HtmlBlock,
    List,
    Item,
    FootnoteDefinition,
    DefinitionList,
    DefinitionListTitle,
    DefinitionListDefinition,
    Table,
    TableHead,
    TableRow,
    TableCell,
    Emphasis,
    Strong,
    Strikethrough,
    Superscript,
    Subscript,
    Link,
    Image,
    MetadataBlock,
}

/// One markdown event, in document order.
#[derive(Clone, Debug)]
pub enum MdEvent {
    Start(MdTag),
    End(MdTagEnd),
    Text(String),
    Code(String),
    InlineMath(String),
    DisplayMath(String),
    Html(String),
    InlineHtml(String),
    FootnoteReference(String),
    SoftBreak,
    HardBreak,
    Rule,
    TaskListMarker(bool),
}

/// The byte range of the source text that an event came from.
#[derive(Clone, Copy, Debug, PartialEq, Eq, Structural)]
pub struct SourceSpan {
    pub start: usize,
    pub end: usize,
}

/// An event together with the source range it came from.
pub type SpannedEvent = (MdEvent, SourceSpan);


/// The value of a start tag, with its text as a sequence of characters.
pub enum TagView {
    Paragraph,
    Heading(HeadingDepth),
    BlockQuote,
    CodeBlock(Option<Seq<char>>),
    HtmlBlock,
    List(Option<u64>),
    Item,
    FootnoteDefinition(Seq<char>),
    DefinitionList,
    DefinitionListTitle,
    DefinitionListDefinition,
    Table,
    TableHead,
    TableRow,
    TableCell,
    Emphasis,
    Strong,
    Strikethrough,
    Superscript,
    Subscript,
    Link(Seq<char>),
    Image(Seq<char>),
    MetadataBlock,
}

/// The value of an event, with its text as a sequence of characters.
pub enum EventView {
    Start(TagView),
    End(MdTagEnd),
    Text(Seq<char>),
    Code(Seq<char>),
    InlineMath(Seq<char>),
    DisplayMath(Seq<char>),
    Html(Seq<char>),
    InlineHtml(Seq<char>),
    FootnoteReference(Seq<char>),
    SoftBreak,
    HardBreak,
    Rule,
    TaskListMarker(bool),
}

impl View for MdTag {
    type V = TagView;

    open spec fn view(&self) -> TagView {
        match self {
            MdTag::Paragraph => TagView::Paragraph,
            MdTag::Heading(l) => TagView::Heading(*l),
            MdTag::BlockQuote => TagView::BlockQuote,
            MdTag::CodeBlock(lang) => TagView::CodeBlock(
                match lang {
                    Some(s) => Some(s@),
                    None => None,
                },
            ),
            MdTag::HtmlBlock => TagView::HtmlBlock,
            MdTag::List(n) => TagView::List(*n),
            MdTag::Item => TagView::Item,
            MdTag::FootnoteDefinition(s) => TagView::FootnoteDefinition(s@),
            MdTag::DefinitionList => TagView::DefinitionList,
            MdTag::DefinitionListTitle => TagView::DefinitionListTitle,
            MdTag::DefinitionListDefinition => TagView::DefinitionListDefinition,
            MdTag::Table => TagView::Table,
            MdTag::TableHead => TagView::TableHead,
            MdTag::TableRow => TagView::TableRow,
            MdTag::TableCell => TagView::TableCell,
            MdTag::Emphasis => TagView::Emphasis,
            MdTag::Strong => TagView::Strong,
            MdTag::Strikethrough => TagView::Strikethrough,
            MdTag::Superscript => TagView::Superscript,
            MdTag::Subscript => TagView::Subscript,
            MdTag::Link(s) => TagView::Link(s@),
            MdTag::Image(s) => TagView::Image(s@),
            MdTag::MetadataBlock => TagView::MetadataBlock,
        }
    }
}

impl View for MdEvent {
    type V = EventView;

    open spec fn view(&self) -> EventView {
        match self {
            MdEvent::Start(t) => EventView::Start(t@),
            MdEvent::End(t) => EventView::End(*t),
            MdEvent::Text(s) => EventView::Text(s@),
            MdEvent::Code(s) => EventView::Code(s@),
            MdEvent::InlineMath(s) => EventView::InlineMath(s@),
            MdEvent::DisplayMath(s) => EventView::DisplayMath(s@),
            MdEvent::Html(s) => EventView::Html(s@),
            MdEvent::InlineHtml(s) => EventView::InlineHtml(s@),
            MdEvent::FootnoteReference(s) => EventView::FootnoteReference(s@),
            MdEvent::SoftBreak => EventView::SoftBreak,
            MdEvent::HardBreak => EventView::HardBreak,
            MdEvent::Rule => EventView::Rule,
            MdEvent::TaskListMarker(b) => EventView::TaskListMarker(*b),
        }
    }
}

/// The values of a sequence of events with their spans.
pub open spec fn events_view(s: Seq<SpannedEvent>) -> Seq<(EventView, SourceSpan)> {
    s.map_values(|e: SpannedEvent| (e.0@, e.1))
}

/// Whether `e` ends an element of kind `kind`.
pub open spec fn is_end_of(e: MdEvent, kind: MdTagEnd) -> bool {
    e matches MdEvent::End(k) && k == kind
}

impl MdTag {
    /// A copy, equal to `self`.
    pub fn duplicate(&self) -> (r: MdTag)
        ensures
            r == *self,
    {
        match self {
            MdTag::Paragraph => MdTag::Paragraph,
            MdTag::Heading(l) => MdTag::Heading(*l),
            MdTag::BlockQuote => MdTag::BlockQuote,
            MdTag::CodeBlock(lang) => MdTag::CodeBlock(
                match lang {
                    Some(s) => Some(s.clone()),
                    None => None,
                },
            ),
            MdTag::HtmlBlock => MdTag::HtmlBlock,
            MdTag::List(n) => MdTag::List(*n),
            MdTag::Item => MdTag::Item,
            MdTag::FootnoteDefinition(s) => MdTag::FootnoteDefinition(s.clone()),
            MdTag::DefinitionList => MdTag::DefinitionList,
            MdTag::DefinitionListTitle => MdTag::DefinitionListTitle,
            MdTag::DefinitionListDefinition => MdTag::DefinitionListDefinition,
            MdTag::Table => MdTag::Table,
            MdTag::TableHead => MdTag::TableHead,
            MdTag::TableRow => MdTag::TableRow,
            MdTag::TableCell => MdTag::TableCell,
            MdTag::Emphasis => MdTag::Emphasis,
            MdTag::Strong => MdTag::Strong,
            MdTag::Strikethrough => MdTag::Strikethrough,
            MdTag::Superscript => MdTag::Superscript,
            MdTag::Subscript => MdTag::Subscript,
            MdTag::Link(s) => MdTag::Link(s.clone()),
            MdTag::Image(s) => MdTag::Image(s.clone()),
            MdTag::MetadataBlock => MdTag::MetadataBlock,
        }
    }
}

impl MdEvent {
    /// A copy, equal to `self`.
    pub fn duplicate(&self) -> (r: MdEvent)
        ensures
            r == *self,
    {
        match self {
            MdEvent::Start(t) => MdEvent::Start(t.duplicate()),
            MdEvent::End(t) => MdEvent::End(*t),
            MdEvent::Text(s) => MdEvent::Text(s.clone()),
            MdEvent::Code(s) => MdEvent::Code(s.clone()),
            MdEvent::InlineMath(s) => MdEvent::InlineMath(s.clone()),
            MdEvent::DisplayMath(s) => MdEvent::DisplayMath(s.clone()),
            MdEvent::Html(s) => MdEvent::Html(s.clone()),
            MdEvent::InlineHtml(s) => MdEvent::InlineHtml(s.clone()),
            MdEvent::FootnoteReference(s) => MdEvent::FootnoteReference(s.clone()),
            MdEvent::SoftBreak => MdEvent::SoftBreak,
            MdEvent::HardBreak => MdEvent::HardBreak,
            MdEvent::Rule => MdEvent::Rule,
            MdEvent::TaskListMarker(b) => MdEvent::TaskListMarker(*b),
        }
    }

    /// Whether this event ends an element of kind `kind`.
    pub fn ends(&self, kind: MdTagEnd) -> (r: bool)
        ensures
            r == is_end_of(*self, kind),
    {
        match self {
            MdEvent::End(k) => *k == kind,
            _ => false,
        }
    }
}

/// A copy of an event and its span, equal to the one given.
pub fn duplicate_spanned(e: &SpannedEvent) -> (r: SpannedEvent)
    ensures
        r == *e,
{
    (e.0.duplicate(), e.1)
}

} // verus!
