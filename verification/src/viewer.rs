//! The state of the viewer while it walks the events of a document, and what
//! each event does to it and asks to be drawn.
use vstd::prelude::*;
use crate::alert::alerts_view;
use crate::cell::{MeasureWidget, WidgetView, widgets_view};
use crate::events::{EventView, HeadingDepth, MdTagEnd, SourceSpan, TagView};
use crate::key::{KeyToken, KeyView, keys_view};
use crate::list::{List, ListItemStart, ListState};
use crate::newline::Newline;
use crate::style::{runs_view, RunView, TextRun, TextStyle};

verus! {

/// Where a definition list stands.
#[derive(Clone, Copy, Debug, PartialEq, Eq, Structural)]
pub struct DefinitionList {
    /// The first title of the list comes next (it gets no newline of its own).
    pub is_first_item: bool,
    /// A definition has started and its events are still to be drawn.
    pub is_def_list_def: bool,
}

/// An open link: its destination and the text gathered so far.
#[derive(Debug)]
pub struct LinkState {
    pub destination: String,
    pub text: Vec<TextRun>,
}

/// An open image: its resolved address and the alt text gathered so far.
#[derive(Debug)]
pub struct ImageState {
    pub uri: String,
    pub alt_text: Vec<TextRun>,
}

/// An open code block: its language, if fenced, and the code gathered so far.
#[derive(Debug)]
pub struct CodeBlockState {
    pub lang: Option<String>,
    pub content: String,
}

/// A click on a task list checkbox: its new state and the source range of
/// its marker.
#[derive(Clone, Copy, Debug, PartialEq, Eq, Structural)]
pub struct CheckboxClickEvent {
    pub checked: bool,
    pub span: SourceSpan,
}

/// The settings that change what the viewer asks to be drawn.
#[derive(Debug)]
pub struct RenderOptions {
    /// Raw HTML blocks go to a handler of the caller instead of being shown
    /// as text.
    pub html_block_handler: bool,
    /// Math goes to a handler of the caller; without one it is not shown.
    pub math_handler: bool,
    /// Task list checkboxes can be clicked.
    pub mutable: bool,
    /// Image addresses are used as written.
    pub use_explicit_uri_scheme: bool,
    /// Put in front of an image address that names no scheme.
    pub default_implicit_uri_scheme: String,
    /// The identifiers of the alerts (such as `NOTE`) that a block quote can
    /// announce with a marker such as `[!NOTE]`.
    pub alerts: Vec<String>,
}

/// A layout scope: everything drawn between its opening and its closing goes
/// inside it.
#[derive(Clone, Copy, Debug, PartialEq, Eq, Structural)]
pub enum Scope {
    /// A horizontal, wrapping layout (list items, definitions).
    Wrapped,
    /// A block quote.
    Quote,
    /// A block quote drawn as the alert with this index.
    Alert(usize),
    /// A table, with its number in the document.
    Table(usize),
    /// The header row of a table.
    HeaderRow,
    /// A body row of a table, with its index.
    BodyRow(usize),
    /// A cell of a table row, with its column.
    Cell(usize),
}

/// What a table needs for sizing its columns: its number in the document,
/// how many columns it has, the widgets of each cell, and its content key.
#[derive(Debug)]
pub struct TableLayout {
    pub id: usize,
    pub num_cols: usize,
    pub header: Vec<Vec<MeasureWidget>>,
    pub rows: Vec<Vec<Vec<MeasureWidget>>>,
    pub key: Vec<KeyToken>,
}

/// One thing to draw.
#[derive(Debug)]
pub enum RenderCommand {
    Open(Scope),
    Close(Scope),
    /// Sizes the columns of the table just opened.
    TableInfo(TableLayout),
    Newline,
    SoftBreak,
    /// A label of styled text.
    Label(TextRun),
    /// Indentation by this many steps.
    Indent(usize),
    /// The space left after a table cell.
    CellGap,
    /// A horizontal rule, which ends its line when `end_line` holds.
    Rule { end_line: bool },
    FootnoteReference(String),
    FootnoteDefinition(String),
    Checkbox { checked: bool, span: SourceSpan, mutable: bool },
    Math { tex: String, inline: bool },
    /// The marker in front of a list item.
    ListItem(ListItemStart),
    Link(LinkState),
    Image(ImageState),
    CodeBlock(CodeBlockState),
    /// A raw HTML block, for the caller's handler.
    Html(String),
    /// The line between the header and the body of a table.
    Separator,
    /// The drawing of the event with this index begins.
    EventStart(usize),
    /// The drawing of the event with this index ends a split point for
    /// scrolling.
    SplitPoint(usize),
}

/// The value of an open link.
pub struct LinkView {
    pub destination: Seq<char>,
    pub text: Seq<RunView>,
}

/// The value of an open image.
pub struct ImageView {
    pub uri: Seq<char>,
    pub alt_text: Seq<RunView>,
}

/// The value of an open code block.
pub struct CodeBlockView {
    pub lang: Option<Seq<char>>,
    pub content: Seq<char>,
}

impl View for LinkState {
    type V = LinkView;

    open spec fn view(&self) -> LinkView {
        LinkView { destination: self.destination@, text: runs_view(self.text@) }
    }
}

impl View for ImageState {
    type V = ImageView;

    open spec fn view(&self) -> ImageView {
        ImageView { uri: self.uri@, alt_text: runs_view(self.alt_text@) }
    }
}

impl View for CodeBlockState {
    type V = CodeBlockView;

    open spec fn view(&self) -> CodeBlockView {
        CodeBlockView {
            lang: match self.lang {
                Some(l) => Some(l@),
                None => None,
            },
            content: self.content@,
        }
    }
}

/// The value of a table's sizing information.
pub struct TableLayoutView {
    pub id: usize,
    pub num_cols: usize,
    pub header: Seq<Seq<WidgetView>>,
    pub rows: Seq<Seq<Seq<WidgetView>>>,
    pub key: Seq<KeyView>,
}

/// The widgets of the cells of a row.
pub open spec fn row_widgets_view(r: Seq<Vec<MeasureWidget>>) -> Seq<Seq<WidgetView>> {
    r.map_values(|c: Vec<MeasureWidget>| widgets_view(c@))
}

impl View for TableLayout {
    type V = TableLayoutView;

    open spec fn view(&self) -> TableLayoutView {
        TableLayoutView {
            id: self.id,
            num_cols: self.num_cols,
            header: row_widgets_view(self.header@),
            rows: self.rows@.map_values(|r: Vec<Vec<MeasureWidget>>| row_widgets_view(r@)),
            key: keys_view(self.key@),
        }
    }
}

/// The value of a command.
pub enum CommandView {
    Open(Scope),
    Close(Scope),
    TableInfo(TableLayoutView),
    Newline,
    SoftBreak,
    Label(RunView),
    Indent(usize),
    CellGap,
    Rule { end_line: bool },
    FootnoteReference(Seq<char>),
    FootnoteDefinition(Seq<char>),
    Checkbox { checked: bool, span: SourceSpan, mutable: bool },
    Math { tex: Seq<char>, inline: bool },
    ListItem(ListItemStart),
    Link(LinkView),
    Image(ImageView),
    CodeBlock(CodeBlockView),
    Html(Seq<char>),
    Separator,
    EventStart(usize),
    SplitPoint(usize),
}

impl View for RenderCommand {
    type V = CommandView;

    open spec fn view(&self) -> CommandView {
        match self {
            RenderCommand::Open(s) => CommandView::Open(*s),
            RenderCommand::Close(s) => CommandView::Close(*s),
            RenderCommand::TableInfo(t) => CommandView::TableInfo(t@),
            RenderCommand::Newline => CommandView::Newline,
            RenderCommand::SoftBreak => CommandView::SoftBreak,
            RenderCommand::Label(r) => CommandView::Label(r@),
            RenderCommand::Indent(n) => CommandView::Indent(*n),
            RenderCommand::CellGap => CommandView::CellGap,
            RenderCommand::Rule { end_line } => CommandView::Rule { end_line: *end_line },
            RenderCommand::FootnoteReference(s) => CommandView::FootnoteReference(s@),
            RenderCommand::FootnoteDefinition(s) => CommandView::FootnoteDefinition(s@),
            RenderCommand::Checkbox { checked, span, mutable } => CommandView::Checkbox {
                checked: *checked,
                span: *span,
                mutable: *mutable,
            },
            RenderCommand::Math { tex, inline } => CommandView::Math { tex: tex@, inline: *inline },
            RenderCommand::ListItem(i) => CommandView::ListItem(*i),
            RenderCommand::Link(l) => CommandView::Link(l@),
            RenderCommand::Image(i) => CommandView::Image(i@),
            RenderCommand::CodeBlock(c) => CommandView::CodeBlock(c@),
            RenderCommand::Html(s) => CommandView::Html(s@),
            RenderCommand::Separator => CommandView::Separator,
            RenderCommand::EventStart(i) => CommandView::EventStart(*i),
            RenderCommand::SplitPoint(i) => CommandView::SplitPoint(*i),
        }
    }
}

/// The values of a sequence of commands.
pub open spec fn commands_view(c: Seq<RenderCommand>) -> Seq<CommandView> {
    c.map_values(|x: RenderCommand| x@)
}

/// The value of the viewer's state.
pub struct ViewerState {
    pub curr_table: usize,
    pub text_style: TextStyle,
    pub list: ListState,
    pub link: Option<LinkView>,
    pub image: Option<ImageView>,
    pub line: Newline,
    pub code_block: Option<CodeBlockView>,
    pub html_block: Seq<char>,
    pub is_list_item: bool,
    pub def_list: DefinitionList,
    pub is_table: bool,
    pub is_blockquote: bool,
    pub checkbox_events: Seq<CheckboxClickEvent>,
}

/// The state of the viewer while it walks the events of a document.
pub struct CommonMarkViewerInternal {
    /// How many tables have been drawn.
    pub curr_table: usize,
    pub text_style: TextStyle,
    pub list: List,
    pub link: Option<LinkState>,
    pub image: Option<ImageState>,
    pub line: Newline,
    pub code_block: Option<CodeBlockState>,
    /// The raw HTML gathered for the caller's handler.
    pub html_block: String,
    pub is_list_item: bool,
    pub def_list: DefinitionList,
    pub is_table: bool,
    pub is_blockquote: bool,
    pub checkbox_events: Vec<CheckboxClickEvent>,
}

impl View for CommonMarkViewerInternal {
    type V = ViewerState;

    open spec fn view(&self) -> ViewerState {
        ViewerState {
            curr_table: self.curr_table,
            text_style: self.text_style,
            list: self.list@,
            link: match self.link {
                Some(l) => Some(l@),
                None => None,
            },
            image: match self.image {
                Some(i) => Some(i@),
                None => None,
            },
            line: self.line,
            code_block: match self.code_block {
                Some(c) => Some(c@),
                None => None,
            },
            html_block: self.html_block@,
            is_list_item: self.is_list_item,
            def_list: self.def_list,
            is_table: self.is_table,
            is_blockquote: self.is_blockquote,
            checkbox_events: self.checkbox_events@,
        }
    }
}

/// The state before the first event.
pub open spec fn initial_state() -> ViewerState {
    ViewerState {
        curr_table: 0,
        text_style: TextStyle::plain(),
        list: ListState::empty(),
        link: None,
        image: None,
        line: Newline::spec_initial(),
        code_block: None,
        html_block: Seq::empty(),
        is_list_item: false,
        def_list: DefinitionList { is_first_item: false, is_def_list_def: false },
        is_table: false,
        is_blockquote: false,
        checkbox_events: Seq::empty(),
    }
}

/// A newline before an element, when one may start there.
pub open spec fn newline_start(line: Newline) -> Seq<CommandView> {
    if line.spec_can_insert_start() {
        seq![CommandView::Newline]
    } else {
        Seq::empty()
    }
}

/// A newline after an element, when one may end there.
pub open spec fn newline_end(line: Newline) -> Seq<CommandView> {
    if line.spec_can_insert_end() {
        seq![CommandView::Newline]
    } else {
        Seq::empty()
    }
}

/// The same line state with both element newlines switched on or off.
pub open spec fn line_with(line: Newline, on: bool) -> Newline {
    Newline { should_start_newline: on, should_end_newline: on, ..line }
}

/// The heading level counted from 0.
pub open spec fn heading_index(level: HeadingDepth) -> u8 {
    match level {
        HeadingDepth::H1 => 0,
        HeadingDepth::H2 => 1,
        HeadingDepth::H3 => 2,
        HeadingDepth::H4 => 3,
        HeadingDepth::H5 => 4,
        HeadingDepth::H6 => 5,
    }
}

/// An address names its scheme when it holds `://` or starts with `data:`.
pub open spec fn has_scheme(uri: Seq<char>) -> bool {
    ||| exists|i: int|
        0 <= i && i + 3 <= uri.len() && #[trigger] uri[i] == ':' && uri[i + 1] == '/' && uri[i + 2]
            == '/'
    ||| (uri.len() >= 5 && uri[0] == 'd' && uri[1] == 'a' && uri[2] == 't' && uri[3] == 'a'
        && uri[4] == ':')
}

/// The address an image is loaded from: as written when explicit schemes are
/// asked for or it names one, else behind the default scheme.
pub open spec fn resolve_uri(uri: Seq<char>, use_explicit: bool, default_scheme: Seq<char>) -> Seq<
    char,
> {
    if use_explicit || has_scheme(uri) {
        uri
    } else {
        default_scheme + uri
    }
}

impl ViewerState {
    /// Whether the event may be handed to the viewer: a list item needs an
    /// open list whose numbering can go on.
    pub open spec fn accepts(self, e: EventView) -> bool {
        e matches EventView::Start(TagView::Item) ==> self.list.can_start_item()
    }

    /// What a start tag does, and what it asks to be drawn.
    pub open spec fn start_tag(
        self,
        tag: TagView,
        use_explicit: bool,
        default_scheme: Seq<char>,
    ) -> (ViewerState, Seq<CommandView>) {
        match tag {
            TagView::Paragraph => (self, newline_start(self.line)),
            TagView::Heading(level) => (
                ViewerState {
                    text_style: TextStyle { heading: Some(heading_index(level)), ..self.text_style },
                    ..self
                },
                seq![CommandView::Newline],
            ),
            TagView::BlockQuote => (ViewerState { is_blockquote: true, ..self }, Seq::empty()),
            TagView::CodeBlock(lang) => (
                ViewerState {
                    code_block: Some(CodeBlockView { lang, content: Seq::empty() }),
                    ..self
                },
                newline_start(self.line),
            ),
            TagView::List(first) => (
                ViewerState {
                    list: self.list.start_level(first),
                    line: line_with(self.line, false),
                    ..self
                },
                if self.list.levels.len() == 0 && self.line.spec_can_insert_start() {
                    seq![CommandView::Newline]
                } else {
                    Seq::empty()
                },
            ),
            TagView::Item => (
                ViewerState { is_list_item: true, list: self.list.start_item(), ..self },
                seq![CommandView::ListItem(self.list.item_start())],
            ),
            TagView::FootnoteDefinition(note) => (
                ViewerState { line: line_with(self.line, false), ..self },
                newline_start(self.line).push(CommandView::FootnoteDefinition(note)),
            ),
            TagView::Table => (ViewerState { is_table: true, ..self }, Seq::empty()),
            TagView::Emphasis => (
                ViewerState { text_style: TextStyle { emphasis: true, ..self.text_style }, ..self },
                Seq::empty(),
            ),
            TagView::Strong => (
                ViewerState { text_style: TextStyle { strong: true, ..self.text_style }, ..self },
                Seq::empty(),
            ),
            TagView::Strikethrough => (
                ViewerState {
                    text_style: TextStyle { strikethrough: true, ..self.text_style },
                    ..self
                },
                Seq::empty(),
            ),
            TagView::Link(dest) => (
                ViewerState {
                    link: Some(LinkView { destination: dest, text: Seq::empty() }),
                    ..self
                },
                Seq::empty(),
            ),
            TagView::Image(dest) => (
                ViewerState {
                    image: Some(
                        ImageView {
                            uri: resolve_uri(dest, use_explicit, default_scheme),
                            alt_text: Seq::empty(),
                        },
                    ),
                    ..self
                },
                Seq::empty(),
            ),
            TagView::HtmlBlock => (self, newline_start(self.line)),
            TagView::DefinitionList => (
                ViewerState {
                    def_list: DefinitionList { is_first_item: true, ..self.def_list },
                    ..self
                },
                newline_start(self.line),
            ),
            TagView::DefinitionListTitle => if !self.def_list.is_first_item {
                (self, newline_start(self.line))
            } else {
                (
                    ViewerState {
                        def_list: DefinitionList { is_first_item: false, ..self.def_list },
                        ..self
                    },
                    Seq::empty(),
                )
            },
            TagView::DefinitionListDefinition => (
                ViewerState {
                    def_list: DefinitionList { is_def_list_def: true, ..self.def_list },
                    ..self
                },
                Seq::empty(),
            ),
            _ => (self, Seq::empty()),
        }
    }

    /// What an end tag does, and what it asks to be drawn.
    pub open spec fn end_tag(self, tag: MdTagEnd, html_handler: bool) -> (
        ViewerState,
        Seq<CommandView>,
    ) {
        match tag {
            MdTagEnd::Paragraph => (self, newline_end(self.line)),
            MdTagEnd::Heading => (
                ViewerState { text_style: TextStyle { heading: None, ..self.text_style }, ..self },
                newline_end(self.line),
            ),
            MdTagEnd::CodeBlock => match self.code_block {
                Some(b) => (
                    ViewerState { code_block: None, ..self },
                    seq![CommandView::CodeBlock(b)] + newline_end(self.line),
                ),
                None => (self, Seq::empty()),
            },
            MdTagEnd::List => {
                let line2 = if self.list.levels.len() == 1 {
                    line_with(self.line, true)
                } else {
                    self.line
                };
                let list2 = self.list.end_level();
                (
                    ViewerState {
                        line: line2,
                        list: if list2.levels.len() == 0 {
                            ListState::empty()
                        } else {
                            list2
                        },
                        ..self
                    },
                    if list2.levels.len() == 0 && line2.spec_can_insert_end() {
                        seq![CommandView::Newline]
                    } else {
                        Seq::empty()
                    },
                )
            },
            MdTagEnd::FootnoteDefinition => (
                ViewerState { line: line_with(self.line, true), ..self },
                newline_end(line_with(self.line, true)),
            ),
            MdTagEnd::TableCell => (self, seq![CommandView::CellGap]),
            MdTagEnd::Emphasis => (
                ViewerState { text_style: TextStyle { emphasis: false, ..self.text_style }, ..self },
                Seq::empty(),
            ),
            MdTagEnd::Strong => (
                ViewerState { text_style: TextStyle { strong: false, ..self.text_style }, ..self },
                Seq::empty(),
            ),
            MdTagEnd::Strikethrough => (
                ViewerState {
                    text_style: TextStyle { strikethrough: false, ..self.text_style },
                    ..self
                },
                Seq::empty(),
            ),
            MdTagEnd::Link => match self.link {
                Some(l) => (ViewerState { link: None, ..self }, seq![CommandView::Link(l)]),
                None => (self, Seq::empty()),
            },
            MdTagEnd::Image => match self.image {
                Some(i) => (ViewerState { image: None, ..self }, seq![CommandView::Image(i)]),
                None => (self, Seq::empty()),
            },
            MdTagEnd::HtmlBlock => if html_handler {
                (
                    ViewerState { html_block: Seq::empty(), ..self },
                    seq![CommandView::Html(self.html_block)],
                )
            } else {
                (self, Seq::empty())
            },
            MdTagEnd::DefinitionList => (self, newline_end(self.line)),
            _ => (self, Seq::empty()),
        }
    }

    /// Where a piece of text goes: into the alt text of an open image, else
    /// into an open code block, else into an open link, else onto a label.
    pub open spec fn text(self, text: Seq<char>) -> (ViewerState, Seq<CommandView>) {
        let run = RunView { text, style: self.text_style };
        match self.image {
            Some(i) => (
                ViewerState {
                    image: Some(ImageView { alt_text: i.alt_text.push(run), ..i }),
                    ..self
                },
                Seq::empty(),
            ),
            None => match self.code_block {
                Some(b) => (
                    ViewerState {
                        code_block: Some(CodeBlockView { content: b.content + text, ..b }),
                        ..self
                    },
                    Seq::empty(),
                ),
                None => match self.link {
                    Some(l) => (
                        ViewerState { link: Some(LinkView { text: l.text.push(run), ..l }), ..self },
                        Seq::empty(),
                    ),
                    None => (self, seq![CommandView::Label(run)]),
                },
            },
        }
    }

    /// What one event does, and what it asks to be drawn.
    #[verifier::opaque]
    pub open spec fn event(self, e: EventView, span: SourceSpan, o: OptionsView) -> (
        ViewerState,
        Seq<CommandView>,
    ) {
        match e {
            EventView::Start(tag) => self.start_tag(
                tag,
                o.use_explicit_uri_scheme,
                o.default_implicit_uri_scheme,
            ),
            EventView::End(tag) => self.end_tag(tag, o.html_block_handler),
            EventView::Text(t) => self.text(t),
            EventView::Code(t) => {
                let coded = ViewerState { text_style: TextStyle { code: true, ..self.text_style }, ..self };
                let (s2, c) = coded.text(t);
                (ViewerState { text_style: TextStyle { code: false, ..s2.text_style }, ..s2 }, c)
            },
            EventView::InlineHtml(t) => self.text(t),
            EventView::Html(t) => if o.html_block_handler {
                (ViewerState { html_block: self.html_block + t, ..self }, Seq::empty())
            } else {
                self.text(t)
            },
            EventView::FootnoteReference(f) => (self, seq![CommandView::FootnoteReference(f)]),
            EventView::SoftBreak => (self, seq![CommandView::SoftBreak]),
            EventView::HardBreak => (self, seq![CommandView::Newline]),
            EventView::Rule => (
                self,
                newline_start(self.line).push(
                    CommandView::Rule { end_line: self.line.spec_can_insert_end() },
                ),
            ),
            EventView::TaskListMarker(checked) => (
                self,
                seq![CommandView::Checkbox { checked, span, mutable: o.mutable }],
            ),
            EventView::InlineMath(t) => if o.math_handler {
                (self, seq![CommandView::Math { tex: t, inline: true }])
            } else {
                (self, Seq::empty())
            },
            EventView::DisplayMath(t) => if o.math_handler {
                (self, seq![CommandView::Math { tex: t, inline: false }])
            } else {
                (self, Seq::empty())
            },
        }
    }
}

/// The value of the render options.
pub struct OptionsView {
    pub html_block_handler: bool,
    pub math_handler: bool,
    pub mutable: bool,
    pub use_explicit_uri_scheme: bool,
    pub default_implicit_uri_scheme: Seq<char>,
    pub alerts: Seq<Seq<char>>,
}

impl View for RenderOptions {
    type V = OptionsView;

    open spec fn view(&self) -> OptionsView {
        OptionsView {
            html_block_handler: self.html_block_handler,
            math_handler: self.math_handler,
            mutable: self.mutable,
            use_explicit_uri_scheme: self.use_explicit_uri_scheme,
            default_implicit_uri_scheme: self.default_implicit_uri_scheme@,
            alerts: alerts_view(self.alerts@),
        }
    }
}

} // verus!
