//! What each event does to the viewer and asks to be drawn, step by step.
use vstd::prelude::*;
use crate::events::{EventView, HeadingDepth, MdEvent, MdTag, MdTagEnd, SourceSpan, TagView};
use crate::list::List;
use crate::newline::Newline;
use crate::style::{runs_view, TextRun, TextStyle};
use crate::viewer::{
    commands_view, CommandView, has_scheme, initial_state, resolve_uri, CodeBlockState, CommonMarkViewerInternal,
    DefinitionList, ImageState, LinkState, RenderCommand, RenderOptions,
};

verus! {

/// Whether `uri` holds `://` or starts with `data:`.
pub fn names_scheme(uri: &str) -> (r: bool)
    ensures
        r == has_scheme(uri@),
{
    let n = uri.unicode_len();
    if n >= 5 && uri.get_char(0) == 'd' && uri.get_char(1) == 'a' && uri.get_char(2) == 't'
        && uri.get_char(3) == 'a' && uri.get_char(4) == ':' {
        return true;
    }
    let mut i: usize = 0;
    while i < n && n - i >= 3
        invariant
            n == uri@.len(),
            forall|j: int|
                0 <= j < i ==> !(#[trigger] uri@[j] == ':' && uri@[j + 1] == '/' && uri@[j + 2]
                    == '/'),
        decreases n - i,
    {
        if uri.get_char(i) == ':' && uri.get_char(i + 1) == '/' && uri.get_char(i + 2) == '/' {
            return true;
        }
        i = i + 1;
    }
    false
}

/// The address an image is loaded from, as `resolve_uri` says.
pub fn resolve_image_uri(dest: &str, options: &RenderOptions) -> (r: String)
    ensures
        r@ == resolve_uri(
            dest@,
            options.use_explicit_uri_scheme,
            options.default_implicit_uri_scheme@,
        ),
{
    if options.use_explicit_uri_scheme || names_scheme(dest) {
        String::from_str(dest)
    } else {
        let mut uri = options.default_implicit_uri_scheme.clone();
        uri.append(dest);
        uri
    }
}

impl CommonMarkViewerInternal {
    /// The state before the first event.
    pub fn new() -> (r: CommonMarkViewerInternal)
        ensures
            r@ == initial_state(),
    {
        let r = CommonMarkViewerInternal {
            curr_table: 0,
            text_style: TextStyle::default(),
            list: List::new(),
            link: None,
            image: None,
            line: Newline::new(),
            code_block: None,
            html_block: String::new(),
            is_list_item: false,
            def_list: DefinitionList { is_first_item: false, is_def_list_def: false },
            is_table: false,
            is_blockquote: false,
            checkbox_events: Vec::new(),
        };
        assert(r@.checkbox_events =~= initial_state().checkbox_events);
        r
    }

    /// Sends a piece of text where it belongs, as `ViewerState::text` says.
    pub fn event_text(&mut self, text: String, out: &mut Vec<RenderCommand>)
        ensures
            final(self)@ == old(self)@.text(text@).0,
            commands_view(final(out)@) == commands_view(old(out)@) + old(self)@.text(text@).1,
    {
        let run = TextRun { text: text.clone(), style: self.text_style };
        if self.image.is_some() {
            let mut img = self.image.take().unwrap();
            let ghost before = runs_view(img.alt_text@);
            img.alt_text.push(run);
            assert(runs_view(img.alt_text@) =~= before.push(run@));
            self.image = Some(img);
        } else if self.code_block.is_some() {
            let mut block = self.code_block.take().unwrap();
            block.content.append(text.as_str());
            self.code_block = Some(block);
        } else if self.link.is_some() {
            let mut link = self.link.take().unwrap();
            let ghost before = runs_view(link.text@);
            link.text.push(run);
            assert(runs_view(link.text@) =~= before.push(run@));
            self.link = Some(link);
        } else {
            out.push(RenderCommand::Label(run));
        }
        assert(commands_view(out@) =~= commands_view(old(out)@) + old(self)@.text(text@).1);
    }

    /// Pushes a newline when one may start before the next element.
    fn newline_if_start(&self, out: &mut Vec<RenderCommand>)
        ensures
            commands_view(final(out)@) == commands_view(old(out)@) + crate::viewer::newline_start(
                self.line,
            ),
    {
        if self.line.try_insert_start() {
            out.push(RenderCommand::Newline);
        }
        assert(commands_view(out@) =~= commands_view(old(out)@) + crate::viewer::newline_start(
            self.line,
        ));
    }

    /// Pushes a newline when one may end the element just drawn.
    fn newline_if_end(&self, out: &mut Vec<RenderCommand>)
        ensures
            commands_view(final(out)@) == commands_view(old(out)@) + crate::viewer::newline_end(
                self.line,
            ),
    {
        if self.line.try_insert_end() {
            out.push(RenderCommand::Newline);
        }
        assert(commands_view(out@) =~= commands_view(old(out)@) + crate::viewer::newline_end(
            self.line,
        ));
    }

    /// What a start tag does, as `ViewerState::start_tag` says.
    pub fn start_tag(&mut self, tag: MdTag, options: &RenderOptions, out: &mut Vec<RenderCommand>)
        requires
            old(self)@.accepts(EventView::Start(tag@)),
        ensures
            final(self)@ == old(self)@.start_tag(
                tag@,
                options.use_explicit_uri_scheme,
                options.default_implicit_uri_scheme@,
            ).0,
            commands_view(final(out)@) == commands_view(old(out)@) + old(self)@.start_tag(
                tag@,
                options.use_explicit_uri_scheme,
                options.default_implicit_uri_scheme@,
            ).1,
    {
        match tag {
            MdTag::Heading(level) => self.start_heading(level, out),
            MdTag::CodeBlock(lang) => self.start_code_block(lang, out),
            MdTag::List(point) => self.start_list(point, out),
            MdTag::Item => self.start_item(out),
            MdTag::FootnoteDefinition(note) => self.start_footnote(note, out),
            MdTag::Link(dest) => self.start_link(dest, out),
            MdTag::Image(dest) => self.start_image(dest, options, out),
            MdTag::DefinitionListTitle => self.start_definition_title(out),
            MdTag::Paragraph | MdTag::HtmlBlock | MdTag::DefinitionList => self.start_block(
                tag,
                options,
                out,
            ),
            MdTag::BlockQuote | MdTag::Table | MdTag::DefinitionListDefinition => self.start_flag(
                tag,
                options,
                out,
            ),
            MdTag::Emphasis | MdTag::Strong | MdTag::Strikethrough => self.start_style(
                tag,
                options,
                out,
            ),
            MdTag::TableHead | MdTag::TableRow | MdTag::TableCell | MdTag::MetadataBlock
            | MdTag::Superscript | MdTag::Subscript => {
                assert(commands_view(out@) =~= commands_view(old(out)@) + Seq::empty());
            },
        }
    }

    fn start_heading(&mut self, level: HeadingDepth, out: &mut Vec<RenderCommand>)
        ensures
            final(self)@ == old(self)@.start_tag(TagView::Heading(level), false, Seq::empty()).0,
            commands_view(final(out)@) == commands_view(old(out)@) + old(self)@.start_tag(
                TagView::Heading(level),
                false,
                Seq::empty(),
            ).1,
    {
        out.push(RenderCommand::Newline);
        self.text_style.heading = Some(
            match level {
                HeadingDepth::H1 => 0,
                HeadingDepth::H2 => 1,
                HeadingDepth::H3 => 2,
                HeadingDepth::H4 => 3,
                HeadingDepth::H5 => 4,
                HeadingDepth::H6 => 5,
            },
        );
        assert(commands_view(out@) =~= commands_view(old(out)@).push(CommandView::Newline));
    }

    fn start_code_block(&mut self, lang: Option<String>, out: &mut Vec<RenderCommand>)
        ensures
            final(self)@ == old(self)@.start_tag(MdTag::CodeBlock(lang)@, false, Seq::empty()).0,
            commands_view(final(out)@) == commands_view(old(out)@) + old(self)@.start_tag(
                MdTag::CodeBlock(lang)@,
                false,
                Seq::empty(),
            ).1,
    {
        self.code_block = Some(CodeBlockState { lang, content: String::new() });
        self.newline_if_start(out);
    }

    fn start_list(&mut self, point: Option<u64>, out: &mut Vec<RenderCommand>)
        ensures
            final(self)@ == old(self)@.start_tag(TagView::List(point), false, Seq::empty()).0,
            commands_view(final(out)@) == commands_view(old(out)@) + old(self)@.start_tag(
                TagView::List(point),
                false,
                Seq::empty(),
            ).1,
    {
        if !self.list.is_inside_a_list() && self.line.can_insert_start() {
            out.push(RenderCommand::Newline);
        }
        match point {
            Some(number) => self.list.start_level_with_number(number),
            None => self.list.start_level_without_number(),
        }
        self.line.should_start_newline = false;
        self.line.should_end_newline = false;
        assert(commands_view(out@) =~= commands_view(old(out)@) + old(self)@.start_tag(
            TagView::List(point),
            false,
            Seq::empty(),
        ).1);
    }

    fn start_item(&mut self, out: &mut Vec<RenderCommand>)
        requires
            old(self)@.list.can_start_item(),
        ensures
            final(self)@ == old(self)@.start_tag(TagView::Item, false, Seq::empty()).0,
            commands_view(final(out)@) == commands_view(old(out)@) + old(self)@.start_tag(
                TagView::Item,
                false,
                Seq::empty(),
            ).1,
    {
        self.is_list_item = true;
        let item = self.list.start_item();
        out.push(RenderCommand::ListItem(item));
        assert(commands_view(out@) =~= commands_view(old(out)@).push(CommandView::ListItem(item)));
    }

    fn start_footnote(&mut self, note: String, out: &mut Vec<RenderCommand>)
        ensures
            final(self)@ == old(self)@.start_tag(TagView::FootnoteDefinition(note@), false, Seq::empty()).0,
            commands_view(final(out)@) == commands_view(old(out)@) + old(self)@.start_tag(
                TagView::FootnoteDefinition(note@),
                false,
                Seq::empty(),
            ).1,
    {
        let ghost note_v = note@;
        self.newline_if_start(out);
        let ghost out1 = commands_view(out@);
        self.line.should_start_newline = false;
        self.line.should_end_newline = false;
        out.push(RenderCommand::FootnoteDefinition(note));
        assert(commands_view(out@) =~= out1.push(CommandView::FootnoteDefinition(note_v)));
        assert(commands_view(out@) =~= commands_view(old(out)@) + old(self)@.start_tag(
            TagView::FootnoteDefinition(note_v),
            false,
            Seq::empty(),
        ).1);
    }

    fn start_link(&mut self, dest: String, out: &mut Vec<RenderCommand>)
        ensures
            final(self)@ == old(self)@.start_tag(TagView::Link(dest@), false, Seq::empty()).0,
            commands_view(final(out)@) == commands_view(old(out)@) + old(self)@.start_tag(
                TagView::Link(dest@),
                false,
                Seq::empty(),
            ).1,
    {
        let link = LinkState { destination: dest, text: Vec::new() };
        assert(runs_view(link.text@) =~= Seq::empty());
        self.link = Some(link);
        assert(commands_view(out@) =~= commands_view(old(out)@) + Seq::empty());
    }

    fn start_image(&mut self, dest: String, options: &RenderOptions, out: &mut Vec<RenderCommand>)
        ensures
            final(self)@ == old(self)@.start_tag(
                TagView::Image(dest@),
                options.use_explicit_uri_scheme,
                options.default_implicit_uri_scheme@,
            ).0,
            commands_view(final(out)@) == commands_view(old(out)@) + old(self)@.start_tag(
                TagView::Image(dest@),
                options.use_explicit_uri_scheme,
                options.default_implicit_uri_scheme@,
            ).1,
    {
        let uri = resolve_image_uri(dest.as_str(), options);
        let image = ImageState { uri, alt_text: Vec::new() };
        assert(runs_view(image.alt_text@) =~= Seq::empty());
        self.image = Some(image);
        assert(commands_view(out@) =~= commands_view(old(out)@) + Seq::empty());
    }

    fn start_definition_title(&mut self, out: &mut Vec<RenderCommand>)
        ensures
            final(self)@ == old(self)@.start_tag(TagView::DefinitionListTitle, false, Seq::empty()).0,
            commands_view(final(out)@) == commands_view(old(out)@) + old(self)@.start_tag(
                TagView::DefinitionListTitle,
                false,
                Seq::empty(),
            ).1,
    {
        if !self.def_list.is_first_item {
            self.newline_if_start(out);
        } else {
            self.def_list.is_first_item = false;
            assert(commands_view(out@) =~= commands_view(old(out)@) + Seq::empty());
        }
    }

    fn start_block(&mut self, tag: MdTag, options: &RenderOptions, out: &mut Vec<RenderCommand>)
        requires
            tag is Paragraph || tag is HtmlBlock || tag is DefinitionList,
        ensures
            final(self)@ == old(self)@.start_tag(
                tag@,
                options.use_explicit_uri_scheme,
                options.default_implicit_uri_scheme@,
            ).0,
            commands_view(final(out)@) == commands_view(old(out)@) + old(self)@.start_tag(
                tag@,
                options.use_explicit_uri_scheme,
                options.default_implicit_uri_scheme@,
            ).1,
    {
        self.newline_if_start(out);
        if matches!(tag, MdTag::DefinitionList) {
            self.def_list.is_first_item = true;
        }
    }

    fn start_flag(&mut self, tag: MdTag, options: &RenderOptions, out: &mut Vec<RenderCommand>)
        requires
            tag is BlockQuote || tag is Table || tag is DefinitionListDefinition,
        ensures
            final(self)@ == old(self)@.start_tag(
                tag@,
                options.use_explicit_uri_scheme,
                options.default_implicit_uri_scheme@,
            ).0,
            commands_view(final(out)@) == commands_view(old(out)@) + old(self)@.start_tag(
                tag@,
                options.use_explicit_uri_scheme,
                options.default_implicit_uri_scheme@,
            ).1,
    {
        match tag {
            MdTag::BlockQuote => self.is_blockquote = true,
            MdTag::Table => self.is_table = true,
            _ => self.def_list.is_def_list_def = true,
        }
        assert(commands_view(out@) =~= commands_view(old(out)@) + Seq::empty());
    }

    fn start_style(&mut self, tag: MdTag, options: &RenderOptions, out: &mut Vec<RenderCommand>)
        requires
            tag is Emphasis || tag is Strong || tag is Strikethrough,
        ensures
            final(self)@ == old(self)@.start_tag(
                tag@,
                options.use_explicit_uri_scheme,
                options.default_implicit_uri_scheme@,
            ).0,
            commands_view(final(out)@) == commands_view(old(out)@) + old(self)@.start_tag(
                tag@,
                options.use_explicit_uri_scheme,
                options.default_implicit_uri_scheme@,
            ).1,
    {
        match tag {
            MdTag::Emphasis => self.text_style.emphasis = true,
            MdTag::Strong => self.text_style.strong = true,
            _ => self.text_style.strikethrough = true,
        }
        assert(commands_view(out@) =~= commands_view(old(out)@) + Seq::empty());
    }

    /// Draws the code block that ends here, if one is open.
    fn end_code_block(&mut self, out: &mut Vec<RenderCommand>)
        ensures
            final(self)@ == old(self)@.end_tag(MdTagEnd::CodeBlock, false).0,
            commands_view(final(out)@) == commands_view(old(out)@) + old(self)@.end_tag(
                MdTagEnd::CodeBlock,
                false,
            ).1,
    {
        let ghost out0 = commands_view(out@);
        if self.code_block.is_some() {
            let block = self.code_block.take().unwrap();
            let ghost bv = block@;
            out.push(RenderCommand::CodeBlock(block));
            let ghost out1 = commands_view(out@);
            assert(out1 =~= out0.push(crate::viewer::CommandView::CodeBlock(bv)));
            self.newline_if_end(out);
            assert(commands_view(out@) =~= out0 + old(self)@.end_tag(MdTagEnd::CodeBlock, false).1);
        } else {
            assert(commands_view(out@) =~= out0 + Seq::empty());
        }
    }

    /// What an end tag does, as `ViewerState::end_tag` says.
    pub fn end_tag(&mut self, tag: MdTagEnd, options: &RenderOptions, out: &mut Vec<RenderCommand>)
        ensures
            final(self)@ == old(self)@.end_tag(tag, options.html_block_handler).0,
            commands_view(final(out)@) == commands_view(old(out)@) + old(self)@.end_tag(
                tag,
                options.html_block_handler,
            ).1,
    {
        match tag {
            MdTagEnd::Paragraph | MdTagEnd::DefinitionList => self.end_block(tag, options, out),
            MdTagEnd::Heading => self.end_heading(options, out),
            MdTagEnd::CodeBlock => self.end_code_block(out),
            MdTagEnd::List => self.end_list(options, out),
            MdTagEnd::FootnoteDefinition => self.end_footnote(options, out),
            MdTagEnd::TableCell => self.end_cell(options, out),
            MdTagEnd::Emphasis | MdTagEnd::Strong | MdTagEnd::Strikethrough => self.end_style(
                tag,
                options,
                out,
            ),
            MdTagEnd::Link => self.end_link(options, out),
            MdTagEnd::Image => self.end_image(options, out),
            MdTagEnd::HtmlBlock => self.end_html(options, out),
            MdTagEnd::BlockQuote | MdTagEnd::Item | MdTagEnd::Table | MdTagEnd::TableHead
            | MdTagEnd::TableRow | MdTagEnd::MetadataBlock | MdTagEnd::DefinitionListTitle
            | MdTagEnd::DefinitionListDefinition | MdTagEnd::Superscript | MdTagEnd::Subscript => {
                assert(commands_view(out@) =~= commands_view(old(out)@) + Seq::empty());
            },
        }
    }

    fn end_block(&mut self, tag: MdTagEnd, options: &RenderOptions, out: &mut Vec<RenderCommand>)
        requires
            tag == MdTagEnd::Paragraph || tag == MdTagEnd::DefinitionList,
        ensures
            final(self)@ == old(self)@.end_tag(tag, options.html_block_handler).0,
            commands_view(final(out)@) == commands_view(old(out)@) + old(self)@.end_tag(
                tag,
                options.html_block_handler,
            ).1,
    {
        self.newline_if_end(out);
    }

    fn end_heading(&mut self, options: &RenderOptions, out: &mut Vec<RenderCommand>)
        ensures
            final(self)@ == old(self)@.end_tag(MdTagEnd::Heading, options.html_block_handler).0,
            commands_view(final(out)@) == commands_view(old(out)@) + old(self)@.end_tag(
                MdTagEnd::Heading,
                options.html_block_handler,
            ).1,
    {
        self.newline_if_end(out);
        self.text_style.heading = None;
    }

    fn end_list(&mut self, options: &RenderOptions, out: &mut Vec<RenderCommand>)
        ensures
            final(self)@ == old(self)@.end_tag(MdTagEnd::List, options.html_block_handler).0,
            commands_view(final(out)@) == commands_view(old(out)@) + old(self)@.end_tag(
                MdTagEnd::List,
                options.html_block_handler,
            ).1,
    {
        if self.list.is_last_level() {
            self.line.should_start_newline = true;
            self.line.should_end_newline = true;
        }
        let newline = self.list.end_level(self.line.can_insert_end());
        if newline {
            out.push(RenderCommand::Newline);
        }
        if !self.list.is_inside_a_list() {
            self.list = List::new();
        }
        assert(commands_view(out@) =~= commands_view(old(out)@) + old(self)@.end_tag(
            MdTagEnd::List,
            options.html_block_handler,
        ).1);
    }

    fn end_footnote(&mut self, options: &RenderOptions, out: &mut Vec<RenderCommand>)
        ensures
            final(self)@ == old(self)@.end_tag(MdTagEnd::FootnoteDefinition, options.html_block_handler).0,
            commands_view(final(out)@) == commands_view(old(out)@) + old(self)@.end_tag(
                MdTagEnd::FootnoteDefinition,
                options.html_block_handler,
            ).1,
    {
        self.line.should_start_newline = true;
        self.line.should_end_newline = true;
        self.newline_if_end(out);
    }

    fn end_cell(&mut self, options: &RenderOptions, out: &mut Vec<RenderCommand>)
        ensures
            final(self)@ == old(self)@.end_tag(MdTagEnd::TableCell, options.html_block_handler).0,
            commands_view(final(out)@) == commands_view(old(out)@) + old(self)@.end_tag(
                MdTagEnd::TableCell,
                options.html_block_handler,
            ).1,
    {
        out.push(RenderCommand::CellGap);
        assert(commands_view(out@) =~= commands_view(old(out)@).push(CommandView::CellGap));
    }

    fn end_style(&mut self, tag: MdTagEnd, options: &RenderOptions, out: &mut Vec<RenderCommand>)
        requires
            tag == MdTagEnd::Emphasis || tag == MdTagEnd::Strong || tag == MdTagEnd::Strikethrough,
        ensures
            final(self)@ == old(self)@.end_tag(tag, options.html_block_handler).0,
            commands_view(final(out)@) == commands_view(old(out)@) + old(self)@.end_tag(
                tag,
                options.html_block_handler,
            ).1,
    {
        match tag {
            MdTagEnd::Emphasis => self.text_style.emphasis = false,
            MdTagEnd::Strong => self.text_style.strong = false,
            _ => self.text_style.strikethrough = false,
        }
        assert(commands_view(out@) =~= commands_view(old(out)@) + Seq::empty());
    }

    fn end_link(&mut self, options: &RenderOptions, out: &mut Vec<RenderCommand>)
        ensures
            final(self)@ == old(self)@.end_tag(MdTagEnd::Link, options.html_block_handler).0,
            commands_view(final(out)@) == commands_view(old(out)@) + old(self)@.end_tag(
                MdTagEnd::Link,
                options.html_block_handler,
            ).1,
    {
        if self.link.is_some() {
            let link = self.link.take().unwrap();
            let ghost lv = link@;
            out.push(RenderCommand::Link(link));
            assert(commands_view(out@) =~= commands_view(old(out)@).push(CommandView::Link(lv)));
        } else {
            assert(commands_view(out@) =~= commands_view(old(out)@) + Seq::empty());
        }
    }

    fn end_image(&mut self, options: &RenderOptions, out: &mut Vec<RenderCommand>)
        ensures
            final(self)@ == old(self)@.end_tag(MdTagEnd::Image, options.html_block_handler).0,
            commands_view(final(out)@) == commands_view(old(out)@) + old(self)@.end_tag(
                MdTagEnd::Image,
                options.html_block_handler,
            ).1,
    {
        if self.image.is_some() {
            let image = self.image.take().unwrap();
            let ghost iv = image@;
            out.push(RenderCommand::Image(image));
            assert(commands_view(out@) =~= commands_view(old(out)@).push(CommandView::Image(iv)));
        } else {
            assert(commands_view(out@) =~= commands_view(old(out)@) + Seq::empty());
        }
    }

    fn end_html(&mut self, options: &RenderOptions, out: &mut Vec<RenderCommand>)
        ensures
            final(self)@ == old(self)@.end_tag(MdTagEnd::HtmlBlock, options.html_block_handler).0,
            commands_view(final(out)@) == commands_view(old(out)@) + old(self)@.end_tag(
                MdTagEnd::HtmlBlock,
                options.html_block_handler,
            ).1,
    {
        if options.html_block_handler {
            let html = self.html_block.clone();
            self.html_block = String::new();
            let ghost hv = html@;
            out.push(RenderCommand::Html(html));
            assert(commands_view(out@) =~= commands_view(old(out)@).push(CommandView::Html(hv)));
        } else {
            assert(commands_view(out@) =~= commands_view(old(out)@) + Seq::empty());
        }
    }

    /// What one event does, as `ViewerState::event` says.
    pub fn event(
        &mut self,
        event: MdEvent,
        span: SourceSpan,
        options: &RenderOptions,
        out: &mut Vec<RenderCommand>,
    )
        requires
            old(self)@.accepts(event@),
        ensures
            final(self)@ == old(self)@.event(event@, span, options@).0,
            commands_view(final(out)@) == commands_view(old(out)@) + old(self)@.event(
                event@,
                span,
                options@,
            ).1,
            !options.html_block_handler ==> final(self).html_block@ == old(self).html_block@,
    {
        proof {
            if !options.html_block_handler {
                crate::laws::lemma_html_untouched_without_handler(self@, event@, span, options@);
            }
        }
        reveal(crate::viewer::ViewerState::event);
        match event {
            MdEvent::Start(tag) => self.start_tag(tag, options, out),
            MdEvent::End(tag) => self.end_tag(tag, options, out),
            MdEvent::Text(text) => self.event_text(text, out),
            MdEvent::InlineHtml(text) => self.event_text(text, out),
            MdEvent::Code(text) => self.event_code(text, options, out),
            MdEvent::Html(text) => self.event_html(text, options, out),
            MdEvent::Rule => self.event_rule(span, options, out),
            _ => self.event_leaf(event, span, options, out),
        }
    }

    fn event_code(&mut self, text: String, options: &RenderOptions, out: &mut Vec<RenderCommand>)
        ensures
            final(self)@ == old(self)@.event(MdEvent::Code(text)@, SourceSpan { start: 0, end: 0 }, options@).0,
            commands_view(final(out)@) == commands_view(old(out)@) + old(self)@.event(
                MdEvent::Code(text)@,
                SourceSpan { start: 0, end: 0 },
                options@,
            ).1,
    {
        reveal(crate::viewer::ViewerState::event);
        let ghost tv = text@;
        let ghost coded = crate::viewer::ViewerState {
            text_style: TextStyle { code: true, ..old(self)@.text_style },
            ..old(self)@
        };
        self.text_style.code = true;
        assert(self@ == coded);
        self.event_text(text, out);
        let ghost after = coded.text(tv);
        assert(self@ == after.0);
        self.text_style.code = false;
        assert(old(self)@.event(EventView::Code(tv), SourceSpan { start: 0, end: 0 }, options@) == (
            crate::viewer::ViewerState {
                text_style: TextStyle { code: false, ..after.0.text_style },
                ..after.0
            },
            after.1,
        ));
    }

    fn event_html(&mut self, text: String, options: &RenderOptions, out: &mut Vec<RenderCommand>)
        ensures
            final(self)@ == old(self)@.event(MdEvent::Html(text)@, SourceSpan { start: 0, end: 0 }, options@).0,
            commands_view(final(out)@) == commands_view(old(out)@) + old(self)@.event(
                MdEvent::Html(text)@,
                SourceSpan { start: 0, end: 0 },
                options@,
            ).1,
    {
        reveal(crate::viewer::ViewerState::event);
        if options.html_block_handler {
            self.html_block.append(text.as_str());
            assert(commands_view(out@) =~= commands_view(old(out)@) + Seq::empty());
        } else {
            self.event_text(text, out);
        }
    }

    fn event_rule(&mut self, span: SourceSpan, options: &RenderOptions, out: &mut Vec<RenderCommand>)
        ensures
            final(self)@ == old(self)@.event(EventView::Rule, span, options@).0,
            commands_view(final(out)@) == commands_view(old(out)@) + old(self)@.event(
                EventView::Rule,
                span,
                options@,
            ).1,
    {
        reveal(crate::viewer::ViewerState::event);
        self.newline_if_start(out);
        let ghost out1 = commands_view(out@);
        let end_line = self.line.can_insert_end();
        out.push(RenderCommand::Rule { end_line });
        assert(commands_view(out@) =~= out1.push(CommandView::Rule { end_line }));
        assert(commands_view(out@) =~= commands_view(old(out)@) + old(self)@.event(
            EventView::Rule,
            span,
            options@,
        ).1);
    }

    fn event_leaf(
        &mut self,
        event: MdEvent,
        span: SourceSpan,
        options: &RenderOptions,
        out: &mut Vec<RenderCommand>,
    )
        requires
            event is FootnoteReference || event is SoftBreak || event is HardBreak
                || event is TaskListMarker || event is InlineMath || event is DisplayMath,
        ensures
            final(self)@ == old(self)@.event(event@, span, options@).0,
            commands_view(final(out)@) == commands_view(old(out)@) + old(self)@.event(
                event@,
                span,
                options@,
            ).1,
    {
        reveal(crate::viewer::ViewerState::event);
        let ghost ev = event@;
        let ghost out0 = commands_view(out@);
        match event {
            MdEvent::FootnoteReference(f) => out.push(RenderCommand::FootnoteReference(f)),
            MdEvent::SoftBreak => out.push(RenderCommand::SoftBreak),
            MdEvent::HardBreak => out.push(RenderCommand::Newline),
            MdEvent::TaskListMarker(checked) => out.push(
                RenderCommand::Checkbox { checked, span, mutable: options.mutable },
            ),
            MdEvent::InlineMath(tex) => {
                if options.math_handler {
                    out.push(RenderCommand::Math { tex, inline: true });
                }
            },
            MdEvent::DisplayMath(tex) => {
                if options.math_handler {
                    out.push(RenderCommand::Math { tex, inline: false });
                }
            },
            _ => {},
        }
        assert(commands_view(out@) =~= out0 + old(self)@.event(ev, span, options@).1);
    }
}

} // verus!
