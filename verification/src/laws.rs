//! Properties that span several events or several calls.
use vstd::prelude::*;
use crate::cell::{walk, walk_start};
use crate::events::{EventView, MdTagEnd, SourceSpan, SpannedEvent, TagView, is_end_of};
use crate::newline::Newline;
use crate::style::{RunView, TextStyle};
use crate::table::row_spec;
use crate::viewer::{newline_start, CodeBlockView, CommandView, LinkView, OptionsView, ViewerState};

verus! {

/// Nothing is drawn on a new line in front of the first widget, while every
/// element may end its line.
pub proof fn lemma_first_widget_no_newline()
    ensures
        !Newline::spec_initial().spec_can_insert_start(),
        Newline::spec_initial().spec_can_insert_end(),
{
}

/// Strong, emphasis and strikethrough are switched off by their end tag:
/// a start tag followed by its end tag leaves the style as it was, when the
/// style was off before.
pub proof fn lemma_style_toggle(s: ViewerState, o: OptionsView, span: SourceSpan)
    ensures
        !s.text_style.strong ==> s.event(EventView::Start(TagView::Strong), span, o).0.event(
            EventView::End(MdTagEnd::Strong),
            span,
            o,
        ).0.text_style == s.text_style,
        !s.text_style.emphasis ==> s.event(EventView::Start(TagView::Emphasis), span, o).0.event(
            EventView::End(MdTagEnd::Emphasis),
            span,
            o,
        ).0.text_style == s.text_style,
        !s.text_style.strikethrough ==> s.event(
            EventView::Start(TagView::Strikethrough),
            span,
            o,
        ).0.event(EventView::End(MdTagEnd::Strikethrough), span, o).0.text_style == s.text_style,
{
    reveal(ViewerState::event);
}

/// A heading shows its level while it is open, and plain size after its end
/// tag.
pub proof fn lemma_heading_level(s: ViewerState, o: OptionsView, span: SourceSpan, level: crate::events::HeadingDepth)
    ensures
        s.event(EventView::Start(TagView::Heading(level)), span, o).0.text_style.heading == Some(
            crate::viewer::heading_index(level),
        ),
        s.event(EventView::Start(TagView::Heading(level)), span, o).0.event(
            EventView::End(MdTagEnd::Heading),
            span,
            o,
        ).0.text_style.heading is None,
{
    reveal(ViewerState::event);
}

/// Inline code is drawn in code style, and the style is plain again after
/// it.
pub proof fn lemma_code_span(s: ViewerState, o: OptionsView, span: SourceSpan, t: Seq<char>)
    requires
        s.image is None,
        s.code_block is None,
        s.link is None,
    ensures
        s.event(EventView::Code(t), span, o).1 == seq![
            CommandView::Label(
                RunView { text: t, style: TextStyle { code: true, ..s.text_style } },
            ),
        ],
        !s.event(EventView::Code(t), span, o).0.text_style.code,
{
    reveal(ViewerState::event);
}

/// The text of a link is gathered while the link is open and drawn as one
/// link when it ends: start, text, end give exactly one link command with
/// the destination and the text.
pub proof fn lemma_link_gathers_text(
    s: ViewerState,
    o: OptionsView,
    span: SourceSpan,
    dest: Seq<char>,
    t: Seq<char>,
)
    requires
        s.image is None,
        s.code_block is None,
    ensures
        ({
            let s1 = s.event(EventView::Start(TagView::Link(dest)), span, o);
            let s2 = s1.0.event(EventView::Text(t), span, o);
            let s3 = s2.0.event(EventView::End(MdTagEnd::Link), span, o);
            &&& s1.1.len() == 0
            &&& s2.1.len() == 0
            &&& s3.1 == seq![
                CommandView::Link(
                    LinkView {
                        destination: dest,
                        text: seq![RunView { text: t, style: s.text_style }],
                    },
                ),
            ]
            &&& s3.0.link is None
        }),
{
    reveal(ViewerState::event);
    let s1 = s.event(EventView::Start(TagView::Link(dest)), span, o);
    let s2 = s1.0.event(EventView::Text(t), span, o);
    assert(s2.0.link == Some(
        LinkView { destination: dest, text: seq![RunView { text: t, style: s.text_style }] },
    )) by {
        assert(Seq::<RunView>::empty().push(RunView { text: t, style: s.text_style }) =~= seq![
            RunView { text: t, style: s.text_style },
        ]);
    }
}

/// Once a task list checkbox is drawn, its click is reported with the
/// source range of its marker and the checkbox can be clicked exactly when
/// the options allow it.
pub proof fn lemma_checkbox(s: ViewerState, o: OptionsView, span: SourceSpan, checked: bool)
    ensures
        s.event(EventView::TaskListMarker(checked), span, o).1 == seq![
            CommandView::Checkbox { checked, span, mutable: o.mutable },
        ],
        s.event(EventView::TaskListMarker(checked), span, o).0 == s,
{
    reveal(ViewerState::event);
}

/// The alt text of an image is not part of a table cell's widgets: an image
/// adds no widget when its cell is measured.
pub proof fn lemma_image_alt_not_measured(dest: Seq<char>, t: Seq<char>, a: SourceSpan, b: SourceSpan, c: SourceSpan)
    ensures
        walk(
            walk_start(),
            seq![
                (EventView::Start(TagView::Image(dest)), a),
                (EventView::Text(t), b),
                (EventView::End(MdTagEnd::Image), c),
            ],
        ).widgets.len() == 0,
{
    let s = seq![
        (EventView::Start(TagView::Image(dest)), a),
        (EventView::Text(t), b),
        (EventView::End(MdTagEnd::Image), c),
    ];
    assert(s.drop_first().drop_first().drop_first() =~= Seq::<(EventView, SourceSpan)>::empty());
    reveal_with_fuel(walk, 4);
}

/// Without a handler for raw HTML, no event changes the gathered HTML.
pub proof fn lemma_html_untouched_without_handler(s: ViewerState, e: EventView, span: SourceSpan, o: OptionsView)
    requires
        !o.html_block_handler,
    ensures
        s.event(e, span, o).0.html_block == s.html_block,
{
    reveal(ViewerState::event);
    match e {
        EventView::Start(tag) => {
            match tag {
                TagView::DefinitionListTitle => {},
                _ => {},
            }
        },
        EventView::End(tag) => {},
        EventView::Code(t) => {},
        _ => {},
    }
}

/// Texts handed to the viewer one after the other, all with the same span
/// and options: the state after them and what they ask to be drawn.
pub open spec fn after_texts(s: ViewerState, ts: Seq<Seq<char>>, span: SourceSpan, o: OptionsView) -> (
    ViewerState,
    Seq<CommandView>,
)
    decreases ts.len(),
{
    if ts.len() == 0 {
        (s, Seq::empty())
    } else {
        let (s1, c1) = s.event(EventView::Text(ts[0]), span, o);
        let (s2, c2) = after_texts(s1, ts.drop_first(), span, o);
        (s2, c1 + c2)
    }
}

/// The texts one after the other.
pub open spec fn concat_texts(ts: Seq<Seq<char>>) -> Seq<char>
    decreases ts.len(),
{
    if ts.len() == 0 {
        Seq::empty()
    } else {
        ts[0] + concat_texts(ts.drop_first())
    }
}

/// Texts handed to an open code block (with no image open) are appended to
/// its content as they are, in order, and nothing is drawn for them.
pub proof fn lemma_code_block_gathers_text(
    s: ViewerState,
    b: CodeBlockView,
    ts: Seq<Seq<char>>,
    span: SourceSpan,
    o: OptionsView,
)
    requires
        s.image is None,
        s.code_block == Some(b),
    ensures
        after_texts(s, ts, span, o) == (
            ViewerState {
                code_block: Some(CodeBlockView { content: b.content + concat_texts(ts), ..b }),
                ..s
            },
            Seq::<CommandView>::empty(),
        ),
    decreases ts.len(),
{
    reveal(ViewerState::event);
    if ts.len() == 0 {
        assert(b.content + concat_texts(ts) =~= b.content);
    } else {
        let b1 = CodeBlockView { content: b.content + ts[0], ..b };
        let s1 = ViewerState { code_block: Some(b1), ..s };
        assert(s.event(EventView::Text(ts[0]), span, o) == (s1, Seq::<CommandView>::empty()));
        lemma_code_block_gathers_text(s1, b1, ts.drop_first(), span, o);
        assert(b1.content + concat_texts(ts.drop_first()) =~= b.content + concat_texts(ts));
        assert(Seq::<CommandView>::empty() + Seq::<CommandView>::empty() =~= Seq::<CommandView>::empty());
    }
}

/// The first title of a definition list starts no new line (the list did),
/// and leaves the list's first title behind.
pub proof fn lemma_first_title_no_newline(s: ViewerState, span: SourceSpan, o: OptionsView)
    ensures
        ({
            let s1 = s.event(EventView::Start(TagView::DefinitionList), span, o).0;
            let (s2, c2) = s1.event(EventView::Start(TagView::DefinitionListTitle), span, o);
            &&& c2.len() == 0
            &&& !s2.def_list.is_first_item
        }),
{
    reveal(ViewerState::event);
}

/// A later title of a definition list starts a new line when one may start
/// there, and changes nothing else.
pub proof fn lemma_later_title_newline(s: ViewerState, span: SourceSpan, o: OptionsView)
    requires
        !s.def_list.is_first_item,
    ensures
        s.event(EventView::Start(TagView::DefinitionListTitle), span, o) == (s, newline_start(s.line)),
{
    reveal(ViewerState::event);
}

/// Only the start of a definition list marks a title as the first one
/// again: any other event leaves that mark off.
pub proof fn lemma_first_title_only_after_list_start(s: ViewerState, e: EventView, span: SourceSpan, o: OptionsView)
    requires
        !s.def_list.is_first_item,
        !(e matches EventView::Start(TagView::DefinitionList)),
    ensures
        !s.event(e, span, o).0.def_list.is_first_item,
{
    reveal(ViewerState::event);
    match e {
        EventView::Start(tag) => {
            match tag {
                TagView::DefinitionListTitle => {},
                _ => {},
            }
        },
        EventView::End(tag) => {},
        EventView::Code(t) => {},
        _ => {},
    }
}

/// Ending a code block a second time changes nothing and draws nothing.
pub proof fn lemma_code_block_end_twice(s: ViewerState, span: SourceSpan, o: OptionsView)
    ensures
        ({
            let s1 = s.event(EventView::End(MdTagEnd::CodeBlock), span, o).0;
            s1.event(EventView::End(MdTagEnd::CodeBlock), span, o) == (s1, Seq::<CommandView>::empty())
        }),
{
    reveal(ViewerState::event);
}

/// The cells a row is split into: every cell after the first begins with
/// the `End(TableCell)` event that closed the cell before it.
pub open spec fn cells_open_with_close(row: Seq<Seq<SpannedEvent>>, col: Seq<SpannedEvent>) -> bool {
    &&& forall|c: int|
        1 <= c < row.len() ==> (#[trigger] row[c]).len() > 0 && is_end_of(
            row[c][0].0,
            MdTagEnd::TableCell,
        )
    &&& row.len() > 0 ==> col.len() > 0 && is_end_of(col[0].0, MdTagEnd::TableCell)
}

/// Every cell of a row after the first begins with the `End(TableCell)`
/// event of the cell before it.
pub proof fn lemma_row_cells_open_with_close(
    s: Seq<SpannedEvent>,
    row: Seq<Seq<SpannedEvent>>,
    col: Seq<SpannedEvent>,
)
    requires
        cells_open_with_close(row, col),
    ensures
        forall|c: int|
            1 <= c < row_spec(s, row, col).0.len() ==> (#[trigger] row_spec(s, row, col).0[c]).len()
                > 0 && is_end_of(row_spec(s, row, col).0[c][0].0, MdTagEnd::TableCell),
    decreases s.len(),
{
    if s.len() == 0 {
        assert(row_spec(s, row, col).0 == row);
    } else {
        let e = s[0].0;
        let closes = is_end_of(e, MdTagEnd::TableCell);
        let row2 = if closes {
            row.push(col)
        } else {
            row
        };
        let col2: Seq<SpannedEvent> = if closes {
            Seq::empty()
        } else {
            col
        };
        if !(is_end_of(e, MdTagEnd::TableHead) || is_end_of(e, MdTagEnd::TableRow)) {
            let col3 = col2.push(s[0]);
            assert(cells_open_with_close(row2, col3)) by {
                if closes {
                    assert forall|c: int| 1 <= c < row2.len() implies (#[trigger] row2[c]).len() > 0
                        && is_end_of(row2[c][0].0, MdTagEnd::TableCell) by {
                        if c < row.len() {
                            assert(row2[c] == row[c]);
                        }
                    }
                    assert(col3[0] == s[0]);
                } else {
                    if row.len() > 0 {
                        assert(col3[0] == col[0]);
                    }
                }
            }
            lemma_row_cells_open_with_close(s.drop_first(), row2, col3);
            assert(row_spec(s, row, col).0 == row_spec(s.drop_first(), row2, col3).0);
        } else {
            assert(row_spec(s, row, col).0 == row2);
            assert forall|c: int| 1 <= c < row2.len() implies (#[trigger] row2[c]).len() > 0
                && is_end_of(row2[c][0].0, MdTagEnd::TableCell) by {
                if closes && c < row.len() {
                    assert(row2[c] == row[c]);
                }
            }
        }
    }
}

} // verus!
