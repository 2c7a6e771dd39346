//! What drawing an element leaves behind and where its text goes: a table
//! leaves the newline switches as it found them, a list that closes leaves
//! the list state fresh for the next one, text met inside an image is its
//! alt text, and the style tags switch their style on.
use vstd::prelude::*;
use crate::events::{EventView, MdTagEnd, SourceSpan, SpannedEvent, TagView};
use crate::flow::{cell_fold, cell_step, row_fold, rows_fold, table_draw_spec, table_spec};
use crate::list::{ListMarker, ListState};
use crate::style::RunView;
use crate::viewer::{CodeBlockView, CommandView, ImageView, LinkView, OptionsView, ViewerState};

verus! {

/// `t` has the element newline switches of `s`: a newline may start and
/// end an element in `t` exactly when it may in `s`.
pub open spec fn same_newline_switches(s: ViewerState, t: ViewerState) -> bool {
    &&& t.line.should_start_newline == s.line.should_start_newline
    &&& t.line.should_end_newline == s.line.should_end_newline
}

/// One event of a table cell leaves the element newline switches as they
/// were before it, whatever the event.
pub proof fn lemma_cell_step_keeps_newlines(s: ViewerState, e: (EventView, SourceSpan), o: OptionsView)
    ensures
        cell_step(s, e, o) matches Some((t, c)) ==> same_newline_switches(s, t),
{
}

/// All the events of a table cell leave the element newline switches as
/// they were.
pub proof fn lemma_cell_fold_keeps_newlines(s: ViewerState, evs: Seq<(EventView, SourceSpan)>, o: OptionsView)
    ensures
        cell_fold(s, evs, o) matches Some((t, c)) ==> same_newline_switches(s, t),
    decreases evs.len(),
{
    if evs.len() > 0 {
        lemma_cell_step_keeps_newlines(s, evs[0], o);
        if let Some((s1, c1)) = cell_step(s, evs[0], o) {
            lemma_cell_fold_keeps_newlines(s1, evs.drop_first(), o);
        }
    }
}

proof fn lemma_row_fold_keeps_newlines(
    s: ViewerState,
    cells: Seq<Seq<(EventView, SourceSpan)>>,
    c: int,
    limit: int,
    o: OptionsView,
)
    ensures
        row_fold(s, cells, c, limit, o) matches Some((t, x)) ==> same_newline_switches(s, t),
    decreases cells.len() - c,
{
    if !(c < 0 || c >= cells.len() || c >= limit) {
        lemma_cell_fold_keeps_newlines(s, cells[c], o);
        if let Some((s1, c1)) = cell_fold(s, cells[c], o) {
            lemma_row_fold_keeps_newlines(s1, cells, c + 1, limit, o);
        }
    }
}

proof fn lemma_rows_fold_keeps_newlines(
    s: ViewerState,
    rows: Seq<Seq<Seq<(EventView, SourceSpan)>>>,
    r: int,
    limit: int,
    o: OptionsView,
)
    ensures
        rows_fold(s, rows, r, limit, o) matches Some((t, x)) ==> same_newline_switches(s, t),
    decreases rows.len() - r,
{
    if !(r < 0 || r >= rows.len()) {
        lemma_row_fold_keeps_newlines(s, rows[r], 0, limit, o);
        if let Some((s1, c1)) = row_fold(s, rows[r], 0, limit, o) {
            lemma_rows_fold_keeps_newlines(s1, rows, r + 1, limit, o);
        }
    }
}

/// Drawing a table, whatever its cells hold, leaves the element newline
/// switches as they were before it, so the element after the table starts
/// and ends on its own line just as it would have without the table.
pub proof fn lemma_table_keeps_newlines(
    s: ViewerState,
    evs: Seq<SpannedEvent>,
    pos: int,
    end: int,
    tail: bool,
    o: OptionsView,
)
    ensures
        table_spec(s, evs, pos, end, tail, o) matches Some((t, c, p)) ==> same_newline_switches(s, t),
{
    reveal(table_spec);
    if 0 <= pos <= end <= evs.len() && s.is_table && s.curr_table != usize::MAX {
        let s1 = ViewerState { curr_table: (s.curr_table + 1) as usize, ..s };
        let (n, th, tr) = crate::flow::table_cells(evs, pos, end);
        let num_cols = crate::flow::column_count(th);
        lemma_row_fold_keeps_newlines(s1, th, 0, num_cols as int, o);
        if let Some((s2, ch)) = row_fold(s1, th, 0, num_cols as int, o) {
            lemma_rows_fold_keeps_newlines(s2, tr, 0, num_cols as int, o);
        }
        assert(table_draw_spec(s1, s.curr_table, th, tr, o) matches Some((s3, c)) ==> same_newline_switches(
            s,
            s3,
        ));
    }
}

/// Closing the outermost list leaves no list open and no item begun: the
/// list state is the one a fresh viewer starts with.
pub proof fn lemma_closing_last_list_resets(s: ViewerState, span: SourceSpan, o: OptionsView)
    requires
        s.list.levels.len() <= 1,
    ensures
        s.event(EventView::End(MdTagEnd::List), span, o).0.list == ListState::empty(),
{
    reveal(ViewerState::event);
}

/// After the outermost list closes, the first item of the next list
/// starts on the same line, as the first item of the first list does: no
/// item of the earlier list carries over.
pub proof fn lemma_next_list_first_item_no_newline(
    s: ViewerState,
    first: Option<u64>,
    span1: SourceSpan,
    span2: SourceSpan,
    span3: SourceSpan,
    o: OptionsView,
)
    requires
        s.list.levels.len() <= 1,
    ensures
        ({
            let s1 = s.event(EventView::End(MdTagEnd::List), span1, o).0;
            let s2 = s1.event(EventView::Start(TagView::List(first)), span2, o).0;
            let c = s2.event(EventView::Start(TagView::Item), span3, o).1;
            c.len() == 1 && (c[0] matches CommandView::ListItem(i) && !i.newline_before && i.indent_levels == 0)
        }),
{
    reveal(ViewerState::event);
    lemma_closing_last_list_resets(s, span1, o);
}

/// While an image is open, text is its alt text, whatever else is open: a
/// run in the current style is added to the alt text, the link and the
/// code block are left as they are, and nothing is drawn.
pub proof fn lemma_text_in_image_is_alt_text(s: ViewerState, t: Seq<char>, span: SourceSpan, o: OptionsView)
    requires
        s.image is Some,
    ensures
        ({
            let (s2, c) = s.event(EventView::Text(t), span, o);
            &&& s2.image == Some(
                ImageView {
                    alt_text: s.image->0.alt_text.push(RunView { text: t, style: s.text_style }),
                    ..s.image->0
                },
            )
            &&& s2.link == s.link
            &&& s2.code_block == s.code_block
            &&& s2.text_style == s.text_style
            &&& c.len() == 0
        }),
{
    reveal(ViewerState::event);
}

/// The start of emphasis, strong text and strikethrough switches that
/// style on and leaves the others as they were.
pub proof fn lemma_style_tags_switch_on(s: ViewerState, span: SourceSpan, o: OptionsView)
    ensures
        ({
            let e = s.event(EventView::Start(TagView::Emphasis), span, o).0.text_style;
            e.emphasis && e.strong == s.text_style.strong && e.strikethrough == s.text_style.strikethrough
        }),
        ({
            let e = s.event(EventView::Start(TagView::Strong), span, o).0.text_style;
            e.strong && e.emphasis == s.text_style.emphasis && e.strikethrough == s.text_style.strikethrough
        }),
        ({
            let e = s.event(EventView::Start(TagView::Strikethrough), span, o).0.text_style;
            e.strikethrough && e.emphasis == s.text_style.emphasis && e.strong == s.text_style.strong
        }),
{
    reveal(ViewerState::event);
}

/// Text right after the start of emphasis, with nothing open that gathers
/// text, is drawn as a label in emphasis.
pub proof fn lemma_emphasized_text_label(s: ViewerState, t: Seq<char>, span1: SourceSpan, span2: SourceSpan, o: OptionsView)
    requires
        s.image is None,
        s.code_block is None,
        s.link is None,
    ensures
        ({
            let s1 = s.event(EventView::Start(TagView::Emphasis), span1, o).0;
            let c = s1.event(EventView::Text(t), span2, o).1;
            c.len() == 1 && (c[0] matches CommandView::Label(run) && run.text == t && run.style.emphasis)
        }),
{
    reveal(ViewerState::event);
}

/// The end of emphasis, strong text and strikethrough switches that style
/// off and leaves the others as they were.
pub proof fn lemma_style_tags_switch_off(s: ViewerState, span: SourceSpan, o: OptionsView)
    ensures
        ({
            let e = s.event(EventView::End(MdTagEnd::Emphasis), span, o).0.text_style;
            !e.emphasis && e.strong == s.text_style.strong && e.strikethrough == s.text_style.strikethrough
        }),
        ({
            let e = s.event(EventView::End(MdTagEnd::Strong), span, o).0.text_style;
            !e.strong && e.emphasis == s.text_style.emphasis && e.strikethrough == s.text_style.strikethrough
        }),
        ({
            let e = s.event(EventView::End(MdTagEnd::Strikethrough), span, o).0.text_style;
            !e.strikethrough && e.emphasis == s.text_style.emphasis && e.strong == s.text_style.strong
        }),
{
    reveal(ViewerState::event);
}

/// With no image open, text inside a code block is added to its content,
/// verbatim, and nothing is drawn, whatever link is open.
pub proof fn lemma_text_in_code_block(s: ViewerState, t: Seq<char>, span: SourceSpan, o: OptionsView)
    requires
        s.image is None,
        s.code_block is Some,
    ensures
        ({
            let (s2, c) = s.event(EventView::Text(t), span, o);
            &&& s2.code_block == Some(
                CodeBlockView { content: s.code_block->0.content + t, ..s.code_block->0 },
            )
            &&& s2.link == s.link
            &&& s2.image == s.image
            &&& c.len() == 0
        }),
{
    reveal(ViewerState::event);
}

/// With no image or code block open, text inside a link is added to the
/// link's text in the current style, and nothing is drawn.
pub proof fn lemma_text_in_link(s: ViewerState, t: Seq<char>, span: SourceSpan, o: OptionsView)
    requires
        s.image is None,
        s.code_block is None,
        s.link is Some,
    ensures
        ({
            let (s2, c) = s.event(EventView::Text(t), span, o);
            &&& s2.link == Some(
                LinkView { text: s.link->0.text.push(RunView { text: t, style: s.text_style }), ..s.link->0 },
            )
            &&& s2.image == s.image
            &&& c.len() == 0
        }),
{
    reveal(ViewerState::event);
}

/// Two items one after the other in an ordered list whose next number is
/// `n`: the first is numbered `n`, the second `n + 1` and starts on a new
/// line; both sit at the indentation of the list's depth.
pub proof fn lemma_ordered_items_count_on(
    s: ViewerState,
    n: u64,
    span1: SourceSpan,
    span2: SourceSpan,
    span3: SourceSpan,
    o: OptionsView,
)
    requires
        s.list.levels.len() > 0,
        s.list.levels.len() <= usize::MAX,
        s.list.levels.last() == Some(n),
        n + 1 < u64::MAX,
    ensures
        ({
            let (s1, c1) = s.event(EventView::Start(TagView::Item), span1, o);
            let s2 = s1.event(EventView::End(MdTagEnd::Item), span2, o).0;
            let c3 = s2.event(EventView::Start(TagView::Item), span3, o).1;
            &&& c1.len() == 1
            &&& c1[0] matches CommandView::ListItem(i) && i.marker == ListMarker::Number(n)
                && i.indent_levels == s.list.levels.len() - 1 && i.newline_before == s.list.begun
            &&& c3.len() == 1
            &&& c3[0] matches CommandView::ListItem(j) && j.marker == ListMarker::Number((n + 1) as u64)
                && j.indent_levels == s.list.levels.len() - 1 && j.newline_before
        }),
{
    reveal(ViewerState::event);
    let s1 = s.event(EventView::Start(TagView::Item), span1, o).0;
    let s2 = s1.event(EventView::End(MdTagEnd::Item), span2, o).0;
    assert(s1.list.levels.len() == s.list.levels.len());
    assert(s1.list.levels.last() == Some((n + 1) as u64));
    assert(s2.list == s1.list);
}

} // verus!
