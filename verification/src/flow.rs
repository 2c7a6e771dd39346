//! What drawing a stretch of events does, as a whole: the state it leaves
//! and the commands it asks for, or `None` when it stops on an event that
//! cannot be taken (a list item with no list that can count it, or a table
//! that cannot be counted).
use vstd::prelude::*;
use crate::alert::quote_alert;
use crate::cell::{cell_widgets_spec, trim_cell_spec, WidgetView};
use crate::collect::{prefix_until, stop_at_end, stop_at_item_boundary};
use crate::events::{events_view, is_end_of, EventView, MdTagEnd, SourceSpan, SpannedEvent, TagView};
use crate::key::table_key_spec;
use crate::newline::Newline;
use crate::style::TextStyle;
use crate::table::{row_spec, rows_spec};
use crate::viewer::{
    line_with, newline_end, newline_start, CommandView, DefinitionList, OptionsView, Scope,
    TableLayoutView, ViewerState,
};

verus! {

/// Puts `c` in front of the commands of a result.
pub open spec fn prepend(c: Seq<CommandView>, r: Option<(ViewerState, Seq<CommandView>)>) -> Option<
    (ViewerState, Seq<CommandView>),
> {
    match r {
        Some((s, x)) => Some((s, c + x)),
        None => None,
    }
}

/// Puts `c` in front of the commands of a result that also holds a position.
pub open spec fn prepend3(c: Seq<CommandView>, r: Option<(ViewerState, Seq<CommandView>, int)>) -> Option<
    (ViewerState, Seq<CommandView>, int),
> {
    match r {
        Some((s, x, p)) => Some((s, c + x, p)),
        None => None,
    }
}

/// Events handed to the viewer one after the other.
pub open spec fn fold_events(s: ViewerState, evs: Seq<(EventView, SourceSpan)>, o: OptionsView) -> Option<
    (ViewerState, Seq<CommandView>),
>
    decreases evs.len(),
{
    if evs.len() == 0 {
        Some((s, Seq::empty()))
    } else if !s.accepts(evs[0].0) {
        None
    } else {
        let (s1, c1) = s.event(evs[0].0, evs[0].1, o);
        prepend(c1, fold_events(s1, evs.drop_first(), o))
    }
}

/// Whether an event opens or closes a table cell.
pub open spec fn is_cell_delim_view(e: EventView) -> bool {
    e matches EventView::Start(TagView::TableCell) || e matches EventView::End(MdTagEnd::TableCell)
}

/// One event of a table cell: cell delimiters are skipped, other events are
/// drawn with the element newlines switched off, which are then restored.
pub open spec fn cell_step(s: ViewerState, e: (EventView, SourceSpan), o: OptionsView) -> Option<
    (ViewerState, Seq<CommandView>),
> {
    if is_cell_delim_view(e.0) {
        Some((s, Seq::empty()))
    } else {
        let quiet = ViewerState { line: line_with(s.line, false), ..s };
        if !quiet.accepts(e.0) {
            None
        } else {
            let (s2, c) = quiet.event(e.0, e.1, o);
            Some(
                (
                    ViewerState {
                        line: Newline {
                            should_start_newline: s.line.should_start_newline,
                            should_end_newline: s.line.should_end_newline,
                            ..s2.line
                        },
                        ..s2
                    },
                    c,
                ),
            )
        }
    }
}

/// The events of a table cell, one after the other.
pub open spec fn cell_fold(s: ViewerState, evs: Seq<(EventView, SourceSpan)>, o: OptionsView) -> Option<
    (ViewerState, Seq<CommandView>),
>
    decreases evs.len(),
{
    if evs.len() == 0 {
        Some((s, Seq::empty()))
    } else {
        match cell_step(s, evs[0], o) {
            None => None,
            Some((s1, c1)) => prepend(c1, cell_fold(s1, evs.drop_first(), o)),
        }
    }
}

/// The cells of a row from column `c` on, each in its cell scope, up to
/// `limit` columns.
pub open spec fn row_fold(
    s: ViewerState,
    cells: Seq<Seq<(EventView, SourceSpan)>>,
    c: int,
    limit: int,
    o: OptionsView,
) -> Option<(ViewerState, Seq<CommandView>)>
    decreases cells.len() - c,
{
    if c < 0 || c >= cells.len() || c >= limit {
        Some((s, Seq::empty()))
    } else {
        match cell_fold(s, cells[c], o) {
            None => None,
            Some((s1, c1)) => prepend(
                seq![CommandView::Open(Scope::Cell(c as usize))] + c1 + seq![
                    CommandView::Close(Scope::Cell(c as usize)),
                ],
                row_fold(s1, cells, c + 1, limit, o),
            ),
        }
    }
}

/// The body rows from row `r` on, each in its row scope.
pub open spec fn rows_fold(
    s: ViewerState,
    rows: Seq<Seq<Seq<(EventView, SourceSpan)>>>,
    r: int,
    limit: int,
    o: OptionsView,
) -> Option<(ViewerState, Seq<CommandView>)>
    decreases rows.len() - r,
{
    if r < 0 || r >= rows.len() {
        Some((s, Seq::empty()))
    } else {
        match row_fold(s, rows[r], 0, limit, o) {
            None => None,
            Some((s1, c1)) => prepend(
                seq![CommandView::Open(Scope::BodyRow(r as usize))] + c1 + seq![
                    CommandView::Close(Scope::BodyRow(r as usize)),
                ],
                rows_fold(s1, rows, r + 1, limit, o),
            ),
        }
    }
}

/// The cells of a row with the spaces around their content removed.
pub open spec fn trimmed_row(row: Seq<Seq<(EventView, SourceSpan)>>) -> Seq<Seq<(EventView, SourceSpan)>> {
    row.map_values(|c: Seq<(EventView, SourceSpan)>| trim_cell_spec(c))
}

/// The rows of a table with the spaces around each cell's content removed.
pub open spec fn trimmed_rows(rows: Seq<Seq<Seq<(EventView, SourceSpan)>>>) -> Seq<
    Seq<Seq<(EventView, SourceSpan)>>,
> {
    rows.map_values(|r: Seq<Seq<(EventView, SourceSpan)>>| trimmed_row(r))
}

/// The widgets of the first `limit` cells of a row.
pub open spec fn row_widgets(cells: Seq<Seq<(EventView, SourceSpan)>>, limit: int) -> Seq<
    Seq<WidgetView>,
> {
    cells.take(if cells.len() < limit {
        cells.len() as int
    } else {
        limit
    }).map_values(|c: Seq<(EventView, SourceSpan)>| cell_widgets_spec(c))
}

/// The values of the events of each cell of a row.
pub open spec fn cells_view(row: Seq<Seq<SpannedEvent>>) -> Seq<Seq<(EventView, SourceSpan)>> {
    row.map_values(|c: Seq<SpannedEvent>| events_view(c))
}

/// How many events a table that starts at `pos` spans (up to and including
/// its end), and its header and body rows with the spaces around each
/// cell's content removed.
pub open spec fn table_cells(evs: Seq<SpannedEvent>, pos: int, end: int) -> (
    int,
    Seq<Seq<(EventView, SourceSpan)>>,
    Seq<Seq<Seq<(EventView, SourceSpan)>>>,
) {
    let n = prefix_until(evs.subrange(pos, end), stop_at_end(MdTagEnd::Table)) as int;
    let all = evs.subrange(pos, pos + n);
    let (h, k) = row_spec(all, Seq::empty(), Seq::empty());
    let rows = rows_spec(all.subrange(k as int, all.len() as int));
    (
        n,
        trimmed_row(cells_view(h)),
        trimmed_rows(rows.map_values(|r: Seq<Seq<SpannedEvent>>| cells_view(r))),
    )
}

/// The number of columns of a table: those of its header, and at least one.
pub open spec fn column_count(header: Seq<Seq<(EventView, SourceSpan)>>) -> usize {
    if header.len() > 1 {
        header.len() as usize
    } else {
        1
    }
}

/// What sizing the columns of a table needs: its number, its column count,
/// the widgets of its cells and its content key.
pub open spec fn layout_spec(
    id: usize,
    num_cols: usize,
    th: Seq<Seq<(EventView, SourceSpan)>>,
    tr: Seq<Seq<Seq<(EventView, SourceSpan)>>>,
) -> TableLayoutView {
    TableLayoutView {
        id,
        num_cols,
        header: row_widgets(th, num_cols as int),
        rows: tr.map_values(|r: Seq<Seq<(EventView, SourceSpan)>>| row_widgets(r, num_cols as int)),
        key: table_key_spec(num_cols, th, tr),
    }
}

/// The state after a table: the table done, and the newline at the end of
/// the document switched off when the table ends it.
pub open spec fn table_exit(s: ViewerState, at_end: bool) -> ViewerState {
    let s4 = ViewerState { is_table: false, ..s };
    if at_end {
        ViewerState { line: Newline { should_end_newline_forced: false, ..s4.line }, ..s4 }
    } else {
        s4
    }
}

/// The inside of a table's scope: what sizing its columns needs, the
/// header row, a separator and the body rows.
pub open spec fn table_draw_spec(
    s: ViewerState,
    id: usize,
    th: Seq<Seq<(EventView, SourceSpan)>>,
    tr: Seq<Seq<Seq<(EventView, SourceSpan)>>>,
    o: OptionsView,
) -> Option<(ViewerState, Seq<CommandView>)> {
    let num_cols = column_count(th);
    match row_fold(s, th, 0, num_cols as int, o) {
        None => None,
        Some((s2, ch)) => match rows_fold(s2, tr, 0, num_cols as int, o) {
            None => None,
            Some((s3, cr)) => Some(
                (
                    s3,
                    seq![
                        CommandView::TableInfo(layout_spec(id, num_cols, th, tr)),
                        CommandView::Open(Scope::HeaderRow),
                    ] + ch + seq![CommandView::Close(Scope::HeaderRow), CommandView::Separator]
                        + cr,
                ),
            ),
        },
    }
}

/// A table that starts at `pos`: a newline before it when one may start
/// there, its scope, what sizing its columns needs, the header row, a
/// separator, the body rows, and a newline after it when one may end
/// there. Its cells are trimmed; its events are those up to its end.
/// `tail` says whether `end` is the end of the document: only a table that
/// reaches it switches off the newline at the end of the document.
#[verifier::opaque]
pub open spec fn table_spec(s: ViewerState, evs: Seq<SpannedEvent>, pos: int, end: int, tail: bool, o: OptionsView) -> Option<
    (ViewerState, Seq<CommandView>, int),
> {
    if !(0 <= pos <= end <= evs.len()) {
        None
    } else if !s.is_table {
        Some((s, Seq::empty(), pos))
    } else if s.curr_table == usize::MAX {
        None
    } else {
        let id = s.curr_table;
        let s1 = ViewerState { curr_table: (s.curr_table + 1) as usize, ..s };
        let (n, th, tr) = table_cells(evs, pos, end);
        match table_draw_spec(s1, id, th, tr, o) {
            None => None,
            Some((s3, c)) => {
                let s5 = table_exit(s3, tail && pos + n >= end);
                Some(
                    (
                        s5,
                        newline_start(s.line) + seq![CommandView::Open(Scope::Table(id))] + c
                            + seq![CommandView::Close(Scope::Table(id))] + newline_end(s5.line),
                        pos + n,
                    ),
                )
            },
        }
    }
}

/// The scope a block quote is drawn in: the alert it announces, or a plain
/// quote.
pub open spec fn quote_scope(alert: Option<usize>) -> Scope {
    match alert {
        Some(i) => Scope::Alert(i),
        None => Scope::Quote,
    }
}

/// The state in which the events of a block quote are drawn: the newline
/// before the first widget switched on, and quote style for a plain quote.
pub open spec fn quote_entry(s: ViewerState, alert: Option<usize>) -> ViewerState {
    let s1 = ViewerState { line: Newline { should_not_start_newline_forced: false, ..s.line }, ..s };
    if alert is None {
        ViewerState { text_style: TextStyle { quote: true, ..s1.text_style }, ..s1 }
    } else {
        s1
    }
}

/// The state after a block quote: quote style off after a plain quote, the
/// quote done, and the newline at the end of the document switched off when
/// the quote ends it.
pub open spec fn quote_exit(s: ViewerState, alert: Option<usize>, at_end: bool) -> ViewerState {
    let s3 = if alert is None {
        ViewerState { text_style: TextStyle { quote: false, ..s.text_style }, ..s }
    } else {
        s
    };
    let s4 = if at_end {
        ViewerState { line: Newline { should_end_newline_forced: false, ..s3.line }, ..s3 }
    } else {
        s3
    };
    ViewerState { is_blockquote: false, ..s4 }
}

/// The events of a block quote drawn in its scope: a newline before it
/// when one may start there, the scope of `alert` or of a plain quote, the
/// events, and a newline after it when one may end there.
pub open spec fn quote_draw_spec(
    s: ViewerState,
    body: Seq<SpannedEvent>,
    alert: Option<usize>,
    at_end: bool,
    o: OptionsView,
) -> Option<(ViewerState, Seq<CommandView>)> {
    match fold_events(quote_entry(s, alert), events_view(body), o) {
        None => None,
        Some((s2, c1)) => {
            let s5 = quote_exit(s2, alert, at_end);
            Some(
                (
                    s5,
                    newline_start(s.line) + seq![CommandView::Open(quote_scope(alert))] + c1 + seq![
                        CommandView::Close(quote_scope(alert)),
                    ] + newline_end(s5.line),
                ),
            )
        },
    }
}

/// How many events a block quote that starts at `pos` spans: up to and
/// including its end, or up to `end`.
pub open spec fn quote_len(evs: Seq<SpannedEvent>, pos: int, end: int) -> int {
    prefix_until(evs.subrange(pos, end), stop_at_end(MdTagEnd::BlockQuote)) as int
}

/// The events of a block quote that are drawn: without the marker when it
/// announces an alert.
pub open spec fn quote_body(col: Seq<SpannedEvent>, alert: Option<usize>) -> Seq<SpannedEvent> {
    if alert is Some {
        col.remove(1)
    } else {
        col
    }
}

/// A block quote that starts at `pos`: a newline before it when one may
/// start there, then its events (up to its end) inside its scope, then a
/// newline when one may end there. A quote that announces an alert is drawn
/// in that alert's scope without the marker; another is drawn in quote
/// style. `tail` says whether `end` is the end of the document: only a quote
/// that reaches it switches off the newline at the end of the document.
#[verifier::opaque]
pub open spec fn blockquote_spec(s: ViewerState, evs: Seq<SpannedEvent>, pos: int, end: int, tail: bool, o: OptionsView) -> Option<
    (ViewerState, Seq<CommandView>, int),
> {
    if !(0 <= pos <= end <= evs.len()) {
        None
    } else if !s.is_blockquote {
        Some((s, Seq::empty(), pos))
    } else {
        let n = quote_len(evs, pos, end);
        let col = evs.subrange(pos, pos + n);
        let alert = quote_alert(col, o.alerts);
        match quote_draw_spec(s, quote_body(col, alert), alert, tail && pos + n >= end, o) {
            None => None,
            Some((s5, c)) => Some((s5, c, pos + n)),
        }
    }
}

/// No block quote started: nothing happens.
pub proof fn lemma_quote_idle(s: ViewerState, evs: Seq<SpannedEvent>, pos: int, end: int, tail: bool, o: OptionsView)
    requires
        0 <= pos <= end <= evs.len(),
        !s.is_blockquote,
    ensures
        blockquote_spec(s, evs, pos, end, tail, o) == Some((s, Seq::<CommandView>::empty(), pos)),
{
    reveal(blockquote_spec);
}

/// A block quote that started: its events, found as `quote_len` says,
/// drawn as `quote_draw_spec` says.
pub proof fn lemma_quote_drawn(s: ViewerState, evs: Seq<SpannedEvent>, pos: int, end: int, tail: bool, o: OptionsView)
    requires
        0 <= pos <= end <= evs.len(),
        s.is_blockquote,
    ensures
        ({
            let n = quote_len(evs, pos, end);
            let col = evs.subrange(pos, pos + n);
            let alert = quote_alert(col, o.alerts);
            blockquote_spec(s, evs, pos, end, tail, o) == match quote_draw_spec(
                s,
                quote_body(col, alert),
                alert,
                tail && pos + n >= end,
                o,
            ) {
                None => None,
                Some((s5, c)) => Some((s5, c, pos + n)),
            }
        }),
{
    reveal(blockquote_spec);
}

/// The state in which a definition's first event is drawn: the definition
/// taken up, and no newline before an element.
pub open spec fn def_entry(s: ViewerState) -> ViewerState {
    ViewerState {
        def_list: DefinitionList { is_def_list_def: false, ..s.def_list },
        line: Newline { should_start_newline: false, ..s.line },
        ..s
    }
}

/// The state in which the rest of a definition is drawn: a newline before
/// an element, none after it.
pub open spec fn def_rest_entry(s: ViewerState) -> ViewerState {
    ViewerState {
        line: Newline { should_start_newline: true, should_end_newline: false, ..s.line },
        ..s
    }
}

/// Whether the event at `p` (below `end`) ends a definition list.
pub open spec fn last_in_def_list(evs: Seq<SpannedEvent>, p: int, end: int) -> bool {
    p < end && is_end_of(evs[p].0, MdTagEnd::DefinitionList)
}

/// The end of a definition: its wrapping scope closed, newlines after an
/// element allowed again, and one after the definition unless its list
/// ends right there.
pub open spec fn def_close(s: ViewerState, last_in_list: bool) -> (ViewerState, Seq<CommandView>) {
    let s6 = ViewerState { line: Newline { should_end_newline: true, ..s.line }, ..s };
    (
        s6,
        seq![CommandView::Close(Scope::Wrapped)] + if !last_in_list {
            newline_end(s6.line)
        } else {
            Seq::empty()
        },
    )
}

/// One event at `pos`, then the blocks it opened (definition, list item,
/// table, quote), with their events taken from `pos + 1` on. The result
/// holds the position after the events used. `tail` says whether `end` is
/// the end of the document; the events of a definition or list item reach
/// it only when they end where the range does.
#[verifier::opaque]
pub open spec fn process_spec(s: ViewerState, evs: Seq<SpannedEvent>, pos: int, end: int, tail: bool, o: OptionsView) -> Option<
    (ViewerState, Seq<CommandView>, int),
>
    decreases end - pos, 0int,
{
    if !(0 <= pos < end <= evs.len()) {
        None
    } else if !s.accepts(evs[pos].0@) {
        None
    } else {
        let (s1, c1) = s.event(evs[pos].0@, evs[pos].1, o);
        match def_spec(s1, evs, pos + 1, end, tail, o) {
            None => None,
            Some((s2, c2, p2)) => if !(pos + 1 <= p2 <= end) {
                None
            } else {
                match item_spec(s2, evs, p2, end, tail, o) {
                    None => None,
                    Some((s3, c3, p3)) => if !(p2 <= p3 <= end) {
                        None
                    } else {
                        match table_spec(s3, evs, p3, end, tail, o) {
                            None => None,
                            Some((s4, c4, p4)) => if !(p3 <= p4 <= end) {
                                None
                            } else {
                                match blockquote_spec(s4, evs, p4, end, tail, o) {
                                    None => None,
                                    Some((s5, c5, p5)) => Some((s5, c1 + c2 + c3 + c4 + c5, p5)),
                                }
                            },
                        }
                    },
                }
            },
        }
    }
}

/// The events `sub[q..n]`, each with the blocks it opens.
#[verifier::opaque]
pub open spec fn loop_spec(s: ViewerState, sub: Seq<SpannedEvent>, q: int, n: int, tail: bool, o: OptionsView) -> Option<
    (ViewerState, Seq<CommandView>),
>
    decreases n - q, 1int,
{
    if !(0 <= q <= n <= sub.len()) {
        None
    } else if q == n {
        Some((s, Seq::empty()))
    } else {
        match process_spec(s, sub, q, n, tail, o) {
            None => None,
            Some((s1, c1, q1)) => if !(q < q1 <= n) {
                None
            } else {
                prepend(c1, loop_spec(s1, sub, q1, n, tail, o))
            },
        }
    }
}

/// A definition that starts at `pos`: a newline before it when one may
/// start there, its first event on its own, an indentation, then the rest
/// of its events (up to its end) in a wrapping scope, and a newline after
/// it unless the definition list ends right there.
#[verifier::opaque]
pub open spec fn def_spec(s: ViewerState, evs: Seq<SpannedEvent>, pos: int, end: int, tail: bool, o: OptionsView) -> Option<
    (ViewerState, Seq<CommandView>, int),
>
    decreases end - pos, 2int,
{
    if !(0 <= pos <= end <= evs.len()) {
        None
    } else if !s.def_list.is_def_list_def {
        Some((s, Seq::empty(), pos))
    } else {
        let n = prefix_until(
            evs.subrange(pos, end),
            stop_at_end(MdTagEnd::DefinitionListDefinition),
        ) as int;
        if !(n <= end - pos) {
            None
        } else {
            let sub = evs.subrange(pos, pos + n);
            let s2 = def_entry(s);
            let first = if 0 < n {
                process_spec(s2, sub, 0, n, tail && pos + n >= end, o)
            } else {
                Some((s2, Seq::empty(), 0))
            };
            match first {
                None => None,
                Some((s3, c1, q)) => if !(0 <= q <= n) {
                    None
                } else {
                    match loop_spec(def_rest_entry(s3), sub, q, n, tail && pos + n >= end, o) {
                        None => None,
                        Some((s5, c3)) => {
                            let (s6, c4) = def_close(s5, last_in_def_list(evs, pos + n, end));
                            Some(
                                (
                                    s6,
                                    newline_start(s.line) + c1 + seq![
                                        CommandView::Indent(1),
                                        CommandView::Open(Scope::Wrapped),
                                    ] + c3 + c4,
                                    pos + n,
                                ),
                            )
                        },
                    }
                },
            }
        }
    }
}

/// A list item's content that starts at `pos`: its events up to its end or
/// a nested list, in a wrapping scope.
#[verifier::opaque]
pub open spec fn item_spec(s: ViewerState, evs: Seq<SpannedEvent>, pos: int, end: int, tail: bool, o: OptionsView) -> Option<
    (ViewerState, Seq<CommandView>, int),
>
    decreases end - pos, 2int,
{
    if !(0 <= pos <= end <= evs.len()) {
        None
    } else if !s.is_list_item {
        Some((s, Seq::empty(), pos))
    } else {
        let n = prefix_until(evs.subrange(pos, end), stop_at_item_boundary()) as int;
        if !(n <= end - pos) {
            None
        } else {
            let sub = evs.subrange(pos, pos + n);
            let s1 = ViewerState { is_list_item: false, ..s };
            match loop_spec(s1, sub, 0, n, tail && pos + n >= end, o) {
                None => None,
                Some((s2, c)) => Some(
                    (
                        s2,
                        seq![CommandView::Open(Scope::Wrapped)] + c + seq![
                            CommandView::Close(Scope::Wrapped),
                        ],
                        pos + n,
                    ),
                ),
            }
        }
    }
}

/// `process_spec` unfolded once: its own calls left as they are.
pub open spec fn process_step(s: ViewerState, evs: Seq<SpannedEvent>, pos: int, end: int, tail: bool, o: OptionsView) -> Option<
    (ViewerState, Seq<CommandView>, int),
>
{
    if !(0 <= pos < end <= evs.len()) {
        None
    } else if !s.accepts(evs[pos].0@) {
        None
    } else {
        let (s1, c1) = s.event(evs[pos].0@, evs[pos].1, o);
        match def_spec(s1, evs, pos + 1, end, tail, o) {
            None => None,
            Some((s2, c2, p2)) => if !(pos + 1 <= p2 <= end) {
                None
            } else {
                match item_spec(s2, evs, p2, end, tail, o) {
                    None => None,
                    Some((s3, c3, p3)) => if !(p2 <= p3 <= end) {
                        None
                    } else {
                        match table_spec(s3, evs, p3, end, tail, o) {
                            None => None,
                            Some((s4, c4, p4)) => if !(p3 <= p4 <= end) {
                                None
                            } else {
                                match blockquote_spec(s4, evs, p4, end, tail, o) {
                                    None => None,
                                    Some((s5, c5, p5)) => Some((s5, c1 + c2 + c3 + c4 + c5, p5)),
                                }
                            },
                        }
                    },
                }
            },
        }
    }
}

/// `loop_spec` unfolded once: its own calls left as they are.
pub open spec fn loop_step(s: ViewerState, sub: Seq<SpannedEvent>, q: int, n: int, tail: bool, o: OptionsView) -> Option<
    (ViewerState, Seq<CommandView>),
>
{
    if !(0 <= q <= n <= sub.len()) {
        None
    } else if q == n {
        Some((s, Seq::empty()))
    } else {
        match process_spec(s, sub, q, n, tail, o) {
            None => None,
            Some((s1, c1, q1)) => if !(q < q1 <= n) {
                None
            } else {
                prepend(c1, loop_spec(s1, sub, q1, n, tail, o))
            },
        }
    }
}

/// `def_spec` unfolded once: its own calls left as they are.
pub open spec fn def_step(s: ViewerState, evs: Seq<SpannedEvent>, pos: int, end: int, tail: bool, o: OptionsView) -> Option<
    (ViewerState, Seq<CommandView>, int),
>
{
    if !(0 <= pos <= end <= evs.len()) {
        None
    } else if !s.def_list.is_def_list_def {
        Some((s, Seq::empty(), pos))
    } else {
        let n = prefix_until(
            evs.subrange(pos, end),
            stop_at_end(MdTagEnd::DefinitionListDefinition),
        ) as int;
        if !(n <= end - pos) {
            None
        } else {
            let sub = evs.subrange(pos, pos + n);
            let s2 = def_entry(s);
            let first = if 0 < n {
                process_spec(s2, sub, 0, n, tail && pos + n >= end, o)
            } else {
                Some((s2, Seq::empty(), 0))
            };
            match first {
                None => None,
                Some((s3, c1, q)) => if !(0 <= q <= n) {
                    None
                } else {
                    match loop_spec(def_rest_entry(s3), sub, q, n, tail && pos + n >= end, o) {
                        None => None,
                        Some((s5, c3)) => {
                            let (s6, c4) = def_close(s5, last_in_def_list(evs, pos + n, end));
                            Some(
                                (
                                    s6,
                                    newline_start(s.line) + c1 + seq![
                                        CommandView::Indent(1),
                                        CommandView::Open(Scope::Wrapped),
                                    ] + c3 + c4,
                                    pos + n,
                                ),
                            )
                        },
                    }
                },
            }
        }
    }
}

/// `item_spec` unfolded once: its own calls left as they are.
pub open spec fn item_step(s: ViewerState, evs: Seq<SpannedEvent>, pos: int, end: int, tail: bool, o: OptionsView) -> Option<
    (ViewerState, Seq<CommandView>, int),
>
{
    if !(0 <= pos <= end <= evs.len()) {
        None
    } else if !s.is_list_item {
        Some((s, Seq::empty(), pos))
    } else {
        let n = prefix_until(evs.subrange(pos, end), stop_at_item_boundary()) as int;
        if !(n <= end - pos) {
            None
        } else {
            let sub = evs.subrange(pos, pos + n);
            let s1 = ViewerState { is_list_item: false, ..s };
            match loop_spec(s1, sub, 0, n, tail && pos + n >= end, o) {
                None => None,
                Some((s2, c)) => Some(
                    (
                        s2,
                        seq![CommandView::Open(Scope::Wrapped)] + c + seq![
                            CommandView::Close(Scope::Wrapped),
                        ],
                        pos + n,
                    ),
                ),
            }
        }
    }
}

/// Unfolds `process_spec` once.
pub proof fn lemma_process_unfold(s: ViewerState, evs: Seq<SpannedEvent>, pos: int, end: int, tail: bool, o: OptionsView)
    ensures
        process_spec(s, evs, pos, end, tail, o) == process_step(s, evs, pos, end, tail, o),
{
    reveal(process_spec);
    reveal(def_spec);
    reveal(item_spec);
    reveal(loop_spec);
}

/// Unfolds `loop_spec` once.
pub proof fn lemma_loop_unfold(s: ViewerState, sub: Seq<SpannedEvent>, q: int, n: int, tail: bool, o: OptionsView)
    ensures
        loop_spec(s, sub, q, n, tail, o) == loop_step(s, sub, q, n, tail, o),
{
    reveal(process_spec);
    reveal(def_spec);
    reveal(item_spec);
    reveal(loop_spec);
}

/// Unfolds `def_spec` once.
#[verifier::rlimit(30)]
pub proof fn lemma_def_unfold(s: ViewerState, evs: Seq<SpannedEvent>, pos: int, end: int, tail: bool, o: OptionsView)
    ensures
        def_spec(s, evs, pos, end, tail, o) == def_step(s, evs, pos, end, tail, o),
{
    reveal(process_spec);
    reveal(def_spec);
    reveal(loop_spec);
}

/// How many events a definition that starts at `pos` spans: up to and
/// including its end, or up to `end`.
pub open spec fn def_len(evs: Seq<SpannedEvent>, pos: int, end: int) -> int {
    prefix_until(evs.subrange(pos, end), stop_at_end(MdTagEnd::DefinitionListDefinition)) as int
}

/// A definition's first event on its own, when it has one.
pub open spec fn def_first(s2: ViewerState, sub: Seq<SpannedEvent>, n: int, tail: bool, o: OptionsView) -> Option<
    (ViewerState, Seq<CommandView>, int),
> {
    if 0 < n {
        process_spec(s2, sub, 0, n, tail, o)
    } else {
        Some((s2, Seq::empty(), 0))
    }
}

/// No definition started: nothing happens.
pub proof fn lemma_def_idle(s: ViewerState, evs: Seq<SpannedEvent>, pos: int, end: int, tail: bool, o: OptionsView)
    requires
        0 <= pos <= end <= evs.len(),
        !s.def_list.is_def_list_def,
    ensures
        def_spec(s, evs, pos, end, tail, o) == Some((s, Seq::<CommandView>::empty(), pos)),
{
    lemma_def_unfold(s, evs, pos, end, tail, o);
}

/// A definition whose first event cannot be drawn cannot be drawn.
pub proof fn lemma_def_first_fails(s: ViewerState, evs: Seq<SpannedEvent>, pos: int, end: int, tail: bool, o: OptionsView)
    requires
        0 <= pos <= end <= evs.len(),
        s.def_list.is_def_list_def,
        def_len(evs, pos, end) <= end - pos,
        def_first(def_entry(s), evs.subrange(pos, pos + def_len(evs, pos, end)), def_len(evs, pos, end), tail && pos + def_len(evs, pos, end) >= end, o) is None,
    ensures
        def_spec(s, evs, pos, end, tail, o) is None,
{
    lemma_def_unfold(s, evs, pos, end, tail, o);
}

/// A definition whose other events cannot be drawn cannot be drawn.
pub proof fn lemma_def_rest_fails(
    s: ViewerState,
    evs: Seq<SpannedEvent>,
    pos: int,
    end: int, tail: bool,
    o: OptionsView,
    s3: ViewerState,
    c1: Seq<CommandView>,
    q: int,
)
    requires
        0 <= pos <= end <= evs.len(),
        s.def_list.is_def_list_def,
        def_len(evs, pos, end) <= end - pos,
        def_first(def_entry(s), evs.subrange(pos, pos + def_len(evs, pos, end)), def_len(evs, pos, end), tail && pos + def_len(evs, pos, end) >= end, o)
            == Some((s3, c1, q)),
        0 <= q <= def_len(evs, pos, end),
        loop_spec(def_rest_entry(s3), evs.subrange(pos, pos + def_len(evs, pos, end)), q, def_len(evs, pos, end), tail && pos + def_len(evs, pos, end) >= end, o) is None,
    ensures
        def_spec(s, evs, pos, end, tail, o) is None,
{
    lemma_def_unfold(s, evs, pos, end, tail, o);
}

/// A definition drawn: its first event, an indentation, the other events in
/// a wrapping scope, and its end.
pub proof fn lemma_def_done(
    s: ViewerState,
    evs: Seq<SpannedEvent>,
    pos: int,
    end: int, tail: bool,
    o: OptionsView,
    s3: ViewerState,
    c1: Seq<CommandView>,
    q: int,
    s5: ViewerState,
    c3: Seq<CommandView>,
)
    requires
        0 <= pos <= end <= evs.len(),
        s.def_list.is_def_list_def,
        def_len(evs, pos, end) <= end - pos,
        def_first(def_entry(s), evs.subrange(pos, pos + def_len(evs, pos, end)), def_len(evs, pos, end), tail && pos + def_len(evs, pos, end) >= end, o)
            == Some((s3, c1, q)),
        0 <= q <= def_len(evs, pos, end),
        loop_spec(def_rest_entry(s3), evs.subrange(pos, pos + def_len(evs, pos, end)), q, def_len(evs, pos, end), tail && pos + def_len(evs, pos, end) >= end, o)
            == Some((s5, c3)),
    ensures
        def_spec(s, evs, pos, end, tail, o) == Some(
            (
                def_close(s5, last_in_def_list(evs, pos + def_len(evs, pos, end), end)).0,
                newline_start(s.line) + c1 + seq![
                    CommandView::Indent(1),
                    CommandView::Open(Scope::Wrapped),
                ] + c3 + def_close(s5, last_in_def_list(evs, pos + def_len(evs, pos, end), end)).1,
                pos + def_len(evs, pos, end),
            ),
        ),
{
    lemma_def_unfold(s, evs, pos, end, tail, o);
}

/// Unfolds `item_spec` once.
pub proof fn lemma_item_unfold(s: ViewerState, evs: Seq<SpannedEvent>, pos: int, end: int, tail: bool, o: OptionsView)
    ensures
        item_spec(s, evs, pos, end, tail, o) == item_step(s, evs, pos, end, tail, o),
{
    reveal(process_spec);
    reveal(def_spec);
    reveal(item_spec);
    reveal(loop_spec);
}

/// The state in which the event at `p` of a document is drawn: before the
/// last event, the newline at the end of the document switched off.
pub open spec fn show_entry(s: ViewerState, p: int, end: int) -> ViewerState {
    if p + 1 >= end {
        ViewerState { line: Newline { should_end_newline_forced: false, ..s.line }, ..s }
    } else {
        s
    }
}

/// The state after the event at `p` of a document: after the event with
/// index 0, the newline before the first widget switched on.
pub open spec fn show_exit(s: ViewerState, p: int) -> ViewerState {
    if p == 0 {
        ViewerState { line: Newline { should_not_start_newline_forced: false, ..s.line }, ..s }
    } else {
        s
    }
}

/// The mark of where the drawing of the event at `p` starts, when marks
/// are recorded.
pub open spec fn start_mark(record: bool, p: int) -> Seq<CommandView> {
    if record {
        seq![CommandView::EventStart(p as usize)]
    } else {
        Seq::empty()
    }
}

/// The split point after the event at `p`, when marks are recorded and it
/// is an end tag met inside a list (in state `s`, before it was drawn).
pub open spec fn split_mark(record: bool, s: ViewerState, evs: Seq<SpannedEvent>, p: int) -> Seq<CommandView> {
    if record && s.list.levels.len() > 0 && evs[p].0 is End {
        seq![CommandView::SplitPoint(p as usize)]
    } else {
        Seq::empty()
    }
}

/// The event at `p` of a document drawn with the block it opens, and the
/// marks around it: the state after it, its commands, and the position
/// after the events used.
pub open spec fn show_event_spec(
    s: ViewerState,
    evs: Seq<SpannedEvent>,
    p: int,
    end: int,
    record: bool,
    o: OptionsView,
) -> Option<(ViewerState, Seq<CommandView>, int)> {
    match process_spec(show_entry(s, p, end), evs, p, end, true, o) {
        None => None,
        Some((s2, c1, q)) => Some(
            (show_exit(s2, p), start_mark(record, p) + c1 + split_mark(record, s, evs, p), q),
        ),
    }
}

/// The events `evs[p..end]` of a document drawn one after the other: before
/// each one its start is marked when `record` holds; before the last one the
/// newline at the end of the document is switched off; after it, an end tag
/// met inside a list is marked as a split point when `record` holds; after
/// the event with index 0 the newline before the first widget is switched
/// on.
#[verifier::opaque]
pub open spec fn show_spec(
    s: ViewerState,
    evs: Seq<SpannedEvent>,
    p: int,
    end: int,
    record: bool,
    o: OptionsView,
) -> Option<(ViewerState, Seq<CommandView>)>
    decreases end - p,
{
    if !(0 <= p <= end <= evs.len()) {
        None
    } else if p == end {
        Some((s, Seq::empty()))
    } else {
        match show_event_spec(s, evs, p, end, record, o) {
            None => None,
            Some((s3, c, q)) => if !(p < q <= end) {
                None
            } else {
                prepend(c, show_spec(s3, evs, q, end, record, o))
            },
        }
    }
}

/// Nothing left to draw: nothing happens.
pub proof fn lemma_show_done(s: ViewerState, evs: Seq<SpannedEvent>, end: int, record: bool, o: OptionsView)
    requires
        0 <= end <= evs.len(),
    ensures
        show_spec(s, evs, end, end, record, o) == Some((s, Seq::<CommandView>::empty())),
{
    reveal(show_spec);
}

/// Drawing a document from `p` on is drawing the event at `p`, then the
/// rest; it cannot be done when the event at `p` cannot be drawn.
pub proof fn lemma_show_step(s: ViewerState, evs: Seq<SpannedEvent>, p: int, end: int, record: bool, o: OptionsView)
    requires
        0 <= p < end <= evs.len(),
    ensures
        show_event_spec(s, evs, p, end, record, o) is None ==> show_spec(s, evs, p, end, record, o) is None,
        show_event_spec(s, evs, p, end, record, o) matches Some((s3, c, q)) ==> (p < q <= end ==> show_spec(
            s,
            evs,
            p,
            end,
            record,
            o,
        ) == prepend(c, show_spec(s3, evs, q, end, record, o))),
{
    reveal(show_spec);
}

/// What was put in front of a result can be taken off again.
pub proof fn lemma_prepend_split(
    a: Seq<CommandView>,
    r: Option<(ViewerState, Seq<CommandView>)>,
    s: ViewerState,
    b: Seq<CommandView>,
)
    requires
        prepend(a, r) == Some((s, b)),
    ensures
        a.len() <= b.len(),
        r == Some((s, b.subrange(a.len() as int, b.len() as int))),
{
    let (s1, c) = r.unwrap();
    assert(b == a + c);
    assert(c =~= b.subrange(a.len() as int, b.len() as int));
}

/// What was put in front of a result that holds a position can be taken
/// off again.
pub proof fn lemma_prepend3_split(
    a: Seq<CommandView>,
    r: Option<(ViewerState, Seq<CommandView>, int)>,
    s: ViewerState,
    b: Seq<CommandView>,
    p: int,
)
    requires
        prepend3(a, r) == Some((s, b, p)),
    ensures
        a.len() <= b.len(),
        r == Some((s, b.subrange(a.len() as int, b.len() as int), p)),
{
    let (s1, c, p1) = r.unwrap();
    assert(b == a + c);
    assert(c =~= b.subrange(a.len() as int, b.len() as int));
}

/// Putting two sequences of commands in front, one after the other, is
/// putting their concatenation in front.
pub proof fn lemma_prepend_assoc(
    a: Seq<CommandView>,
    b: Seq<CommandView>,
    x: Option<(ViewerState, Seq<CommandView>)>,
)
    ensures
        prepend(a, prepend(b, x)) == prepend(a + b, x),
{
    if let Some((s, y)) = x {
        assert(a + (b + y) =~= (a + b) + y);
    }
}

/// Putting nothing in front changes nothing.
pub proof fn lemma_prepend_empty(x: Option<(ViewerState, Seq<CommandView>)>)
    ensures
        prepend(Seq::empty(), x) == x,
{
    if let Some((s, y)) = x {
        assert(Seq::<CommandView>::empty() + y =~= y);
    }
}

} // verus!
