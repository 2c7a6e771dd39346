//! Elements that wait for their events are drawn before an event's turn
//! ends: after an event with the blocks it opens, no list item, table,
//! quote or definition is left pending, as long as the tables met start
//! none of these inside them and the quotes no list item, table or
//! definition.
use vstd::prelude::*;
use crate::cell::{same_shape, text_of, trim_cell_spec, lemma_trim_keeps_shape};
use crate::collect::{prefix_until, stop_at_end, stop_at_item_boundary};
use crate::events::{events_view, EventView, MdEvent, MdTagEnd, SourceSpan, SpannedEvent, TagView};
use crate::flow::{
    blockquote_spec, cell_fold, cell_step, cells_view, column_count, def_spec, fold_events, item_spec,
    lemma_def_unfold, lemma_item_unfold, lemma_loop_unfold, lemma_process_unfold, lemma_quote_drawn,
    lemma_quote_idle, loop_spec, process_spec, quote_body, quote_draw_spec, quote_entry, quote_exit,
    quote_len, row_fold, rows_fold, table_cells, table_spec, trimmed_row, trimmed_rows,
};
use crate::table::{lemma_row_consumes, row_spec, rows_spec};
use crate::viewer::{OptionsView, ViewerState};

verus! {

/// No element is waiting for its events: no list item, table, quote or
/// definition has been started and not yet drawn.
pub open spec fn no_blocks_pending(s: ViewerState) -> bool {
    !s.is_list_item && !s.is_table && !s.is_blockquote && !s.def_list.is_def_list_def
}

/// At most one element is waiting for its events.
pub open spec fn one_block_pending(s: ViewerState) -> bool {
    (s.is_list_item as int) + (s.is_table as int) + (s.is_blockquote as int) + (s.def_list.is_def_list_def as int) <= 1
}

/// The same elements are waiting in `s` and `t`.
pub open spec fn same_pending(s: ViewerState, t: ViewerState) -> bool {
    &&& t.is_list_item == s.is_list_item
    &&& t.is_table == s.is_table
    &&& t.is_blockquote == s.is_blockquote
    &&& t.def_list.is_def_list_def == s.def_list.is_def_list_def
}

/// Whether an event starts an element that waits for its events.
pub open spec fn opens_pending(e: EventView) -> bool {
    ||| e matches EventView::Start(TagView::Item)
    ||| e matches EventView::Start(TagView::DefinitionListDefinition)
    ||| e matches EventView::Start(TagView::Table)
    ||| e matches EventView::Start(TagView::BlockQuote)
}

/// Whether an event starts a list item, a definition or a table: an
/// element that a block quote drawn around it would leave waiting.
pub open spec fn opens_waiting(e: EventView) -> bool {
    ||| e matches EventView::Start(TagView::Item)
    ||| e matches EventView::Start(TagView::DefinitionListDefinition)
    ||| e matches EventView::Start(TagView::Table)
}

/// Whether event `e`, met among the own events of the table or quote that
/// `b` starts, would leave an element waiting: in a table, any element that
/// waits for its events; in a quote, a list item, definition or table (a
/// quote inside it is settled when the outer one is drawn).
pub open spec fn opens_within(b: EventView, e: EventView) -> bool {
    if b matches EventView::Start(TagView::Table) {
        opens_pending(e)
    } else {
        opens_waiting(e)
    }
}

/// The same list item, table and definition are waiting in `s` and `t`.
pub open spec fn same_waiting(s: ViewerState, t: ViewerState) -> bool {
    &&& t.is_list_item == s.is_list_item
    &&& t.is_table == s.is_table
    &&& t.def_list.is_def_list_def == s.def_list.is_def_list_def
}

/// Whether an event starts a table or a block quote, whose events are
/// drawn one by one.
pub open spec fn opens_drawn_block(e: EventView) -> bool {
    e matches EventView::Start(TagView::Table) || e matches EventView::Start(TagView::BlockQuote)
}

/// How many events after position `i` belong to the table or quote started
/// there: up to and including its end, or up to `end`.
pub open spec fn block_len(evs: Seq<SpannedEvent>, i: int, end: int) -> int {
    if evs[i].0@ matches EventView::Start(TagView::Table) {
        prefix_until(evs.subrange(i + 1, end), stop_at_end(MdTagEnd::Table)) as int
    } else {
        quote_len(evs, i + 1, end)
    }
}

/// Whether event `j` belongs to the table or quote started at `i`.
pub open spec fn inside_block(evs: Seq<SpannedEvent>, i: int, j: int, end: int) -> bool {
    opens_drawn_block(evs[i].0@) && i + 1 <= j < i + 1 + block_len(evs, i, end)
}

/// The tables that start in `evs[pos..end]` start no element that waits
/// for its events among their own events, and the quotes that start there
/// start no list item, definition or table among theirs.
pub open spec fn blocks_plain(evs: Seq<SpannedEvent>, pos: int, end: int) -> bool {
    forall|i: int, j: int|
        pos <= i < end && #[trigger] inside_block(evs, i, j, end) ==> !opens_within(evs[i].0@, #[trigger] evs[j].0@)
}

/// No event of `s` starts a list item, definition or table.
pub open spec fn views_quote_plain(s: Seq<(EventView, SourceSpan)>) -> bool {
    forall|k: int| 0 <= k < s.len() ==> !opens_waiting(#[trigger] s[k].0)
}

/// No event of `s` starts a list item, definition or table.
pub open spec fn events_quote_plain(s: Seq<SpannedEvent>) -> bool {
    forall|k: int| 0 <= k < s.len() ==> !opens_waiting(#[trigger] s[k].0@)
}

/// No event of `s` starts an element that waits for its events.
pub open spec fn events_plain(s: Seq<SpannedEvent>) -> bool {
    forall|k: int| 0 <= k < s.len() ==> !opens_pending(#[trigger] s[k].0@)
}

/// No event of `s` starts an element that waits for its events.
pub open spec fn views_plain(s: Seq<(EventView, SourceSpan)>) -> bool {
    forall|k: int| 0 <= k < s.len() ==> !opens_pending(#[trigger] s[k].0)
}

proof fn lemma_prefix_until_le(s: Seq<SpannedEvent>, stop: spec_fn(MdEvent) -> bool)
    ensures
        prefix_until(s, stop) <= s.len(),
    decreases s.len(),
{
    if s.len() > 0 {
        lemma_prefix_until_le(s.drop_first(), stop);
    }
}

proof fn lemma_prefix_until_prefix(s: Seq<SpannedEvent>, k: int, stop: spec_fn(MdEvent) -> bool)
    requires
        0 <= k <= s.len(),
    ensures
        prefix_until(s.subrange(0, k), stop) <= prefix_until(s, stop),
    decreases s.len(),
{
    if k > 0 {
        assert(s.subrange(0, k)[0] == s[0]);
        assert(s.subrange(0, k).drop_first() =~= s.drop_first().subrange(0, k - 1));
        lemma_prefix_until_prefix(s.drop_first(), k - 1, stop);
    }
}

/// The condition carries over to the events of a definition or list item.
proof fn lemma_blocks_plain_sub(evs: Seq<SpannedEvent>, pos: int, end: int, n: int)
    requires
        blocks_plain(evs, pos, end),
        0 <= pos,
        0 <= n <= end - pos,
        end <= evs.len(),
    ensures
        blocks_plain(evs.subrange(pos, pos + n), 0, n),
{
    let sub = evs.subrange(pos, pos + n);
    assert forall|i: int, j: int| 0 <= i < n && #[trigger] inside_block(sub, i, j, n) implies !opens_within(
        sub[i].0@,
        #[trigger] sub[j].0@,
    ) by {
        assert(sub[i] == evs[pos + i]);
        let a = sub.subrange(i + 1, n);
        let b = evs.subrange(pos + i + 1, end);
        assert(a =~= b.subrange(0, n - i - 1));
        if evs[pos + i].0@ matches EventView::Start(TagView::Table) {
            lemma_prefix_until_le(a, stop_at_end(MdTagEnd::Table));
            lemma_prefix_until_prefix(b, n - i - 1, stop_at_end(MdTagEnd::Table));
        } else {
            lemma_prefix_until_le(a, stop_at_end(MdTagEnd::BlockQuote));
            lemma_prefix_until_prefix(b, n - i - 1, stop_at_end(MdTagEnd::BlockQuote));
        }
        assert(j < n);
        assert(sub[j] == evs[pos + j]);
        assert(inside_block(evs, pos + i, pos + j, end));
    }
}

/// An event that starts no waiting element keeps the waiting elements as
/// they are.
proof fn lemma_event_same_pending(s: ViewerState, e: EventView, span: SourceSpan, o: OptionsView)
    requires
        !opens_pending(e),
    ensures
        same_pending(s, s.event(e, span, o).0),
{
    reveal(ViewerState::event);
    match e {
        EventView::Start(tag) => {
            match tag {
                TagView::DefinitionListTitle => {},
                _ => {},
            }
        },
        EventView::End(tag) => {},
        EventView::Code(t) => {},
        _ => {},
    }
}

/// An event that starts no list item, definition or table keeps those
/// waiting as they are.
proof fn lemma_event_same_waiting(s: ViewerState, e: EventView, span: SourceSpan, o: OptionsView)
    requires
        !opens_waiting(e),
    ensures
        same_waiting(s, s.event(e, span, o).0),
{
    reveal(ViewerState::event);
    match e {
        EventView::Start(tag) => {
            match tag {
                TagView::DefinitionListTitle => {},
                _ => {},
            }
        },
        EventView::End(tag) => {},
        EventView::Code(t) => {},
        _ => {},
    }
}

proof fn lemma_fold_same_waiting(s: ViewerState, evs: Seq<(EventView, SourceSpan)>, o: OptionsView)
    requires
        views_quote_plain(evs),
    ensures
        fold_events(s, evs, o) matches Some((t, c)) ==> same_waiting(s, t),
    decreases evs.len(),
{
    if evs.len() > 0 && s.accepts(evs[0].0) {
        lemma_event_same_waiting(s, evs[0].0, evs[0].1, o);
        assert(views_quote_plain(evs.drop_first())) by {
            assert forall|k: int| 0 <= k < evs.drop_first().len() implies !opens_waiting(
                #[trigger] evs.drop_first()[k].0,
            ) by {
                assert(evs.drop_first()[k] == evs[k + 1]);
            }
        }
        lemma_fold_same_waiting(s.event(evs[0].0, evs[0].1, o).0, evs.drop_first(), o);
    }
}

/// An event handed over while nothing waits leaves at most one element
/// waiting.
proof fn lemma_event_one_pending(s: ViewerState, e: EventView, span: SourceSpan, o: OptionsView)
    requires
        no_blocks_pending(s),
    ensures
        one_block_pending(s.event(e, span, o).0),
        s.event(e, span, o).0.is_table ==> e matches EventView::Start(TagView::Table),
        s.event(e, span, o).0.is_blockquote ==> e matches EventView::Start(TagView::BlockQuote),
{
    reveal(ViewerState::event);
    match e {
        EventView::Start(tag) => {
            match tag {
                TagView::DefinitionListTitle => {},
                _ => {},
            }
        },
        EventView::End(tag) => {},
        EventView::Code(t) => {},
        _ => {},
    }
}

proof fn lemma_cell_fold_same_pending(s: ViewerState, evs: Seq<(EventView, SourceSpan)>, o: OptionsView)
    requires
        views_plain(evs),
    ensures
        cell_fold(s, evs, o) matches Some((t, c)) ==> same_pending(s, t),
    decreases evs.len(),
{
    if evs.len() > 0 {
        let quiet = ViewerState { line: crate::viewer::line_with(s.line, false), ..s };
        lemma_event_same_pending(quiet, evs[0].0, evs[0].1, o);
        assert(views_plain(evs.drop_first())) by {
            assert forall|k: int| 0 <= k < evs.drop_first().len() implies !opens_pending(
                #[trigger] evs.drop_first()[k].0,
            ) by {
                assert(evs.drop_first()[k] == evs[k + 1]);
            }
        }
        if let Some((s1, c1)) = cell_step(s, evs[0], o) {
            lemma_cell_fold_same_pending(s1, evs.drop_first(), o);
        }
    }
}

/// Every cell of `cells` starts no waiting element.
pub open spec fn cells_plain(cells: Seq<Seq<(EventView, SourceSpan)>>) -> bool {
    forall|c: int| 0 <= c < cells.len() ==> views_plain(#[trigger] cells[c])
}

proof fn lemma_row_fold_same_pending(
    s: ViewerState,
    cells: Seq<Seq<(EventView, SourceSpan)>>,
    c: int,
    limit: int,
    o: OptionsView,
)
    requires
        cells_plain(cells),
    ensures
        row_fold(s, cells, c, limit, o) matches Some((t, x)) ==> same_pending(s, t),
    decreases cells.len() - c,
{
    if !(c < 0 || c >= cells.len() || c >= limit) {
        lemma_cell_fold_same_pending(s, cells[c], o);
        if let Some((s1, c1)) = cell_fold(s, cells[c], o) {
            lemma_row_fold_same_pending(s1, cells, c + 1, limit, o);
        }
    }
}

proof fn lemma_rows_fold_same_pending(
    s: ViewerState,
    rows: Seq<Seq<Seq<(EventView, SourceSpan)>>>,
    r: int,
    limit: int,
    o: OptionsView,
)
    requires
        forall|k: int| 0 <= k < rows.len() ==> cells_plain(#[trigger] rows[k]),
    ensures
        rows_fold(s, rows, r, limit, o) matches Some((t, x)) ==> same_pending(s, t),
    decreases rows.len() - r,
{
    if !(r < 0 || r >= rows.len()) {
        lemma_row_fold_same_pending(s, rows[r], 0, limit, o);
        if let Some((s1, c1)) = row_fold(s, rows[r], 0, limit, o) {
            lemma_rows_fold_same_pending(s1, rows, r + 1, limit, o);
        }
    }
}

/// Every cell of `cells` starts no waiting element.
pub open spec fn raw_cells_plain(cells: Seq<Seq<SpannedEvent>>) -> bool {
    forall|c: int| 0 <= c < cells.len() ==> events_plain(#[trigger] cells[c])
}

proof fn lemma_row_spec_plain(s: Seq<SpannedEvent>, row: Seq<Seq<SpannedEvent>>, col: Seq<SpannedEvent>)
    requires
        events_plain(s),
        raw_cells_plain(row),
        events_plain(col),
    ensures
        raw_cells_plain(row_spec(s, row, col).0),
    decreases s.len(),
{
    if s.len() > 0 {
        let e = s[0].0;
        let closes = crate::events::is_end_of(e, MdTagEnd::TableCell);
        let row2 = if closes {
            row.push(col)
        } else {
            row
        };
        let col2: Seq<SpannedEvent> = if closes {
            Seq::empty()
        } else {
            col
        };
        assert(raw_cells_plain(row2)) by {
            assert forall|c: int| 0 <= c < row2.len() implies events_plain(#[trigger] row2[c]) by {
                if c < row.len() {
                    assert(row2[c] == row[c]);
                }
            }
        }
        if !(crate::events::is_end_of(e, MdTagEnd::TableHead) || crate::events::is_end_of(e, MdTagEnd::TableRow)) {
            let col3 = col2.push(s[0]);
            assert(events_plain(col3)) by {
                assert forall|k: int| 0 <= k < col3.len() implies !opens_pending(#[trigger] col3[k].0@) by {
                    if k < col2.len() {
                        assert(col3[k] == col2[k]);
                    }
                }
            }
            assert(events_plain(s.drop_first())) by {
                assert forall|k: int| 0 <= k < s.drop_first().len() implies !opens_pending(
                    #[trigger] s.drop_first()[k].0@,
                ) by {
                    assert(s.drop_first()[k] == s[k + 1]);
                }
            }
            lemma_row_spec_plain(s.drop_first(), row2, col3);
        }
    }
}

proof fn lemma_rows_spec_plain(s: Seq<SpannedEvent>)
    requires
        events_plain(s),
    ensures
        forall|k: int| 0 <= k < rows_spec(s).len() ==> raw_cells_plain(#[trigger] rows_spec(s)[k]),
    decreases s.len(),
{
    if s.len() > 0 {
        lemma_row_spec_plain(s, Seq::empty(), Seq::empty());
        lemma_row_consumes(s, Seq::empty(), Seq::empty());
        let (r, n) = row_spec(s, Seq::empty(), Seq::empty());
        let rest = s.subrange(n as int, s.len() as int);
        assert(events_plain(rest)) by {
            assert forall|k: int| 0 <= k < rest.len() implies !opens_pending(#[trigger] rest[k].0@) by {
                assert(rest[k] == s[k + n]);
            }
        }
        lemma_rows_spec_plain(rest);
        let all = rows_spec(s);
        assert forall|k: int| 0 <= k < all.len() implies raw_cells_plain(#[trigger] all[k]) by {
            if k > 0 {
                assert(all[k] == rows_spec(rest)[k - 1]);
            }
        }
    }
}

/// Cells that start no waiting element still start none once viewed and
/// trimmed.
proof fn lemma_trimmed_plain(row: Seq<Seq<SpannedEvent>>)
    requires
        raw_cells_plain(row),
    ensures
        cells_plain(trimmed_row(cells_view(row))),
{
    let v = cells_view(row);
    let t = trimmed_row(v);
    assert forall|c: int| 0 <= c < t.len() implies views_plain(#[trigger] t[c]) by {
        let cell = v[c];
        assert(cell == events_view(row[c]));
        lemma_trim_keeps_shape(cell);
        let tc = trim_cell_spec(cell);
        assert(t[c] == tc);
        assert forall|k: int| 0 <= k < tc.len() implies !opens_pending(#[trigger] tc[k].0) by {
            assert(cell[k] == (row[c][k].0@, row[c][k].1));
            assert(events_plain(row[c]));
            assert(!opens_pending(row[c][k].0@));
            if text_of(cell[k].0) is None {
                assert(tc[k].0 == cell[k].0);
            } else {
                assert(text_of(tc[k].0) is Some);
            }
        }
    }
}

/// A table whose events start no waiting element leaves nothing waiting
/// once drawn, when only it was waiting.
proof fn lemma_table_settles(s: ViewerState, evs: Seq<SpannedEvent>, pos: int, end: int, tail: bool, o: OptionsView)
    requires
        s.is_table,
        !s.is_list_item,
        !s.is_blockquote,
        !s.def_list.is_def_list_def,
        0 <= pos <= end <= evs.len(),
        events_plain(evs.subrange(pos, pos + prefix_until(evs.subrange(pos, end), stop_at_end(MdTagEnd::Table)))),
    ensures
        table_spec(s, evs, pos, end, tail, o) matches Some((t, c, p)) ==> no_blocks_pending(t),
{
    reveal(table_spec);
    if s.curr_table != usize::MAX {
        let s1 = ViewerState { curr_table: (s.curr_table + 1) as usize, ..s };
        let n = prefix_until(evs.subrange(pos, end), stop_at_end(MdTagEnd::Table)) as int;
        let all = evs.subrange(pos, pos + n);
        let (h, k) = row_spec(all, Seq::empty(), Seq::empty());
        lemma_row_spec_plain(all, Seq::empty(), Seq::empty());
        lemma_row_consumes(all, Seq::empty(), Seq::empty());
        let rest = all.subrange(k as int, all.len() as int);
        assert(events_plain(rest)) by {
            assert forall|x: int| 0 <= x < rest.len() implies !opens_pending(#[trigger] rest[x].0@) by {
                assert(rest[x] == all[x + k]);
            }
        }
        lemma_rows_spec_plain(rest);
        let rows = rows_spec(rest);
        let (n2, th, tr) = table_cells(evs, pos, end);
        lemma_trimmed_plain(h);
        assert forall|x: int| 0 <= x < tr.len() implies cells_plain(#[trigger] tr[x]) by {
            let vr = rows.map_values(|r: Seq<Seq<SpannedEvent>>| cells_view(r));
            assert(tr[x] == trimmed_row(vr[x]));
            lemma_trimmed_plain(rows[x]);
        }
        let num_cols = column_count(th);
        lemma_row_fold_same_pending(s1, th, 0, num_cols as int, o);
        if let Some((s2, ch)) = row_fold(s1, th, 0, num_cols as int, o) {
            lemma_rows_fold_same_pending(s2, tr, 0, num_cols as int, o);
        }
    }
}

/// A block quote whose events start no waiting element leaves nothing
/// waiting once drawn, when only it was waiting.
proof fn lemma_quote_settles(s: ViewerState, evs: Seq<SpannedEvent>, pos: int, end: int, tail: bool, o: OptionsView)
    requires
        s.is_blockquote,
        !s.is_list_item,
        !s.is_table,
        !s.def_list.is_def_list_def,
        0 <= pos <= end <= evs.len(),
        events_quote_plain(evs.subrange(pos, pos + quote_len(evs, pos, end))),
    ensures
        blockquote_spec(s, evs, pos, end, tail, o) matches Some((t, c, p)) ==> no_blocks_pending(t),
{
    lemma_quote_drawn(s, evs, pos, end, tail, o);
    let n = quote_len(evs, pos, end);
    let col = evs.subrange(pos, pos + n);
    let alert = crate::alert::quote_alert(col, o.alerts);
    let body = quote_body(col, alert);
    assert(views_quote_plain(events_view(body))) by {
        assert forall|k: int| 0 <= k < events_view(body).len() implies !opens_waiting(
            #[trigger] events_view(body)[k].0,
        ) by {
            if alert is Some {
                if k < 1 {
                    assert(body[k] == col[k]);
                } else {
                    assert(body[k] == col[k + 1]);
                }
            } else {
                assert(body[k] == col[k]);
            }
        }
    }
    lemma_fold_same_waiting(quote_entry(s, alert), events_view(body), o);
}

/// When the tables of `evs[pos..end]` start no list item, table, quote or
/// definition among their own events, and its quotes no list item, table
/// or definition, an event handed over while nothing is waiting is drawn
/// with the block it opens, and nothing is waiting after it.
pub proof fn lemma_process_settles(
    s: ViewerState,
    evs: Seq<SpannedEvent>,
    pos: int,
    end: int,
    tail: bool,
    o: OptionsView,
)
    requires
        no_blocks_pending(s),
        blocks_plain(evs, pos, end),
    ensures
        process_spec(s, evs, pos, end, tail, o) matches Some((t, c, p)) ==> no_blocks_pending(t),
    decreases end - pos, 0int,
{
    lemma_process_unfold(s, evs, pos, end, tail, o);
    if 0 <= pos < end <= evs.len() && s.accepts(evs[pos].0@) {
        let e = evs[pos].0@;
        let s1 = s.event(e, evs[pos].1, o).0;
        lemma_event_one_pending(s, e, evs[pos].1, o);
        lemma_blocks_plain_after(evs, pos, end);
        lemma_def_settles(s1, evs, pos + 1, end, tail, o);
        if !s1.def_list.is_def_list_def {
            crate::flow::lemma_def_idle(s1, evs, pos + 1, end, tail, o);
        }
        if let Some((s2, c2, p2)) = def_spec(s1, evs, pos + 1, end, tail, o) {
            if !s2.is_list_item {
                lemma_item_unfold(s2, evs, p2, end, tail, o);
            }
            if pos + 1 <= p2 <= end {
                lemma_blocks_plain_from(evs, pos, end, p2);
                lemma_item_settles(s2, evs, p2, end, tail, o);
                if let Some((s3, c3, p3)) = item_spec(s2, evs, p2, end, tail, o) {
                    if p2 <= p3 <= end {
                        if s3.is_table {
                            assert(s1.is_table && p3 == pos + 1);
                            assert(e matches EventView::Start(TagView::Table));
                            lemma_block_events_plain(evs, pos, end);
                            lemma_table_settles(s3, evs, p3, end, tail, o);
                        } else {
                            reveal(table_spec);
                        }
                        if let Some((s4, c4, p4)) = table_spec(s3, evs, p3, end, tail, o) {
                            if p3 <= p4 <= end {
                                if s4.is_blockquote {
                                    assert(s1.is_blockquote && p4 == pos + 1);
                                    assert(e matches EventView::Start(TagView::BlockQuote));
                                    lemma_block_events_plain(evs, pos, end);
                                    lemma_quote_settles(s4, evs, p4, end, tail, o);
                                } else {
                                    lemma_quote_idle(s4, evs, p4, end, tail, o);
                                }
                            }
                        }
                    }
                }
            }
        }
    }
}

proof fn lemma_blocks_plain_after(evs: Seq<SpannedEvent>, pos: int, end: int)
    requires
        blocks_plain(evs, pos, end),
    ensures
        blocks_plain(evs, pos + 1, end),
{
}

proof fn lemma_blocks_plain_from(evs: Seq<SpannedEvent>, pos: int, end: int, p: int)
    requires
        blocks_plain(evs, pos, end),
        pos <= p,
    ensures
        blocks_plain(evs, p, end),
{
}

/// The events of a table or quote that starts at `pos` start no waiting
/// element.
proof fn lemma_block_events_plain(evs: Seq<SpannedEvent>, pos: int, end: int)
    requires
        blocks_plain(evs, pos, end),
        0 <= pos < end <= evs.len(),
        opens_drawn_block(evs[pos].0@),
    ensures
        evs[pos].0@ matches EventView::Start(TagView::Table) ==> events_plain(
            evs.subrange(pos + 1, pos + 1 + block_len(evs, pos, end)),
        ),
        events_quote_plain(evs.subrange(pos + 1, pos + 1 + block_len(evs, pos, end))),
{
    let n = block_len(evs, pos, end);
    if evs[pos].0@ matches EventView::Start(TagView::Table) {
        lemma_prefix_until_le(evs.subrange(pos + 1, end), stop_at_end(MdTagEnd::Table));
    } else {
        lemma_prefix_until_le(evs.subrange(pos + 1, end), stop_at_end(MdTagEnd::BlockQuote));
    }
    let sub = evs.subrange(pos + 1, pos + 1 + n);
    assert forall|k: int| 0 <= k < sub.len() implies !opens_within(evs[pos].0@, #[trigger] sub[k].0@) by {
        assert(sub[k] == evs[pos + 1 + k]);
        assert(inside_block(evs, pos, pos + 1 + k, end));
    }
    assert(events_quote_plain(sub));
}

/// The events `sub[q..n]` leave nothing waiting, under the same condition.
pub proof fn lemma_loop_settles(s: ViewerState, sub: Seq<SpannedEvent>, q: int, n: int, tail: bool, o: OptionsView)
    requires
        no_blocks_pending(s),
        blocks_plain(sub, q, n),
    ensures
        loop_spec(s, sub, q, n, tail, o) matches Some((t, c)) ==> no_blocks_pending(t),
    decreases n - q, 1int,
{
    lemma_loop_unfold(s, sub, q, n, tail, o);
    if 0 <= q < n <= sub.len() {
        lemma_process_settles(s, sub, q, n, tail, o);
        if let Some((s1, c1, q1)) = process_spec(s, sub, q, n, tail, o) {
            if q < q1 <= n {
                lemma_blocks_plain_from(sub, q, n, q1);
                lemma_loop_settles(s1, sub, q1, n, tail, o);
            }
        }
    }
}

/// A definition drawn while only it waits leaves nothing waiting; with no
/// definition waiting nothing happens.
pub proof fn lemma_def_settles(s: ViewerState, evs: Seq<SpannedEvent>, pos: int, end: int, tail: bool, o: OptionsView)
    requires
        one_block_pending(s),
        blocks_plain(evs, pos, end),
    ensures
        def_spec(s, evs, pos, end, tail, o) matches Some((t, c, p)) ==> (if s.def_list.is_def_list_def {
            no_blocks_pending(t)
        } else {
            t == s
        }),
    decreases end - pos, 2int,
{
    lemma_def_unfold(s, evs, pos, end, tail, o);
    if 0 <= pos <= end <= evs.len() && s.def_list.is_def_list_def {
        let n = crate::flow::def_len(evs, pos, end);
        if n <= end - pos {
            let sub = evs.subrange(pos, pos + n);
            lemma_blocks_plain_sub(evs, pos, end, n);
            let s2 = crate::flow::def_entry(s);
            if 0 < n {
                lemma_process_settles(s2, sub, 0, n, tail && pos + n >= end, o);
            }
            if let Some((s3, c1, q)) = crate::flow::def_first(s2, sub, n, tail && pos + n >= end, o) {
                if 0 <= q <= n {
                    lemma_blocks_plain_from(sub, 0, n, q);
                    lemma_loop_settles(crate::flow::def_rest_entry(s3), sub, q, n, tail && pos + n >= end, o);
                }
            }
        }
    }
}

/// A list item drawn while only it waits leaves nothing waiting; with no
/// item waiting nothing happens.
pub proof fn lemma_item_settles(s: ViewerState, evs: Seq<SpannedEvent>, pos: int, end: int, tail: bool, o: OptionsView)
    requires
        one_block_pending(s),
        !s.def_list.is_def_list_def,
        blocks_plain(evs, pos, end),
    ensures
        item_spec(s, evs, pos, end, tail, o) matches Some((t, c, p)) ==> (if s.is_list_item {
            no_blocks_pending(t)
        } else {
            t == s
        }),
    decreases end - pos, 2int,
{
    lemma_item_unfold(s, evs, pos, end, tail, o);
    if 0 <= pos <= end <= evs.len() && s.is_list_item {
        let n = prefix_until(evs.subrange(pos, end), stop_at_item_boundary()) as int;
        if n <= end - pos {
            lemma_blocks_plain_sub(evs, pos, end, n);
            lemma_loop_settles(ViewerState { is_list_item: false, ..s }, evs.subrange(pos, pos + n), 0, n, tail && pos + n >= end, o);
        }
    }
}

} // verus!
