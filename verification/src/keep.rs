//! What drawing never undoes: the two forced newline switches, once off,
//! stay off, and without a handler for raw HTML the gathered HTML never
//! changes. After an event and the blocks it opens no quote is pending.
use vstd::prelude::*;
use crate::events::{EventView, MdTagEnd, SourceSpan, SpannedEvent, TagView};
use crate::flow::{
    blockquote_spec, cell_fold, cell_step, def_spec, fold_events, item_spec, lemma_def_unfold,
    lemma_item_unfold, lemma_loop_unfold, lemma_process_unfold, lemma_quote_drawn, lemma_quote_idle,
    lemma_show_step, lemma_show_done, loop_spec, process_spec, row_fold, rows_fold, show_event_spec,
    show_spec, table_draw_spec, table_spec,
};
use crate::viewer::{OptionsView, ViewerState};

verus! {

/// `t` keeps what `s` had settled: neither forced newline switch is on in
/// `t` unless it was on in `s`, and, without a handler for raw HTML, the
/// gathered HTML is the same.
pub open spec fn kept(s: ViewerState, t: ViewerState, o: OptionsView) -> bool {
    &&& t.line.should_not_start_newline_forced ==> s.line.should_not_start_newline_forced
    &&& t.line.should_end_newline_forced ==> s.line.should_end_newline_forced
    &&& !o.html_block_handler ==> t.html_block == s.html_block
}

/// One event keeps what was settled.
pub proof fn lemma_event_kept(s: ViewerState, e: EventView, span: SourceSpan, o: OptionsView)
    ensures
        kept(s, s.event(e, span, o).0, o),
{
    reveal(ViewerState::event);
    match e {
        EventView::Start(tag) => {
            match tag {
                TagView::DefinitionListTitle => {},
                _ => {},
            }
        },
        EventView::End(tag) => {
            match tag {
                MdTagEnd::List => {},
                _ => {},
            }
        },
        EventView::Code(t) => {},
        _ => {},
    }
}

proof fn lemma_fold_kept(s: ViewerState, evs: Seq<(EventView, SourceSpan)>, o: OptionsView)
    ensures
        fold_events(s, evs, o) matches Some((t, c)) ==> kept(s, t, o),
    decreases evs.len(),
{
    if evs.len() > 0 && s.accepts(evs[0].0) {
        lemma_event_kept(s, evs[0].0, evs[0].1, o);
        lemma_fold_kept(s.event(evs[0].0, evs[0].1, o).0, evs.drop_first(), o);
    }
}

proof fn lemma_cell_fold_kept(s: ViewerState, evs: Seq<(EventView, SourceSpan)>, o: OptionsView)
    ensures
        cell_fold(s, evs, o) matches Some((t, c)) ==> kept(s, t, o),
    decreases evs.len(),
{
    if evs.len() > 0 {
        let quiet = ViewerState { line: crate::viewer::line_with(s.line, false), ..s };
        lemma_event_kept(quiet, evs[0].0, evs[0].1, o);
        if let Some((s1, c1)) = cell_step(s, evs[0], o) {
            lemma_cell_fold_kept(s1, evs.drop_first(), o);
        }
    }
}

proof fn lemma_row_fold_kept(
    s: ViewerState,
    cells: Seq<Seq<(EventView, SourceSpan)>>,
    c: int,
    limit: int,
    o: OptionsView,
)
    ensures
        row_fold(s, cells, c, limit, o) matches Some((t, x)) ==> kept(s, t, o),
    decreases cells.len() - c,
{
    if !(c < 0 || c >= cells.len() || c >= limit) {
        lemma_cell_fold_kept(s, cells[c], o);
        if let Some((s1, c1)) = cell_fold(s, cells[c], o) {
            lemma_row_fold_kept(s1, cells, c + 1, limit, o);
        }
    }
}

proof fn lemma_rows_fold_kept(
    s: ViewerState,
    rows: Seq<Seq<Seq<(EventView, SourceSpan)>>>,
    r: int,
    limit: int,
    o: OptionsView,
)
    ensures
        rows_fold(s, rows, r, limit, o) matches Some((t, x)) ==> kept(s, t, o),
    decreases rows.len() - r,
{
    if !(r < 0 || r >= rows.len()) {
        lemma_row_fold_kept(s, rows[r], 0, limit, o);
        if let Some((s1, c1)) = row_fold(s, rows[r], 0, limit, o) {
            lemma_rows_fold_kept(s1, rows, r + 1, limit, o);
        }
    }
}

proof fn lemma_table_kept(s: ViewerState, evs: Seq<SpannedEvent>, pos: int, end: int, tail: bool, o: OptionsView)
    ensures
        table_spec(s, evs, pos, end, tail, o) matches Some((t, c, p)) ==> kept(s, t, o),
{
    reveal(table_spec);
    if 0 <= pos <= end <= evs.len() && s.is_table && s.curr_table != usize::MAX {
        let s1 = ViewerState { curr_table: (s.curr_table + 1) as usize, ..s };
        let (n, th, tr) = crate::flow::table_cells(evs, pos, end);
        let num_cols = crate::flow::column_count(th);
        lemma_row_fold_kept(s1, th, 0, num_cols as int, o);
        if let Some((s2, ch)) = row_fold(s1, th, 0, num_cols as int, o) {
            lemma_rows_fold_kept(s2, tr, 0, num_cols as int, o);
        }
        assert(table_draw_spec(s1, s.curr_table, th, tr, o) matches Some((s3, c)) ==> kept(s1, s3, o));
    }
}

/// After a block quote's turn, no quote is pending, and what was settled
/// is kept.
proof fn lemma_quote_kept(s: ViewerState, evs: Seq<SpannedEvent>, pos: int, end: int, tail: bool, o: OptionsView)
    ensures
        blockquote_spec(s, evs, pos, end, tail, o) matches Some((t, c, p)) ==> kept(s, t, o) && (!s.is_blockquote
            ==> t == s),
        blockquote_spec(s, evs, pos, end, tail, o) matches Some((t, c, p)) ==> !t.is_blockquote || !s.is_blockquote,
{
    if 0 <= pos <= end <= evs.len() {
        if !s.is_blockquote {
            lemma_quote_idle(s, evs, pos, end, tail, o);
        } else {
            lemma_quote_drawn(s, evs, pos, end, tail, o);
            let n = crate::flow::quote_len(evs, pos, end);
            let col = evs.subrange(pos, pos + n);
            let alert = crate::alert::quote_alert(col, o.alerts);
            let body = crate::flow::quote_body(col, alert);
            lemma_fold_kept(crate::flow::quote_entry(s, alert), crate::events::events_view(body), o);
        }
    } else {
        reveal(blockquote_spec);
    }
}

/// An event with the blocks it opens keeps what was settled, and leaves no
/// quote pending.
pub proof fn lemma_process_kept(s: ViewerState, evs: Seq<SpannedEvent>, pos: int, end: int, tail: bool, o: OptionsView)
    ensures
        process_spec(s, evs, pos, end, tail, o) matches Some((t, c, p)) ==> kept(s, t, o) && !t.is_blockquote,
    decreases end - pos, 0int,
{
    lemma_process_unfold(s, evs, pos, end, tail, o);
    if 0 <= pos < end <= evs.len() && s.accepts(evs[pos].0@) {
        let s1 = s.event(evs[pos].0@, evs[pos].1, o).0;
        lemma_event_kept(s, evs[pos].0@, evs[pos].1, o);
        lemma_def_kept(s1, evs, pos + 1, end, tail, o);
        if let Some((s2, c2, p2)) = def_spec(s1, evs, pos + 1, end, tail, o) {
            if pos + 1 <= p2 <= end {
                lemma_item_kept(s2, evs, p2, end, tail, o);
                if let Some((s3, c3, p3)) = item_spec(s2, evs, p2, end, tail, o) {
                    if p2 <= p3 <= end {
                        lemma_table_kept(s3, evs, p3, end, tail, o);
                        if let Some((s4, c4, p4)) = table_spec(s3, evs, p3, end, tail, o) {
                            if p3 <= p4 <= end {
                                lemma_quote_kept(s4, evs, p4, end, tail, o);
                                if let Some((s5, c5, p5)) = blockquote_spec(s4, evs, p4, end, tail, o) {
                                    assert(!s5.is_blockquote || !s4.is_blockquote);
                                    if s4.is_blockquote {
                                        assert(!s5.is_blockquote);
                                    } else {
                                        assert(s5 == s4);
                                    }
                                }
                            }
                        }
                    }
                }
            }
        }
    }
}

/// The events `sub[q..n]`, each with its blocks, keep what was settled.
pub proof fn lemma_loop_kept(s: ViewerState, sub: Seq<SpannedEvent>, q: int, n: int, tail: bool, o: OptionsView)
    ensures
        loop_spec(s, sub, q, n, tail, o) matches Some((t, c)) ==> kept(s, t, o),
    decreases n - q, 1int,
{
    lemma_loop_unfold(s, sub, q, n, tail, o);
    if 0 <= q < n <= sub.len() {
        lemma_process_kept(s, sub, q, n, tail, o);
        if let Some((s1, c1, q1)) = process_spec(s, sub, q, n, tail, o) {
            if q < q1 <= n {
                lemma_loop_kept(s1, sub, q1, n, tail, o);
            }
        }
    }
}

/// A definition keeps what was settled.
pub proof fn lemma_def_kept(s: ViewerState, evs: Seq<SpannedEvent>, pos: int, end: int, tail: bool, o: OptionsView)
    ensures
        def_spec(s, evs, pos, end, tail, o) matches Some((t, c, p)) ==> kept(s, t, o),
    decreases end - pos, 2int,
{
    lemma_def_unfold(s, evs, pos, end, tail, o);
    if 0 <= pos <= end <= evs.len() && s.def_list.is_def_list_def {
        let n = crate::flow::def_len(evs, pos, end);
        if n <= end - pos {
            let sub = evs.subrange(pos, pos + n);
            let s2 = crate::flow::def_entry(s);
            if 0 < n {
                lemma_process_kept(s2, sub, 0, n, tail && pos + n >= end, o);
            }
            if let Some((s3, c1, q)) = crate::flow::def_first(s2, sub, n, tail && pos + n >= end, o) {
                if 0 <= q <= n {
                    lemma_loop_kept(crate::flow::def_rest_entry(s3), sub, q, n, tail && pos + n >= end, o);
                }
            }
        }
    }
}

/// A list item's content keeps what was settled.
pub proof fn lemma_item_kept(s: ViewerState, evs: Seq<SpannedEvent>, pos: int, end: int, tail: bool, o: OptionsView)
    ensures
        item_spec(s, evs, pos, end, tail, o) matches Some((t, c, p)) ==> kept(s, t, o),
    decreases end - pos, 2int,
{
    lemma_item_unfold(s, evs, pos, end, tail, o);
    if 0 <= pos <= end <= evs.len() && s.is_list_item {
        let n = crate::collect::prefix_until(evs.subrange(pos, end), crate::collect::stop_at_item_boundary()) as int;
        if n <= end - pos {
            lemma_loop_kept(ViewerState { is_list_item: false, ..s }, evs.subrange(pos, pos + n), 0, n, tail && pos + n >= end, o);
        }
    }
}

/// Drawing a document keeps what was settled: once the newline before the
/// first widget or the one at the end of the document is switched off, no
/// event switches it on again, and without a handler for raw HTML the
/// gathered HTML never changes.
pub proof fn lemma_show_kept(
    s: ViewerState,
    evs: Seq<SpannedEvent>,
    p: int,
    end: int,
    record: bool,
    o: OptionsView,
)
    ensures
        show_spec(s, evs, p, end, record, o) matches Some((t, c)) ==> kept(s, t, o),
    decreases end - p,
{
    if 0 <= p < end <= evs.len() {
        lemma_show_step(s, evs, p, end, record, o);
        let s1 = crate::flow::show_entry(s, p, end);
        lemma_process_kept(s1, evs, p, end, true, o);
        if let Some((s3, c, q)) = show_event_spec(s, evs, p, end, record, o) {
            let (s2, c1, q2) = process_spec(s1, evs, p, end, true, o).unwrap();
            assert(s3 == crate::flow::show_exit(s2, p));
            assert(kept(s, s1, o));
            assert(kept(s1, s2, o));
            assert(kept(s, s3, o));
            if p < q <= end {
                lemma_show_kept(s3, evs, q, end, record, o);
                if let Some((t, x)) = show_spec(s3, evs, q, end, record, o) {
                    assert(show_spec(s, evs, p, end, record, o) == Some((t, c + x)));
                }
            } else {
                reveal(show_spec);
            }
        }
    } else if 0 <= p == end <= evs.len() {
        lemma_show_done(s, evs, end, record, o);
    } else {
        reveal(show_spec);
    }
}

} // verus!
