//! Walking the events of a document: each event, then the elements that
//! must be drawn as one block (definitions, list items, tables, quotes).
use vstd::prelude::*;
use crate::cell::{cell_widgets, cell_widgets_spec, trim_cell, widgets_view, MeasureWidget};
use crate::collect::{delayed_events, delayed_events_list_item, prefix_until, stop_at_end, stop_at_item_boundary};
use crate::events::{duplicate_spanned, events_view, EventView, MdEvent, MdTag, MdTagEnd, SourceSpan, SpannedEvent};
use crate::alert::{parse_alerts, quote_alert};
use crate::flow::{quote_draw_spec, lemma_quote_drawn, lemma_quote_idle, quote_body, quote_len, quote_entry, quote_exit, quote_scope, show_event_spec, show_spec, show_entry, show_exit, start_mark, split_mark, lemma_show_done, lemma_show_step, lemma_prepend_split, lemma_prepend3_split, def_close, def_entry, def_first, def_len, def_rest_entry, last_in_def_list, lemma_def_done, lemma_def_first_fails, lemma_def_idle, lemma_def_rest_fails, lemma_item_unfold, lemma_loop_unfold, lemma_process_unfold, def_spec, item_spec, loop_spec, process_spec, table_draw_spec, cells_view, column_count, layout_spec, row_widgets, rows_fold, table_cells, table_exit, table_spec, blockquote_spec, fold_events, prepend3, cell_fold, cell_step, lemma_prepend_assoc, lemma_prepend_empty, prepend, row_fold, trimmed_row, trimmed_rows};
use crate::key::table_key;
use crate::keep::{kept, lemma_process_kept, lemma_show_kept};
use crate::settle::{blocks_plain, lemma_process_settles, no_blocks_pending};
use crate::options::options_for;
use crate::parse::{markdown_events, parse_events};
use crate::scope::{well_nested, lemma_append_leaves, lemma_event_keeps_table_count, lemma_event_no_scopes, lemma_open_close, push_command, scope_run};
use crate::table::{parse_table, row_view, rows_view, row_events_view, rows_events_view, Column, Row, Table};
use crate::viewer::{newline_start, OptionsView, ViewerState, commands_view, row_widgets_view, CheckboxClickEvent, CommandView, CommonMarkViewerInternal, RenderCommand, RenderOptions, Scope, TableLayout};

verus! {

/// An event with the blocks it opens keeps what was settled and leaves no
/// quote pending, and, under the condition of `lemma_process_settles`,
/// nothing pending.
proof fn lemma_process_keeps(s: ViewerState, evs: Seq<SpannedEvent>, pos: int, end: int, tail: bool, o: OptionsView)
    ensures
        process_spec(s, evs, pos, end, tail, o) matches Some((t, c, p)) ==> kept(s, t, o) && !t.is_blockquote
            && (no_blocks_pending(s) && blocks_plain(evs, pos, end) ==> no_blocks_pending(t)),
{
    lemma_process_kept(s, evs, pos, end, tail, o);
    if no_blocks_pending(s) && blocks_plain(evs, pos, end) {
        lemma_process_settles(s, evs, pos, end, tail, o);
    }
}

/// Why the viewer stopped.
#[derive(Clone, Copy, Debug, PartialEq, Eq, Structural)]
pub enum RenderError {
    /// A list item started while no list was open, or the numbering of its
    /// ordered list could not go on.
    ListItem,
    /// More tables than can be counted.
    TableCount,
}

/// The scopes opened and closed by the commands appended to `old` to give
/// `new` balance out.
pub open spec fn keeps_scopes(old: Seq<RenderCommand>, new: Seq<RenderCommand>) -> bool {
    scope_run(commands_view(new)) == scope_run(commands_view(old))
}

/// Whether an event opens or closes a table cell.
pub fn is_cell_delim(e: &MdEvent) -> (r: bool)
    ensures
        r == (e matches MdEvent::Start(MdTag::TableCell) || e matches MdEvent::End(
            MdTagEnd::TableCell,
        )),
{
    matches!(e, MdEvent::Start(MdTag::TableCell)) || matches!(e, MdEvent::End(MdTagEnd::TableCell))
}

impl CommonMarkViewerInternal {
    /// Hands one event to the viewer, unless it is a list item that no open
    /// list can take, in which case nothing happens and the error says so.
    pub fn checked_event(
        &mut self,
        event: MdEvent,
        span: SourceSpan,
        options: &RenderOptions,
        out: &mut Vec<RenderCommand>,
    ) -> (r: Result<(), RenderError>)
        ensures
            r is Ok <==> old(self)@.accepts(event@),
            r is Ok ==> final(self)@ == old(self)@.event(event@, span, options@).0,
            r is Ok ==> commands_view(final(out)@) == commands_view(old(out)@) + old(self)@.event(
                event@,
                span,
                options@,
            ).1,
            r is Err ==> final(self)@ == old(self)@ && final(out)@ == old(out)@,
            r is Err ==> r == Err::<(), RenderError>(RenderError::ListItem),
            keeps_scopes(old(out)@, final(out)@),
            final(self).curr_table == old(self).curr_table,
    {
        let ok = match &event {
            MdEvent::Start(MdTag::Item) => self.list.can_start_item(),
            _ => true,
        };
        if !ok {
            return Err(RenderError::ListItem);
        }
        let ghost s0 = self@;
        let ghost ev = event@;
        self.event(event, span, options, out);
        proof {
            lemma_event_no_scopes(s0, ev, span, options@);
            lemma_event_keeps_table_count(s0, ev, span, options@);
            lemma_append_leaves(commands_view(old(out)@), s0.event(ev, span, options@).1);
        }
        Ok(())
    }

    /// Draws one event, then whatever block it opened, taking the block's
    /// events from `events[pos + 1..end]`, as `process_spec` says; `tail`
    /// says whether `end` is the end of the document. Returns the position
    /// after the events used.
    pub fn process_event(
        &mut self,
        events: &Vec<SpannedEvent>,
        pos: usize,
        end: usize, tail: bool,
        options: &RenderOptions,
        out: &mut Vec<RenderCommand>,
    ) -> (r: Result<usize, RenderError>)
        requires
            pos < end <= events.len(),
        ensures
            r matches Ok(p) ==> pos < p <= end,
            r is Ok ==> keeps_scopes(old(out)@, final(out)@),
            r matches Ok(p) ==> prepend3(
                commands_view(old(out)@),
                process_spec(old(self)@, events@, pos as int, end as int, tail, options@),
            ) == Some((final(self)@, commands_view(final(out)@), p as int)),
            r is Err ==> process_spec(old(self)@, events@, pos as int, end as int, tail, options@) is None,
            r is Ok ==> kept(old(self)@, final(self)@, options@) && !final(self).is_blockquote,
            r is Ok && no_blocks_pending(old(self)@) && blocks_plain(events@, pos as int, end as int)
                ==> no_blocks_pending(final(self)@),
        decreases end - pos, 0nat,
    {
        proof {
            lemma_process_unfold(old(self)@, events@, pos as int, end as int, tail, options@);
        }
        let ghost s0 = self@;
        let ghost o0 = commands_view(out@);
        let e = duplicate_spanned(&events[pos]);
        match self.checked_event(e.0, e.1, options, out) {
            Ok(()) => {},
            Err(err) => return Err(err),
        }
        let ghost s1 = self@;
        let ghost o1 = commands_view(out@);
        let p = pos + 1;
        let p2 = match self.def_list_def_wrapping(events, p, end, tail, options, out) {
            Ok(q) => q,
            Err(err) => return Err(err),
        };
        let ghost s2 = self@;
        let ghost o2 = commands_view(out@);
        let p3 = match self.item_list_wrapping(events, p2, end, tail, options, out) {
            Ok(q) => q,
            Err(err) => return Err(err),
        };
        let ghost s3 = self@;
        let ghost o3 = commands_view(out@);
        let p4 = match self.table(events, p3, end, tail, options, out) {
            Ok(q) => q,
            Err(err) => return Err(err),
        };
        let ghost s4 = self@;
        let ghost o4 = commands_view(out@);
        let p5 = match self.blockquote(events, p4, end, tail, options, out) {
            Ok(q) => q,
            Err(err) => return Err(err),
        };
        proof {
            let ev = events@;
            let o = options@;
            let c1 = s0.event(ev[pos as int].0@, ev[pos as int].1, o).1;
            let c2 = def_spec(s1, ev, pos + 1, end as int, tail, o).unwrap().1;
            let c3 = item_spec(s2, ev, p2 as int, end as int, tail, o).unwrap().1;
            let c4 = table_spec(s3, ev, p3 as int, end as int, tail, o).unwrap().1;
            let c5 = blockquote_spec(s4, ev, p4 as int, end as int, tail, o).unwrap().1;
            assert(o1 == o0 + c1);
            assert(o2 == o1 + c2);
            assert(o3 == o2 + c3);
            assert(o4 == o3 + c4);
            assert(commands_view(out@) == o4 + c5);
            assert(o2 =~= o0 + (c1 + c2));
            assert(o3 =~= o0 + (c1 + c2 + c3));
            assert(o4 =~= o0 + (c1 + c2 + c3 + c4));
            assert(commands_view(out@) =~= o0 + (c1 + c2 + c3 + c4 + c5));
        }
        proof {
            lemma_process_keeps(s0, events@, pos as int, end as int, tail, options@);
        }
        Ok(p5)
    }

    /// Draws the events `events[start..end]`, each with the block it opens,
    /// as `loop_spec` says.
    pub fn process_events(
        &mut self,
        events: &Vec<SpannedEvent>,
        start: usize,
        end: usize, tail: bool,
        options: &RenderOptions,
        out: &mut Vec<RenderCommand>,
    ) -> (r: Result<(), RenderError>)
        requires
            start <= end <= events.len(),
        ensures
            r is Ok ==> keeps_scopes(old(out)@, final(out)@),
            r is Ok ==> prepend(
                commands_view(old(out)@),
                loop_spec(old(self)@, events@, start as int, end as int, tail, options@),
            ) == Some((final(self)@, commands_view(final(out)@))),
            r is Err ==> loop_spec(old(self)@, events@, start as int, end as int, tail, options@) is None,
        decreases end - start, 1nat,
    {
        let mut q = start;
        while q < end
            invariant
                start <= q <= end <= events.len(),
                keeps_scopes(old(out)@, out@),
                prepend(
                    commands_view(old(out)@),
                    loop_spec(old(self)@, events@, start as int, end as int, tail, options@),
                ) == prepend(commands_view(out@), loop_spec(self@, events@, q as int, end as int, tail, options@)),
            decreases end - q,
        {
            let ghost s0 = self@;
            let ghost o0 = commands_view(out@);
            proof {
                lemma_loop_unfold(s0, events@, q as int, end as int, tail, options@);
            }
            let p = match self.process_event(events, q, end, tail, options, out) {
                Ok(p) => p,
                Err(err) => {
                    assert(process_spec(s0, events@, q as int, end as int, tail, options@) is None);
                    assert(loop_spec(s0, events@, q as int, end as int, tail, options@) is None);
                    return Err(err);
                },
            };
            proof {
                let (s1, c1, p1) = process_spec(s0, events@, q as int, end as int, tail, options@).unwrap();
                lemma_prepend_assoc(o0, c1, loop_spec(s1, events@, p1, end as int, tail, options@));
            }
            q = p;
        }
        proof {
            lemma_loop_unfold(self@, events@, q as int, end as int, tail, options@);
            assert(commands_view(out@) + Seq::<CommandView>::empty() =~= commands_view(out@));
        }
        Ok(())
    }

    /// Takes up a definition: a newline when one may start, and no newline
    /// before the element drawn first.
    fn def_begin(&mut self, out: &mut Vec<RenderCommand>)
        ensures
            final(self)@ == def_entry(old(self)@),
            commands_view(final(out)@) == commands_view(old(out)@) + newline_start(old(self)@.line),
            keeps_scopes(old(out)@, final(out)@),
    {
        self.def_list.is_def_list_def = false;
        if self.line.try_insert_start() {
            push_command(out, RenderCommand::Newline);
        }
        assert(commands_view(out@) =~= commands_view(old(out)@) + newline_start(old(self)@.line));
        self.line.should_start_newline = false;
    }

    /// After a definition's first event: an indentation, then the wrapping
    /// scope in which the rest is drawn, with a newline before an element
    /// and none after it.
    fn def_rest_begin(&mut self, out: &mut Vec<RenderCommand>)
        ensures
            final(self)@ == def_rest_entry(old(self)@),
            commands_view(final(out)@) == commands_view(old(out)@) + seq![
                CommandView::Indent(1),
                CommandView::Open(Scope::Wrapped),
            ],
            scope_run(commands_view(final(out)@)) == scope_run(commands_view(old(out)@).push(
                CommandView::Open(Scope::Wrapped),
            )),
    {
        push_command(out, RenderCommand::Indent(1));
        let ghost indented = commands_view(out@);
        self.line.should_start_newline = true;
        self.line.should_end_newline = false;
        push_command(out, RenderCommand::Open(Scope::Wrapped));
        proof {
            crate::scope::lemma_push(commands_view(old(out)@), CommandView::Indent(1));
            crate::scope::lemma_push(indented, CommandView::Open(Scope::Wrapped));
            crate::scope::lemma_push(commands_view(old(out)@), CommandView::Open(Scope::Wrapped));
        }
        assert(commands_view(out@) =~= commands_view(old(out)@) + seq![
            CommandView::Indent(1),
            CommandView::Open(Scope::Wrapped),
        ]);
    }

    /// Ends a definition, as `def_close` says.
    fn def_finish(&mut self, last_in_list: bool, out: &mut Vec<RenderCommand>)
        ensures
            final(self)@ == def_close(old(self)@, last_in_list).0,
            commands_view(final(out)@) == commands_view(old(out)@) + def_close(old(self)@, last_in_list).1,
            scope_run(commands_view(final(out)@)) == scope_run(commands_view(old(out)@).push(
                CommandView::Close(Scope::Wrapped),
            )),
    {
        push_command(out, RenderCommand::Close(Scope::Wrapped));
        let ghost closed = commands_view(out@);
        self.line.should_end_newline = true;
        if !last_in_list && self.line.try_insert_end() {
            push_command(out, RenderCommand::Newline);
            proof {
                crate::scope::lemma_push(closed, CommandView::Newline);
            }
        }
        assert(commands_view(out@) =~= commands_view(old(out)@) + def_close(old(self)@, last_in_list).1);
    }

    /// A definition's first event on its own, as `def_first` says.
    fn def_first_event(
        &mut self,
        item_events: &Vec<SpannedEvent>, tail: bool,
        options: &RenderOptions,
        out: &mut Vec<RenderCommand>,
    ) -> (r: Result<usize, RenderError>)
        ensures
            r matches Ok(q) ==> q <= item_events.len(),
            r is Ok ==> keeps_scopes(old(out)@, final(out)@),
            r matches Ok(q) ==> prepend3(
                commands_view(old(out)@),
                def_first(old(self)@, item_events@, item_events.len() as int, tail, options@),
            ) == Some((final(self)@, commands_view(final(out)@), q as int)),
            r is Err ==> def_first(old(self)@, item_events@, item_events.len() as int, tail, options@) is None,
        decreases item_events.len(), 1nat,
    {
        let n = item_events.len();
        if 0 < n {
            self.process_event(item_events, 0, n, tail, options, out)
        } else {
            assert(commands_view(out@) + Seq::<CommandView>::empty() =~= commands_view(out@));
            Ok(0)
        }
    }

    /// After the start of a definition: draws the definition's events, the
    /// first one on its own and the rest in a wrapping layout behind an
    /// indentation, as `def_spec` says. Nothing happens when no definition
    /// has started.
    #[verifier::rlimit(80)]
    pub fn def_list_def_wrapping(
        &mut self,
        events: &Vec<SpannedEvent>,
        pos: usize,
        end: usize, tail: bool,
        options: &RenderOptions,
        out: &mut Vec<RenderCommand>,
    ) -> (r: Result<usize, RenderError>)
        requires
            pos <= end <= events.len(),
        ensures
            !old(self).def_list.is_def_list_def ==> r == Ok::<usize, RenderError>(pos)
                && final(self)@ == old(self)@ && final(out)@ == old(out)@,
            r matches Ok(p) ==> pos <= p <= end,
            r is Ok ==> keeps_scopes(old(out)@, final(out)@),
            r matches Ok(p) ==> prepend3(
                commands_view(old(out)@),
                def_spec(old(self)@, events@, pos as int, end as int, tail, options@),
            ) == Some((final(self)@, commands_view(final(out)@), p as int)),
            r is Err ==> def_spec(old(self)@, events@, pos as int, end as int, tail, options@) is None,
        decreases end - pos, 2nat,
    {
        if !self.def_list.is_def_list_def {
            proof {
                lemma_def_idle(old(self)@, events@, pos as int, end as int, tail, options@);
            }
            assert(commands_view(out@) + Seq::<CommandView>::empty() =~= commands_view(out@));
            return Ok(pos);
        }
        let (item_events, next) = delayed_events(
            events,
            pos,
            end,
            MdTagEnd::DefinitionListDefinition,
        );
        let n = item_events.len();
        let inner_tail = tail && next >= end;
        let ghost sub = item_events@;
        assert(inner_tail == (tail && pos + def_len(events@, pos as int, end as int) >= end));
        assert(n == def_len(events@, pos as int, end as int));
        assert(sub == events@.subrange(pos as int, pos + def_len(events@, pos as int, end as int)));
        let ghost out0 = commands_view(out@);
        self.def_begin(out);
        let ghost s2 = self@;
        let ghost oc0 = commands_view(out@);
        let q = match self.def_first_event(&item_events, inner_tail, options, out) {
            Ok(q) => q,
            Err(err) => {
                proof {
                    lemma_def_first_fails(old(self)@, events@, pos as int, end as int, tail, options@);
                }
                return Err(err);
            },
        };
        let ghost s3 = self@;
        let ghost oc1 = commands_view(out@);
        let ghost c1 = oc1.subrange(oc0.len() as int, oc1.len() as int);
        proof {
            lemma_prepend3_split(oc0, def_first(s2, sub, n as int, inner_tail, options@), s3, oc1, q as int);
        }
        self.def_rest_begin(out);
        let ghost after_open = commands_view(out@);
        match self.process_events(&item_events, q, n, inner_tail, options, out) {
            Ok(()) => {},
            Err(err) => {
                proof {
                    lemma_def_rest_fails(old(self)@, events@, pos as int, end as int, tail, options@, s3, c1, q as int);
                }
                return Err(err);
            },
        }
        let ghost s5 = self@;
        let ghost mid = commands_view(out@);
        let ghost c3 = mid.subrange(after_open.len() as int, mid.len() as int);
        let last_in_list = next < end && events[next].0.ends(MdTagEnd::DefinitionList);
        assert(last_in_list == last_in_def_list(events@, next as int, end as int));
        self.def_finish(last_in_list, out);
        proof {
            lemma_prepend_split(after_open, loop_spec(def_rest_entry(s3), sub, q as int, n as int, inner_tail, options@), s5, mid);
            assert(mid =~= after_open + c3);
            lemma_def_done(old(self)@, events@, pos as int, end as int, tail, options@, s3, c1, q as int, s5, c3);
            lemma_open_close(oc1, mid, Scope::Wrapped);
            let c4 = def_close(s5, last_in_list).1;
            assert(commands_view(out@) =~= out0 + (newline_start(old(self)@.line) + c1 + seq![
                CommandView::Indent(1),
                CommandView::Open(Scope::Wrapped),
            ] + c3 + c4));
        }
        Ok(next)
    }

    /// After the start of a list item: draws the item's events (up to its
    /// end or a nested list) in a wrapping layout, so that wrapped text
    /// lines up behind the marker, as `item_spec` says. Nothing happens when
    /// no item has started.
    pub fn item_list_wrapping(
        &mut self,
        events: &Vec<SpannedEvent>,
        pos: usize,
        end: usize, tail: bool,
        options: &RenderOptions,
        out: &mut Vec<RenderCommand>,
    ) -> (r: Result<usize, RenderError>)
        requires
            pos <= end <= events.len(),
        ensures
            !old(self).is_list_item ==> r == Ok::<usize, RenderError>(pos) && final(self)@ == old(
                self,
            )@ && final(out)@ == old(out)@,
            r matches Ok(p) ==> pos <= p <= end,
            r is Ok ==> keeps_scopes(old(out)@, final(out)@),
            r matches Ok(p) ==> prepend3(
                commands_view(old(out)@),
                item_spec(old(self)@, events@, pos as int, end as int, tail, options@),
            ) == Some((final(self)@, commands_view(final(out)@), p as int)),
            r is Err ==> item_spec(old(self)@, events@, pos as int, end as int, tail, options@) is None,
        decreases end - pos, 2nat,
    {
        proof {
            lemma_item_unfold(old(self)@, events@, pos as int, end as int, tail, options@);
        }
        if !self.is_list_item {
            assert(commands_view(out@) + Seq::<CommandView>::empty() =~= commands_view(out@));
            return Ok(pos);
        }
        self.is_list_item = false;
        let ghost s1 = self@;
        assert(s1 == (crate::viewer::ViewerState { is_list_item: false, ..old(self)@ }));
        let (item_events, next) = delayed_events_list_item(events, pos, end);
        let n = item_events.len();
        let inner_tail = tail && next >= end;
        assert(item_events@ == events@.subrange(pos as int, pos + prefix_until(
            events@.subrange(pos as int, end as int),
            stop_at_item_boundary(),
        )));
        let ghost out0 = commands_view(out@);
        let ghost before_open = commands_view(out@);
        push_command(out, RenderCommand::Open(Scope::Wrapped));
        let ghost after_open = commands_view(out@);
        match self.process_events(&item_events, 0, n, inner_tail, options, out) {
            Ok(()) => {},
            Err(err) => {
                assert(loop_spec(s1, item_events@, 0, n as int, inner_tail, options@) is None);
                return Err(err);
            },
        }
        let ghost mid = commands_view(out@);
        push_command(out, RenderCommand::Close(Scope::Wrapped));
        proof {
            lemma_open_close(before_open, mid, Scope::Wrapped);
            let c = loop_spec(
                s1,
                item_events@,
                0,
                n as int, inner_tail,
                options@,
            ).unwrap().1;
            assert(mid == after_open + c);
            assert(commands_view(out@) =~= out0 + (seq![CommandView::Open(Scope::Wrapped)] + c + seq![
                CommandView::Close(Scope::Wrapped),
            ]));
        }
        Ok(next)
    }

    /// Hands the events to the viewer one after the other, as
    /// `fold_events` says.
    fn fold_events(&mut self, evs: &Vec<SpannedEvent>, options: &RenderOptions, out: &mut Vec<RenderCommand>) -> (r:
        Result<(), RenderError>)
        ensures
            keeps_scopes(old(out)@, final(out)@),
            r is Err ==> r == Err::<(), RenderError>(RenderError::ListItem),
            final(self).curr_table == old(self).curr_table,
            r is Ok ==> prepend(
                commands_view(old(out)@),
                fold_events(old(self)@, events_view(evs@), options@),
            ) == Some((final(self)@, commands_view(final(out)@))),
            r is Err ==> fold_events(old(self)@, events_view(evs@), options@) is None,
    {
        let ghost cv = events_view(evs@);
        let mut i: usize = 0;
        proof {
            assert(cv.subrange(0, cv.len() as int) =~= cv);
        }
        while i < evs.len()
            invariant
                i <= evs.len(),
                cv == events_view(evs@),
                self.curr_table == old(self).curr_table,
                keeps_scopes(old(out)@, out@),
                prepend(commands_view(old(out)@), fold_events(old(self)@, cv, options@)) == prepend(
                    commands_view(out@),
                    fold_events(self@, cv.subrange(i as int, cv.len() as int), options@),
                ),
            decreases evs.len() - i,
        {
            let ghost rest = cv.subrange(i as int, cv.len() as int);
            let ghost s0 = self@;
            let ghost o0 = commands_view(out@);
            assert(rest[0] == cv[i as int]);
            assert(rest.drop_first() =~= cv.subrange(i + 1, cv.len() as int));
            let e = duplicate_spanned(&evs[i]);
            match self.checked_event(e.0, e.1, options, out) {
                Ok(()) => {},
                Err(err) => return Err(err),
            }
            proof {
                let (sa, ca) = s0.event(cv[i as int].0, cv[i as int].1, options@);
                lemma_prepend_assoc(o0, ca, fold_events(sa, rest.drop_first(), options@));
            }
            i = i + 1;
        }
        proof {
            assert(cv.subrange(i as int, cv.len() as int).len() == 0);
            assert(commands_view(out@) + Seq::<CommandView>::empty() =~= commands_view(out@));
        }
        Ok(())
    }

    /// Opens a block quote: a newline when one may start, the newline
    /// before the first widget switched on, the scope of the alert it
    /// announces or of a plain quote, and quote style for a plain quote.
    /// Returns the commands as they were before the scope was opened.
    fn quote_begin(&mut self, alert: Option<usize>, out: &mut Vec<RenderCommand>) -> (before_open: Ghost<
        Seq<CommandView>,
    >)
        ensures
            final(self)@ == quote_entry(old(self)@, alert),
            before_open@ == commands_view(old(out)@) + crate::viewer::newline_start(old(self)@.line),
            commands_view(final(out)@) == before_open@.push(CommandView::Open(quote_scope(alert))),
            scope_run(commands_view(final(out)@)) == scope_run(before_open@.push(
                CommandView::Open(quote_scope(alert)),
            )),
            scope_run(before_open@) == scope_run(commands_view(old(out)@)),
    {
        if self.line.try_insert_start() {
            push_command(out, RenderCommand::Newline);
        }
        assert(commands_view(out@) =~= commands_view(old(out)@) + crate::viewer::newline_start(
            old(self)@.line,
        ));
        self.line.should_not_start_newline_forced = false;
        let ghost before = commands_view(out@);
        match alert {
            Some(i) => push_command(out, RenderCommand::Open(Scope::Alert(i))),
            None => {
                push_command(out, RenderCommand::Open(Scope::Quote));
                self.text_style.quote = true;
            },
        }
        Ghost(before)
    }

    /// Closes a block quote, as `quote_exit` says: quote style off after a
    /// plain quote, the scope closed, and a newline when one may end there.
    #[verifier::rlimit(40)]
    fn quote_finish(&mut self, alert: Option<usize>, at_end: bool, out: &mut Vec<RenderCommand>)
        ensures
            final(self)@ == quote_exit(old(self)@, alert, at_end),
            commands_view(final(out)@) == commands_view(old(out)@).push(CommandView::Close(quote_scope(alert)))
                + crate::viewer::newline_end(final(self)@.line),
            scope_run(commands_view(final(out)@)) == scope_run(commands_view(old(out)@).push(
                CommandView::Close(quote_scope(alert)),
            )),
            final(self).curr_table == old(self).curr_table,
    {
        match alert {
            Some(i) => push_command(out, RenderCommand::Close(Scope::Alert(i))),
            None => {
                self.text_style.quote = false;
                push_command(out, RenderCommand::Close(Scope::Quote));
            },
        }
        if at_end {
            self.line.should_end_newline_forced = false;
        }
        let ghost closed = commands_view(out@);
        if self.line.try_insert_end() {
            push_command(out, RenderCommand::Newline);
        }
        assert(commands_view(out@) =~= closed + crate::viewer::newline_end(self@.line));
        self.is_blockquote = false;
    }

    /// Draws the events of a block quote in its scope, as `quote_draw_spec`
    /// says.
    #[verifier::rlimit(40)]
    fn quote_draw(
        &mut self,
        body: &Vec<SpannedEvent>,
        alert: Option<usize>,
        at_end: bool,
        options: &RenderOptions,
        out: &mut Vec<RenderCommand>,
    ) -> (r: Result<(), RenderError>)
        ensures
            r is Ok ==> keeps_scopes(old(out)@, final(out)@),
            r is Err ==> r == Err::<(), RenderError>(RenderError::ListItem),
            final(self).curr_table == old(self).curr_table,
            r is Ok ==> prepend(
                commands_view(old(out)@),
                quote_draw_spec(old(self)@, body@, alert, at_end, options@),
            ) == Some((final(self)@, commands_view(final(out)@))),
            r is Err ==> quote_draw_spec(old(self)@, body@, alert, at_end, options@) is None,
    {
        let ghost out0 = commands_view(out@);
        let ghost k = quote_scope(alert);
        let Ghost(before_open) = self.quote_begin(alert, out);
        let ghost after_open = commands_view(out@);
        let ghost s1 = self@;
        match self.fold_events(body, options, out) {
            Ok(()) => {},
            Err(err) => return Err(err),
        }
        let ghost s2 = self@;
        let ghost mid = commands_view(out@);
        let ghost c1 = mid.subrange(after_open.len() as int, mid.len() as int);
        proof {
            lemma_prepend_split(after_open, fold_events(s1, events_view(body@), options@), s2, mid);
            assert(mid =~= after_open + c1);
        }
        self.quote_finish(alert, at_end, out);
        proof {
            lemma_open_close(before_open, mid, k);
            let ns = crate::viewer::newline_start(old(self)@.line);
            let ne = crate::viewer::newline_end(self@.line);
            assert(commands_view(out@) =~= out0 + (ns + seq![CommandView::Open(k)] + c1 + seq![
                CommandView::Close(k),
            ] + ne));
        }
        Ok(())
    }

    /// After the start of a block quote: draws the quote's events inside the
    /// scope of the alert it announces (without the marker) or in a quote
    /// scope in quote style, as `blockquote_spec` says. Nothing happens when
    /// no quote started.
    pub fn blockquote(
        &mut self,
        events: &Vec<SpannedEvent>,
        pos: usize,
        end: usize, tail: bool,
        options: &RenderOptions,
        out: &mut Vec<RenderCommand>,
    ) -> (r: Result<usize, RenderError>)
        requires
            pos <= end <= events.len(),
        ensures
            !old(self).is_blockquote ==> r == Ok::<usize, RenderError>(pos) && final(self)@ == old(
                self,
            )@ && final(out)@ == old(out)@,
            r matches Ok(p) ==> pos <= p <= end,
            r is Ok ==> keeps_scopes(old(out)@, final(out)@),
            r is Err ==> r == Err::<usize, RenderError>(RenderError::ListItem),
            final(self).curr_table == old(self).curr_table,
            r matches Ok(p) ==> prepend3(
                commands_view(old(out)@),
                blockquote_spec(old(self)@, events@, pos as int, end as int, tail, options@),
            ) == Some((final(self)@, commands_view(final(out)@), p as int)),
            r is Err ==> blockquote_spec(old(self)@, events@, pos as int, end as int, tail, options@) is None,
    {
        if !self.is_blockquote {
            proof {
                lemma_quote_idle(old(self)@, events@, pos as int, end as int, tail, options@);
            }
            assert(commands_view(out@) + Seq::<CommandView>::empty() =~= commands_view(out@));
            return Ok(pos);
        }
        proof {
            lemma_quote_drawn(old(self)@, events@, pos as int, end as int, tail, options@);
        }
        let (mut collected, next) = delayed_events(events, pos, end, MdTagEnd::BlockQuote);
        let ghost col = collected@;
        assert(col == events@.subrange(pos as int, pos + quote_len(events@, pos as int, end as int)));
        let alert = parse_alerts(&options.alerts, &mut collected);
        assert(alert == quote_alert(col, options@.alerts));
        assert(collected@ == quote_body(col, alert));
        match self.quote_draw(&collected, alert, tail && next >= end, options, out) {
            Ok(()) => {},
            Err(err) => return Err(err),
        }
        Ok(next)
    }

    /// One event of a table cell, as `cell_step` says.
    #[verifier::rlimit(40)]
    fn cell_event(&mut self, e: SpannedEvent, options: &RenderOptions, out: &mut Vec<RenderCommand>) -> (r:
        Result<(), RenderError>)
        ensures
            keeps_scopes(old(out)@, final(out)@),
            r is Err ==> r == Err::<(), RenderError>(RenderError::ListItem),
            final(self).curr_table == old(self).curr_table,
            r is Ok <==> cell_step(old(self)@, (e.0@, e.1), options@) is Some,
            r is Ok ==> ({
                let (s1, c1) = cell_step(old(self)@, (e.0@, e.1), options@).unwrap();
                &&& final(self)@ == s1
                &&& commands_view(final(out)@) == commands_view(old(out)@) + c1
            }),
    {
        if is_cell_delim(&e.0) {
            assert(commands_view(out@) =~= commands_view(old(out)@) + Seq::<CommandView>::empty());
            return Ok(());
        }
        let ghost s0 = self@;
        let ghost ev = e.0@;
        let ghost quiet = crate::viewer::ViewerState { line: crate::viewer::line_with(s0.line, false), ..s0 };
        let tmp_start = self.line.should_start_newline;
        let tmp_end = self.line.should_end_newline;
        self.line.should_start_newline = false;
        self.line.should_end_newline = false;
        assert(self@ == quiet);
        match self.checked_event(e.0, e.1, options, out) {
            Ok(()) => {},
            Err(err) => {
                return Err(err);
            },
        }
        let ghost s2 = self@;
        self.line.should_start_newline = tmp_start;
        self.line.should_end_newline = tmp_end;
        assert(self@ == crate::viewer::ViewerState {
            line: crate::newline::Newline {
                should_start_newline: s0.line.should_start_newline,
                should_end_newline: s0.line.should_end_newline,
                ..s2.line
            },
            ..s2
        });
        Ok(())
    }

    /// Draws the events of one table cell, leaving out the events that open
    /// and close cells, with the element newlines switched off, as
    /// `cell_fold` says.
    fn cell_events(&mut self, col: &Column, options: &RenderOptions, out: &mut Vec<RenderCommand>) -> (r:
        Result<(), RenderError>)
        ensures
            keeps_scopes(old(out)@, final(out)@),
            r is Err ==> r == Err::<(), RenderError>(RenderError::ListItem),
            final(self).curr_table == old(self).curr_table,
            r is Ok ==> prepend(
                commands_view(old(out)@),
                cell_fold(old(self)@, events_view(col@), options@),
            ) == Some((final(self)@, commands_view(final(out)@))),
            r is Err ==> cell_fold(old(self)@, events_view(col@), options@) is None,
    {
        let ghost ev = events_view(col@);
        let mut i: usize = 0;
        proof {
            assert(ev.subrange(0, ev.len() as int) =~= ev);
        }
        while i < col.len()
            invariant
                i <= col.len(),
                ev == events_view(col@),
                self.curr_table == old(self).curr_table,
                keeps_scopes(old(out)@, out@),
                prepend(commands_view(old(out)@), cell_fold(old(self)@, ev, options@)) == prepend(
                    commands_view(out@),
                    cell_fold(self@, ev.subrange(i as int, ev.len() as int), options@),
                ),
            decreases col.len() - i,
        {
            let ghost rest = ev.subrange(i as int, ev.len() as int);
            let ghost s0 = self@;
            let ghost out0 = commands_view(out@);
            assert(rest[0] == ev[i as int]);
            assert(rest.drop_first() =~= ev.subrange(i + 1, ev.len() as int));
            let e = duplicate_spanned(&col[i]);
            match self.cell_event(e, options, out) {
                Ok(()) => {},
                Err(err) => {
                    return Err(err);
                },
            }
            proof {
                let (s1, c1) = cell_step(s0, ev[i as int], options@).unwrap();
                lemma_prepend_assoc(out0, c1, cell_fold(s1, rest.drop_first(), options@));
            }
            i = i + 1;
        }
        proof {
            assert(ev.subrange(i as int, ev.len() as int).len() == 0);
            assert(commands_view(out@) + Seq::<CommandView>::empty() =~= commands_view(out@));
        }
        Ok(())
    }

    /// Draws the cells of one row, each in a cell scope, up to `num_cols`,
    /// as `row_fold` says.
    fn row_cells(
        &mut self,
        row: &Row,
        num_cols: usize,
        options: &RenderOptions,
        out: &mut Vec<RenderCommand>,
    ) -> (r: Result<(), RenderError>)
        ensures
            r is Ok ==> keeps_scopes(old(out)@, final(out)@),
            r is Err ==> r == Err::<(), RenderError>(RenderError::ListItem),
            final(self).curr_table == old(self).curr_table,
            r is Ok ==> prepend(
                commands_view(old(out)@),
                row_fold(old(self)@, row_events_view(row@), 0, num_cols as int, options@),
            ) == Some((final(self)@, commands_view(final(out)@))),
            r is Err ==> row_fold(old(self)@, row_events_view(row@), 0, num_cols as int, options@) is None,
    {
        let ghost cells = row_events_view(row@);
        let mut c: usize = 0;
        while c < row.len() && c < num_cols
            invariant
                c <= row.len(),
                cells == row_events_view(row@),
                self.curr_table == old(self).curr_table,
                keeps_scopes(old(out)@, out@),
                prepend(
                    commands_view(old(out)@),
                    row_fold(old(self)@, cells, 0, num_cols as int, options@),
                ) == prepend(commands_view(out@), row_fold(self@, cells, c as int, num_cols as int, options@)),
            decreases row.len() - c,
        {
            let ghost s0 = self@;
            let ghost before_open = commands_view(out@);
            push_command(out, RenderCommand::Open(Scope::Cell(c)));
            let ghost after_open = commands_view(out@);
            match self.cell_events(&row[c], options, out) {
                Ok(()) => {},
                Err(err) => return Err(err),
            }
            let ghost mid = commands_view(out@);
            push_command(out, RenderCommand::Close(Scope::Cell(c)));
            proof {
                lemma_open_close(before_open, mid, Scope::Cell(c));
                let (s1, c1) = cell_fold(s0, cells[c as int], options@).unwrap();
                assert(mid == after_open + c1);
                let wrapped = seq![CommandView::Open(Scope::Cell(c))] + c1 + seq![
                    CommandView::Close(Scope::Cell(c)),
                ];
                assert(commands_view(out@) =~= before_open + wrapped);
                lemma_prepend_assoc(before_open, wrapped, row_fold(s1, cells, c + 1, num_cols as int, options@));
            }
            c = c + 1;
        }
        proof {
            lemma_prepend_empty(Some((self@, Seq::<CommandView>::empty())));
            assert(commands_view(out@) + Seq::<CommandView>::empty() =~= commands_view(out@));
        }
        Ok(())
    }

    /// The inside of a table's scope, as `table_draw_spec` says.
    #[verifier::rlimit(40)]
    fn table_draw(&mut self, table: &Table, id: usize, options: &RenderOptions, out: &mut Vec<RenderCommand>) -> (r:
        Result<(), RenderError>)
        ensures
            r is Ok ==> keeps_scopes(old(out)@, final(out)@),
            r is Err ==> r == Err::<(), RenderError>(RenderError::ListItem),
            final(self).curr_table == old(self).curr_table,
            r is Ok ==> prepend(
                commands_view(old(out)@),
                table_draw_spec(
                    old(self)@,
                    id,
                    row_events_view(table.header@),
                    rows_events_view(table.rows@),
                    options@,
                ),
            ) == Some((final(self)@, commands_view(final(out)@))),
            r is Err ==> table_draw_spec(
                old(self)@,
                id,
                row_events_view(table.header@),
                rows_events_view(table.rows@),
                options@,
            ) is None,
    {
        let ghost th = row_events_view(table.header@);
        let ghost tr = rows_events_view(table.rows@);
        let num_cols = if table.header.len() > 1 {
            table.header.len()
        } else {
            1
        };
        assert(num_cols == column_count(th));
        let ghost out0 = commands_view(out@);
        let layout = table_layout(table, id, num_cols);
        let ghost layout_v = layout@;
        push_command(out, RenderCommand::TableInfo(layout));
        let ghost before_header = commands_view(out@);
        push_command(out, RenderCommand::Open(Scope::HeaderRow));
        let ghost after_header = commands_view(out@);
        let ghost s1 = self@;
        match self.row_cells(&table.header, num_cols, options, out) {
            Ok(()) => {},
            Err(err) => return Err(err),
        }
        let ghost s2 = self@;
        let ghost mid = commands_view(out@);
        push_command(out, RenderCommand::Close(Scope::HeaderRow));
        proof {
            lemma_open_close(before_header, mid, Scope::HeaderRow);
        }
        push_command(out, RenderCommand::Separator);
        let ghost before_rows = commands_view(out@);
        match self.table_rows(&table.rows, num_cols, options, out) {
            Ok(()) => {},
            Err(err) => return Err(err),
        }
        proof {
            let (s2x, ch) = crate::flow::row_fold(s1, th, 0, num_cols as int, options@).unwrap();
            let (s3x, cr) = rows_fold(s2x, tr, 0, num_cols as int, options@).unwrap();
            assert(mid == after_header + ch);
            assert(commands_view(out@) == before_rows + cr);
            assert(commands_view(out@) =~= out0 + (seq![
                CommandView::TableInfo(layout_spec(id, num_cols, th, tr)),
                CommandView::Open(Scope::HeaderRow),
            ] + ch + seq![CommandView::Close(Scope::HeaderRow), CommandView::Separator] + cr));
        }
        Ok(())
    }

    /// Draws the body rows, each in its row scope, as `rows_fold` says.
    fn table_rows(
        &mut self,
        rows: &Vec<Row>,
        num_cols: usize,
        options: &RenderOptions,
        out: &mut Vec<RenderCommand>,
    ) -> (r: Result<(), RenderError>)
        ensures
            r is Ok ==> keeps_scopes(old(out)@, final(out)@),
            r is Err ==> r == Err::<(), RenderError>(RenderError::ListItem),
            final(self).curr_table == old(self).curr_table,
            r is Ok ==> prepend(
                commands_view(old(out)@),
                rows_fold(old(self)@, rows_events_view(rows@), 0, num_cols as int, options@),
            ) == Some((final(self)@, commands_view(final(out)@))),
            r is Err ==> rows_fold(old(self)@, rows_events_view(rows@), 0, num_cols as int, options@) is None,
    {
        let ghost rs = rows_events_view(rows@);
        let mut r: usize = 0;
        while r < rows.len()
            invariant
                r <= rows.len(),
                rs == rows_events_view(rows@),
                self.curr_table == old(self).curr_table,
                keeps_scopes(old(out)@, out@),
                prepend(
                    commands_view(old(out)@),
                    rows_fold(old(self)@, rs, 0, num_cols as int, options@),
                ) == prepend(commands_view(out@), rows_fold(self@, rs, r as int, num_cols as int, options@)),
            decreases rows.len() - r,
        {
            let ghost s0 = self@;
            let ghost before_open = commands_view(out@);
            push_command(out, RenderCommand::Open(Scope::BodyRow(r)));
            let ghost after_open = commands_view(out@);
            match self.row_cells(&rows[r], num_cols, options, out) {
                Ok(()) => {},
                Err(err) => return Err(err),
            }
            let ghost mid = commands_view(out@);
            push_command(out, RenderCommand::Close(Scope::BodyRow(r)));
            proof {
                lemma_open_close(before_open, mid, Scope::BodyRow(r));
                let (s1, c1) = crate::flow::row_fold(s0, rs[r as int], 0, num_cols as int, options@).unwrap();
                assert(mid == after_open + c1);
                let wrapped = seq![CommandView::Open(Scope::BodyRow(r))] + c1 + seq![
                    CommandView::Close(Scope::BodyRow(r)),
                ];
                assert(commands_view(out@) =~= before_open + wrapped);
                lemma_prepend_assoc(before_open, wrapped, rows_fold(s1, rs, r + 1, num_cols as int, options@));
            }
            r = r + 1;
        }
        proof {
            assert(commands_view(out@) + Seq::<CommandView>::empty() =~= commands_view(out@));
        }
        Ok(())
    }

    /// Opens a table: a newline when one may start, the table counted, and
    /// its scope opened. Returns the commands as they were before the scope.
    fn table_begin(&mut self, out: &mut Vec<RenderCommand>) -> (r: (usize, Ghost<Seq<CommandView>>))
        requires
            old(self).curr_table < usize::MAX,
        ensures
            r.0 == old(self).curr_table,
            final(self)@ == (crate::viewer::ViewerState {
                curr_table: (old(self).curr_table + 1) as usize,
                ..old(self)@
            }),
            r.1@ == commands_view(old(out)@) + crate::viewer::newline_start(old(self)@.line),
            commands_view(final(out)@) == r.1@.push(CommandView::Open(Scope::Table(r.0))),
            scope_run(r.1@) == scope_run(commands_view(old(out)@)),
    {
        if self.line.try_insert_start() {
            push_command(out, RenderCommand::Newline);
        }
        assert(commands_view(out@) =~= commands_view(old(out)@) + crate::viewer::newline_start(
            old(self)@.line,
        ));
        let id = self.curr_table;
        self.curr_table = self.curr_table + 1;
        let ghost before = commands_view(out@);
        push_command(out, RenderCommand::Open(Scope::Table(id)));
        (id, Ghost(before))
    }

    /// Closes a table, as `table_exit` says, with a newline when one may
    /// end there.
    fn table_finish(&mut self, id: usize, at_end: bool, out: &mut Vec<RenderCommand>)
        ensures
            final(self)@ == table_exit(old(self)@, at_end),
            commands_view(final(out)@) == commands_view(old(out)@).push(CommandView::Close(Scope::Table(id)))
                + crate::viewer::newline_end(final(self)@.line),
            scope_run(commands_view(final(out)@)) == scope_run(commands_view(old(out)@).push(
                CommandView::Close(Scope::Table(id)),
            )),
    {
        push_command(out, RenderCommand::Close(Scope::Table(id)));
        self.is_table = false;
        if at_end {
            self.line.should_end_newline_forced = false;
        }
        let ghost closed = commands_view(out@);
        if self.line.try_insert_end() {
            push_command(out, RenderCommand::Newline);
        }
        assert(commands_view(out@) =~= closed + crate::viewer::newline_end(self@.line));
    }

    /// After the start of a table: gathers its events, trims the spaces
    /// around each cell's content, hands over what sizing the columns needs,
    /// and draws the header row, a separator and the body rows, as
    /// `table_spec` says. Nothing happens when no table has started.
    #[verifier::rlimit(40)]
    pub fn table(
        &mut self,
        events: &Vec<SpannedEvent>,
        pos: usize,
        end: usize, tail: bool,
        options: &RenderOptions,
        out: &mut Vec<RenderCommand>,
    ) -> (r: Result<usize, RenderError>)
        requires
            pos <= end <= events.len(),
        ensures
            !old(self).is_table ==> r == Ok::<usize, RenderError>(pos) && final(self)@ == old(
                self,
            )@ && final(out)@ == old(out)@,
            old(self).is_table && r is Ok ==> r == Ok::<usize, RenderError>(
                (pos + prefix_until(
                    events@.subrange(pos as int, end as int),
                    stop_at_end(MdTagEnd::Table),
                )) as usize,
            ),
            old(self).is_table && r is Ok ==> final(self).curr_table == old(self).curr_table + 1,
            old(self).is_table && r is Ok ==> !final(self).is_table,
            r == Err::<usize, RenderError>(RenderError::TableCount) ==> old(self).curr_table
                == usize::MAX,
            r matches Ok(p) ==> pos <= p <= end,
            r is Ok ==> keeps_scopes(old(out)@, final(out)@),
            r matches Ok(p) ==> prepend3(
                commands_view(old(out)@),
                table_spec(old(self)@, events@, pos as int, end as int, tail, options@),
            ) == Some((final(self)@, commands_view(final(out)@), p as int)),
            r is Err ==> table_spec(old(self)@, events@, pos as int, end as int, tail, options@) is None,
    {
        proof {
            reveal(table_spec);
        }
        if !self.is_table {
            assert(commands_view(out@) + Seq::<CommandView>::empty() =~= commands_view(out@));
            return Ok(pos);
        }
        if self.curr_table == usize::MAX {
            return Err(RenderError::TableCount);
        }
        let ghost out0 = commands_view(out@);
        let (id, Ghost(before_table)) = self.table_begin(out);
        let ghost after_table = commands_view(out@);
        let ghost s1 = self@;
        let (table, next) = table_parts(events, pos, end);
        match self.table_draw(&table, id, options, out) {
            Ok(()) => {},
            Err(err) => return Err(err),
        }
        let ghost mid2 = commands_view(out@);
        self.table_finish(id, tail && next >= end, out);
        proof {
            lemma_open_close(before_table, mid2, Scope::Table(id));
            let (n, th, tr) = table_cells(events@, pos as int, end as int);
            let (s3, c) = table_draw_spec(s1, id, th, tr, options@).unwrap();
            assert(mid2 == after_table + c);
            assert(commands_view(out@) =~= out0 + (crate::viewer::newline_start(old(self)@.line)
                + seq![CommandView::Open(Scope::Table(id))] + c + seq![
                CommandView::Close(Scope::Table(id)),
            ] + crate::viewer::newline_end(self@.line)));
        }
        Ok(next)
    }
}

impl CommonMarkViewerInternal {
    /// Before the event at `p` of a document: its start marked when marks
    /// are recorded, and the newline at the end of the document switched off
    /// before the last event.
    fn begin_event(&mut self, p: usize, end: usize, record_split_points: bool, out: &mut Vec<RenderCommand>)
        ensures
            final(self)@ == show_entry(old(self)@, p as int, end as int),
            commands_view(final(out)@) == commands_view(old(out)@) + start_mark(record_split_points, p as int),
            keeps_scopes(old(out)@, final(out)@),
    {
        if record_split_points {
            push_command(out, RenderCommand::EventStart(p));
        }
        assert(commands_view(out@) =~= commands_view(old(out)@) + start_mark(record_split_points, p as int));
        if p >= end || end - p <= 1 {
            self.line.should_end_newline_forced = false;
        }
    }

    /// After the event at `p` of a document: a split point when marks are
    /// recorded and `split` holds, and the newline before the first widget
    /// switched on after the event with index 0.
    fn end_event(&mut self, p: usize, split: bool, record_split_points: bool, out: &mut Vec<RenderCommand>)
        ensures
            final(self)@ == show_exit(old(self)@, p as int),
            commands_view(final(out)@) == commands_view(old(out)@) + (if record_split_points && split {
                seq![CommandView::SplitPoint(p)]
            } else {
                Seq::<CommandView>::empty()
            }),
            keeps_scopes(old(out)@, final(out)@),
    {
        if record_split_points && split {
            push_command(out, RenderCommand::SplitPoint(p));
        }
        assert(commands_view(out@) =~= commands_view(old(out)@) + (if record_split_points && split {
            seq![CommandView::SplitPoint(p)]
        } else {
            Seq::<CommandView>::empty()
        }));
        if p == 0 {
            self.line.should_not_start_newline_forced = false;
        }
    }

    /// Draws the event at `p` of a document and the block it opens, with
    /// the marks around it that `show_spec` asks for. Returns the position
    /// after the events used.
    fn show_event(
        &mut self,
        events: &Vec<SpannedEvent>,
        p: usize,
        end: usize,
        record_split_points: bool,
        options: &RenderOptions,
        out: &mut Vec<RenderCommand>,
    ) -> (r: Result<usize, RenderError>)
        requires
            p < end <= events.len(),
        ensures
            r matches Ok(q) ==> p < q <= end,
            r is Ok ==> keeps_scopes(old(out)@, final(out)@),
            r matches Ok(q) ==> prepend3(
                commands_view(old(out)@),
                show_event_spec(old(self)@, events@, p as int, end as int, record_split_points, options@),
            ) == Some((final(self)@, commands_view(final(out)@), q as int)),
            r is Err ==> show_event_spec(old(self)@, events@, p as int, end as int, record_split_points, options@) is None,
    {
        let ghost s0 = self@;
        let ghost o0 = commands_view(out@);
        let is_element_end = matches!(events[p].0, MdEvent::End(_));
        let split = self.list.is_inside_a_list() && is_element_end;
        assert(split == (s0.list.levels.len() > 0 && events@[p as int].0 is End));
        self.begin_event(p, end, record_split_points, out);
        let ghost s1 = self@;
        let ghost oa = commands_view(out@);
        let q = match self.process_event(events, p, end, true, options, out) {
            Ok(q) => q,
            Err(err) => return Err(err),
        };
        let ghost s2 = self@;
        let ghost ob = commands_view(out@);
        self.end_event(p, split, record_split_points, out);
        proof {
            lemma_prepend3_split(oa, process_spec(s1, events@, p as int, end as int, true, options@), s2, ob, q as int);
            let c1 = ob.subrange(oa.len() as int, ob.len() as int);
            assert(commands_view(out@) =~= o0 + (start_mark(record_split_points, p as int) + c1 + split_mark(
                record_split_points,
                s0,
                events@,
                p as int,
            )));
        }
        Ok(q)
    }

    /// Draws the events `events[start..end]`, one event (and the block it
    /// opens) after the other, as `show_spec` says. Before the last of them,
    /// the element newline at the end of the document is switched off; after
    /// the event with index 0, the one before the first widget is switched
    /// on. When `record_split_points` holds, each event's drawing is marked
    /// with its index, and each end tag met inside a list is marked as a
    /// split point.
    pub fn show_range(
        &mut self,
        events: &Vec<SpannedEvent>,
        start: usize,
        end: usize,
        record_split_points: bool,
        options: &RenderOptions,
        out: &mut Vec<RenderCommand>,
    ) -> (r: Result<(), RenderError>)
        requires
            start <= end <= events.len(),
        ensures
            r is Ok ==> keeps_scopes(old(out)@, final(out)@),
            r is Ok ==> prepend(
                commands_view(old(out)@),
                show_spec(old(self)@, events@, start as int, end as int, record_split_points, options@),
            ) == Some((final(self)@, commands_view(final(out)@))),
            r is Err ==> show_spec(
                old(self)@,
                events@,
                start as int,
                end as int,
                record_split_points,
                options@,
            ) is None,
    {
        let mut p = start;
        while p < end
            invariant
                start <= p <= end <= events.len(),
                keeps_scopes(old(out)@, out@),
                prepend(
                    commands_view(old(out)@),
                    show_spec(old(self)@, events@, start as int, end as int, record_split_points, options@),
                ) == prepend(
                    commands_view(out@),
                    show_spec(self@, events@, p as int, end as int, record_split_points, options@),
                ),
            decreases end - p,
        {
            let ghost s0 = self@;
            let ghost o0 = commands_view(out@);
            proof {
                lemma_show_step(s0, events@, p as int, end as int, record_split_points, options@);
            }
            let q = match self.show_event(events, p, end, record_split_points, options, out) {
                Ok(q) => q,
                Err(err) => return Err(err),
            };
            proof {
                let (s3, c, q3) = show_event_spec(s0, events@, p as int, end as int, record_split_points, options@).unwrap();
                lemma_prepend_assoc(o0, c, show_spec(self@, events@, q as int, end as int, record_split_points, options@));
            }
            p = q;
        }
        proof {
            lemma_show_done(self@, events@, end as int, record_split_points, options@);
            assert(commands_view(out@) + Seq::<CommandView>::empty() =~= commands_view(out@));
        }
        Ok(())
    }

    /// Draws a whole document: the commands to carry out, in order, as
    /// `show_spec` says. Every layout scope they open is closed again,
    /// innermost first.
    pub fn show(
        &mut self,
        events: &Vec<SpannedEvent>,
        record_split_points: bool,
        options: &RenderOptions,
    ) -> (r: Result<Vec<RenderCommand>, RenderError>)
        ensures
            r matches Ok(c) ==> show_spec(old(self)@, events@, 0, events.len() as int, record_split_points, options@)
                == Some((final(self)@, commands_view(c@))),
            r is Err ==> show_spec(old(self)@, events@, 0, events.len() as int, record_split_points, options@) is None,
            r matches Ok(c) ==> well_nested(commands_view(c@)),
            r is Ok ==> kept(old(self)@, final(self)@, options@),
    {
        proof {
            lemma_show_kept(self@, events@, 0, events.len() as int, record_split_points, options@);
        }
        let mut out: Vec<RenderCommand> = Vec::new();
        assert(commands_view(out@) =~= Seq::<CommandView>::empty());
        match self.show_range(events, 0, events.len(), record_split_points, options, &mut out) {
            Ok(()) => {
                proof {
                    lemma_prepend_empty(show_spec(old(self)@, events@, 0, events.len() as int, record_split_points, options@));
                }
                Ok(out)
            },
            Err(err) => Err(err),
        }
    }

    /// Parses `text`, with math when `options` has a math handler, and shows
    /// all its events. Returns the events with what `show` gives for them.
    pub fn show_text(&mut self, text: &str, record_split_points: bool, options: &RenderOptions) -> (r: (
        Vec<SpannedEvent>,
        Result<Vec<RenderCommand>, RenderError>,
    ))
        ensures
            events_view(r.0@) == markdown_events(text@, options_for(options.math_handler)),
            r.1 matches Ok(c) ==> show_spec(old(self)@, r.0@, 0, r.0.len() as int, record_split_points, options@)
                == Some((final(self)@, commands_view(c@))),
            r.1 is Err ==> show_spec(old(self)@, r.0@, 0, r.0.len() as int, record_split_points, options@) is None,
            r.1 matches Ok(c) ==> well_nested(commands_view(c@)),
            r.1 is Ok ==> kept(old(self)@, final(self)@, options@),
    {
        let events = parse_events(text, options.math_handler);
        let shown = self.show(&events, record_split_points, options);
        (events, shown)
    }

    /// Records a click on a task list checkbox.
    pub fn checkbox_clicked(&mut self, checked: bool, span: SourceSpan)
        ensures
            final(self)@ == (crate::viewer::ViewerState {
                checkbox_events: old(self)@.checkbox_events.push(CheckboxClickEvent { checked, span }),
                ..old(self)@
            }),
    {
        self.checkbox_events.push(CheckboxClickEvent { checked, span });
    }

    /// Hands over the recorded checkbox clicks and forgets them.
    pub fn take_checkbox_events(&mut self) -> (r: Vec<CheckboxClickEvent>)
        ensures
            r@ == old(self)@.checkbox_events,
            final(self)@ == (crate::viewer::ViewerState {
                checkbox_events: Seq::empty(),
                ..old(self)@
            }),
    {
        let mut taken = Vec::new();
        std::mem::swap(&mut taken, &mut self.checkbox_events);
        taken
    }
}

/// The events of a table that starts at `pos`, split into rows and trimmed,
/// as `table_cells` says, and the position after them.
pub fn table_parts(events: &Vec<SpannedEvent>, pos: usize, end: usize) -> (r: (Table, usize))
    requires
        pos <= end <= events.len(),
    ensures
        r.1 == pos + table_cells(events@, pos as int, end as int).0,
        r.1 <= end,
        row_events_view(r.0.header@) == table_cells(events@, pos as int, end as int).1,
        rows_events_view(r.0.rows@) == table_cells(events@, pos as int, end as int).2,
{
    let (parsed, next) = parse_table(events, pos, end);
    let table = trim_table(&parsed);
    proof {
        assert(row_events_view(parsed.header@) =~= cells_view(row_view(parsed.header@)));
        let a = rows_events_view(parsed.rows@);
        let b = rows_view(parsed.rows@).map_values(|r: Seq<Seq<SpannedEvent>>| cells_view(r));
        assert forall|k: int| 0 <= k < a.len() implies a[k] == b[k] by {
            assert(a[k] =~= b[k]);
        }
        assert(a =~= b);
    }
    (table, next)
}

/// What sizing the columns of a table needs, as `layout_spec` says.
pub fn table_layout(table: &Table, id: usize, num_cols: usize) -> (r: TableLayout)
    ensures
        r@ == layout_spec(id, num_cols, row_events_view(table.header@), rows_events_view(table.rows@)),
{
    let key = table_key(num_cols, table);
    let ghost th = row_events_view(table.header@);
    let mut header: Vec<Vec<MeasureWidget>> = Vec::new();
    let mut c: usize = 0;
    while c < table.header.len() && c < num_cols
        invariant
            c <= table.header.len(),
            c <= num_cols,
            th == row_events_view(table.header@),
            row_widgets_view(header@) == th.take(c as int).map_values(
                |x: Seq<(EventView, SourceSpan)>| cell_widgets_spec(x),
            ),
        decreases table.header.len() - c,
    {
        let ghost before = row_widgets_view(header@);
        let w = cell_widgets(&table.header[c]);
        let ghost wv = widgets_view(w@);
        header.push(w);
        assert(row_widgets_view(header@) =~= before.push(wv));
        assert(th[c as int] == events_view(table.header@[c as int]@));
        assert(th.take(c + 1) =~= th.take(c as int).push(th[c as int]));
        c = c + 1;
        assert(row_widgets_view(header@) =~= th.take(c as int).map_values(
            |x: Seq<(EventView, SourceSpan)>| cell_widgets_spec(x),
        ));
    }
    assert(row_widgets_view(header@) =~= row_widgets(th, num_cols as int));
    let ghost tr = rows_events_view(table.rows@);
    let mut rows: Vec<Vec<Vec<MeasureWidget>>> = Vec::new();
    let mut r: usize = 0;
    while r < table.rows.len()
        invariant
            r <= table.rows.len(),
            tr == rows_events_view(table.rows@),
            rows@.map_values(|x: Vec<Vec<MeasureWidget>>| row_widgets_view(x@)) == tr.take(
                r as int,
            ).map_values(|x: Seq<Seq<(EventView, SourceSpan)>>| row_widgets(x, num_cols as int)),
        decreases table.rows.len() - r,
    {
        let ghost row = tr[r as int];
        let mut cells: Vec<Vec<MeasureWidget>> = Vec::new();
        let mut c: usize = 0;
        while c < table.rows[r].len() && c < num_cols
            invariant
                r < table.rows.len(),
                c <= table.rows@[r as int].len(),
                c <= num_cols,
                row == row_events_view(table.rows@[r as int]@),
                row_widgets_view(cells@) == row.take(c as int).map_values(
                    |x: Seq<(EventView, SourceSpan)>| cell_widgets_spec(x),
                ),
            decreases table.rows@[r as int].len() - c,
        {
            let ghost before = row_widgets_view(cells@);
            let w = cell_widgets(&table.rows[r][c]);
            let ghost wv = widgets_view(w@);
            cells.push(w);
            assert(row_widgets_view(cells@) =~= before.push(wv));
            assert(row[c as int] == events_view(table.rows@[r as int]@[c as int]@));
            assert(row.take(c + 1) =~= row.take(c as int).push(row[c as int]));
            c = c + 1;
            assert(row_widgets_view(cells@) =~= row.take(c as int).map_values(
                |x: Seq<(EventView, SourceSpan)>| cell_widgets_spec(x),
            ));
        }
        assert(row_widgets_view(cells@) =~= row_widgets(row, num_cols as int));
        let ghost before_rows = rows@.map_values(|x: Vec<Vec<MeasureWidget>>| row_widgets_view(x@));
        let ghost cv = row_widgets_view(cells@);
        rows.push(cells);
        assert(rows@.map_values(|x: Vec<Vec<MeasureWidget>>| row_widgets_view(x@)) =~= before_rows.push(cv));
        assert(tr.take(r + 1) =~= tr.take(r as int).push(tr[r as int]));
        r = r + 1;
        assert(rows@.map_values(|x: Vec<Vec<MeasureWidget>>| row_widgets_view(x@)) =~= tr.take(
            r as int,
        ).map_values(|x: Seq<Seq<(EventView, SourceSpan)>>| row_widgets(x, num_cols as int)));
    }
    assert(tr.take(r as int) =~= tr);
    TableLayout { id, num_cols, header, rows, key }
}

/// A copy of a row whose cells have the spaces around their content removed.
pub fn trim_row(row: &Row) -> (r: Row)
    ensures
        row_events_view(r@) == trimmed_row(row_events_view(row@)),
{
    let mut out: Row = Vec::new();
    let mut c: usize = 0;
    while c < row.len()
        invariant
            c <= row.len(),
            row_events_view(out@) == trimmed_row(row_events_view(row@)).subrange(0, c as int),
        decreases row.len() - c,
    {
        let mut col: Column = Vec::new();
        let mut i: usize = 0;
        while i < row[c].len()
            invariant
                i <= row@[c as int].len(),
                c < row.len(),
                col@ == row@[c as int]@.subrange(0, i as int),
            decreases row@[c as int].len() - i,
        {
            col.push(duplicate_spanned(&row[c][i]));
            i = i + 1;
            assert(col@ =~= row@[c as int]@.subrange(0, i as int));
        }
        assert(col@ =~= row@[c as int]@);
        trim_cell(&mut col);
        let ghost before = row_events_view(out@);
        out.push(col);
        assert(row_events_view(out@) =~= before.push(events_view(col@)));
        c = c + 1;
        assert(row_events_view(out@) =~= trimmed_row(row_events_view(row@)).subrange(0, c as int));
    }
    assert(trimmed_row(row_events_view(row@)).subrange(0, c as int) =~= trimmed_row(
        row_events_view(row@),
    ));
    out
}

/// A copy of a table whose cells have the spaces around their content
/// removed.
pub fn trim_table(t: &Table) -> (r: Table)
    ensures
        row_events_view(r.header@) == trimmed_row(row_events_view(t.header@)),
        rows_events_view(r.rows@) == trimmed_rows(rows_events_view(t.rows@)),
{
    let header = trim_row(&t.header);
    let mut rows: Vec<Row> = Vec::new();
    let mut k: usize = 0;
    while k < t.rows.len()
        invariant
            k <= t.rows.len(),
            rows_events_view(rows@) == trimmed_rows(rows_events_view(t.rows@)).subrange(0, k as int),
        decreases t.rows.len() - k,
    {
        let ghost before = rows_events_view(rows@);
        let row = trim_row(&t.rows[k]);
        rows.push(row);
        assert(rows_events_view(rows@) =~= before.push(row_events_view(row@)));
        k = k + 1;
        assert(rows_events_view(rows@) =~= trimmed_rows(rows_events_view(t.rows@)).subrange(0, k as int));
    }
    assert(trimmed_rows(rows_events_view(t.rows@)).subrange(0, k as int) =~= trimmed_rows(
        rows_events_view(t.rows@),
    ));
    Table { header, rows }
}

} // verus!
