//! The events of one table cell: trimming the whitespace around its content,
//! the widgets it is drawn as, and the key that tells when it changed.
use vstd::prelude::*;
use crate::events::{events_view, EventView, MdEvent, MdTag, MdTagEnd, SourceSpan, SpannedEvent, TagView};
use crate::style::{runs_view, RunView, TextRun, TextStyle};
use crate::trim::{has_content, lemma_trim_commute, lemma_trim_end_content, lemma_trim_end_idempotent, lemma_trim_start_content, lemma_trim_start_idempotent, trim_end, trim_end_spec, trim_start, trim_start_spec};

verus! {

/// The text of an event that is drawn as text: `Text`, `Code`, `InlineHtml`
/// and `Html`.
pub open spec fn text_of(e: EventView) -> Option<Seq<char>> {
    match e {
        EventView::Text(t) => Some(t),
        EventView::Code(t) => Some(t),
        EventView::InlineHtml(t) => Some(t),
        EventView::Html(t) => Some(t),
        _ => None,
    }
}

/// The same event with its text replaced by `t`.
pub open spec fn with_text(e: EventView, t: Seq<char>) -> EventView {
    match e {
        EventView::Text(_) => EventView::Text(t),
        EventView::Code(_) => EventView::Code(t),
        EventView::InlineHtml(_) => EventView::InlineHtml(t),
        EventView::Html(_) => EventView::Html(t),
        _ => e,
    }
}

/// Trims the front of the text events of a cell, from the first one on,
/// until one keeps some text.
pub open spec fn trim_forward(s: Seq<(EventView, SourceSpan)>) -> Seq<(EventView, SourceSpan)>
    decreases s.len(),
{
    if s.len() == 0 {
        s
    } else {
        match text_of(s[0].0) {
            Some(t) => {
                let t2 = trim_start_spec(t);
                let head = (with_text(s[0].0, t2), s[0].1);
                if t2.len() > 0 {
                    seq![head] + s.drop_first()
                } else {
                    seq![head] + trim_forward(s.drop_first())
                }
            },
            None => seq![s[0]] + trim_forward(s.drop_first()),
        }
    }
}

/// Trims the back of the text events of a cell, from the last one on,
/// until one keeps some text.
pub open spec fn trim_backward(s: Seq<(EventView, SourceSpan)>) -> Seq<(EventView, SourceSpan)>
    decreases s.len(),
{
    if s.len() == 0 {
        s
    } else {
        match text_of(s.last().0) {
            Some(t) => {
                let t2 = trim_end_spec(t);
                let tail = (with_text(s.last().0, t2), s.last().1);
                if t2.len() > 0 {
                    s.drop_last().push(tail)
                } else {
                    trim_backward(s.drop_last()).push(tail)
                }
            },
            None => trim_backward(s.drop_last()).push(s.last()),
        }
    }
}

/// A cell with the spaces around its content removed: leading whitespace of
/// its first text, then trailing whitespace of its last text.
pub open spec fn trim_cell_spec(s: Seq<(EventView, SourceSpan)>) -> Seq<(EventView, SourceSpan)> {
    trim_backward(trim_forward(s))
}

/// `t` has the shape of `s`: as many events, the same source ranges, text
/// events where `s` has them, and every other event unchanged.
pub open spec fn same_shape(t: Seq<(EventView, SourceSpan)>, s: Seq<(EventView, SourceSpan)>) -> bool {
    &&& t.len() == s.len()
    &&& forall|i: int|
        0 <= i < s.len() ==> (#[trigger] t[i]).1 == s[i].1 && (text_of(t[i].0) is Some <==> text_of(
            s[i].0,
        ) is Some) && (text_of(s[i].0) is None ==> t[i].0 == s[i].0)
}

proof fn lemma_with_text_shape(e: EventView, t: Seq<char>)
    requires
        text_of(e) is Some,
    ensures
        text_of(with_text(e, t)) == Some(t),
{
}

proof fn lemma_forward_shape(s: Seq<(EventView, SourceSpan)>)
    ensures
        same_shape(trim_forward(s), s),
    decreases s.len(),
{
    if s.len() > 0 {
        lemma_forward_shape(s.drop_first());
        let r = trim_forward(s);
        if let Some(t) = text_of(s[0].0) {
            lemma_with_text_shape(s[0].0, trim_start_spec(t));
        }
        assert forall|i: int| 0 <= i < s.len() implies (#[trigger] r[i]).1 == s[i].1 && (text_of(r[i].0) is Some
            <==> text_of(s[i].0) is Some) && (text_of(s[i].0) is None ==> r[i].0 == s[i].0) by {
            if i > 0 {
                assert(s[i] == s.drop_first()[i - 1]);
            }
        }
    }
}

proof fn lemma_backward_shape(s: Seq<(EventView, SourceSpan)>)
    ensures
        same_shape(trim_backward(s), s),
    decreases s.len(),
{
    if s.len() > 0 {
        let k = s.len() - 1;
        lemma_backward_shape(s.drop_last());
        let r = trim_backward(s);
        if let Some(t) = text_of(s[k].0) {
            lemma_with_text_shape(s[k].0, trim_end_spec(t));
        }
        assert forall|i: int| 0 <= i < s.len() implies (#[trigger] r[i]).1 == s[i].1 && (text_of(r[i].0) is Some
            <==> text_of(s[i].0) is Some) && (text_of(s[i].0) is None ==> r[i].0 == s[i].0) by {
            if i < k {
                assert(s[i] == s.drop_last()[i]);
            }
        }
    }
}

/// Trimming a cell keeps its events, in order and with their source ranges:
/// only the texts of its text events change.
pub proof fn lemma_trim_keeps_shape(s: Seq<(EventView, SourceSpan)>)
    ensures
        same_shape(trim_cell_spec(s), s),
{
    lemma_forward_shape(s);
    lemma_backward_shape(trim_forward(s));
    let f = trim_forward(s);
    let r = trim_cell_spec(s);
    assert forall|i: int| 0 <= i < s.len() implies (#[trigger] r[i]).1 == s[i].1 && (text_of(r[i].0) is Some
        <==> text_of(s[i].0) is Some) && (text_of(s[i].0) is None ==> r[i].0 == s[i].0) by {
        assert(r[i].1 == f[i].1);
    }
}

/// A text event that keeps some text when trimmed.
pub open spec fn is_solid(e: EventView) -> bool {
    match text_of(e) {
        Some(t) => has_content(t),
        None => false,
    }
}

/// No event before position `k` keeps text when trimmed.
pub open spec fn none_solid_before(s: Seq<(EventView, SourceSpan)>, k: int) -> bool {
    forall|m: int| 0 <= m < k ==> !is_solid(#[trigger] s[m].0)
}

/// No event after position `k` keeps text when trimmed.
pub open spec fn none_solid_after(s: Seq<(EventView, SourceSpan)>, k: int) -> bool {
    forall|m: int| k < m < s.len() ==> !is_solid(#[trigger] s[m].0)
}

/// The event at `k` after trimming the front of a cell: its text trimmed at
/// the front when no event before it keeps text.
pub open spec fn forward_at(s: Seq<(EventView, SourceSpan)>, k: int) -> (EventView, SourceSpan) {
    match text_of(s[k].0) {
        Some(t) => if none_solid_before(s, k) {
            (with_text(s[k].0, trim_start_spec(t)), s[k].1)
        } else {
            s[k]
        },
        None => s[k],
    }
}

/// The event at `k` after trimming the back of a cell: its text trimmed at
/// the back when no event after it keeps text.
pub open spec fn backward_at(s: Seq<(EventView, SourceSpan)>, k: int) -> (EventView, SourceSpan) {
    match text_of(s[k].0) {
        Some(t) => if none_solid_after(s, k) {
            (with_text(s[k].0, trim_end_spec(t)), s[k].1)
        } else {
            s[k]
        },
        None => s[k],
    }
}

proof fn lemma_forward_pointwise(s: Seq<(EventView, SourceSpan)>)
    ensures
        trim_forward(s).len() == s.len(),
        forall|k: int| 0 <= k < s.len() ==> #[trigger] trim_forward(s)[k] == forward_at(s, k),
    decreases s.len(),
{
    if s.len() > 0 {
        let rest = s.drop_first();
        lemma_forward_pointwise(rest);
        let r = trim_forward(s);
        if let Some(t) = text_of(s[0].0) {
            lemma_trim_start_content(t);
        }
        assert forall|k: int| 0 <= k < s.len() implies #[trigger] r[k] == forward_at(s, k) by {
            if k > 0 {
                assert(s[k] == rest[k - 1]);
                if is_solid(s[0].0) {
                    assert(!none_solid_before(s, k));
                } else {
                    assert(none_solid_before(s, k) == none_solid_before(rest, k - 1)) by {
                        if none_solid_before(rest, k - 1) {
                            assert forall|m: int| 0 <= m < k implies !is_solid(#[trigger] s[m].0) by {
                                if m > 0 {
                                    assert(s[m] == rest[m - 1]);
                                }
                            }
                        }
                        if none_solid_before(s, k) {
                            assert forall|m: int| 0 <= m < k - 1 implies !is_solid(#[trigger] rest[m].0) by {
                                assert(s[m + 1] == rest[m]);
                            }
                        }
                    }
                }
            }
        }
    }
}

proof fn lemma_backward_pointwise(s: Seq<(EventView, SourceSpan)>)
    ensures
        trim_backward(s).len() == s.len(),
        forall|k: int| 0 <= k < s.len() ==> #[trigger] trim_backward(s)[k] == backward_at(s, k),
    decreases s.len(),
{
    if s.len() > 0 {
        let n = s.len() - 1;
        let front = s.drop_last();
        lemma_backward_pointwise(front);
        let r = trim_backward(s);
        if let Some(t) = text_of(s[n].0) {
            lemma_trim_end_content(t);
        }
        assert forall|k: int| 0 <= k < s.len() implies #[trigger] r[k] == backward_at(s, k) by {
            if k < n {
                assert(s[k] == front[k]);
                if is_solid(s[n].0) {
                    assert(!none_solid_after(s, k));
                } else {
                    assert(none_solid_after(s, k) == none_solid_after(front, k)) by {
                        if none_solid_after(front, k) {
                            assert forall|m: int| k < m < s.len() implies !is_solid(#[trigger] s[m].0) by {
                                if m < n {
                                    assert(s[m] == front[m]);
                                }
                            }
                        }
                        if none_solid_after(s, k) {
                            assert forall|m: int| k < m < front.len() implies !is_solid(#[trigger] front[m].0) by {
                                assert(s[m] == front[m]);
                            }
                        }
                    }
                }
            }
        }
    }
}

proof fn lemma_solid_kept(s: Seq<(EventView, SourceSpan)>)
    ensures
        forall|k: int| 0 <= k < s.len() ==> is_solid(#[trigger] trim_forward(s)[k].0) == is_solid(s[k].0),
        forall|k: int| 0 <= k < s.len() ==> is_solid(#[trigger] trim_backward(s)[k].0) == is_solid(s[k].0),
        forall|k: int| 0 <= k <= s.len() ==> #[trigger] none_solid_before(trim_backward(s), k) == none_solid_before(s, k),
        forall|k: int| -1 <= k < s.len() ==> #[trigger] none_solid_after(trim_forward(s), k) == none_solid_after(s, k),
        forall|k: int| 0 <= k <= s.len() ==> #[trigger] none_solid_before(trim_forward(s), k) == none_solid_before(s, k),
{
    lemma_forward_pointwise(s);
    lemma_backward_pointwise(s);
    let f = trim_forward(s);
    let b = trim_backward(s);
    assert forall|k: int| 0 <= k < s.len() implies is_solid(#[trigger] f[k].0) == is_solid(s[k].0) by {
        if let Some(t) = text_of(s[k].0) {
            lemma_trim_start_content(t);
            lemma_with_text_shape(s[k].0, trim_start_spec(t));
        }
    }
    assert forall|k: int| 0 <= k < s.len() implies is_solid(#[trigger] b[k].0) == is_solid(s[k].0) by {
        if let Some(t) = text_of(s[k].0) {
            lemma_trim_end_content(t);
            lemma_with_text_shape(s[k].0, trim_end_spec(t));
        }
    }
    assert forall|k: int| 0 <= k <= s.len() implies #[trigger] none_solid_before(b, k) == none_solid_before(s, k) by {
        if none_solid_before(s, k) {
            assert forall|m: int| 0 <= m < k implies !is_solid(#[trigger] b[m].0) by {
                assert(is_solid(b[m].0) == is_solid(s[m].0));
            }
        }
        if none_solid_before(b, k) {
            assert forall|m: int| 0 <= m < k implies !is_solid(#[trigger] s[m].0) by {
                assert(is_solid(b[m].0) == is_solid(s[m].0));
            }
        }
    }
    assert forall|k: int| 0 <= k <= s.len() implies #[trigger] none_solid_before(f, k) == none_solid_before(s, k) by {
        if none_solid_before(s, k) {
            assert forall|m: int| 0 <= m < k implies !is_solid(#[trigger] f[m].0) by {
                assert(is_solid(f[m].0) == is_solid(s[m].0));
            }
        }
        if none_solid_before(f, k) {
            assert forall|m: int| 0 <= m < k implies !is_solid(#[trigger] s[m].0) by {
                assert(is_solid(f[m].0) == is_solid(s[m].0));
            }
        }
    }
    assert forall|k: int| -1 <= k < s.len() implies #[trigger] none_solid_after(f, k) == none_solid_after(s, k) by {
        if none_solid_after(s, k) {
            assert forall|m: int| k < m < f.len() implies !is_solid(#[trigger] f[m].0) by {
                assert(is_solid(f[m].0) == is_solid(s[m].0));
            }
        }
        if none_solid_after(f, k) {
            assert forall|m: int| k < m < s.len() implies !is_solid(#[trigger] s[m].0) by {
                assert(is_solid(f[m].0) == is_solid(s[m].0));
            }
        }
    }
}

/// Trimming the front twice trims no more than trimming it once.
proof fn lemma_forward_idempotent(s: Seq<(EventView, SourceSpan)>)
    ensures
        trim_forward(trim_forward(s)) == trim_forward(s),
{
    let f = trim_forward(s);
    lemma_forward_pointwise(s);
    lemma_forward_pointwise(f);
    lemma_solid_kept(s);
    assert forall|k: int| 0 <= k < f.len() implies #[trigger] trim_forward(f)[k] == f[k] by {
        if let Some(t) = text_of(s[k].0) {
            lemma_trim_start_idempotent(t);
            lemma_with_text_shape(s[k].0, trim_start_spec(t));
        }
    }
    assert(trim_forward(f) =~= f);
}

/// Trimming the back twice trims no more than trimming it once.
proof fn lemma_backward_idempotent(s: Seq<(EventView, SourceSpan)>)
    ensures
        trim_backward(trim_backward(s)) == trim_backward(s),
{
    let b = trim_backward(s);
    lemma_backward_pointwise(s);
    lemma_backward_pointwise(b);
    lemma_solid_kept(s);
    assert forall|k: int| 0 <= k < b.len() implies #[trigger] trim_backward(b)[k] == b[k] by {
        if let Some(t) = text_of(s[k].0) {
            lemma_trim_end_idempotent(t);
            lemma_with_text_shape(s[k].0, trim_end_spec(t));
            assert(none_solid_after(b, k) == none_solid_after(s, k)) by {
                if none_solid_after(s, k) {
                    assert forall|m: int| k < m < b.len() implies !is_solid(#[trigger] b[m].0) by {
                        assert(is_solid(b[m].0) == is_solid(s[m].0));
                    }
                }
                if none_solid_after(b, k) {
                    assert forall|m: int| k < m < s.len() implies !is_solid(#[trigger] s[m].0) by {
                        assert(is_solid(b[m].0) == is_solid(s[m].0));
                    }
                }
            }
        }
    }
    assert(trim_backward(b) =~= b);
}

/// Trimming the front and trimming the back of a cell can be done in
/// either order.
proof fn lemma_forward_backward_commute(s: Seq<(EventView, SourceSpan)>)
    ensures
        trim_forward(trim_backward(s)) == trim_backward(trim_forward(s)),
{
    let f = trim_forward(s);
    let b = trim_backward(s);
    lemma_forward_pointwise(s);
    lemma_backward_pointwise(s);
    lemma_forward_pointwise(b);
    lemma_backward_pointwise(f);
    lemma_solid_kept(s);
    assert forall|k: int| 0 <= k < s.len() implies #[trigger] trim_forward(b)[k] == trim_backward(f)[k] by {
        if let Some(t) = text_of(s[k].0) {
            lemma_trim_commute(t);
            lemma_with_text_shape(s[k].0, trim_start_spec(t));
            lemma_with_text_shape(s[k].0, trim_end_spec(t));
        }
    }
    assert(trim_forward(b) =~= trim_backward(f));
}

/// Trimming a cell twice trims no more than trimming it once: the spaces
/// around its content are gone after the first time.
pub proof fn lemma_trim_cell_idempotent(s: Seq<(EventView, SourceSpan)>)
    ensures
        trim_cell_spec(trim_cell_spec(s)) == trim_cell_spec(s),
{
    let f = trim_forward(s);
    lemma_forward_backward_commute(f);
    lemma_forward_idempotent(s);
    lemma_backward_idempotent(f);
}

/// Trims the text of `e` at the front, or at the back when `at_end`, and
/// says whether any text is left. Other events are kept and give `false`.
pub fn trim_text_event(e: &MdEvent, at_end: bool) -> (r: (MdEvent, bool))
    ensures
        r.0@ == (match text_of(e@) {
            Some(t) => with_text(e@, if at_end { trim_end_spec(t) } else { trim_start_spec(t) }),
            None => e@,
        }),
        r.1 == (match text_of(e@) {
            Some(t) => (if at_end { trim_end_spec(t) } else { trim_start_spec(t) }).len() > 0,
            None => false,
        }),
{
    match e {
        MdEvent::Text(s) => {
            let t = if at_end { trim_end(s.as_str()) } else { trim_start(s.as_str()) };
            let keep = !t.as_str().is_empty();
            (MdEvent::Text(t), keep)
        },
        MdEvent::Code(s) => {
            let t = if at_end { trim_end(s.as_str()) } else { trim_start(s.as_str()) };
            let keep = !t.as_str().is_empty();
            (MdEvent::Code(t), keep)
        },
        MdEvent::InlineHtml(s) => {
            let t = if at_end { trim_end(s.as_str()) } else { trim_start(s.as_str()) };
            let keep = !t.as_str().is_empty();
            (MdEvent::InlineHtml(t), keep)
        },
        MdEvent::Html(s) => {
            let t = if at_end { trim_end(s.as_str()) } else { trim_start(s.as_str()) };
            let keep = !t.as_str().is_empty();
            (MdEvent::Html(t), keep)
        },
        _ => (e.duplicate(), false),
    }
}

/// Removes the spaces around the content of a cell, as `trim_cell_spec` says.
pub fn trim_cell(col: &mut Vec<SpannedEvent>)
    ensures
        events_view(final(col)@) == trim_cell_spec(events_view(old(col)@)),
{
    let n = col.len();
    let ghost ov = events_view(col@);
    let mut i: usize = 0;
    proof {
        assert(ov.subrange(0, n as int) =~= ov);
        assert(events_view(col@).subrange(0, 0) + trim_forward(ov) =~= trim_forward(ov));
    }
    while i < n
        invariant_except_break
            n == col.len(),
            0 <= i <= n,
            ov.len() == n,
            trim_forward(ov) == events_view(col@).subrange(0, i as int) + trim_forward(
                ov.subrange(i as int, n as int),
            ),
            events_view(col@).subrange(i as int, n as int) == ov.subrange(i as int, n as int),
        ensures
            n == col.len(),
            trim_forward(ov) == events_view(col@),
        decreases n - i,
    {
        let ghost before = events_view(col@);
        let ghost rest = ov.subrange(i as int, n as int);
        assert(rest[0] == before[i as int]);
        let span = col[i].1;
        let (e, keep) = trim_text_event(&col[i].0, false);
        col.set(i, (e, span));
        let ghost after = events_view(col@);
        assert(after =~= before.update(i as int, (e@, span)));
        if keep {
            assert(rest.drop_first() =~= ov.subrange(i + 1, n as int));
            assert(after =~= after.subrange(0, i as int) + trim_forward(rest));
            break;
        }
        assert(rest.drop_first() =~= ov.subrange(i + 1, n as int));
        assert(after.subrange(0, i + 1) =~= after.subrange(0, i as int) + seq![after[i as int]]);
        assert(after.subrange(i + 1, n as int) =~= before.subrange(i + 1, n as int));
        i = i + 1;
    }
    proof {
        if i == n {
            assert(events_view(col@).subrange(0, n as int) =~= events_view(col@));
            assert(ov.subrange(n as int, n as int) =~= Seq::<(EventView, SourceSpan)>::empty());
            assert(trim_forward(ov) =~= events_view(col@));
        }
    }
    let ghost fv = events_view(col@);
    let mut j: usize = n;
    while j > 0
        invariant_except_break
            n == col.len(),
            0 <= j <= n,
            fv.len() == n,
            trim_backward(fv) == trim_backward(fv.subrange(0, j as int)) + events_view(col@).subrange(
                j as int,
                n as int,
            ),
            events_view(col@).subrange(0, j as int) == fv.subrange(0, j as int),
        ensures
            n == col.len(),
            trim_backward(fv) == events_view(col@),
        decreases j,
    {
        let ghost before = events_view(col@);
        let ghost head = fv.subrange(0, j as int);
        assert(head.last() == before[j - 1]);
        let span = col[j - 1].1;
        let (e, keep) = trim_text_event(&col[j - 1].0, true);
        col.set(j - 1, (e, span));
        let ghost after = events_view(col@);
        assert(after =~= before.update(j - 1, (e@, span)));
        assert(head.drop_last() =~= fv.subrange(0, j - 1));
        if keep {
            assert(after =~= head.drop_last() + seq![after[j - 1]] + after.subrange(j as int, n as int));
            assert(after =~= trim_backward(head) + after.subrange(j as int, n as int));
            break;
        }
        assert(after.subrange(j - 1, n as int) =~= seq![after[j - 1]] + after.subrange(j as int, n as int));
        assert(after.subrange(0, j - 1) =~= before.subrange(0, j - 1));
        j = j - 1;
    }
    proof {
        if j == 0 {
            assert(events_view(col@).subrange(0, n as int) =~= events_view(col@));
            assert(fv.subrange(0, 0) =~= Seq::<(EventView, SourceSpan)>::empty());
            assert(trim_backward(fv) =~= events_view(col@));
        }
    }
}


/// A widget that a cell is drawn as, measured to size the table's columns.
#[derive(Debug)]
pub enum MeasureWidget {
    /// A label with one run of text.
    Text(TextRun),
    /// A soft break, drawn as a space.
    SoftBreak,
    /// A hard break, which ends the row of widgets.
    HardBreak,
    /// A link, drawn as one widget made of its runs.
    Link(Vec<TextRun>),
}

/// The value of a measured widget.
pub enum WidgetView {
    Text(RunView),
    SoftBreak,
    HardBreak,
    Link(Seq<RunView>),
}

impl View for MeasureWidget {
    type V = WidgetView;

    open spec fn view(&self) -> WidgetView {
        match self {
            MeasureWidget::Text(r) => WidgetView::Text(r@),
            MeasureWidget::SoftBreak => WidgetView::SoftBreak,
            MeasureWidget::HardBreak => WidgetView::HardBreak,
            MeasureWidget::Link(runs) => WidgetView::Link(runs_view(runs@)),
        }
    }
}

/// The values of a sequence of widgets.
pub open spec fn widgets_view(ws: Seq<MeasureWidget>) -> Seq<WidgetView> {
    ws.map_values(|w: MeasureWidget| w@)
}

/// Where the walk over the events of a cell stands: the widgets so far, the
/// running style, whether a link or an image is open, and the runs of the
/// open link.
pub struct WalkState {
    pub widgets: Seq<WidgetView>,
    pub style: TextStyle,
    pub in_link: bool,
    pub in_image: bool,
    pub link_runs: Seq<RunView>,
}

/// The walk before the first event.
pub open spec fn walk_start() -> WalkState {
    WalkState {
        widgets: Seq::empty(),
        style: TextStyle::plain(),
        in_link: false,
        in_image: false,
        link_runs: Seq::empty(),
    }
}

/// A run of text goes into the open link, or becomes a widget of its own;
/// inside an image (whose alt text is shown only on hover) it is dropped.
pub open spec fn walk_text(st: WalkState, run: RunView) -> WalkState {
    if st.in_image {
        st
    } else if st.in_link {
        WalkState { link_runs: st.link_runs.push(run), ..st }
    } else {
        WalkState { widgets: st.widgets.push(WidgetView::Text(run)), ..st }
    }
}

/// A break becomes a widget unless a link or an image is open.
pub open spec fn walk_break(st: WalkState, w: WidgetView) -> WalkState {
    if !st.in_link && !st.in_image {
        WalkState { widgets: st.widgets.push(w), ..st }
    } else {
        st
    }
}

/// One step of the walk: the tags that change the style or open a link or
/// an image, and the events that are drawn.
pub open spec fn walk_step(st: WalkState, e: EventView) -> WalkState {
    match e {
        EventView::Start(TagView::Link(_)) => WalkState {
            in_link: true,
            link_runs: Seq::empty(),
            ..st
        },
        EventView::Start(TagView::Image(_)) => WalkState { in_image: true, ..st },
        EventView::Start(TagView::Strong) => WalkState {
            style: TextStyle { strong: true, ..st.style },
            ..st
        },
        EventView::Start(TagView::Emphasis) => WalkState {
            style: TextStyle { emphasis: true, ..st.style },
            ..st
        },
        EventView::Start(TagView::Strikethrough) => WalkState {
            style: TextStyle { strikethrough: true, ..st.style },
            ..st
        },
        EventView::End(MdTagEnd::Link) => WalkState {
            widgets: st.widgets.push(WidgetView::Link(st.link_runs)),
            link_runs: Seq::empty(),
            in_link: false,
            ..st
        },
        EventView::End(MdTagEnd::Image) => WalkState { in_image: false, ..st },
        EventView::End(MdTagEnd::Strong) => WalkState {
            style: TextStyle { strong: false, ..st.style },
            ..st
        },
        EventView::End(MdTagEnd::Emphasis) => WalkState {
            style: TextStyle { emphasis: false, ..st.style },
            ..st
        },
        EventView::End(MdTagEnd::Strikethrough) => WalkState {
            style: TextStyle { strikethrough: false, ..st.style },
            ..st
        },
        EventView::Text(t) => walk_text(st, RunView { text: t, style: st.style }),
        EventView::InlineHtml(t) => walk_text(st, RunView { text: t, style: st.style }),
        EventView::Html(t) => walk_text(st, RunView { text: t, style: st.style }),
        EventView::Code(t) => walk_text(
            st,
            RunView { text: t, style: TextStyle { code: true, ..st.style } },
        ),
        EventView::SoftBreak => walk_break(st, WidgetView::SoftBreak),
        EventView::HardBreak => walk_break(st, WidgetView::HardBreak),
        _ => st,
    }
}

/// The walk over a sequence of events.
pub open spec fn walk(st: WalkState, s: Seq<(EventView, SourceSpan)>) -> WalkState
    decreases s.len(),
{
    if s.len() == 0 {
        st
    } else {
        walk(walk_step(st, s[0].0), s.drop_first())
    }
}

/// The widgets a cell is drawn as.
pub open spec fn cell_widgets_spec(s: Seq<(EventView, SourceSpan)>) -> Seq<WidgetView> {
    walk(walk_start(), s).widgets
}

/// The widgets that sit on the row: all but the hard breaks.
pub open spec fn count_on_row(ws: Seq<WidgetView>) -> nat
    decreases ws.len(),
{
    if ws.len() == 0 {
        0
    } else {
        count_on_row(ws.drop_last()) + if ws.last() is HardBreak {
            0nat
        } else {
            1nat
        }
    }
}

/// The widgets that the events of a cell are drawn as, as
/// `cell_widgets_spec` says: one per text run, soft break and hard break,
/// and one per link; the alt text of images is left out.
pub fn cell_widgets(col: &Vec<SpannedEvent>) -> (r: Vec<MeasureWidget>)
    ensures
        widgets_view(r@) == cell_widgets_spec(events_view(col@)),
{
    let ghost s = events_view(col@);
    let mut widgets: Vec<MeasureWidget> = Vec::new();
    let mut style = TextStyle::default();
    let mut in_link = false;
    let mut in_image = false;
    let mut link_runs: Vec<TextRun> = Vec::new();
    let mut i: usize = 0;
    proof {
        assert(s.subrange(0, s.len() as int) =~= s);
        assert(widgets_view(widgets@) =~= Seq::<WidgetView>::empty());
        assert(runs_view(link_runs@) =~= Seq::<RunView>::empty());
    }
    while i < col.len()
        invariant
            0 <= i <= col.len(),
            s == events_view(col@),
            walk(walk_start(), s) == walk(
                WalkState {
                    widgets: widgets_view(widgets@),
                    style,
                    in_link,
                    in_image,
                    link_runs: runs_view(link_runs@),
                },
                s.subrange(i as int, s.len() as int),
            ),
        decreases col.len() - i,
    {
        let ghost st = WalkState {
            widgets: widgets_view(widgets@),
            style,
            in_link,
            in_image,
            link_runs: runs_view(link_runs@),
        };
        let ghost rest = s.subrange(i as int, s.len() as int);
        assert(rest[0].0 == col@[i as int].0@);
        assert(rest.drop_first() =~= s.subrange(i + 1, s.len() as int));
        let ghost old_w = widgets_view(widgets@);
        let ghost old_r = runs_view(link_runs@);
        match &col[i].0 {
            MdEvent::Start(MdTag::Link(_)) => {
                in_link = true;
                link_runs = Vec::new();
                assert(runs_view(link_runs@) =~= Seq::<RunView>::empty());
            },
            MdEvent::Start(MdTag::Image(_)) => {
                in_image = true;
            },
            MdEvent::Start(MdTag::Strong) => {
                style.strong = true;
            },
            MdEvent::Start(MdTag::Emphasis) => {
                style.emphasis = true;
            },
            MdEvent::Start(MdTag::Strikethrough) => {
                style.strikethrough = true;
            },
            MdEvent::End(MdTagEnd::Link) => {
                let runs = link_runs;
                link_runs = Vec::new();
                widgets.push(MeasureWidget::Link(runs));
                in_link = false;
                assert(widgets_view(widgets@) =~= old_w.push(WidgetView::Link(old_r)));
                assert(runs_view(link_runs@) =~= Seq::<RunView>::empty());
            },
            MdEvent::End(MdTagEnd::Image) => {
                in_image = false;
            },
            MdEvent::End(MdTagEnd::Strong) => {
                style.strong = false;
            },
            MdEvent::End(MdTagEnd::Emphasis) => {
                style.emphasis = false;
            },
            MdEvent::End(MdTagEnd::Strikethrough) => {
                style.strikethrough = false;
            },
            MdEvent::Text(t) | MdEvent::InlineHtml(t) | MdEvent::Html(t) | MdEvent::Code(t) => {
                if !in_image {
                    let is_code = matches!(col[i].0, MdEvent::Code(_));
                    let mut run_style = style;
                    if is_code {
                        run_style.code = true;
                    }
                    let run = TextRun { text: t.clone(), style: run_style };
                    if in_link {
                        link_runs.push(run);
                        assert(runs_view(link_runs@) =~= old_r.push(run@));
                    } else {
                        widgets.push(MeasureWidget::Text(run));
                        assert(widgets_view(widgets@) =~= old_w.push(WidgetView::Text(run@)));
                    }
                }
            },
            MdEvent::SoftBreak => {
                if !in_link && !in_image {
                    widgets.push(MeasureWidget::SoftBreak);
                    assert(widgets_view(widgets@) =~= old_w.push(WidgetView::SoftBreak));
                }
            },
            MdEvent::HardBreak => {
                if !in_link && !in_image {
                    widgets.push(MeasureWidget::HardBreak);
                    assert(widgets_view(widgets@) =~= old_w.push(WidgetView::HardBreak));
                }
            },
            _ => {},
        }
        i = i + 1;
    }
    proof {
        let rest = s.subrange(i as int, s.len() as int);
        assert(rest.len() == 0);
    }
    widgets
}

/// How many of the widgets sit on the row (all but the hard breaks): the
/// gaps between widgets are one fewer.
pub fn widgets_on_row(ws: &Vec<MeasureWidget>) -> (r: usize)
    ensures
        r == count_on_row(widgets_view(ws@)),
{
    let mut k: usize = 0;
    let mut i: usize = 0;
    while i < ws.len()
        invariant
            0 <= i <= ws.len(),
            k == count_on_row(widgets_view(ws@).subrange(0, i as int)),
            k <= i,
        decreases ws.len() - i,
    {
        let ghost pre = widgets_view(ws@).subrange(0, i + 1);
        assert(pre.drop_last() =~= widgets_view(ws@).subrange(0, i as int));
        if !matches!(ws[i], MeasureWidget::HardBreak) {
            k = k + 1;
        }
        i = i + 1;
    }
    assert(widgets_view(ws@).subrange(0, i as int) =~= widgets_view(ws@));
    k
}

} // verus!
