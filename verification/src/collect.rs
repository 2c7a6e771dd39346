//! Gathering the events of one element so that they can be drawn together.
use vstd::prelude::*;
use crate::events::{is_end_of, duplicate_spanned, MdEvent, MdTag, MdTagEnd, SpannedEvent};

verus! {

/// How many events, counted from the start of `s`, belong to the element
/// that the first event satisfying `stop` ends: up to and including that
/// event, or all of `s` when no event satisfies `stop`.
pub open spec fn prefix_until(s: Seq<SpannedEvent>, stop: spec_fn(MdEvent) -> bool) -> nat
    decreases s.len(),
{
    if s.len() == 0 {
        0
    } else if stop(s[0].0) {
        1
    } else {
        1 + prefix_until(s.drop_first(), stop)
    }
}

/// Stops at the end of an element of kind `kind`.
pub open spec fn stop_at_end(kind: MdTagEnd) -> spec_fn(MdEvent) -> bool {
    |e: MdEvent| is_end_of(e, kind)
}

/// Stops at the end of a list item or at the start of a nested list.
pub open spec fn stop_at_item_boundary() -> spec_fn(MdEvent) -> bool {
    |e: MdEvent| is_end_of(e, MdTagEnd::Item) || e matches MdEvent::Start(MdTag::List(_))
}

/// Takes the events from `pos` (below `end`) up to and including the first
/// one that satisfies `stop`, or up to `end`. Returns them and the position
/// after them.
fn take_until(
    events: &Vec<SpannedEvent>,
    pos: usize,
    end: usize,
    Ghost(stop): Ghost<spec_fn(MdEvent) -> bool>,
    kind: MdTagEnd,
    item_boundary: bool,
) -> (r: (Vec<SpannedEvent>, usize))
    requires
        pos <= end <= events.len(),
        item_boundary ==> stop == stop_at_item_boundary(),
        !item_boundary ==> stop == stop_at_end(kind),
    ensures
        r.1 == pos + prefix_until(events@.subrange(pos as int, end as int), stop),
        r.1 <= end,
        r.0@ == events@.subrange(pos as int, r.1 as int),
{
    let mut out: Vec<SpannedEvent> = Vec::new();
    let mut i = pos;
    let ghost s = events@.subrange(pos as int, end as int);
    proof {
        assert(s.subrange(0, s.len() as int) =~= s);
    }
    while i < end
        invariant_except_break
            pos <= i <= end <= events.len(),
            s == events@.subrange(pos as int, end as int),
            out@ == events@.subrange(pos as int, i as int),
            prefix_until(s, stop) == (i - pos) + prefix_until(
                s.subrange(i - pos, s.len() as int),
                stop,
            ),
            item_boundary ==> stop == stop_at_item_boundary(),
            !item_boundary ==> stop == stop_at_end(kind),
        ensures
            pos <= i <= end,
            out@ == events@.subrange(pos as int, i as int),
            i == pos + prefix_until(s, stop),
        decreases end - i,
    {
        let e = duplicate_spanned(&events[i]);
        let stops = if item_boundary {
            e.0.ends(MdTagEnd::Item) || matches!(e.0, MdEvent::Start(MdTag::List(_)))
        } else {
            e.0.ends(kind)
        };
        let ghost rest = s.subrange(i - pos, s.len() as int);
        assert(rest[0] == events@[i as int]);
        out.push(e);
        i = i + 1;
        assert(out@ =~= events@.subrange(pos as int, i as int));
        if stops {
            break;
        }
        assert(rest.drop_first() =~= s.subrange(i - pos, s.len() as int));
    }
    proof {
        if i == end {
            let rest = s.subrange(i - pos, s.len() as int);
            assert(rest.len() == 0);
        }
    }
    (out, i)
}

/// The events of an element that ends with an `End(kind)` event: from `pos`
/// up to and including the first such event, or up to `end` when there is
/// none. Returns them and the position after them.
pub fn delayed_events(events: &Vec<SpannedEvent>, pos: usize, end: usize, kind: MdTagEnd) -> (r: (
    Vec<SpannedEvent>,
    usize,
))
    requires
        pos <= end <= events.len(),
    ensures
        r.1 == pos + prefix_until(events@.subrange(pos as int, end as int), stop_at_end(kind)),
        r.1 <= end,
        r.0@ == events@.subrange(pos as int, r.1 as int),
{
    take_until(events, pos, end, Ghost(stop_at_end(kind)), kind, false)
}

/// The events of a list item: from `pos` up to and including the first
/// event that ends the item or starts a nested list, or up to `end`.
/// Returns them and the position after them.
pub fn delayed_events_list_item(events: &Vec<SpannedEvent>, pos: usize, end: usize) -> (r: (
    Vec<SpannedEvent>,
    usize,
))
    requires
        pos <= end <= events.len(),
    ensures
        r.1 == pos + prefix_until(events@.subrange(pos as int, end as int), stop_at_item_boundary()),
        r.1 <= end,
        r.0@ == events@.subrange(pos as int, r.1 as int),
{
    take_until(events, pos, end, Ghost(stop_at_item_boundary()), MdTagEnd::Item, true)
}

} // verus!
