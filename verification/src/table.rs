//! Splitting the events of a table into a header and rows of cells.
use vstd::prelude::*;
use crate::collect::{delayed_events, prefix_until, stop_at_end};
use crate::events::{duplicate_spanned, events_view, is_end_of, EventView, MdTagEnd, SourceSpan, SpannedEvent};

verus! {

/// The events of one cell.
pub type Column = Vec<SpannedEvent>;

/// The cells of one row.
pub type Row = Vec<Column>;

/// A table: the header row and the body rows.
pub struct Table {
    pub header: Row,
    pub rows: Vec<Row>,
}

/// The cells of a row, each as a sequence of events.
pub open spec fn row_view(row: Seq<Column>) -> Seq<Seq<SpannedEvent>> {
    row.map_values(|c: Column| c@)
}

/// The rows of a table, each as a sequence of cells.
pub open spec fn rows_view(rows: Seq<Row>) -> Seq<Seq<Seq<SpannedEvent>>> {
    rows.map_values(|r: Row| row_view(r@))
}

/// The values of the events of each cell of a row.
pub open spec fn row_events_view(row: Seq<Column>) -> Seq<Seq<(EventView, SourceSpan)>> {
    row.map_values(|c: Column| events_view(c@))
}

/// The values of the events of each cell of each row.
pub open spec fn rows_events_view(rows: Seq<Row>) -> Seq<Seq<Seq<(EventView, SourceSpan)>>> {
    rows.map_values(|r: Row| row_events_view(r@))
}

/// Splits events into the cells of one row. Every `End(TableCell)` closes
/// the current cell and is itself the first event of the next one; the row
/// ends at `End(TableHead)` or `End(TableRow)`, which is consumed and kept in
/// no cell. Whatever follows the last closed cell is dropped. Returns the
/// closed cells and the number of events consumed.
pub open spec fn row_spec(s: Seq<SpannedEvent>, row: Seq<Seq<SpannedEvent>>, col: Seq<SpannedEvent>) -> (
    Seq<Seq<SpannedEvent>>,
    nat,
)
    decreases s.len(),
{
    if s.len() == 0 {
        (row, 0)
    } else {
        let e = s[0].0;
        let row2 = if is_end_of(e, MdTagEnd::TableCell) {
            row.push(col)
        } else {
            row
        };
        let col2 = if is_end_of(e, MdTagEnd::TableCell) {
            Seq::empty()
        } else {
            col
        };
        if is_end_of(e, MdTagEnd::TableHead) || is_end_of(e, MdTagEnd::TableRow) {
            (row2, 1)
        } else {
            let (r, n) = row_spec(s.drop_first(), row2, col2.push(s[0]));
            (r, n + 1)
        }
    }
}

/// The rows that `s` splits into, one after the other until it is used up.
pub open spec fn rows_spec(s: Seq<SpannedEvent>) -> Seq<Seq<Seq<SpannedEvent>>>
    decreases s.len(),
{
    if s.len() == 0 {
        Seq::empty()
    } else {
        let (r, n) = row_spec(s, Seq::empty(), Seq::empty());
        if 0 < n <= s.len() {
            seq![r] + rows_spec(s.subrange(n as int, s.len() as int))
        } else {
            seq![r]
        }
    }
}

/// A non-empty sequence always gives up at least one event to a row.
pub proof fn lemma_row_consumes(s: Seq<SpannedEvent>, row: Seq<Seq<SpannedEvent>>, col: Seq<SpannedEvent>)
    ensures
        row_spec(s, row, col).1 <= s.len(),
        s.len() > 0 ==> row_spec(s, row, col).1 > 0,
    decreases s.len(),
{
    if s.len() > 0 {
        let e = s[0].0;
        let row2 = if is_end_of(e, MdTagEnd::TableCell) {
            row.push(col)
        } else {
            row
        };
        let col2 = if is_end_of(e, MdTagEnd::TableCell) {
            Seq::empty()
        } else {
            col
        };
        lemma_row_consumes(s.drop_first(), row2, col2.push(s[0]));
    }
}

/// Splits `events` from `pos` on into the cells of one row, as `row_spec`
/// says. Returns the cells and the position after the consumed events.
pub fn parse_row(events: &Vec<SpannedEvent>, pos: usize) -> (r: (Row, usize))
    requires
        pos <= events.len(),
    ensures
        row_view(r.0@) == row_spec(events@.subrange(pos as int, events.len() as int), Seq::empty(), Seq::empty()).0,
        r.1 == pos + row_spec(events@.subrange(pos as int, events.len() as int), Seq::empty(), Seq::empty()).1,
        r.1 <= events.len(),
{
    let ghost s = events@.subrange(pos as int, events.len() as int);
    let mut row: Row = Vec::new();
    let mut column: Column = Vec::new();
    let mut i = pos;
    proof {
        assert(s.subrange(0, s.len() as int) =~= s);
        assert(row_view(row@) =~= Seq::<Seq<SpannedEvent>>::empty());
        lemma_row_consumes(s, Seq::empty(), Seq::empty());
    }
    while i < events.len()
        invariant_except_break
            pos <= i <= events.len(),
            s == events@.subrange(pos as int, events.len() as int),
            row_spec(s, Seq::empty(), Seq::empty()) == ({
                let (rr, nn) = row_spec(s.subrange(i - pos, s.len() as int), row_view(row@), column@);
                (rr, (i - pos + nn) as nat)
            }),
        ensures
            pos <= i <= events.len(),
            row_view(row@) == row_spec(s, Seq::empty(), Seq::empty()).0,
            i == pos + row_spec(s, Seq::empty(), Seq::empty()).1,
        decreases events.len() - i,
    {
        let ghost rest = s.subrange(i - pos, s.len() as int);
        let ghost old_row = row_view(row@);
        let ghost old_col = column@;
        let e = duplicate_spanned(&events[i]);
        assert(rest[0] == events@[i as int]);
        i = i + 1;
        let closes = e.0.ends(MdTagEnd::TableCell);
        if closes {
            row.push(column);
            column = Vec::new();
            assert(row_view(row@) =~= old_row.push(old_col));
        }
        if e.0.ends(MdTagEnd::TableHead) || e.0.ends(MdTagEnd::TableRow) {
            break;
        }
        column.push(e);
        assert(rest.drop_first() =~= s.subrange(i - pos, s.len() as int));
    }
    proof {
        if i == events.len() {
            let rest = s.subrange(i - pos, s.len() as int);
            assert(rest.len() == 0);
        }
    }
    (row, i)
}

/// Gathers the events of a table, from `pos` up to and including its
/// `End(Table)` (or up to `end`), and splits them into the header row and
/// the body rows. Returns the table and the position after its events.
pub fn parse_table(events: &Vec<SpannedEvent>, pos: usize, end: usize) -> (r: (Table, usize))
    requires
        pos <= end <= events.len(),
    ensures
        r.1 == pos + prefix_until(events@.subrange(pos as int, end as int), stop_at_end(MdTagEnd::Table)),
        r.1 <= end,
        ({
            let all = events@.subrange(pos as int, r.1 as int);
            let (h, n) = row_spec(all, Seq::empty(), Seq::empty());
            &&& row_view(r.0.header@) == h
            &&& rows_view(r.0.rows@) == rows_spec(all.subrange(n as int, all.len() as int))
        }),
{
    let (all, next) = delayed_events(events, pos, end, MdTagEnd::Table);
    let (header, mut i) = parse_row(&all, 0);
    let ghost all_s = all@;
    let ghost n0 = i;
    assert(all@.subrange(0, all@.len() as int) =~= all@);
    let mut rows: Vec<Row> = Vec::new();
    while i < all.len()
        invariant
            n0 <= i <= all.len(),
            all_s == all@,
            rows_spec(all_s.subrange(n0 as int, all_s.len() as int)) == rows_view(rows@) + rows_spec(
                all_s.subrange(i as int, all_s.len() as int),
            ),
        decreases all.len() - i,
    {
        let ghost rest = all_s.subrange(i as int, all_s.len() as int);
        let (row, next_i) = parse_row(&all, i);
        proof {
            lemma_row_consumes(rest, Seq::empty(), Seq::empty());
            assert(rest.subrange((next_i - i) as int, rest.len() as int) =~= all_s.subrange(next_i as int, all_s.len() as int));
        }
        let ghost old_rows = rows_view(rows@);
        rows.push(row);
        assert(rows_view(rows@) =~= old_rows.push(row_view(row@)));
        i = next_i;
        assert(rows_view(rows@) + rows_spec(all_s.subrange(i as int, all_s.len() as int)) =~= old_rows + (seq![row_view(row@)] + rows_spec(all_s.subrange(i as int, all_s.len() as int))));
    }
    proof {
        let tail = all_s.subrange(i as int, all_s.len() as int);
        assert(tail.len() == 0);
        assert(rows_view(rows@) + rows_spec(tail) =~= rows_view(rows@));
    }
    (Table { header, rows }, next)
}

/// Whether a body row is drawn on a stripe: every second row, counting
/// from 0.
pub fn is_striped(row: usize) -> (r: bool)
    ensures
        r == (row % 2 == 1),
{
    row % 2 == 1
}

} // verus!
