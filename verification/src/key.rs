//! The content key of a table: the pieces that decide how wide its columns
//! must be, so that measurements are only redone when one of them changes.
use vstd::prelude::*;
use crate::events::{events_view, EventView, MdEvent, MdTag, MdTagEnd, SourceSpan, SpannedEvent, TagView};
use crate::table::{row_events_view, rows_events_view, Table};

verus! {

/// One piece of the key, fed to a hasher in order: a count, a marker byte,
/// or a text.
#[derive(Debug)]
pub enum KeyToken {
    Count(usize),
    Byte(u8),
    Str(String),
}

/// The value of a key piece.
pub enum KeyView {
    Count(usize),
    Byte(u8),
    Str(Seq<char>),
}

impl View for KeyToken {
    type V = KeyView;

    open spec fn view(&self) -> KeyView {
        match self {
            KeyToken::Count(n) => KeyView::Count(*n),
            KeyToken::Byte(b) => KeyView::Byte(*b),
            KeyToken::Str(s) => KeyView::Str(s@),
        }
    }
}

/// The values of a sequence of key pieces.
pub open spec fn keys_view(k: Seq<KeyToken>) -> Seq<KeyView> {
    k.map_values(|t: KeyToken| t@)
}

/// The key pieces of one event: its text, the breaks, and the style and link
/// tags that change how many widgets a cell is drawn as.
pub open spec fn event_key(e: EventView) -> Seq<KeyView> {
    match e {
        EventView::Code(s) => seq![KeyView::Byte(1), KeyView::Str(s)],
        EventView::Text(s) => seq![KeyView::Byte(0), KeyView::Str(s)],
        EventView::InlineHtml(s) => seq![KeyView::Byte(0), KeyView::Str(s)],
        EventView::Html(s) => seq![KeyView::Byte(0), KeyView::Str(s)],
        EventView::SoftBreak => seq![KeyView::Byte(0x40)],
        EventView::HardBreak => seq![KeyView::Byte(0x41)],
        EventView::Start(TagView::Strong) => seq![KeyView::Byte(0x10)],
        EventView::Start(TagView::Emphasis) => seq![KeyView::Byte(0x12)],
        EventView::Start(TagView::Strikethrough) => seq![KeyView::Byte(0x14)],
        EventView::Start(TagView::Link(u)) => seq![KeyView::Byte(0x20), KeyView::Str(u)],
        EventView::Start(TagView::Image(u)) => seq![KeyView::Byte(0x30), KeyView::Str(u)],
        EventView::End(MdTagEnd::Strong) => seq![KeyView::Byte(0x11)],
        EventView::End(MdTagEnd::Emphasis) => seq![KeyView::Byte(0x13)],
        EventView::End(MdTagEnd::Strikethrough) => seq![KeyView::Byte(0x15)],
        EventView::End(MdTagEnd::Link) => seq![KeyView::Byte(0x21)],
        EventView::End(MdTagEnd::Image) => seq![KeyView::Byte(0x31)],
        _ => Seq::empty(),
    }
}

/// The key pieces of a sequence of events.
pub open spec fn events_key(s: Seq<(EventView, SourceSpan)>) -> Seq<KeyView>
    decreases s.len(),
{
    if s.len() == 0 {
        Seq::empty()
    } else {
        events_key(s.drop_last()) + event_key(s.last().0)
    }
}

/// The key pieces of one cell, closed by the marker 0xFF.
pub open spec fn col_key(s: Seq<(EventView, SourceSpan)>) -> Seq<KeyView> {
    events_key(s) + seq![KeyView::Byte(0xFF)]
}

/// The key pieces of the cells of a row.
pub open spec fn cols_key(cols: Seq<Seq<(EventView, SourceSpan)>>) -> Seq<KeyView>
    decreases cols.len(),
{
    if cols.len() == 0 {
        Seq::empty()
    } else {
        cols_key(cols.drop_last()) + col_key(cols.last())
    }
}

/// The key pieces of the body rows, each row closed by the marker 0xEE.
pub open spec fn rows_key(rows: Seq<Seq<Seq<(EventView, SourceSpan)>>>) -> Seq<KeyView>
    decreases rows.len(),
{
    if rows.len() == 0 {
        Seq::empty()
    } else {
        rows_key(rows.drop_last()) + cols_key(rows.last()) + seq![KeyView::Byte(0xEE)]
    }
}

/// The key of a table: the number of columns, the header cells, the marker
/// 0xEE, then the body rows.
pub open spec fn table_key_spec(
    num_cols: usize,
    header: Seq<Seq<(EventView, SourceSpan)>>,
    rows: Seq<Seq<Seq<(EventView, SourceSpan)>>>,
) -> Seq<KeyView> {
    seq![KeyView::Count(num_cols)] + cols_key(header) + seq![KeyView::Byte(0xEE)] + rows_key(rows)
}

fn push_event_key(out: &mut Vec<KeyToken>, e: &MdEvent)
    ensures
        keys_view(final(out)@) == keys_view(old(out)@) + event_key(e@),
{
    let ghost before = keys_view(out@);
    match e {
        MdEvent::Code(s) => {
            out.push(KeyToken::Byte(1));
            out.push(KeyToken::Str(s.clone()));
        },
        MdEvent::Text(s) | MdEvent::InlineHtml(s) | MdEvent::Html(s) => {
            out.push(KeyToken::Byte(0));
            out.push(KeyToken::Str(s.clone()));
        },
        MdEvent::SoftBreak => out.push(KeyToken::Byte(0x40)),
        MdEvent::HardBreak => out.push(KeyToken::Byte(0x41)),
        MdEvent::Start(MdTag::Strong) => out.push(KeyToken::Byte(0x10)),
        MdEvent::Start(MdTag::Emphasis) => out.push(KeyToken::Byte(0x12)),
        MdEvent::Start(MdTag::Strikethrough) => out.push(KeyToken::Byte(0x14)),
        MdEvent::Start(MdTag::Link(u)) => {
            out.push(KeyToken::Byte(0x20));
            out.push(KeyToken::Str(u.clone()));
        },
        MdEvent::Start(MdTag::Image(u)) => {
            out.push(KeyToken::Byte(0x30));
            out.push(KeyToken::Str(u.clone()));
        },
        MdEvent::End(MdTagEnd::Strong) => out.push(KeyToken::Byte(0x11)),
        MdEvent::End(MdTagEnd::Emphasis) => out.push(KeyToken::Byte(0x13)),
        MdEvent::End(MdTagEnd::Strikethrough) => out.push(KeyToken::Byte(0x15)),
        MdEvent::End(MdTagEnd::Link) => out.push(KeyToken::Byte(0x21)),
        MdEvent::End(MdTagEnd::Image) => out.push(KeyToken::Byte(0x31)),
        _ => {},
    }
    assert(keys_view(out@) =~= before + event_key(e@));
}

fn push_col_key(out: &mut Vec<KeyToken>, col: &Vec<SpannedEvent>)
    ensures
        keys_view(final(out)@) == keys_view(old(out)@) + col_key(events_view(col@)),
{
    let ghost before = keys_view(out@);
    let ghost s = events_view(col@);
    let mut i: usize = 0;
    assert(s.subrange(0, 0) =~= Seq::<(EventView, SourceSpan)>::empty());
    assert(before + events_key(s.subrange(0, 0)) =~= before);
    while i < col.len()
        invariant
            0 <= i <= col.len(),
            s == events_view(col@),
            keys_view(out@) == before + events_key(s.subrange(0, i as int)),
        decreases col.len() - i,
    {
        push_event_key(out, &col[i].0);
        assert(s.subrange(0, i + 1).drop_last() =~= s.subrange(0, i as int));
        assert(keys_view(out@) =~= before + events_key(s.subrange(0, i + 1)));
        i = i + 1;
    }
    assert(s.subrange(0, i as int) =~= s);
    let ghost mid = keys_view(out@);
    out.push(KeyToken::Byte(0xFF));
    assert(keys_view(out@) =~= mid.push(KeyView::Byte(0xFF)));
    assert(mid == before + events_key(s));
    assert(before + events_key(s) + seq![KeyView::Byte(0xFF)] =~= before + col_key(s));
}

fn push_cols_key(out: &mut Vec<KeyToken>, cols: &Vec<Vec<SpannedEvent>>)
    ensures
        keys_view(final(out)@) == keys_view(old(out)@) + cols_key(row_events_view(cols@)),
{
    let ghost before = keys_view(out@);
    let ghost c = row_events_view(cols@);
    let mut i: usize = 0;
    assert(c.subrange(0, 0) =~= Seq::<Seq<(EventView, SourceSpan)>>::empty());
    assert(before + cols_key(c.subrange(0, 0)) =~= before);
    while i < cols.len()
        invariant
            0 <= i <= cols.len(),
            c == row_events_view(cols@),
            keys_view(out@) == before + cols_key(c.subrange(0, i as int)),
        decreases cols.len() - i,
    {
        push_col_key(out, &cols[i]);
        assert(c.subrange(0, i + 1).drop_last() =~= c.subrange(0, i as int));
        assert(c.subrange(0, i + 1).last() == events_view(cols@[i as int]@));
        assert(keys_view(out@) =~= before + cols_key(c.subrange(0, i + 1)));
        i = i + 1;
    }
    assert(c.subrange(0, i as int) =~= c);
}

/// The key of a table with `num_cols` columns, as `table_key_spec` says.
pub fn table_key(num_cols: usize, table: &Table) -> (r: Vec<KeyToken>)
    ensures
        keys_view(r@) == table_key_spec(
            num_cols,
            row_events_view(table.header@),
            rows_events_view(table.rows@),
        ),
{
    let mut out: Vec<KeyToken> = Vec::new();
    out.push(KeyToken::Count(num_cols));
    assert(keys_view(out@) =~= seq![KeyView::Count(num_cols)]);
    push_cols_key(&mut out, &table.header);
    let ghost k1 = keys_view(out@);
    out.push(KeyToken::Byte(0xEE));
    let ghost head = keys_view(out@);
    assert(head =~= seq![KeyView::Count(num_cols)] + cols_key(row_events_view(table.header@)) + seq![
        KeyView::Byte(0xEE),
    ]);
    let ghost rs = rows_events_view(table.rows@);
    let mut i: usize = 0;
    assert(rs.subrange(0, 0) =~= Seq::<Seq<Seq<(EventView, SourceSpan)>>>::empty());
    assert(head + rows_key(rs.subrange(0, 0)) =~= head);
    while i < table.rows.len()
        invariant
            0 <= i <= table.rows.len(),
            rs == rows_events_view(table.rows@),
            keys_view(out@) == head + rows_key(rs.subrange(0, i as int)),
        decreases table.rows.len() - i,
    {
        let ghost k0 = keys_view(out@);
        push_cols_key(&mut out, &table.rows[i]);
        let ghost k1 = keys_view(out@);
        out.push(KeyToken::Byte(0xEE));
        assert(keys_view(out@) =~= k1.push(KeyView::Byte(0xEE)));
        assert(rs.subrange(0, i + 1).drop_last() =~= rs.subrange(0, i as int));
        assert(rs.subrange(0, i + 1).last() == row_events_view(table.rows@[i as int]@));
        assert(k1 == k0 + cols_key(row_events_view(table.rows@[i as int]@)));
        assert(rows_key(rs.subrange(0, i + 1)) == rows_key(rs.subrange(0, i as int)) + cols_key(
            row_events_view(table.rows@[i as int]@),
        ) + seq![KeyView::Byte(0xEE)]);
        assert(keys_view(out@) =~= head + rows_key(rs.subrange(0, i + 1)));
        i = i + 1;
    }
    assert(rs.subrange(0, i as int) =~= rs);
    assert(keys_view(out@) =~= table_key_spec(num_cols, row_events_view(table.header@), rs));
    out
}

/// Whether a table's columns must be measured again: the measurements at
/// hand were taken for another content key or another number of columns.
pub fn needs_measuring(cached_key: u64, cached_cols: usize, key: u64, num_cols: usize) -> (r: bool)
    ensures
        r == (cached_key != key || cached_cols != num_cols),
{
    cached_key != key || cached_cols != num_cols
}

} // verus!
