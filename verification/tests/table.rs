use commonmark_viewer::cell::{cell_widgets, trim_cell, widgets_on_row, MeasureWidget};
use commonmark_viewer::collect::{delayed_events, delayed_events_list_item};
use commonmark_viewer::events::{MdEvent, MdTag, MdTagEnd, SourceSpan, SpannedEvent};
use commonmark_viewer::key::{table_key, KeyToken};
use commonmark_viewer::process::RenderError;
use commonmark_viewer::table::{parse_row, parse_table, Table};
use commonmark_viewer::viewer::{CommonMarkViewerInternal, RenderCommand, RenderOptions, Scope};

fn evs(list: Vec<MdEvent>) -> Vec<SpannedEvent> {
    list.into_iter()
        .enumerate()
        .map(|(i, e)| (e, SourceSpan { start: i, end: i + 1 }))
        .collect()
}

fn text(s: &str) -> MdEvent {
    MdEvent::Text(s.to_string())
}

fn texts(col: &[SpannedEvent]) -> Vec<String> {
    col.iter()
        .filter_map(|(e, _)| match e {
            MdEvent::Text(s) => Some(s.clone()),
            _ => None,
        })
        .collect()
}

/// | a | b |
/// |---|---|
/// | c | d |
fn two_by_two() -> Vec<MdEvent> {
    vec![
        MdEvent::Start(MdTag::Table),
        MdEvent::Start(MdTag::TableHead),
        MdEvent::Start(MdTag::TableCell),
        text("a "),
        MdEvent::End(MdTagEnd::TableCell),
        MdEvent::Start(MdTag::TableCell),
        text("b"),
        MdEvent::End(MdTagEnd::TableCell),
        MdEvent::End(MdTagEnd::TableHead),
        MdEvent::Start(MdTag::TableRow),
        MdEvent::Start(MdTag::TableCell),
        text("c"),
        MdEvent::End(MdTagEnd::TableCell),
        MdEvent::Start(MdTag::TableCell),
        text("d"),
        MdEvent::End(MdTagEnd::TableCell),
        MdEvent::End(MdTagEnd::TableRow),
        MdEvent::End(MdTagEnd::Table),
    ]
}

#[test]
fn delayed_events_stop_after_the_end_tag() {
    let e = evs(vec![
        text("a"),
        MdEvent::End(MdTagEnd::BlockQuote),
        text("after"),
    ]);
    let (got, next) = delayed_events(&e, 0, e.len(), MdTagEnd::BlockQuote);
    assert_eq!(got.len(), 2);
    assert_eq!(next, 2);
    let (got, next) = delayed_events(&e, 0, e.len(), MdTagEnd::Table);
    assert_eq!(got.len(), 3);
    assert_eq!(next, 3);
}

#[test]
fn list_item_events_stop_at_nested_list() {
    let e = evs(vec![
        text("a"),
        MdEvent::Start(MdTag::List(None)),
        MdEvent::Start(MdTag::Item),
    ]);
    let (got, next) = delayed_events_list_item(&e, 0, e.len());
    assert_eq!(got.len(), 2);
    assert_eq!(next, 2);
}

#[test]
fn parse_row_leaks_cell_end_into_next_cell() {
    let e = evs(vec![
        MdEvent::Start(MdTag::TableCell),
        text("x"),
        MdEvent::End(MdTagEnd::TableCell),
        MdEvent::Start(MdTag::TableCell),
        text("y"),
        MdEvent::End(MdTagEnd::TableCell),
        MdEvent::End(MdTagEnd::TableRow),
        text("next row"),
    ]);
    let (row, next) = parse_row(&e, 0);
    assert_eq!(next, 7);
    assert_eq!(row.len(), 2);
    assert!(matches!(row[1][0].0, MdEvent::End(MdTagEnd::TableCell)));
    assert_eq!(texts(&row[0]), vec!["x"]);
    assert_eq!(texts(&row[1]), vec!["y"]);
}

#[test]
fn parse_table_splits_header_and_rows() {
    let e = evs(two_by_two());
    let (table, next) = parse_table(&e, 1, e.len());
    assert_eq!(next, e.len());
    assert_eq!(table.header.len(), 2);
    assert_eq!(texts(&table.header[0]), vec!["a "]);
    assert_eq!(table.rows.len(), 2);
    assert_eq!(table.rows[0].len(), 2);
    assert_eq!(texts(&table.rows[0][1]), vec!["d"]);
    // the End(Table) event forms a last, empty row
    assert_eq!(table.rows[1].len(), 0);
}

#[test]
fn trim_cell_removes_outer_whitespace_only() {
    let mut col = evs(vec![
        text("   "),
        text("  left  inner "),
        MdEvent::SoftBreak,
        text(" right  "),
        text(" \u{3000}"),
    ]);
    trim_cell(&mut col);
    assert_eq!(texts(&col), vec!["", "left  inner ", " right", ""]);
    let mut again = col.clone();
    trim_cell(&mut again);
    assert_eq!(texts(&again), texts(&col));
}

#[test]
fn cell_widgets_follow_render() {
    let col = evs(vec![
        MdEvent::Start(MdTag::Strong),
        text("bold"),
        MdEvent::End(MdTagEnd::Strong),
        MdEvent::SoftBreak,
        MdEvent::Start(MdTag::Link("u".to_string())),
        text("l1"),
        MdEvent::Code("l2".to_string()),
        MdEvent::SoftBreak,
        MdEvent::End(MdTagEnd::Link),
        MdEvent::Start(MdTag::Image("i".to_string())),
        text("alt"),
        MdEvent::End(MdTagEnd::Image),
        MdEvent::HardBreak,
    ]);
    let w = cell_widgets(&col);
    assert_eq!(w.len(), 4);
    match &w[0] {
        MeasureWidget::Text(r) => {
            assert_eq!(r.text, "bold");
            assert!(r.style.strong);
        }
        _ => panic!("expected text"),
    }
    assert!(matches!(w[1], MeasureWidget::SoftBreak));
    match &w[2] {
        MeasureWidget::Link(runs) => {
            assert_eq!(runs.len(), 2);
            assert!(!runs[0].style.code);
            assert!(runs[1].style.code);
        }
        _ => panic!("expected a link"),
    }
    assert!(matches!(w[3], MeasureWidget::HardBreak));
    assert_eq!(widgets_on_row(&w), 3);
}

#[test]
fn table_key_lists_pieces_in_order() {
    let table = Table {
        header: vec![evs(vec![text("h")])],
        rows: vec![vec![evs(vec![MdEvent::Code("c".to_string()), MdEvent::SoftBreak])]],
    };
    let key = table_key(1, &table);
    let shape: Vec<String> = key
        .iter()
        .map(|k| match k {
            KeyToken::Count(n) => format!("n{}", n),
            KeyToken::Byte(b) => format!("{:02x}", b),
            KeyToken::Str(s) => format!("'{}'", s),
        })
        .collect();
    assert_eq!(
        shape,
        vec!["n1", "00", "'h'", "ff", "ee", "01", "'c'", "40", "ff", "ee"]
    );
}

#[test]
fn table_is_drawn_in_scopes() {
    let mut viewer = CommonMarkViewerInternal::new();
    let opts = RenderOptions {
        html_block_handler: false,
        math_handler: false,
        mutable: false,
        use_explicit_uri_scheme: false,
        default_implicit_uri_scheme: String::new(),
        alerts: Vec::new(),
    };
    let cmds = viewer.show(&evs(two_by_two()), false, &opts).unwrap();
    assert!(matches!(cmds[0], RenderCommand::Open(Scope::Table(0))));
    match &cmds[1] {
        RenderCommand::TableInfo(t) => {
            assert_eq!(t.num_cols, 2);
            assert_eq!(t.header.len(), 2);
            assert_eq!(t.rows.len(), 2);
        }
        _ => panic!("expected the table layout"),
    }
    let labels: Vec<&str> = cmds
        .iter()
        .filter_map(|c| match c {
            RenderCommand::Label(r) => Some(r.text.as_str()),
            _ => None,
        })
        .collect();
    // the header cell "a " is trimmed
    assert_eq!(labels, vec!["a", "b", "c", "d"]);
    assert!(cmds.iter().all(|c| !matches!(c, RenderCommand::CellGap)));
    assert!(matches!(cmds.last(), Some(RenderCommand::Close(Scope::Table(0)))));
    assert_eq!(viewer.curr_table, 1);
    assert!(!viewer.is_table);
}

#[test]
fn tables_past_the_count_are_refused() {
    let mut viewer = CommonMarkViewerInternal::new();
    viewer.curr_table = usize::MAX;
    let opts = RenderOptions {
        html_block_handler: false,
        math_handler: false,
        mutable: false,
        use_explicit_uri_scheme: false,
        default_implicit_uri_scheme: String::new(),
        alerts: Vec::new(),
    };
    let r = viewer.show(&evs(two_by_two()), false, &opts);
    assert!(matches!(r, Err(RenderError::TableCount)));
}

#[test]
fn tables_are_numbered_in_order() {
    let mut viewer = CommonMarkViewerInternal::new();
    let opts = RenderOptions {
        html_block_handler: false,
        math_handler: false,
        mutable: false,
        use_explicit_uri_scheme: false,
        default_implicit_uri_scheme: String::new(),
        alerts: Vec::new(),
    };
    let mut list = two_by_two();
    list.extend(two_by_two());
    let cmds = viewer.show(&evs(list), false, &opts).unwrap();
    let ids: Vec<usize> = cmds
        .iter()
        .filter_map(|c| match c {
            RenderCommand::Open(Scope::Table(id)) => Some(*id),
            _ => None,
        })
        .collect();
    assert_eq!(ids, vec![0, 1]);
    assert_eq!(viewer.curr_table, 2);
}
