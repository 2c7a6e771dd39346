use commonmark_viewer::list::{List, ListMarker};
use commonmark_viewer::newline::Newline;
use commonmark_viewer::options::{
    parser_options, parser_options_math, ENABLE_DEFINITION_LIST, ENABLE_FOOTNOTES, ENABLE_MATH,
    ENABLE_STRIKETHROUGH, ENABLE_TABLES, ENABLE_TASKLISTS,
};
use commonmark_viewer::key::needs_measuring;
use commonmark_viewer::render::names_scheme;
use commonmark_viewer::table::is_striped;
use commonmark_viewer::scroll::{event_window, nth_set, nth_set_back, record_split_point, scroll_window};
use commonmark_viewer::trim::{is_whitespace, trim_end, trim_start};
use pulldown_cmark::Options;

#[test]
fn newline_defaults_skip_first_widget() {
    let n = Newline::new();
    assert!(!n.can_insert_start());
    assert!(n.can_insert_end());
    assert!(!n.try_insert_start());
    assert!(n.try_insert_end());
    let d: Newline = Default::default();
    assert_eq!(d, n);
}

#[test]
fn list_levels_roundtrip_and_count() {
    let mut l = List::new();
    assert!(!l.is_inside_a_list());
    l.start_level_with_number(1);
    assert!(l.is_last_level());
    let a = l.start_item();
    let b = l.start_item();
    assert_eq!(a.marker, ListMarker::Number(1));
    assert_eq!(b.marker, ListMarker::Number(2));
    assert!(!a.newline_before && b.newline_before);
    l.start_level_without_number();
    let c = l.start_item();
    assert_eq!(c.marker, ListMarker::HollowBullet);
    assert_eq!(c.indent_levels, 1);
    assert!(!l.end_level(true));
    assert!(l.end_level(true));
    assert!(!l.is_inside_a_list());
    assert!(!l.can_start_item());
}

#[test]
fn list_numbering_stops_at_the_largest_number() {
    let mut l = List::new();
    l.start_level_with_number(u64::MAX);
    assert!(!l.can_start_item());
}

#[test]
fn options_bits() {
    assert_eq!(parser_options(), 2 | 16 | 8 | 4 | 4096);
    assert_eq!(parser_options_math(false), 4126);
    assert_eq!(parser_options_math(true), 4126 | 1024);
}

#[test]
fn trimming_uses_unicode_whitespace() {
    assert_eq!(trim_start(" \t\u{a0}x y "), "x y ");
    assert_eq!(trim_end(" x y\u{2003}\n"), " x y");
    assert_eq!(trim_start("   "), "");
    assert!(is_whitespace('\u{85}'));
    assert!(!is_whitespace('\u{200b}'));
    for c in ['a', ' ', '\u{1680}', '\u{3000}', '\u{feff}', '\u{180e}'] {
        assert_eq!(is_whitespace(c), c.is_whitespace());
    }
}

#[test]
fn uri_schemes() {
    assert!(names_scheme("https://a"));
    assert!(names_scheme("data:image/png;base64,AA"));
    assert!(!names_scheme("images/cat.png"));
    assert!(!names_scheme("data"));
}

#[test]
fn split_points_are_recorded_once() {
    let mut points: Vec<(usize, i32, i32)> = Vec::new();
    record_split_point(&mut points, 4, 1, 2);
    record_split_point(&mut points, 4, 9, 9);
    record_split_point(&mut points, 6, 3, 4);
    assert_eq!(points, vec![(4, 1, 2), (6, 3, 4)]);
}

#[test]
fn nth_set_flags() {
    let f = vec![false, true, true, false, true];
    assert_eq!(nth_set(&f, 0), Some(1));
    assert_eq!(nth_set(&f, 1), Some(2));
    assert_eq!(nth_set(&f, 3), None);
    assert_eq!(nth_set_back(&f, 0), Some(4));
    assert_eq!(nth_set_back(&f, 1), Some(2));
    assert_eq!(nth_set_back(&vec![true], 1), None);
}

#[test]
fn scroll_window_picks_neighbouring_split_points() {
    let idx = vec![3, 8, 12, 20];
    let above = vec![true, true, false, false];
    let below = vec![false, false, true, true];
    assert_eq!(scroll_window(&idx, &above, &below), (Some(0), 3, Some(20)));
    let none = vec![false, false, false, false];
    assert_eq!(scroll_window(&idx, &none, &none), (None, 0, None));
}

#[test]
fn event_window_bounds() {
    assert_eq!(event_window(2, 5, 10), Some((2, 5)));
    assert_eq!(event_window(2, 50, 10), Some((2, 10)));
    assert_eq!(event_window(20, 50, 10), Some((10, 10)));
    assert_eq!(event_window(5, 2, 10), None);
}

#[test]
fn option_bits_are_the_parser_flags() {
    assert_eq!(ENABLE_TABLES, Options::ENABLE_TABLES.bits());
    assert_eq!(ENABLE_FOOTNOTES, Options::ENABLE_FOOTNOTES.bits());
    assert_eq!(ENABLE_STRIKETHROUGH, Options::ENABLE_STRIKETHROUGH.bits());
    assert_eq!(ENABLE_TASKLISTS, Options::ENABLE_TASKLISTS.bits());
    assert_eq!(ENABLE_MATH, Options::ENABLE_MATH.bits());
    assert_eq!(ENABLE_DEFINITION_LIST, Options::ENABLE_DEFINITION_LIST.bits());
}

#[test]
fn every_second_row_is_striped() {
    assert!(!is_striped(0));
    assert!(is_striped(1));
    assert!(!is_striped(2));
    assert!(is_striped(7));
}

#[test]
fn columns_are_measured_again_only_when_the_table_changed() {
    assert!(!needs_measuring(42, 3, 42, 3));
    assert!(needs_measuring(41, 3, 42, 3));
    assert!(needs_measuring(42, 2, 42, 3));
}
