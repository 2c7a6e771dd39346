use commonmark_viewer::events::{HeadingDepth, MdEvent, MdTag, MdTagEnd, SpannedEvent};
use commonmark_viewer::parse::parse_events;
use commonmark_viewer::viewer::{CommonMarkViewerInternal, RenderCommand, RenderOptions};

fn options(math_handler: bool) -> RenderOptions {
    RenderOptions {
        html_block_handler: false,
        math_handler,
        mutable: false,
        use_explicit_uri_scheme: false,
        default_implicit_uri_scheme: "file://".to_string(),
        alerts: vec!["NOTE".to_string()],
    }
}

fn has_text(events: &[SpannedEvent], wanted: &str) -> bool {
    events.iter().any(|(e, _)| matches!(e, MdEvent::Text(s) if s == wanted))
}

#[test]
fn dollars_stay_text_without_math() {
    let events = parse_events("$x$", false);
    assert_eq!(events.len(), 3);
    assert!(matches!(events[0].0, MdEvent::Start(MdTag::Paragraph)));
    assert!(matches!(&events[1].0, MdEvent::Text(s) if s == "$x$"));
    assert_eq!((events[1].1.start, events[1].1.end), (0, 3));
    assert!(matches!(events[2].0, MdEvent::End(MdTagEnd::Paragraph)));
}

#[test]
fn dollars_are_inline_math_with_math() {
    let events = parse_events("$x$", true);
    assert!(events.iter().any(|(e, _)| matches!(e, MdEvent::InlineMath(s) if s == "x")));
    assert!(!has_text(&events, "$x$"));
}

#[test]
fn heading_is_parsed_with_its_level() {
    let events = parse_events("## Title\n", false);
    assert_eq!(events.len(), 3);
    assert!(matches!(events[0].0, MdEvent::Start(MdTag::Heading(HeadingDepth::H2))));
    assert!(has_text(&events, "Title"));
    assert!(matches!(events[2].0, MdEvent::End(MdTagEnd::Heading)));
}

#[test]
fn tables_and_task_lists_are_parsed() {
    let events = parse_events("|a|b|\n|-|-|\n|1|2|\n", false);
    assert!(matches!(events[0].0, MdEvent::Start(MdTag::Table)));
    assert!(events.iter().any(|(e, _)| matches!(e, MdEvent::Start(MdTag::TableCell))));
    let tasks = parse_events("- [x] done\n", false);
    assert!(tasks.iter().any(|(e, _)| matches!(e, MdEvent::TaskListMarker(true))));
}

#[test]
fn fenced_code_keeps_its_language() {
    let events = parse_events("```rust\nlet x = 1;\n```\n", false);
    assert!(matches!(&events[0].0, MdEvent::Start(MdTag::CodeBlock(Some(lang))) if lang == "rust"));
    assert!(has_text(&events, "let x = 1;\n"));
    let indented = parse_events("    code\n", false);
    assert!(matches!(indented[0].0, MdEvent::Start(MdTag::CodeBlock(None))));
}

#[test]
fn show_text_draws_the_parsed_text() {
    let mut viewer = CommonMarkViewerInternal::new();
    let (events, shown) = viewer.show_text("Hello *world*", false, &options(false));
    assert!(matches!(events[0].0, MdEvent::Start(MdTag::Paragraph)));
    let cmds = shown.unwrap();
    let labels: Vec<&str> = cmds
        .iter()
        .filter_map(|c| match c {
            RenderCommand::Label(run) => Some(run.text.as_str()),
            _ => None,
        })
        .collect();
    assert_eq!(labels, vec!["Hello ", "world"]);
}

#[test]
fn show_text_parses_math_only_with_a_handler() {
    let mut viewer = CommonMarkViewerInternal::new();
    let (events, _) = viewer.show_text("$x$", false, &options(false));
    assert!(has_text(&events, "$x$"));
    let mut viewer = CommonMarkViewerInternal::new();
    let (events, _) = viewer.show_text("$x$", false, &options(true));
    assert!(events.iter().any(|(e, _)| matches!(e, MdEvent::InlineMath(_))));
}

#[test]
fn nothing_is_left_waiting_after_a_document() {
    let text = "- item\n\n  > quote in an item\n  > > nested\n\n|a|b|\n|-|-|\n|1|2|\n\nterm\n: definition\n";
    let mut viewer = CommonMarkViewerInternal::new();
    let (events, shown) = viewer.show_text(text, false, &options(false));
    assert!(events.iter().any(|(e, _)| matches!(e, MdEvent::Start(MdTag::Table))));
    assert!(events.iter().any(|(e, _)| matches!(e, MdEvent::Start(MdTag::DefinitionListDefinition))));
    assert!(shown.is_ok());
    assert!(!viewer.is_list_item);
    assert!(!viewer.is_table);
    assert!(!viewer.is_blockquote);
    assert!(!viewer.def_list.is_def_list_def);
}
