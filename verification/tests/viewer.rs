use commonmark_viewer::events::{HeadingDepth, MdEvent, MdTag, MdTagEnd, SourceSpan, SpannedEvent};
use commonmark_viewer::list::ListMarker;
use commonmark_viewer::process::RenderError;
use commonmark_viewer::viewer::{CommonMarkViewerInternal, RenderCommand, RenderOptions, Scope};

fn span(i: usize) -> SourceSpan {
    SourceSpan { start: i, end: i + 1 }
}

fn evs(list: Vec<MdEvent>) -> Vec<SpannedEvent> {
    list.into_iter().enumerate().map(|(i, e)| (e, span(i))).collect()
}

fn text(s: &str) -> MdEvent {
    MdEvent::Text(s.to_string())
}

fn options() -> RenderOptions {
    RenderOptions {
        html_block_handler: false,
        math_handler: false,
        mutable: false,
        use_explicit_uri_scheme: false,
        default_implicit_uri_scheme: "file://".to_string(),
        alerts: ["NOTE", "TIP", "IMPORTANT", "WARNING", "CAUTION"]
            .iter()
            .map(|s| s.to_string())
            .collect(),
    }
}

fn render(list: Vec<MdEvent>) -> Vec<RenderCommand> {
    let mut viewer = CommonMarkViewerInternal::new();
    viewer.show(&evs(list), false, &options()).unwrap()
}

fn label_text(c: &RenderCommand) -> Option<&str> {
    match c {
        RenderCommand::Label(run) => Some(run.text.as_str()),
        _ => None,
    }
}

#[test]
fn single_paragraph_has_no_newlines() {
    let cmds = render(vec![
        MdEvent::Start(MdTag::Paragraph),
        text("Hello"),
        MdEvent::End(MdTagEnd::Paragraph),
    ]);
    assert_eq!(cmds.len(), 1);
    assert_eq!(label_text(&cmds[0]), Some("Hello"));
}

#[test]
fn second_paragraph_starts_on_a_new_line() {
    let cmds = render(vec![
        MdEvent::Start(MdTag::Paragraph),
        text("one"),
        MdEvent::End(MdTagEnd::Paragraph),
        MdEvent::Start(MdTag::Paragraph),
        text("two"),
        MdEvent::End(MdTagEnd::Paragraph),
    ]);
    // "one", newline ending the first paragraph, newline starting the second, "two"
    assert_eq!(cmds.len(), 4);
    assert_eq!(label_text(&cmds[0]), Some("one"));
    assert!(matches!(cmds[1], RenderCommand::Newline));
    assert!(matches!(cmds[2], RenderCommand::Newline));
    assert_eq!(label_text(&cmds[3]), Some("two"));
}

#[test]
fn strong_text_is_styled_and_style_is_reset() {
    let cmds = render(vec![
        MdEvent::Start(MdTag::Paragraph),
        MdEvent::Start(MdTag::Strong),
        text("bold"),
        MdEvent::End(MdTagEnd::Strong),
        text("plain"),
        MdEvent::End(MdTagEnd::Paragraph),
    ]);
    match (&cmds[0], &cmds[1]) {
        (RenderCommand::Label(a), RenderCommand::Label(b)) => {
            assert!(a.style.strong);
            assert!(!b.style.strong);
        }
        _ => panic!("expected two labels"),
    }
}

#[test]
fn heading_sets_level_and_newline() {
    let cmds = render(vec![
        MdEvent::Start(MdTag::Heading(HeadingDepth::H2)),
        text("Title"),
        MdEvent::End(MdTagEnd::Heading),
    ]);
    assert!(matches!(cmds[0], RenderCommand::Newline));
    match &cmds[1] {
        RenderCommand::Label(run) => assert_eq!(run.style.heading, Some(1)),
        _ => panic!("expected a label"),
    }
    assert_eq!(cmds.len(), 2);
}

#[test]
fn inline_code_uses_code_style() {
    let cmds = render(vec![MdEvent::Code("x + 1".to_string()), text("after")]);
    match (&cmds[0], &cmds[1]) {
        (RenderCommand::Label(a), RenderCommand::Label(b)) => {
            assert!(a.style.code);
            assert_eq!(a.text, "x + 1");
            assert!(!b.style.code);
        }
        _ => panic!("expected two labels"),
    }
}

#[test]
fn unordered_list_item_is_wrapped() {
    let cmds = render(vec![
        MdEvent::Start(MdTag::List(None)),
        MdEvent::Start(MdTag::Item),
        text("a"),
        MdEvent::End(MdTagEnd::Item),
        MdEvent::End(MdTagEnd::List),
    ]);
    assert_eq!(cmds.len(), 4);
    match &cmds[0] {
        RenderCommand::ListItem(item) => {
            assert!(!item.newline_before);
            assert_eq!(item.indent_levels, 0);
            assert_eq!(item.marker, ListMarker::Bullet);
        }
        _ => panic!("expected a list item"),
    }
    assert!(matches!(cmds[1], RenderCommand::Open(Scope::Wrapped)));
    assert_eq!(label_text(&cmds[2]), Some("a"));
    assert!(matches!(cmds[3], RenderCommand::Close(Scope::Wrapped)));
}

#[test]
fn ordered_list_numbers_items() {
    let cmds = render(vec![
        MdEvent::Start(MdTag::List(Some(7))),
        MdEvent::Start(MdTag::Item),
        text("a"),
        MdEvent::End(MdTagEnd::Item),
        MdEvent::Start(MdTag::Item),
        text("b"),
        MdEvent::End(MdTagEnd::Item),
        MdEvent::End(MdTagEnd::List),
    ]);
    let markers: Vec<(bool, ListMarker)> = cmds
        .iter()
        .filter_map(|c| match c {
            RenderCommand::ListItem(i) => Some((i.newline_before, i.marker)),
            _ => None,
        })
        .collect();
    assert_eq!(markers, vec![(false, ListMarker::Number(7)), (true, ListMarker::Number(8))]);
}

#[test]
fn item_outside_a_list_is_refused() {
    let mut viewer = CommonMarkViewerInternal::new();
    let r = viewer.show(&evs(vec![MdEvent::Start(MdTag::Item), text("x")]), false, &options());
    assert_eq!(r.err(), Some(RenderError::ListItem));
}

#[test]
fn blockquote_is_scoped_and_quoted() {
    let cmds = render(vec![
        MdEvent::Start(MdTag::BlockQuote),
        MdEvent::Start(MdTag::Paragraph),
        text("q"),
        MdEvent::End(MdTagEnd::Paragraph),
        MdEvent::End(MdTagEnd::BlockQuote),
    ]);
    assert_eq!(cmds.len(), 5);
    assert!(matches!(cmds[0], RenderCommand::Open(Scope::Quote)));
    assert!(matches!(cmds[1], RenderCommand::Newline));
    match &cmds[2] {
        RenderCommand::Label(run) => {
            assert_eq!(run.text, "q");
            assert!(run.style.quote);
        }
        _ => panic!("expected a label"),
    }
    assert!(matches!(cmds[3], RenderCommand::Newline));
    assert!(matches!(cmds[4], RenderCommand::Close(Scope::Quote)));
}

#[test]
fn link_text_is_gathered() {
    let cmds = render(vec![
        MdEvent::Start(MdTag::Link("https://example.org".to_string())),
        text("site"),
        MdEvent::End(MdTagEnd::Link),
    ]);
    assert_eq!(cmds.len(), 1);
    match &cmds[0] {
        RenderCommand::Link(link) => {
            assert_eq!(link.destination, "https://example.org");
            assert_eq!(link.text.len(), 1);
            assert_eq!(link.text[0].text, "site");
        }
        _ => panic!("expected a link"),
    }
}

#[test]
fn image_address_gets_default_scheme() {
    let cmds = render(vec![
        MdEvent::Start(MdTag::Image("cat.png".to_string())),
        text("a cat"),
        MdEvent::End(MdTagEnd::Image),
        MdEvent::Start(MdTag::Image("https://x.org/dog.png".to_string())),
        MdEvent::End(MdTagEnd::Image),
    ]);
    match (&cmds[0], &cmds[1]) {
        (RenderCommand::Image(a), RenderCommand::Image(b)) => {
            assert_eq!(a.uri, "file://cat.png");
            assert_eq!(a.alt_text[0].text, "a cat");
            assert_eq!(b.uri, "https://x.org/dog.png");
        }
        _ => panic!("expected two images"),
    }
}

#[test]
fn code_block_gathers_its_text() {
    let cmds = render(vec![
        MdEvent::Start(MdTag::CodeBlock(Some("rust".to_string()))),
        text("fn main() {}\n"),
        text("// end\n"),
        MdEvent::End(MdTagEnd::CodeBlock),
    ]);
    assert_eq!(cmds.len(), 1);
    match &cmds[0] {
        RenderCommand::CodeBlock(b) => {
            assert_eq!(b.lang.as_deref(), Some("rust"));
            assert_eq!(b.content, "fn main() {}\n// end\n");
        }
        _ => panic!("expected a code block"),
    }
}

#[test]
fn html_goes_to_handler_when_present() {
    let mut viewer = CommonMarkViewerInternal::new();
    let mut opts = options();
    opts.html_block_handler = true;
    let cmds = viewer
        .show(
            &evs(vec![
                MdEvent::Start(MdTag::HtmlBlock),
                MdEvent::Html("<b>x</b>\n".to_string()),
                MdEvent::End(MdTagEnd::HtmlBlock),
            ]),
            false,
            &opts,
        )
        .unwrap();
    assert_eq!(cmds.len(), 1);
    match &cmds[0] {
        RenderCommand::Html(h) => assert_eq!(h, "<b>x</b>\n"),
        _ => panic!("expected html"),
    }
    assert!(viewer.html_block.is_empty());
}

#[test]
fn math_is_dropped_without_handler() {
    let cmds = render(vec![MdEvent::InlineMath("x^2".to_string())]);
    assert!(cmds.is_empty());
    let mut viewer = CommonMarkViewerInternal::new();
    let mut opts = options();
    opts.math_handler = true;
    let cmds = viewer
        .show(&evs(vec![MdEvent::DisplayMath("x^2".to_string())]), false, &opts)
        .unwrap();
    match &cmds[0] {
        RenderCommand::Math { tex, inline } => {
            assert_eq!(tex, "x^2");
            assert!(!inline);
        }
        _ => panic!("expected math"),
    }
}

#[test]
fn checkbox_clicks_are_recorded_and_taken() {
    let mut viewer = CommonMarkViewerInternal::new();
    let mut opts = options();
    opts.mutable = true;
    let cmds = viewer.show(&evs(vec![MdEvent::TaskListMarker(true)]), false, &opts).unwrap();
    match &cmds[0] {
        RenderCommand::Checkbox { checked, span: s, mutable } => {
            assert!(*checked);
            assert!(*mutable);
            viewer.checkbox_clicked(false, *s);
        }
        _ => panic!("expected a checkbox"),
    }
    let clicks = viewer.take_checkbox_events();
    assert_eq!(clicks.len(), 1);
    assert!(!clicks[0].checked);
    assert_eq!(clicks[0].span, span(0));
    assert!(viewer.take_checkbox_events().is_empty());
}

#[test]
fn rule_ends_its_line_unless_last() {
    let cmds = render(vec![text("a"), MdEvent::Rule, text("b")]);
    assert!(matches!(cmds[1], RenderCommand::Newline));
    assert!(matches!(cmds[2], RenderCommand::Rule { end_line: true }));
    let cmds = render(vec![text("a"), MdEvent::Rule]);
    assert!(matches!(cmds[2], RenderCommand::Rule { end_line: false }));
}

#[test]
fn definition_is_indented_and_wrapped() {
    let cmds = render(vec![
        MdEvent::Start(MdTag::DefinitionList),
        MdEvent::Start(MdTag::DefinitionListTitle),
        text("term"),
        MdEvent::End(MdTagEnd::DefinitionListTitle),
        MdEvent::Start(MdTag::DefinitionListDefinition),
        text("first"),
        text("rest"),
        MdEvent::End(MdTagEnd::DefinitionListDefinition),
        MdEvent::End(MdTagEnd::DefinitionList),
    ]);
    let labels: Vec<&str> = cmds.iter().filter_map(label_text).collect();
    assert_eq!(labels, vec!["term", "first", "rest"]);
    let first = cmds.iter().position(|c| label_text(c) == Some("first")).unwrap();
    assert!(matches!(cmds[first + 1], RenderCommand::Indent(1)));
    assert!(matches!(cmds[first + 2], RenderCommand::Open(Scope::Wrapped)));
    let rest = cmds.iter().position(|c| label_text(c) == Some("rest")).unwrap();
    assert!(matches!(cmds[rest + 1], RenderCommand::Close(Scope::Wrapped)));
}

#[test]
fn split_points_are_marked_inside_lists() {
    let mut viewer = CommonMarkViewerInternal::new();
    let cmds = viewer
        .show(
            &evs(vec![
                MdEvent::Start(MdTag::List(None)),
                MdEvent::Start(MdTag::Item),
                text("a"),
                MdEvent::End(MdTagEnd::Item),
                MdEvent::End(MdTagEnd::List),
            ]),
            true,
            &options(),
        )
        .unwrap();
    let starts: Vec<usize> = cmds
        .iter()
        .filter_map(|c| match c {
            RenderCommand::EventStart(i) => Some(*i),
            _ => None,
        })
        .collect();
    let splits: Vec<usize> = cmds
        .iter()
        .filter_map(|c| match c {
            RenderCommand::SplitPoint(i) => Some(*i),
            _ => None,
        })
        .collect();
    assert_eq!(starts, vec![0, 1, 4]);
    assert_eq!(splits, vec![4]);
}

fn quote_with(first: &str) -> Vec<MdEvent> {
    vec![
        MdEvent::Start(MdTag::BlockQuote),
        MdEvent::Start(MdTag::Paragraph),
        text(first),
        MdEvent::SoftBreak,
        text("body"),
        MdEvent::End(MdTagEnd::Paragraph),
        MdEvent::End(MdTagEnd::BlockQuote),
    ]
}

#[test]
fn quote_with_alert_marker_is_drawn_as_the_alert() {
    let cmds = render(quote_with("[!TIP]"));
    assert!(matches!(cmds[0], RenderCommand::Open(Scope::Alert(1))));
    let labels: Vec<&str> = cmds.iter().filter_map(label_text).collect();
    assert_eq!(labels, vec!["body"]);
    assert!(cmds.iter().any(|c| matches!(c, RenderCommand::Close(Scope::Alert(1)))));
    assert!(!cmds.iter().any(|c| matches!(c, RenderCommand::Open(Scope::Quote))));
}

#[test]
fn alert_marker_is_found_in_any_case() {
    let cmds = render(quote_with("[!warning]"));
    assert!(matches!(cmds[0], RenderCommand::Open(Scope::Alert(3))));
}

#[test]
fn unknown_alert_marker_leaves_a_plain_quote() {
    let cmds = render(quote_with("[!HINT]"));
    assert!(matches!(cmds[0], RenderCommand::Open(Scope::Quote)));
    let labels: Vec<&str> = cmds.iter().filter_map(label_text).collect();
    assert_eq!(labels, vec!["[!HINT]", "body"]);
}

#[test]
fn alert_text_is_not_in_quote_style() {
    let cmds = render(quote_with("[!NOTE]"));
    for c in &cmds {
        if let RenderCommand::Label(run) = c {
            assert!(!run.style.quote);
        }
    }
    let plain = render(quote_with("plain"));
    let mut quoted = 0;
    for c in &plain {
        if let RenderCommand::Label(run) = c {
            assert!(run.style.quote);
            quoted += 1;
        }
    }
    assert_eq!(quoted, 2);
}

#[test]
fn later_alert_with_same_identifier_wins() {
    let mut opts = options();
    opts.alerts = vec!["NOTE".to_string(), "NOTE".to_string()];
    let mut viewer = CommonMarkViewerInternal::new();
    let cmds = viewer.show(&evs(quote_with("[!NOTE]")), false, &opts).unwrap();
    assert!(matches!(cmds[0], RenderCommand::Open(Scope::Alert(1))));
}

#[test]
fn empty_document_draws_nothing() {
    let mut viewer = CommonMarkViewerInternal::new();
    let cmds = viewer.show(&Vec::new(), true, &options()).unwrap();
    assert!(cmds.is_empty());
}

#[test]
fn last_definition_of_a_list_ends_without_newline() {
    let cmds = render(vec![
        MdEvent::Start(MdTag::DefinitionList),
        MdEvent::Start(MdTag::DefinitionListTitle),
        text("t1"),
        MdEvent::End(MdTagEnd::DefinitionListTitle),
        MdEvent::Start(MdTag::DefinitionListDefinition),
        text("d1"),
        MdEvent::End(MdTagEnd::DefinitionListDefinition),
        MdEvent::Start(MdTag::DefinitionListTitle),
        text("t2"),
        MdEvent::End(MdTagEnd::DefinitionListTitle),
        MdEvent::Start(MdTag::DefinitionListDefinition),
        text("d2"),
        MdEvent::End(MdTagEnd::DefinitionListDefinition),
        MdEvent::End(MdTagEnd::DefinitionList),
    ]);
    let d1 = cmds.iter().position(|c| label_text(c) == Some("d1")).unwrap();
    assert!(matches!(cmds[d1 + 1], RenderCommand::Indent(1)));
    assert!(matches!(cmds[d1 + 2], RenderCommand::Open(Scope::Wrapped)));
    assert!(matches!(cmds[d1 + 3], RenderCommand::Close(Scope::Wrapped)));
    assert!(matches!(cmds[d1 + 4], RenderCommand::Newline));
    assert!(matches!(cmds.last(), Some(RenderCommand::Close(Scope::Wrapped))));
}


#[test]
fn second_code_block_end_draws_nothing() {
    let cmds = render(vec![
        MdEvent::Start(MdTag::CodeBlock(None)),
        text("x"),
        MdEvent::End(MdTagEnd::CodeBlock),
        MdEvent::End(MdTagEnd::CodeBlock),
    ]);
    assert_eq!(cmds.iter().filter(|c| matches!(c, RenderCommand::CodeBlock(_))).count(), 1);
    assert!(matches!(cmds[cmds.len() - 2], RenderCommand::CodeBlock(_)));
    assert!(matches!(cmds[cmds.len() - 1], RenderCommand::Newline));
}

#[test]
fn first_definition_title_starts_no_new_line() {
    let cmds = render(vec![
        MdEvent::Start(MdTag::Paragraph),
        text("before"),
        MdEvent::End(MdTagEnd::Paragraph),
        MdEvent::Start(MdTag::DefinitionList),
        MdEvent::Start(MdTag::DefinitionListTitle),
        text("term"),
        MdEvent::End(MdTagEnd::DefinitionListTitle),
        MdEvent::End(MdTagEnd::DefinitionList),
    ]);
    let term = cmds.iter().position(|c| label_text(c) == Some("term")).unwrap();
    // the paragraph's end and the list's start each give one newline; the
    // first title gives none
    assert!(matches!(cmds[term - 1], RenderCommand::Newline));
    assert!(matches!(cmds[term - 2], RenderCommand::Newline));
    assert_eq!(label_text(&cmds[term - 3]), Some("before"));
}

#[test]
fn a_quote_ending_a_list_item_keeps_later_line_ends() {
    let cmds = render(vec![
        MdEvent::Start(MdTag::List(None)),
        MdEvent::Start(MdTag::Item),
        MdEvent::Start(MdTag::BlockQuote),
        MdEvent::Start(MdTag::Paragraph),
        text("q"),
        MdEvent::End(MdTagEnd::Paragraph),
        MdEvent::End(MdTagEnd::BlockQuote),
        MdEvent::End(MdTagEnd::Item),
        MdEvent::End(MdTagEnd::List),
        MdEvent::Start(MdTag::Paragraph),
        text("after"),
        MdEvent::End(MdTagEnd::Paragraph),
        MdEvent::Start(MdTag::Paragraph),
        text("last"),
        MdEvent::End(MdTagEnd::Paragraph),
    ]);
    let after = cmds.iter().position(|c| label_text(c) == Some("after")).unwrap();
    assert!(matches!(cmds[after + 1], RenderCommand::Newline));
    assert!(matches!(cmds.last(), Some(RenderCommand::Label(_))));
}
