use markdown::builder::{build_document, resolve_language_name, Block, BlockChild, BlockKind, MarkdownBuilder};
use markdown::events::{CodeBlockKind, HeadingLevel, MarkdownEvent, MarkdownTag, MarkdownTagEnd, SpannedEvent};
use markdown::style::{HighlightSpan, MarkdownStyle, TextStyle, TextStyleRefinement};

fn base_style() -> TextStyle {
    TextStyle { italic: false, bold: false, strikethrough: false, underline: false, color: 1, font_size: 16 }
}

fn no_refinement() -> TextStyleRefinement {
    TextStyleRefinement::none()
}

fn style() -> MarkdownStyle {
    MarkdownStyle {
        base_text_style: base_style(),
        inline_code: TextStyleRefinement { color: Some(5), ..no_refinement() },
        block_quote: TextStyleRefinement { color: Some(6), ..no_refinement() },
        link: TextStyleRefinement { underline: Some(true), ..no_refinement() },
        heading: TextStyleRefinement { font_size: Some(30), ..no_refinement() },
        code_block: None,
        rule_color: 2,
        block_quote_border_color: 3,
        selection_background_color: 4,
    }
}

fn ev(start: usize, end: usize, event: MarkdownEvent) -> SpannedEvent {
    SpannedEvent { start, end, event }
}

fn child_block(child: &BlockChild) -> &Block {
    match child {
        BlockChild::Block(b) => b,
        _ => panic!("expected a nested block"),
    }
}

#[test]
fn heading_and_paragraph_with_boundary_margins_suppressed() {
    // "# Title\n\nBody *em*."
    let source = b"# Title\n\nBody *em*.".to_vec();
    let events = vec![
        ev(0, 8, MarkdownEvent::Start(MarkdownTag::Heading(HeadingLevel::H1))),
        ev(2, 7, MarkdownEvent::Text),
        ev(0, 8, MarkdownEvent::End(MarkdownTagEnd::Heading)),
        ev(9, 19, MarkdownEvent::Start(MarkdownTag::Paragraph)),
        ev(9, 14, MarkdownEvent::Text),
        ev(14, 18, MarkdownEvent::Start(MarkdownTag::Emphasis)),
        ev(15, 17, MarkdownEvent::Text),
        ev(14, 18, MarkdownEvent::End(MarkdownTagEnd::Emphasis)),
        ev(18, 19, MarkdownEvent::Text),
        ev(9, 19, MarkdownEvent::End(MarkdownTagEnd::Paragraph)),
    ];
    let rendered = build_document(&source, &events, &style());
    let root = &rendered.root;
    let text = &rendered.text;

    assert_eq!(root.kind, BlockKind::Root);
    assert_eq!(root.children.len(), 2);

    let heading = child_block(&root.children[0]);
    assert_eq!(heading.kind, BlockKind::Heading(HeadingLevel::H1));
    assert!(heading.suppress_top_margin, "heading range starts at offset 0");
    assert!(!heading.suppress_bottom_margin);
    assert_eq!(heading.children.len(), 1);
    match heading.children[0] {
        BlockChild::Line(i) => {
            assert_eq!(text.lines[i].text, b"Title".to_vec());
            assert_eq!(text.lines[i].runs.len(), 1);
            assert_eq!(text.lines[i].runs[0].len, 5);
            assert_eq!(text.lines[i].runs[0].style.font_size, 30);
        },
        _ => panic!("expected the heading's rendered line"),
    }

    let paragraph = child_block(&root.children[1]);
    assert_eq!(paragraph.kind, BlockKind::Paragraph);
    assert!(!paragraph.suppress_top_margin);
    assert!(paragraph.suppress_bottom_margin, "paragraph range ends at the document end");
    match paragraph.children[0] {
        BlockChild::Line(i) => {
            let line = &text.lines[i];
            assert_eq!(line.text, b"Body em.".to_vec());
            assert_eq!(line.runs.len(), 3);
            assert_eq!(line.runs[0].len, 5);
            assert!(!line.runs[0].style.italic);
            assert_eq!(line.runs[1].len, 2);
            assert!(line.runs[1].style.italic, "the em run is italic");
            assert_eq!(line.runs[2].len, 1);
            assert!(!line.runs[2].style.italic);
        },
        _ => panic!("expected the paragraph's rendered line"),
    }
}

#[test]
fn fenced_code_block_trims_the_trailing_newline() {
    // "```\ncode\n```" renders exactly "code", not "code\n".
    let source = b"```\ncode\n```".to_vec();
    let events = vec![
        ev(0, 12, MarkdownEvent::Start(MarkdownTag::CodeBlock(CodeBlockKind::Fenced(Vec::new())))),
        ev(4, 9, MarkdownEvent::Text),
        ev(0, 12, MarkdownEvent::End(MarkdownTagEnd::CodeBlock)),
    ];
    let rendered = build_document(&source, &events, &style());
    let root = &rendered.root;
    let text = &rendered.text;
    assert_eq!(text.lines.len(), 1);
    assert_eq!(text.lines[0].text, b"code".to_vec());
    assert_eq!(text.lines[0].source_end, 8);
    assert_eq!(child_block(&root.children[0]).kind, BlockKind::CodeBlock);
}

#[test]
fn copying_across_blank_lines_joins_with_one_newline() {
    // Two paragraphs separated by several blank lines.
    let source = b"para one\n\n\n\npara two".to_vec();
    let events = vec![
        ev(0, 9, MarkdownEvent::Start(MarkdownTag::Paragraph)),
        ev(0, 8, MarkdownEvent::Text),
        ev(0, 9, MarkdownEvent::End(MarkdownTagEnd::Paragraph)),
        ev(12, 20, MarkdownEvent::Start(MarkdownTag::Paragraph)),
        ev(12, 20, MarkdownEvent::Text),
        ev(12, 20, MarkdownEvent::End(MarkdownTagEnd::Paragraph)),
    ];
    let rendered = build_document(&source, &events, &style());
    let text = &rendered.text;
    assert_eq!(text.text_for_range(0, 20), b"para one\npara two".to_vec());
}

#[test]
fn soft_break_renders_as_one_space() {
    let source = b"two\nwords".to_vec();
    let events = vec![
        ev(0, 9, MarkdownEvent::Start(MarkdownTag::Paragraph)),
        ev(0, 3, MarkdownEvent::Text),
        ev(3, 4, MarkdownEvent::SoftBreak),
        ev(4, 9, MarkdownEvent::Text),
        ev(0, 9, MarkdownEvent::End(MarkdownTagEnd::Paragraph)),
    ];
    let rendered = build_document(&source, &events, &style());
    let text = &rendered.text;
    assert_eq!(text.lines.len(), 1);
    assert_eq!(text.lines[0].text, b"two words".to_vec());
    let range = text.surrounding_word_range(6);
    assert_eq!(range, (4, 9));
}

#[test]
fn ordered_list_counts_bullets_and_unordered_has_none() {
    let source = b"3. a\n4. b".to_vec();
    let events = vec![
        ev(0, 9, MarkdownEvent::Start(MarkdownTag::List(Some(3)))),
        ev(0, 5, MarkdownEvent::Start(MarkdownTag::Item)),
        ev(3, 4, MarkdownEvent::Text),
        ev(0, 5, MarkdownEvent::End(MarkdownTagEnd::Item)),
        ev(5, 9, MarkdownEvent::Start(MarkdownTag::Item)),
        ev(8, 9, MarkdownEvent::Text),
        ev(5, 9, MarkdownEvent::End(MarkdownTagEnd::Item)),
        ev(0, 9, MarkdownEvent::End(MarkdownTagEnd::List)),
    ];
    let rendered = build_document(&source, &events, &style());
    let root = &rendered.root;
    let list = child_block(&root.children[0]);
    assert_eq!(list.kind, BlockKind::List);
    let first_item = child_block(&list.children[0]);
    assert_eq!(first_item.kind, BlockKind::Item);
    match first_item.children[0] {
        BlockChild::Bullet(n) => assert_eq!(n, Some(3)),
        _ => panic!("expected a bullet label"),
    }
    let second_item = child_block(&list.children[1]);
    match second_item.children[0] {
        BlockChild::Bullet(n) => assert_eq!(n, Some(4)),
        _ => panic!("expected a bullet label"),
    }

    let unordered = vec![
        ev(0, 3, MarkdownEvent::Start(MarkdownTag::List(None))),
        ev(0, 3, MarkdownEvent::Start(MarkdownTag::Item)),
        ev(2, 3, MarkdownEvent::Text),
        ev(0, 3, MarkdownEvent::End(MarkdownTagEnd::Item)),
        ev(0, 3, MarkdownEvent::End(MarkdownTagEnd::List)),
    ];
    let rendered2 = build_document(&b"- a".to_vec(), &unordered, &style());
    let root2 = &rendered2.root;
    let item = child_block(&child_block(&root2.children[0]).children[0]);
    match item.children[0] {
        BlockChild::Bullet(n) => assert_eq!(n, None),
        _ => panic!("expected a bullet label"),
    }
}

#[test]
fn links_are_recorded_with_their_source_ranges() {
    let source = b"a [x](https://e) b".to_vec();
    let events = vec![
        ev(0, 18, MarkdownEvent::Start(MarkdownTag::Paragraph)),
        ev(0, 2, MarkdownEvent::Text),
        ev(2, 16, MarkdownEvent::Start(MarkdownTag::Link(b"https://e".to_vec()))),
        ev(3, 4, MarkdownEvent::Text),
        ev(2, 16, MarkdownEvent::End(MarkdownTagEnd::Link)),
        ev(16, 18, MarkdownEvent::Text),
        ev(0, 18, MarkdownEvent::End(MarkdownTagEnd::Paragraph)),
    ];
    let rendered = build_document(&source, &events, &style());
    let text = &rendered.text;
    assert_eq!(text.links.len(), 1);
    assert_eq!(text.links[0].source_start, 2);
    assert_eq!(text.links[0].source_end, 16);
    assert_eq!(text.links[0].destination_url, b"https://e".to_vec());
    assert!(text.link_for_source_index(3).is_some());
    assert!(text.link_for_source_index(17).is_none());
}

#[test]
fn highlighted_code_splits_runs_by_sub_ranges() {
    let mut builder = MarkdownBuilder::new(base_style());
    let source = b"```rs\nabc defg\n```".to_vec();
    let st = style();
    let no_spans: Vec<HighlightSpan> = Vec::new();
    builder.process_event(
        &source,
        0,
        18,
        &MarkdownEvent::Start(MarkdownTag::CodeBlock(CodeBlockKind::Fenced(b"rs".to_vec()))),
        18,
        &st,
        Some(7),
        &no_spans,
    );
    assert_eq!(builder.active_language(), Some(7));
    let spans = vec![HighlightSpan {
        start: 0,
        end: 3,
        style: TextStyleRefinement { color: Some(9), ..no_refinement() },
    }];
    builder.process_event(&source, 6, 15, &MarkdownEvent::Text, 18, &st, None, &spans);
    builder.process_event(
        &source,
        0,
        18,
        &MarkdownEvent::End(MarkdownTagEnd::CodeBlock),
        18,
        &st,
        None,
        &no_spans,
    );
    assert_eq!(builder.active_language(), None);
    let rendered = builder.build();
    let text = &rendered.text;
    assert_eq!(text.lines.len(), 1);
    let line = &text.lines[0];
    assert_eq!(line.text, b"abc defg".to_vec());
    assert_eq!(line.runs.len(), 2);
    assert_eq!(line.runs[0].len, 3);
    assert_eq!(line.runs[0].style.color, 9);
    // The unhighlighted tail lost one byte to the trimmed newline.
    assert_eq!(line.runs[1].len, 5);
    assert_eq!(line.runs[1].style.color, 1);
}

#[test]
fn rule_and_hard_break_become_childless_blocks() {
    let source = b"a\\\nb\n\n---".to_vec();
    let events = vec![
        ev(0, 5, MarkdownEvent::Start(MarkdownTag::Paragraph)),
        ev(0, 1, MarkdownEvent::Text),
        ev(1, 3, MarkdownEvent::HardBreak),
        ev(3, 4, MarkdownEvent::Text),
        ev(0, 5, MarkdownEvent::End(MarkdownTagEnd::Paragraph)),
        ev(6, 9, MarkdownEvent::Rule),
    ];
    let rendered = build_document(&source, &events, &style());
    let root = &rendered.root;
    let text = &rendered.text;
    assert_eq!(text.lines.len(), 2);
    assert_eq!(text.lines[0].text, b"a".to_vec());
    assert_eq!(text.lines[1].text, b"b".to_vec());
    let paragraph = child_block(&root.children[0]);
    assert_eq!(paragraph.children.len(), 3);
    assert_eq!(child_block(&paragraph.children[1]).kind, BlockKind::HardBreak);
    let rule = child_block(&root.children[1]);
    assert_eq!(rule.kind, BlockKind::Rule);
    assert_eq!(rule.children.len(), 0);
}

#[test]
fn unsupported_constructs_are_skipped() {
    let source = b"x".to_vec();
    let events = vec![
        ev(0, 1, MarkdownEvent::Start(MarkdownTag::Other)),
        ev(0, 1, MarkdownEvent::Other),
        ev(0, 1, MarkdownEvent::End(MarkdownTagEnd::Other)),
    ];
    let rendered = build_document(&source, &events, &style());
    let root = &rendered.root;
    let text = &rendered.text;
    assert_eq!(root.children.len(), 0);
    assert_eq!(text.lines.len(), 0);
}

#[test]
fn exactly_one_root_remains_for_nested_streams() {
    let source = b"> - quoted item".to_vec();
    let events = vec![
        ev(0, 15, MarkdownEvent::Start(MarkdownTag::BlockQuote)),
        ev(2, 15, MarkdownEvent::Start(MarkdownTag::List(None))),
        ev(2, 15, MarkdownEvent::Start(MarkdownTag::Item)),
        ev(4, 15, MarkdownEvent::Start(MarkdownTag::Paragraph)),
        ev(4, 15, MarkdownEvent::Text),
        ev(4, 15, MarkdownEvent::End(MarkdownTagEnd::Paragraph)),
        ev(2, 15, MarkdownEvent::End(MarkdownTagEnd::Item)),
        ev(2, 15, MarkdownEvent::End(MarkdownTagEnd::List)),
        ev(0, 15, MarkdownEvent::End(MarkdownTagEnd::BlockQuote)),
    ];
    let rendered = build_document(&source, &events, &style());
    let root = &rendered.root;
    let text = &rendered.text;
    assert_eq!(root.kind, BlockKind::Root);
    assert_eq!(root.children.len(), 1);
    let quote = child_block(&root.children[0]);
    assert_eq!(quote.kind, BlockKind::BlockQuote);
    assert_eq!(text.lines.len(), 1);
    assert_eq!(text.lines[0].text, b"quoted item".to_vec());
}

#[test]
fn inline_code_takes_the_inline_code_style() {
    let source = b"see `f(x)` now".to_vec();
    let events = vec![
        ev(0, 14, MarkdownEvent::Start(MarkdownTag::Paragraph)),
        ev(0, 4, MarkdownEvent::Text),
        ev(4, 10, MarkdownEvent::Code),
        ev(10, 14, MarkdownEvent::Text),
        ev(0, 14, MarkdownEvent::End(MarkdownTagEnd::Paragraph)),
    ];
    let rendered = build_document(&source, &events, &style());
    let text = &rendered.text;
    let line = &text.lines[0];
    assert_eq!(line.text, b"see `f(x)` now".to_vec());
    assert_eq!(line.runs.len(), 3);
    assert_eq!(line.runs[1].style.color, 5);
    assert_eq!(line.runs[0].style.color, 1);
}

#[test]
fn language_resolution_uses_name_fallback_or_nothing() {
    let name = b"rs".to_vec();
    let fallback = b"plain".to_vec();
    // The registry knows the name.
    assert_eq!(resolve_language_name(&name, Some(true), Some(&fallback)), b"rs".to_vec());
    // The lookup failed: the configured fallback applies.
    assert_eq!(resolve_language_name(&name, Some(false), Some(&fallback)), b"plain".to_vec());
    // No fallback configured, or an empty fence name: no language.
    assert_eq!(resolve_language_name(&name, Some(false), None), Vec::<u8>::new());
    assert_eq!(resolve_language_name(&Vec::new(), Some(false), Some(&fallback)), Vec::<u8>::new());
    // The lookup has not resolved yet.
    assert_eq!(resolve_language_name(&name, None, Some(&fallback)), Vec::<u8>::new());
}

#[test]
fn empty_event_stream_builds_an_empty_document() {
    let rendered = build_document(&Vec::new(), &Vec::new(), &style());
    assert_eq!(rendered.root.kind, BlockKind::Root);
    assert_eq!(rendered.root.children.len(), 0);
    assert_eq!(rendered.text.lines.len(), 0);
    assert_eq!(rendered.text.links.len(), 0);
}

#[test]
fn links_inside_code_blocks_are_not_recorded() {
    let source = b"```\n[x](https://e)\n```".to_vec();
    let events = vec![
        ev(0, 22, MarkdownEvent::Start(MarkdownTag::CodeBlock(CodeBlockKind::Indented))),
        ev(4, 6, MarkdownEvent::Text),
        ev(6, 18, MarkdownEvent::Start(MarkdownTag::Link(b"https://e".to_vec()))),
        ev(7, 8, MarkdownEvent::Text),
        ev(6, 18, MarkdownEvent::End(MarkdownTagEnd::Link)),
        ev(0, 22, MarkdownEvent::End(MarkdownTagEnd::CodeBlock)),
    ];
    let rendered = build_document(&source, &events, &style());
    assert_eq!(rendered.text.links.len(), 0);
}

#[test]
fn metadata_blocks_emit_no_rendered_content() {
    let source = b"---\nkey: v\n---\nbody".to_vec();
    let events = vec![
        ev(0, 15, MarkdownEvent::Start(MarkdownTag::MetadataBlock)),
        ev(4, 10, MarkdownEvent::Other),
        ev(0, 15, MarkdownEvent::End(MarkdownTagEnd::MetadataBlock)),
        ev(15, 19, MarkdownEvent::Start(MarkdownTag::Paragraph)),
        ev(15, 19, MarkdownEvent::Text),
        ev(15, 19, MarkdownEvent::End(MarkdownTagEnd::Paragraph)),
    ];
    let rendered = build_document(&source, &events, &style());
    assert_eq!(rendered.root.children.len(), 1);
    assert_eq!(rendered.text.lines.len(), 1);
    assert_eq!(rendered.text.lines[0].text, b"body".to_vec());
}
