use markdown::document::{Markdown, ParsedMarkdown};
use markdown::events::{MarkdownEvent, MarkdownTag, MarkdownTagEnd, SpannedEvent};
use markdown::line::{LineExtent, RenderedLine, SourceMapping};
use markdown::rendered::{RenderedLink, RenderedText};
use markdown::style::{TextRun, TextStyle};

fn parsed(source: &[u8]) -> ParsedMarkdown {
    ParsedMarkdown {
        source: source.to_vec(),
        events: vec![
            SpannedEvent { start: 0, end: source.len(), event: MarkdownEvent::Start(MarkdownTag::Paragraph) },
            SpannedEvent { start: 0, end: source.len(), event: MarkdownEvent::Text },
            SpannedEvent { start: 0, end: source.len(), event: MarkdownEvent::End(MarkdownTagEnd::Paragraph) },
        ],
    }
}

#[test]
fn new_document_spawns_one_parse_over_a_snapshot() {
    let (doc, request) = Markdown::new(b"abc".to_vec());
    assert_eq!(request, Some(b"abc".to_vec()));
    assert!(doc.pending_parse);
    assert!(!doc.should_reparse);
    assert_eq!(doc.source(), &b"abc".to_vec());
}

#[test]
fn empty_source_short_circuits() {
    let (doc, request) = Markdown::new(Vec::new());
    assert_eq!(request, None);
    assert!(!doc.pending_parse);
    assert_eq!(doc.parsed_markdown().source().len(), 0);
    assert_eq!(doc.parsed_markdown().events().len(), 0);
}

#[test]
fn new_text_uses_links_only_mode() {
    let (doc, request) = Markdown::new_text(b"plain".to_vec());
    assert!(doc.parse_links_only);
    assert_eq!(request, Some(b"plain".to_vec()));
}

#[test]
fn mutations_while_parsing_coalesce_into_one_reparse() {
    // Single-flight: many rapid mutations while a parse is in flight spawn
    // nothing; completing the parse spawns exactly one, over the most
    // recent source.
    let (mut doc, first) = Markdown::new(b"a".to_vec());
    assert!(first.is_some());
    assert_eq!(doc.append(b"b"), None);
    assert_eq!(doc.append(b"c"), None);
    assert_eq!(doc.append(b"d"), None);
    assert!(doc.pending_parse);
    assert!(doc.should_reparse);
    let followup = doc.on_parse_complete(parsed(b"a"));
    assert_eq!(followup, Some(b"abcd".to_vec()));
    assert!(doc.pending_parse);
    assert!(!doc.should_reparse);
    // The stale snapshot was still installed when it completed.
    assert_eq!(doc.parsed_markdown().source(), &b"a".to_vec());
    let done = doc.on_parse_complete(parsed(b"abcd"));
    assert_eq!(done, None);
    assert!(!doc.pending_parse);
}

#[test]
fn append_with_no_parse_in_flight_spawns_immediately() {
    let (mut doc, first) = Markdown::new(b"a".to_vec());
    assert!(first.is_some());
    assert_eq!(doc.on_parse_complete(parsed(b"a")), None);
    assert_eq!(doc.append(b"b"), Some(b"ab".to_vec()));
}

#[test]
fn reset_with_current_source_is_a_no_op() {
    let (mut doc, _request) = Markdown::new(b"same".to_vec());
    let _ = doc.on_parse_complete(parsed(b"same"));
    doc.start_selection(&RenderedText { lines: vec![], links: vec![] }, 2, 1);
    let before_selection = doc.selection;
    let request = doc.reset(b"same".to_vec());
    assert_eq!(request, None);
    assert_eq!(doc.selection, before_selection);
    assert!(!doc.pending_parse);
    assert_eq!(doc.parsed_markdown().source(), &b"same".to_vec());
}

#[test]
fn reset_with_new_source_discards_state_and_reparses() {
    let (mut doc, _request) = Markdown::new(b"old".to_vec());
    let _ = doc.on_parse_complete(parsed(b"old"));
    doc.start_selection(&RenderedText { lines: vec![], links: vec![] }, 1, 1);
    let request = doc.reset(b"new text".to_vec());
    assert_eq!(request, Some(b"new text".to_vec()));
    assert_eq!(doc.selection.start, 0);
    assert_eq!(doc.selection.end, 0);
    assert!(!doc.selection.pending);
    assert_eq!(doc.parsed_markdown().events().len(), 0);
    assert!(doc.pending_parse);
}

#[test]
fn failed_parse_keeps_the_old_snapshot_and_retries_when_queued() {
    let (mut doc, _request) = Markdown::new(b"a".to_vec());
    let _ = doc.on_parse_complete(parsed(b"a"));
    let _ = doc.append(b"b");
    assert_eq!(doc.append(b"c"), None);
    assert!(doc.should_reparse);
    let retry = doc.on_parse_failed();
    assert_eq!(retry, Some(b"abc".to_vec()));
    assert_eq!(doc.parsed_markdown().source(), &b"a".to_vec());
}

fn one_line_text() -> RenderedText {
    let style = TextStyle { italic: false, bold: false, strikethrough: false, underline: false, color: 0, font_size: 16 };
    RenderedText {
        lines: vec![RenderedLine {
            text: b"hello world foo".to_vec(),
            runs: vec![TextRun { len: 15, style }],
            source_mappings: vec![SourceMapping { rendered_index: 0, source_index: 0 }],
            source_end: 15,
            extent: LineExtent { top: 0, bottom: 10, line_height: 10 },
        }],
        links: vec![],
    }
}

#[test]
fn click_counts_select_point_word_and_line() {
    let text = one_line_text();
    let (mut doc, _request) = Markdown::new(b"hello world foo".to_vec());
    doc.start_selection(&text, 8, 1);
    assert_eq!((doc.selection.start, doc.selection.end), (8, 8));
    assert!(doc.selection.pending);
    doc.start_selection(&text, 8, 2);
    assert_eq!((doc.selection.start, doc.selection.end), (6, 11));
    doc.start_selection(&text, 8, 3);
    assert_eq!((doc.selection.start, doc.selection.end), (0, 15));
}

#[test]
fn drag_moves_the_head_and_requests_autoscroll() {
    let text = one_line_text();
    let (mut doc, _request) = Markdown::new(b"hello world foo".to_vec());
    doc.start_selection(&text, 10, 1);
    doc.drag_selection(5);
    assert_eq!((doc.selection.start, doc.selection.end), (5, 10));
    assert!(doc.selection.reversed);
    assert_eq!(doc.take_autoscroll_request(), Some(5));
    assert_eq!(doc.take_autoscroll_request(), None);
    doc.drag_selection(15);
    assert_eq!((doc.selection.start, doc.selection.end), (10, 15));
    assert!(!doc.selection.reversed);
}

#[test]
fn release_finalizes_a_pending_selection() {
    let text = one_line_text();
    let (mut doc, _request) = Markdown::new(b"hello world foo".to_vec());
    doc.start_selection(&text, 2, 1);
    doc.drag_selection(9);
    let open = doc.release_selection(None);
    assert_eq!(open, None);
    assert!(!doc.selection.pending);
    assert_eq!((doc.selection.start, doc.selection.end), (2, 9));
}

#[test]
fn release_on_the_pressed_link_activates_it() {
    let link = RenderedLink { source_start: 2, source_end: 6, destination_url: b"https://e".to_vec() };
    let (mut doc, _request) = Markdown::new(b"a [x](https://e)".to_vec());
    doc.press_link(link.clone());
    let open = doc.release_selection(Some(&link));
    assert_eq!(open, Some(b"https://e".to_vec()));
    assert!(doc.pressed_link.is_none());
}

#[test]
fn release_elsewhere_does_not_activate_the_pressed_link() {
    let link = RenderedLink { source_start: 2, source_end: 6, destination_url: b"https://e".to_vec() };
    let other = RenderedLink { source_start: 9, source_end: 12, destination_url: b"https://f".to_vec() };
    let (mut doc, _request) = Markdown::new(b"irrelevant".to_vec());
    doc.press_link(link);
    assert_eq!(doc.release_selection(Some(&other)), None);
    let (mut doc2, _request2) = Markdown::new(b"irrelevant".to_vec());
    doc2.press_link(RenderedLink { source_start: 2, source_end: 6, destination_url: b"https://e".to_vec() });
    assert_eq!(doc2.release_selection(None), None);
}

#[test]
fn press_outside_clears_selection_and_pressed_link() {
    let text = one_line_text();
    let (mut doc, _request) = Markdown::new(b"hello world foo".to_vec());
    doc.start_selection(&text, 3, 1);
    doc.press_link(RenderedLink { source_start: 0, source_end: 1, destination_url: b"u".to_vec() });
    doc.clear_selection();
    assert_eq!((doc.selection.start, doc.selection.end), (0, 0));
    assert!(doc.pressed_link.is_none());
}

#[test]
fn copy_returns_the_rendered_selection() {
    let text = one_line_text();
    let (mut doc, _request) = Markdown::new(b"hello world foo".to_vec());
    doc.start_selection(&text, 8, 2);
    let _ = doc.release_selection(None);
    assert_eq!(doc.copy(&text), Some(b"world".to_vec()));
}

#[test]
fn copy_of_an_empty_selection_is_none() {
    let text = one_line_text();
    let (doc, _request) = Markdown::new(b"hello world foo".to_vec());
    assert_eq!(doc.copy(&text), None);
}
