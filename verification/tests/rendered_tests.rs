use markdown::line::{LineExtent, RenderedLine, SourceMapping};
use markdown::rendered::{RenderedLink, RenderedText};
use markdown::style::{TextRun, TextStyle};

fn base_style() -> TextStyle {
    TextStyle { italic: false, bold: false, strikethrough: false, underline: false, color: 0, font_size: 16 }
}

fn plain_line(text: &[u8], source_start: usize, extent: LineExtent) -> RenderedLine {
    RenderedLine {
        text: text.to_vec(),
        runs: vec![TextRun { len: text.len(), style: base_style() }],
        source_mappings: vec![SourceMapping { rendered_index: 0, source_index: source_start }],
        source_end: source_start + text.len(),
        extent,
    }
}

fn flat_extent() -> LineExtent {
    LineExtent { top: 0, bottom: 0, line_height: 0 }
}

#[test]
fn word_range_expands_to_surrounding_spaces() {
    // Rendered line "hello world foo"; offset 8 sits inside "world".
    let text = RenderedText {
        lines: vec![plain_line(b"hello world foo", 0, flat_extent())],
        links: vec![],
    };
    let range = text.surrounding_word_range(8);
    assert_eq!(range, (6, 11));
    assert_eq!(&b"hello world foo"[range.0..range.1], b"world");
}

#[test]
fn word_range_at_line_edges() {
    let text = RenderedText {
        lines: vec![plain_line(b"hello world foo", 0, flat_extent())],
        links: vec![],
    };
    assert_eq!(text.surrounding_word_range(0), (0, 5));
    assert_eq!(text.surrounding_word_range(14), (12, 15));
}

#[test]
fn word_range_degenerates_out_of_range() {
    let text = RenderedText {
        lines: vec![plain_line(b"hello", 0, flat_extent())],
        links: vec![],
    };
    assert_eq!(text.surrounding_word_range(1000), (1000, 1000));
}

#[test]
fn line_range_covers_the_owning_line() {
    let text = RenderedText {
        lines: vec![
            plain_line(b"first line", 0, flat_extent()),
            plain_line(b"second", 12, flat_extent()),
        ],
        links: vec![],
    };
    assert_eq!(text.surrounding_line_range(3), (0, 10));
    assert_eq!(text.surrounding_line_range(14), (12, 18));
    // Between the two lines the query belongs to the later one.
    assert_eq!(text.surrounding_line_range(11), (12, 18));
    assert_eq!(text.surrounding_line_range(99), (99, 99));
}

#[test]
fn text_for_range_joins_lines_with_one_newline() {
    let text = RenderedText {
        lines: vec![
            plain_line(b"para one", 0, flat_extent()),
            plain_line(b"para two", 12, flat_extent()),
        ],
        links: vec![],
    };
    assert_eq!(text.text_for_range(0, 20), b"para one\npara two".to_vec());
}

#[test]
fn text_for_range_clamps_to_the_lines() {
    let text = RenderedText {
        lines: vec![
            plain_line(b"para one", 0, flat_extent()),
            plain_line(b"para two", 12, flat_extent()),
        ],
        links: vec![],
    };
    assert_eq!(text.text_for_range(5, 14), b"one\npa".to_vec());
    assert_eq!(text.text_for_range(0, 3), b"par".to_vec());
    assert_eq!(text.text_for_range(13, 20), b"ara two".to_vec());
}

#[test]
fn line_for_source_index_finds_line_and_rendered_offset() {
    let text = RenderedText {
        lines: vec![
            plain_line(b"abc", 0, flat_extent()),
            plain_line(b"def", 5, flat_extent()),
        ],
        links: vec![],
    };
    assert_eq!(text.line_for_source_index(1), Some((0, 1)));
    assert_eq!(text.line_for_source_index(6), Some((1, 1)));
    // Between the lines: past the first, before the second's mapped start.
    assert_eq!(text.line_for_source_index(4), None);
}

#[test]
fn line_for_position_y_picks_lines_gaps_and_past_end() {
    let text = RenderedText {
        lines: vec![
            plain_line(b"abc", 0, LineExtent { top: 0, bottom: 10, line_height: 10 }),
            plain_line(b"def", 5, LineExtent { top: 20, bottom: 30, line_height: 10 }),
        ],
        links: vec![],
    };
    assert_eq!(text.line_for_position_y(5), Ok(0));
    assert_eq!(text.line_for_position_y(25), Ok(1));
    // In the vertical gap: the nearest offset is the upper line's end.
    assert_eq!(text.line_for_position_y(15), Err(3));
    // Past the last line: the last line's end.
    assert_eq!(text.line_for_position_y(99), Err(8));
}

#[test]
fn line_for_position_y_empty_document() {
    let text = RenderedText { lines: vec![], links: vec![] };
    assert_eq!(text.line_for_position_y(5), Err(0));
}

#[test]
fn set_line_extent_changes_only_geometry() {
    let mut text = RenderedText {
        lines: vec![plain_line(b"abc", 0, flat_extent())],
        links: vec![],
    };
    text.set_line_extent(0, LineExtent { top: 7, bottom: 17, line_height: 10 });
    assert_eq!(text.lines[0].extent.top, 7);
    assert_eq!(text.lines[0].extent.bottom, 17);
    assert_eq!(text.lines[0].text, b"abc".to_vec());
    assert_eq!(text.lines[0].source_end, 3);
}

#[test]
fn link_lookup_takes_the_first_containing_span() {
    let text = RenderedText {
        lines: vec![],
        links: vec![
            RenderedLink { source_start: 2, source_end: 6, destination_url: b"https://one".to_vec() },
            RenderedLink { source_start: 8, source_end: 12, destination_url: b"https://two".to_vec() },
        ],
    };
    assert_eq!(text.link_for_source_index(3).unwrap().destination_url, b"https://one".to_vec());
    assert_eq!(text.link_for_source_index(8).unwrap().destination_url, b"https://two".to_vec());
    // Half-open ranges: the end offset is outside.
    assert!(text.link_for_source_index(6).is_none());
    assert!(text.link_for_source_index(1).is_none());
}

#[test]
fn text_for_range_outside_every_line_is_empty() {
    let text = RenderedText {
        lines: vec![plain_line(b"abc", 4, flat_extent())],
        links: vec![],
    };
    assert_eq!(text.text_for_range(0, 2), Vec::<u8>::new());
    assert_eq!(text.text_for_range(8, 9), Vec::<u8>::new());
}

#[test]
fn empty_document_queries_degenerate() {
    let text = RenderedText { lines: vec![], links: vec![] };
    assert_eq!(text.surrounding_word_range(5), (5, 5));
    assert_eq!(text.surrounding_line_range(5), (5, 5));
    assert_eq!(text.text_for_range(0, 10), Vec::<u8>::new());
    assert_eq!(text.line_for_source_index(0), None);
    assert!(text.link_for_source_index(0).is_none());
}
