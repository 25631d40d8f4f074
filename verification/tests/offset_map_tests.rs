use markdown::line::{LineExtent, RenderedLine, SourceMapping};
use markdown::style::{TextRun, TextStyle};

fn base_style() -> TextStyle {
    TextStyle { italic: false, bold: false, strikethrough: false, underline: false, color: 0, font_size: 16 }
}

fn run(len: usize) -> TextRun {
    TextRun { len, style: base_style() }
}

/// A line rendered as "a b" where the space collapsed a two-byte soft break:
/// source "a<nl>  b"-like spans 0..1, 1..3, 3..4.
fn soft_break_line() -> RenderedLine {
    RenderedLine {
        text: b"a b".to_vec(),
        runs: vec![run(1), run(1), run(1)],
        source_mappings: vec![
            SourceMapping { rendered_index: 0, source_index: 0 },
            SourceMapping { rendered_index: 1, source_index: 1 },
            SourceMapping { rendered_index: 2, source_index: 3 },
        ],
        source_end: 4,
        extent: LineExtent { top: 0, bottom: 0, line_height: 0 },
    }
}

#[test]
fn forward_lookup_inside_spans() {
    let line = soft_break_line();
    assert_eq!(line.rendered_index_for_source_index(0), 0);
    assert_eq!(line.rendered_index_for_source_index(1), 1);
    assert_eq!(line.rendered_index_for_source_index(3), 2);
    assert_eq!(line.rendered_index_for_source_index(4), 3);
}

#[test]
fn forward_lookup_in_collapsed_gap_clamps_to_resume_point() {
    let line = soft_break_line();
    // Source offset 2 sits inside the collapsed soft break: it maps to the
    // point where the rendered text resumes.
    assert_eq!(line.rendered_index_for_source_index(2), 2);
}

#[test]
fn inverse_lookup() {
    let line = soft_break_line();
    assert_eq!(line.source_index_for_rendered_index(0), 0);
    assert_eq!(line.source_index_for_rendered_index(1), 1);
    assert_eq!(line.source_index_for_rendered_index(2), 3);
    assert_eq!(line.source_index_for_rendered_index(3), 4);
}

#[test]
fn round_trip_at_breakpoints() {
    let line = soft_break_line();
    for r in [0usize, 1, 2] {
        let o = line.source_index_for_rendered_index(r);
        assert_eq!(line.rendered_index_for_source_index(o), r);
    }
}

#[test]
fn round_trip_for_covered_offsets() {
    let line = soft_break_line();
    for o in [0usize, 1, 3, 4] {
        let r = line.rendered_index_for_source_index(o);
        assert_eq!(line.source_index_for_rendered_index(r), o);
    }
}

#[test]
fn uncovered_offset_maps_into_following_span() {
    // An offset inside an elided span does not round-trip: it lands where
    // the rendered text resumes.
    let line = soft_break_line();
    let r = line.rendered_index_for_source_index(2);
    assert_eq!(line.source_index_for_rendered_index(r), 3);
}

#[test]
fn hit_result_keeps_in_and_out_of_bounds_apart() {
    let line = soft_break_line();
    assert_eq!(line.source_index_for_hit(Ok(2)), Ok(3));
    assert_eq!(line.source_index_for_hit(Err(3)), Err(4));
}
