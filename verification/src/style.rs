//! The text-style model: a concrete style, partial refinements layered over
//! it (later refinements win on the fields they set), and the styled runs a
//! line of rendered text is split into, including splitting by syntax
//! highlight sub-ranges.

use vstd::prelude::*;

verus! {

/// A concrete, fully resolved text style. Colors and font handles of the
/// embedding's styling system are carried as plain identifiers.
#[derive(Copy, Clone, Debug, PartialEq, Eq)]
pub struct TextStyle {
    pub italic: bool,
    pub bold: bool,
    pub strikethrough: bool,
    pub underline: bool,
    pub color: u32,
    pub font_size: u32,
}

/// A partial style: every field that is set overrides the style it refines.
#[derive(Copy, Clone, Debug, PartialEq, Eq)]
pub struct TextStyleRefinement {
    pub italic: Option<bool>,
    pub bold: Option<bool>,
    pub strikethrough: Option<bool>,
    pub underline: Option<bool>,
    pub color: Option<u32>,
    pub font_size: Option<u32>,
}

impl TextStyleRefinement {
    /// The refinement that sets nothing.
    pub fn none() -> (r: TextStyleRefinement)
        ensures
            r == (TextStyleRefinement {
                italic: None,
                bold: None,
                strikethrough: None,
                underline: None,
                color: None,
                font_size: None,
            }),
    {
        TextStyleRefinement {
            italic: None,
            bold: None,
            strikethrough: None,
            underline: None,
            color: None,
            font_size: None,
        }
    }
}

impl TextStyle {
    /// `self` with every field the refinement sets replaced.
    pub open spec fn spec_refined(self, r: TextStyleRefinement) -> TextStyle {
        TextStyle {
            italic: if r.italic is Some {
                r.italic->0
            } else {
                self.italic
            },
            bold: if r.bold is Some {
                r.bold->0
            } else {
                self.bold
            },
            strikethrough: if r.strikethrough is Some {
                r.strikethrough->0
            } else {
                self.strikethrough
            },
            underline: if r.underline is Some {
                r.underline->0
            } else {
                self.underline
            },
            color: if r.color is Some {
                r.color->0
            } else {
                self.color
            },
            font_size: if r.font_size is Some {
                r.font_size->0
            } else {
                self.font_size
            },
        }
    }

    /// Applies a refinement: every set field overrides this style's field.
    pub fn refined(&self, r: &TextStyleRefinement) -> (out: TextStyle)
        ensures
            out == self.spec_refined(*r),
    {
        TextStyle {
            italic: match r.italic {
                Some(v) => v,
                None => self.italic,
            },
            bold: match r.bold {
                Some(v) => v,
                None => self.bold,
            },
            strikethrough: match r.strikethrough {
                Some(v) => v,
                None => self.strikethrough,
            },
            underline: match r.underline {
                Some(v) => v,
                None => self.underline,
            },
            color: match r.color {
                Some(v) => v,
                None => self.color,
            },
            font_size: match r.font_size {
                Some(v) => v,
                None => self.font_size,
            },
        }
    }
}

/// The effective style for a base with a stack of refinements applied in
/// push order: later entries win on conflicting fields.
pub open spec fn spec_folded_style(base: TextStyle, stack: Seq<TextStyleRefinement>) -> TextStyle
    decreases stack.len(),
{
    if stack.len() == 0 {
        base
    } else {
        spec_folded_style(base.spec_refined(stack[0]), stack.drop_first())
    }
}

/// Folding distributes over appending one refinement at the top of the
/// stack.
pub proof fn lemma_folded_style_push(
    base: TextStyle,
    stack: Seq<TextStyleRefinement>,
    r: TextStyleRefinement,
)
    ensures
        spec_folded_style(base, stack.push(r)) == spec_folded_style(base, stack).spec_refined(r),
    decreases stack.len(),
{
    if stack.len() == 0 {
        assert(stack.push(r).drop_first() =~= Seq::<TextStyleRefinement>::empty());
        assert(stack.push(r)[0] == r);
        assert(spec_folded_style(base.spec_refined(r), Seq::<TextStyleRefinement>::empty())
            == base.spec_refined(r));
    } else {
        assert(stack.push(r).drop_first() =~= stack.drop_first().push(r));
        lemma_folded_style_push(base.spec_refined(stack[0]), stack.drop_first(), r);
    }
}

/// One styled run of rendered text: `len` bytes sharing one concrete style.
#[derive(Copy, Clone, Debug, PartialEq, Eq)]
pub struct TextRun {
    pub len: usize,
    pub style: TextStyle,
}

/// One syntax-highlight sub-range of a pushed text span, with the style
/// refinement the highlight applies. Produced by the external highlighter.
#[derive(Copy, Clone, Debug, PartialEq, Eq)]
pub struct HighlightSpan {
    pub start: usize,
    pub end: usize,
    pub style: TextStyleRefinement,
}

/// Highlight spans are usable when they are nonempty, non-overlapping,
/// ordered, and lie within the highlighted text. The external highlighter
/// returns its sub-ranges in this shape.
pub open spec fn spans_wf(spans: Seq<HighlightSpan>, text_len: int) -> bool {
    &&& forall|i: int|
        0 <= i < spans.len() ==> (#[trigger] spans[i]).start < spans[i].end <= text_len
    &&& forall|i: int|
        0 <= i && i + 1 < spans.len() ==> (#[trigger] spans[i]).end <= spans[i + 1].start
}

/// The styled runs covering `text_len` bytes from `offset` on, given the
/// highlight spans from index `k` on: each highlighted sub-range becomes its
/// own run with the highlight applied over the ambient style, and the gaps
/// between them use the ambient style alone.
pub open spec fn spec_runs_for_spans(
    style: TextStyle,
    spans: Seq<HighlightSpan>,
    k: int,
    offset: int,
    text_len: int,
) -> Seq<TextRun>
    decreases spans.len() - k,
{
    if k < 0 || k >= spans.len() {
        if offset < text_len {
            seq![TextRun { len: (text_len - offset) as usize, style }]
        } else {
            Seq::empty()
        }
    } else {
        let gap: Seq<TextRun> = if offset < spans[k].start {
            seq![TextRun { len: (spans[k].start - offset) as usize, style }]
        } else {
            Seq::empty()
        };
        gap + seq![
            TextRun {
                len: (spans[k].end - spans[k].start) as usize,
                style: style.spec_refined(spans[k].style),
            },
        ] + spec_runs_for_spans(style, spans, k + 1, spans[k].end as int, text_len)
    }
}

/// The runs a pushed span contributes when no language is active: one run of
/// the ambient style covering the whole span.
pub open spec fn spec_plain_run(style: TextStyle, text_len: int) -> Seq<TextRun> {
    seq![TextRun { len: text_len as usize, style }]
}

/// The style table the embedding configures a rendered document with: the
/// base text style and the refinements each markdown construct applies,
/// plus the plain color identifiers the paint side needs.
#[derive(Copy, Clone, Debug, PartialEq, Eq)]
pub struct MarkdownStyle {
    pub base_text_style: TextStyle,
    pub inline_code: TextStyleRefinement,
    pub block_quote: TextStyleRefinement,
    pub link: TextStyleRefinement,
    pub heading: TextStyleRefinement,
    /// The text-style part of the code-block style, when it sets one.
    pub code_block: Option<TextStyleRefinement>,
    pub rule_color: u32,
    pub block_quote_border_color: u32,
    pub selection_background_color: u32,
}

} // verus!
