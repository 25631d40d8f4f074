//! The stack-based builder that turns the flat markdown event stream into a
//! tree of styled blocks plus the flat `RenderedText` index.
//!
//! Four independent stacks are maintained while the stream is consumed once,
//! left to right: the block stack (one entry per open structural tag), the
//! text-style stack (refinements applied in push order), the code-block
//! stack (the active fenced-code language, if any), and the list stack
//! (bullet counters). Leaf events append to a pending line accumulator that
//! is flushed into an immutable `RenderedLine` whenever a block boundary is
//! crossed.

use vstd::prelude::*;

use crate::events::{
    events_wf, kind_of, lemma_open_tags_prefix, open_tags_after, CodeBlockKind, HeadingLevel,
    MarkdownEvent, MarkdownTag, MarkdownTagEnd, SpannedEvent,
};
use crate::line::{
    append_bytes, clone_bytes, lemma_mappings_push_ordered, lemma_sum_run_lens_push,
    mappings_ordered, sum_run_lens, LineExtent, RenderedLine, SourceMapping,
};
use crate::rendered::{RenderedLink, RenderedText};
use crate::style::{
    spans_wf, spec_folded_style, spec_plain_run, spec_runs_for_spans, HighlightSpan,
    MarkdownStyle, TextRun, TextStyle, TextStyleRefinement,
};

verus! {

/// What a visual block stands for. `Root` is the synthetic outermost
/// container; the rest mirror the structural markdown constructs. An `Item`
/// block holds the bullet label cell and an `ItemContent` block with the
/// item's own content.
#[derive(Copy, Clone, Debug, PartialEq, Eq, Structural)]
pub enum BlockKind {
    Root,
    Paragraph,
    Heading(HeadingLevel),
    BlockQuote,
    CodeBlock,
    HtmlBlock,
    List,
    Item,
    ItemContent,
    Rule,
    HardBreak,
}

/// A child of a visual block: a nested block, one of the document's rendered
/// lines (by index into the flat line list), or a synthesized list bullet
/// label (the item number of an ordered list, `None` for an unordered
/// marker).
#[derive(Debug)]
pub enum BlockChild {
    Block(Block),
    Line(usize),
    Bullet(Option<u64>),
}

/// One styled visual block. The outer margin on a side touching the document
/// boundary is suppressed, so an embedded rendering does not double its
/// margins.
#[derive(Debug)]
pub struct Block {
    pub kind: BlockKind,
    pub suppress_top_margin: bool,
    pub suppress_bottom_margin: bool,
    pub children: Vec<BlockChild>,
}

/// The finished rendering of a whole document: the root visual block tree
/// and the flat rendered-text index over its lines and links.
#[derive(Debug)]
pub struct RenderedMarkdown {
    pub root: Block,
    pub text: RenderedText,
}

/// The accumulator for the line being built: its rendered bytes so far, the
/// styled runs covering them, and one mapping entry per pushed span.
#[derive(Clone, Debug, PartialEq, Eq)]
pub struct PendingLine {
    pub text: Vec<u8>,
    pub runs: Vec<TextRun>,
    pub source_mappings: Vec<SourceMapping>,
}

/// One open list: the next item number of an ordered list, `None` for an
/// unordered one.
#[derive(Copy, Clone, Debug, PartialEq, Eq, Structural)]
pub struct ListStackEntry {
    pub bullet_index: Option<u64>,
}

/// The pending line is well formed with respect to the running source
/// cursor: mappings start at rendered offset 0, are ordered, and lie within
/// the accumulated text; the runs cover the text exactly; and the cursor
/// sits one past the source byte of the last accumulated rendered byte.
pub open spec fn pending_wf(p: PendingLine, current: usize) -> bool {
    &&& p.source_mappings@.len() == 0 ==> p.text@.len() == 0 && p.runs@.len() == 0
    &&& p.source_mappings@.len() > 0 ==> {
        &&& p.source_mappings@[0].rendered_index == 0
        &&& mappings_ordered(p.source_mappings@)
        &&& forall|i: int|
            0 <= i < p.source_mappings@.len()
                ==> #[trigger] p.source_mappings@[i].rendered_index <= p.text@.len()
        &&& current == p.source_mappings@.last().source_index + p.text@.len()
            - p.source_mappings@.last().rendered_index
    }
    &&& sum_run_lens(p.runs@) == p.text@.len()
}

/// The builder's mutable state while the event stream is consumed.
pub struct MarkdownBuilder {
    pub div_stack: Vec<Block>,
    pub rendered_lines: Vec<RenderedLine>,
    pub pending_line: PendingLine,
    pub rendered_links: Vec<RenderedLink>,
    pub current_source_index: usize,
    pub base_text_style: TextStyle,
    pub text_style_stack: Vec<TextStyleRefinement>,
    pub code_block_stack: Vec<Option<u64>>,
    pub list_stack: Vec<ListStackEntry>,
}


/// How many blocks a structural tag pushes on the block stack when it
/// starts, and pops when it ends. An item pushes both its own block and the
/// content block beside the bullet label; inline styles and unsupported tags
/// push none.
pub open spec fn divs_for_kind(kind: MarkdownTagEnd) -> int {
    match kind {
        MarkdownTagEnd::Paragraph => 1,
        MarkdownTagEnd::Heading => 1,
        MarkdownTagEnd::BlockQuote => 1,
        MarkdownTagEnd::CodeBlock => 1,
        MarkdownTagEnd::HtmlBlock => 1,
        MarkdownTagEnd::List => 1,
        MarkdownTagEnd::Item => 2,
        MarkdownTagEnd::Emphasis => 0,
        MarkdownTagEnd::Strong => 0,
        MarkdownTagEnd::Strikethrough => 0,
        MarkdownTagEnd::Link => 0,
        MarkdownTagEnd::MetadataBlock => 0,
        MarkdownTagEnd::Other => 0,
    }
}

/// The total number of blocks pushed for a stack of open tags.
pub open spec fn sum_divs(stack: Seq<MarkdownTagEnd>) -> int
    decreases stack.len(),
{
    if stack.len() == 0 {
        0
    } else {
        sum_divs(stack.drop_last()) + divs_for_kind(stack.last())
    }
}

/// The block a single-block structural tag opens.
pub open spec fn block_kind_of(tag: MarkdownTag) -> BlockKind {
    match tag {
        MarkdownTag::Paragraph => BlockKind::Paragraph,
        MarkdownTag::Heading(level) => BlockKind::Heading(level),
        MarkdownTag::BlockQuote => BlockKind::BlockQuote,
        MarkdownTag::CodeBlock(_) => BlockKind::CodeBlock,
        MarkdownTag::HtmlBlock => BlockKind::HtmlBlock,
        MarkdownTag::List(_) => BlockKind::List,
        _ => BlockKind::Root,
    }
}

/// The item number the next list item takes: the innermost list's counter,
/// `None` for an unordered list or outside any list.
pub open spec fn spec_next_bullet(stack: Seq<ListStackEntry>) -> Option<u64> {
    if stack.len() == 0 {
        None
    } else {
        stack.last().bullet_index
    }
}


/// Appends the styled runs for one highlighted span of `text_len` bytes:
/// each highlight sub-range becomes its own run with the highlight applied
/// over the ambient style, and the gaps before, between and after the
/// sub-ranges use the ambient style alone.
fn append_highlighted_runs(
    runs: &mut Vec<TextRun>,
    style: TextStyle,
    highlights: &Vec<HighlightSpan>,
    text_len: usize,
)
    requires
        spans_wf(highlights@, text_len as int),
        text_len >= 1,
    ensures
        final(runs)@ == old(runs)@ + spec_runs_for_spans(
            style,
            highlights@,
            0,
            0,
            text_len as int,
        ),
        sum_run_lens(final(runs)@) == sum_run_lens(old(runs)@) + text_len,
{
    let ghost base_runs: Seq<TextRun> = runs@;
    let ghost base_sum: int = sum_run_lens(base_runs);
    let ghost all_runs: Seq<TextRun> = spec_runs_for_spans(
        style,
        highlights@,
        0,
        0,
        text_len as int,
    );
    let ghost mut done_runs: Seq<TextRun> = Seq::empty();
    let mut offset: usize = 0;
    let mut k: usize = 0;
    let hn = highlights.len();
    while k < hn
        invariant
            k <= hn,
            hn == highlights@.len(),
            spans_wf(highlights@, text_len as int),
            k == 0 ==> offset == 0,
            k > 0 ==> offset == highlights@[k - 1].end,
            offset <= text_len,
            runs@ == base_runs + done_runs,
            sum_run_lens(runs@) == base_sum + offset,
            all_runs == done_runs + spec_runs_for_spans(
                style,
                highlights@,
                k as int,
                offset as int,
                text_len as int,
            ),
        decreases hn - k,
    {
        let span = highlights[k];
        let ghost step_runs: Seq<TextRun> = spec_runs_for_spans(
            style,
            highlights@,
            k as int,
            offset as int,
            text_len as int,
        );
        if span.start > offset {
            let gap_run = TextRun { len: span.start - offset, style };
            proof {
                lemma_sum_run_lens_push(runs@, gap_run);
            }
            runs.push(gap_run);
            proof {
                done_runs = done_runs.push(gap_run);
                assert(runs@ =~= base_runs + done_runs);
            }
        }
        let hl_run = TextRun { len: span.end - span.start, style: style.refined(&span.style) };
        proof {
            lemma_sum_run_lens_push(runs@, hl_run);
        }
        runs.push(hl_run);
        proof {
            done_runs = done_runs.push(hl_run);
            assert(runs@ =~= base_runs + done_runs);
            let rest = spec_runs_for_spans(
                style,
                highlights@,
                k + 1 as int,
                span.end as int,
                text_len as int,
            );
            if span.start > offset {
                let gap_run = TextRun { len: (span.start - offset) as usize, style };
                assert(step_runs =~= seq![gap_run] + seq![hl_run] + rest);
                assert(done_runs + rest =~= done_runs.drop_last().drop_last() + (seq![gap_run]
                    + seq![hl_run] + rest));
            } else {
                assert(step_runs =~= seq![hl_run] + rest);
                assert(done_runs + rest =~= done_runs.drop_last() + (seq![hl_run] + rest));
            }
            assert(all_runs =~= done_runs + rest);
        }
        offset = span.end;
        k = k + 1;
    }
    if offset < text_len {
        let tail_run = TextRun { len: text_len - offset, style };
        proof {
            lemma_sum_run_lens_push(runs@, tail_run);
        }
        runs.push(tail_run);
        proof {
            done_runs = done_runs.push(tail_run);
            let rest = spec_runs_for_spans(
                style,
                highlights@,
                hn as int,
                offset as int,
                text_len as int,
            );
            assert(rest =~= seq![tail_run]);
            assert(done_runs =~= done_runs.drop_last() + rest);
            assert(all_runs =~= done_runs);
            assert(runs@ =~= base_runs + done_runs);
        }
    } else {
        proof {
            let rest = spec_runs_for_spans(
                style,
                highlights@,
                hn as int,
                offset as int,
                text_len as int,
            );
            assert(rest =~= Seq::<TextRun>::empty());
            assert(all_runs =~= done_runs);
        }
    }
}

impl MarkdownBuilder {
    /// The source offset below which no future line can start: the pending
    /// line's first mapped source byte, or the running cursor when no line
    /// is pending.
    pub open spec fn next_line_floor(self) -> int {
        if self.pending_line.source_mappings@.len() > 0 {
            self.pending_line.source_mappings@[0].source_index as int
        } else {
            self.current_source_index as int
        }
    }

    /// The builder invariant: the block stack always holds at least the
    /// root; the pending line is well formed; every finished line is well
    /// formed; finished lines cover increasing source spans; and no finished
    /// line ends past where the next one can start.
    pub open spec fn wf(self) -> bool {
        &&& self.div_stack@.len() >= 1
        &&& pending_wf(self.pending_line, self.current_source_index)
        &&& forall|i: int|
            0 <= i < self.rendered_lines@.len() ==> (#[trigger] self.rendered_lines@[i]).wf()
        &&& forall|i: int|
            0 <= i && i + 1 < self.rendered_lines@.len() ==> self.rendered_lines@[i].source_end <= (
            #[trigger] self.rendered_lines@[i + 1]).source_start()
        &&& self.rendered_lines@.len() > 0 ==> self.rendered_lines@.last().source_end
            <= self.next_line_floor()
    }

    /// Everything except the text-style stack is equal.
    pub open spec fn eq_except_style_stack(self, other: MarkdownBuilder) -> bool {
        &&& self.div_stack == other.div_stack
        &&& self.rendered_lines == other.rendered_lines
        &&& self.pending_line == other.pending_line
        &&& self.rendered_links == other.rendered_links
        &&& self.current_source_index == other.current_source_index
        &&& self.base_text_style == other.base_text_style
        &&& self.code_block_stack == other.code_block_stack
        &&& self.list_stack == other.list_stack
    }

    /// Everything except the code-block stack is equal.
    pub open spec fn eq_except_code_block_stack(self, other: MarkdownBuilder) -> bool {
        &&& self.div_stack == other.div_stack
        &&& self.rendered_lines == other.rendered_lines
        &&& self.pending_line == other.pending_line
        &&& self.rendered_links == other.rendered_links
        &&& self.current_source_index == other.current_source_index
        &&& self.base_text_style == other.base_text_style
        &&& self.text_style_stack == other.text_style_stack
        &&& self.list_stack == other.list_stack
    }

    /// Everything except the list stack is equal.
    pub open spec fn eq_except_list_stack(self, other: MarkdownBuilder) -> bool {
        &&& self.div_stack == other.div_stack
        &&& self.rendered_lines == other.rendered_lines
        &&& self.pending_line == other.pending_line
        &&& self.rendered_links == other.rendered_links
        &&& self.current_source_index == other.current_source_index
        &&& self.base_text_style == other.base_text_style
        &&& self.text_style_stack == other.text_style_stack
        &&& self.code_block_stack == other.code_block_stack
    }

    /// Everything except the link list is equal.
    pub open spec fn eq_except_links(self, other: MarkdownBuilder) -> bool {
        &&& self.div_stack == other.div_stack
        &&& self.rendered_lines == other.rendered_lines
        &&& self.pending_line == other.pending_line
        &&& self.current_source_index == other.current_source_index
        &&& self.base_text_style == other.base_text_style
        &&& self.text_style_stack == other.text_style_stack
        &&& self.code_block_stack == other.code_block_stack
        &&& self.list_stack == other.list_stack
    }

    /// Everything except the block stack, the finished lines, the pending
    /// line and the cursor is equal.
    pub open spec fn eq_except_blocks(self, other: MarkdownBuilder) -> bool {
        &&& self.rendered_links == other.rendered_links
        &&& self.base_text_style == other.base_text_style
        &&& self.text_style_stack == other.text_style_stack
        &&& self.code_block_stack == other.code_block_stack
        &&& self.list_stack == other.list_stack
    }

    /// A fresh builder: one empty root block on the stack, nothing rendered,
    /// the source cursor at the document start.
    pub fn new(base_text_style: TextStyle) -> (b: MarkdownBuilder)
        ensures
            b.wf(),
            b.div_stack@.len() == 1,
            b.div_stack@[0].kind == BlockKind::Root,
            b.div_stack@[0].children@.len() == 0,
            b.rendered_lines@.len() == 0,
            b.rendered_links@.len() == 0,
            b.pending_line.text@.len() == 0,
            b.pending_line.runs@.len() == 0,
            b.pending_line.source_mappings@.len() == 0,
            b.current_source_index == 0,
            line_state(b) == spec_initial_build_state(base_text_style),
            b.base_text_style == base_text_style,
            b.text_style_stack@.len() == 0,
            b.code_block_stack@.len() == 0,
            b.list_stack@.len() == 0,
    {
        let mut div_stack: Vec<Block> = Vec::new();
        div_stack.push(
            Block {
                kind: BlockKind::Root,
                suppress_top_margin: false,
                suppress_bottom_margin: false,
                children: Vec::new(),
            },
        );
        let b = MarkdownBuilder {
            div_stack,
            rendered_lines: Vec::new(),
            pending_line: PendingLine { text: Vec::new(), runs: Vec::new(), source_mappings: Vec::new() },
            rendered_links: Vec::new(),
            current_source_index: 0,
            base_text_style,
            text_style_stack: Vec::new(),
            code_block_stack: Vec::new(),
            list_stack: Vec::new(),
        };
        proof {
            assert(line_state(b) =~= spec_initial_build_state(base_text_style));
        }
        b
    }

    /// Pushes a style refinement; later pushes win on conflicting fields.
    pub fn push_text_style(&mut self, style: TextStyleRefinement)
        ensures
            final(self).text_style_stack@ == old(self).text_style_stack@.push(style),
            final(self).eq_except_style_stack(*old(self)),
    {
        self.text_style_stack.push(style);
    }

    /// Pops the innermost style refinement; a pop without a matching push is
    /// ignored.
    pub fn pop_text_style(&mut self)
        ensures
            old(self).text_style_stack@.len() > 0 ==> final(self).text_style_stack@ == old(
                self,
            ).text_style_stack@.drop_last(),
            old(self).text_style_stack@.len() == 0 ==> final(self).text_style_stack@ == old(
                self,
            ).text_style_stack@,
            final(self).eq_except_style_stack(*old(self)),
    {
        let _popped = self.text_style_stack.pop();
        proof {
            if old(self).text_style_stack@.len() == 0 {
                assert(self.text_style_stack@ =~= old(self).text_style_stack@);
            }
        }
    }

    /// The effective style for the next text run: the base style with every
    /// stacked refinement applied in push order.
    pub fn text_style(&self) -> (s: TextStyle)
        ensures
            s == spec_folded_style(self.base_text_style, self.text_style_stack@),
    {
        let mut style = self.base_text_style;
        let n = self.text_style_stack.len();
        let mut i: usize = 0;
        proof {
            assert(self.text_style_stack@.skip(0) =~= self.text_style_stack@);
        }
        while i < n
            invariant
                i <= n,
                n == self.text_style_stack@.len(),
                spec_folded_style(self.base_text_style, self.text_style_stack@)
                    == spec_folded_style(style, self.text_style_stack@.skip(i as int)),
            decreases n - i,
        {
            proof {
                assert(self.text_style_stack@.skip(i as int).drop_first()
                    =~= self.text_style_stack@.skip(i + 1));
                assert(self.text_style_stack@.skip(i as int)[0] == self.text_style_stack@[i as int]);
            }
            style = style.refined(&self.text_style_stack[i]);
            i = i + 1;
        }
        proof {
            assert(self.text_style_stack@.skip(n as int) =~= Seq::<TextStyleRefinement>::empty());
        }
        style
    }

    /// Enters a code block with the resolved language, `None` when no
    /// highlighter applies.
    pub fn push_code_block(&mut self, language: Option<u64>)
        ensures
            final(self).code_block_stack@ == old(self).code_block_stack@.push(language),
            final(self).eq_except_code_block_stack(*old(self)),
    {
        self.code_block_stack.push(language);
    }

    /// Leaves the innermost code block; a pop without a matching push is
    /// ignored.
    pub fn pop_code_block(&mut self)
        ensures
            old(self).code_block_stack@.len() > 0 ==> final(self).code_block_stack@ == old(
                self,
            ).code_block_stack@.drop_last(),
            old(self).code_block_stack@.len() == 0 ==> final(self).code_block_stack@ == old(
                self,
            ).code_block_stack@,
            final(self).eq_except_code_block_stack(*old(self)),
    {
        let _popped = self.code_block_stack.pop();
        proof {
            if old(self).code_block_stack@.len() == 0 {
                assert(self.code_block_stack@ =~= old(self).code_block_stack@);
            }
        }
    }

    /// The language of the innermost code block, when one is open and was
    /// resolved; leaf text is routed through syntax highlighting only then.
    pub fn active_language(&self) -> (lang: Option<u64>)
        ensures
            lang == (if self.code_block_stack@.len() > 0 {
                self.code_block_stack@.last()
            } else {
                None::<u64>
            }),
    {
        if self.code_block_stack.len() > 0 {
            self.code_block_stack[self.code_block_stack.len() - 1]
        } else {
            None
        }
    }

    /// Enters a list; `bullet_index` is the first item number of an ordered
    /// list, `None` for an unordered one.
    pub fn push_list(&mut self, bullet_index: Option<u64>)
        ensures
            final(self).list_stack@ == old(self).list_stack@.push(
                ListStackEntry { bullet_index },
            ),
            final(self).eq_except_list_stack(*old(self)),
    {
        self.list_stack.push(ListStackEntry { bullet_index });
    }

    /// Leaves the innermost list; a pop without a matching push is ignored.
    pub fn pop_list(&mut self)
        ensures
            old(self).list_stack@.len() > 0 ==> final(self).list_stack@ == old(
                self,
            ).list_stack@.drop_last(),
            old(self).list_stack@.len() == 0 ==> final(self).list_stack@ == old(self).list_stack@,
            final(self).eq_except_list_stack(*old(self)),
    {
        let _popped = self.list_stack.pop();
        proof {
            if old(self).list_stack@.len() == 0 {
                assert(self.list_stack@ =~= old(self).list_stack@);
            }
        }
    }

    /// Takes the next item number of the innermost list: `Some(n)` and the
    /// counter advances (saturating) for an ordered list, `None` for an
    /// unordered list or outside any list.
    pub fn next_bullet_index(&mut self) -> (r: Option<u64>)
        ensures
            final(self).eq_except_list_stack(*old(self)),
            old(self).list_stack@.len() == 0 ==> final(self).list_stack == old(self).list_stack
                && r is None,
            old(self).list_stack@.len() > 0 ==> (match old(self).list_stack@.last().bullet_index {
                None => final(self).list_stack == old(self).list_stack && r is None,
                Some(n) => r == Some(n) && final(self).list_stack@ == old(
                    self,
                ).list_stack@.drop_last().push(
                    ListStackEntry {
                        bullet_index: Some(
                            if n < u64::MAX {
                                (n + 1) as u64
                            } else {
                                n
                            },
                        ),
                    },
                ),
            }),
    {
        let n = self.list_stack.len();
        if n == 0 {
            return None;
        }
        let entry = self.list_stack[n - 1];
        match entry.bullet_index {
            None => None,
            Some(v) => {
                let next = if v < u64::MAX {
                    v + 1
                } else {
                    v
                };
                let _popped = self.list_stack.pop();
                self.list_stack.push(ListStackEntry { bullet_index: Some(next) });
                Some(v)
            },
        }
    }

    /// Records a hyperlink span with its destination.
    pub fn push_link(&mut self, destination_url: Vec<u8>, source_start: usize, source_end: usize)
        ensures
            final(self).rendered_links@ == old(self).rendered_links@.push(
                RenderedLink { source_start, source_end, destination_url },
            ),
            final(self).eq_except_links(*old(self)),
    {
        self.rendered_links.push(RenderedLink { source_start, source_end, destination_url });
    }

    /// Appends a child to the block currently on top of the stack.
    fn push_child(&mut self, child: BlockChild)
        requires
            old(self).div_stack@.len() >= 1,
        ensures
            final(self).div_stack@.len() == old(self).div_stack@.len(),
            forall|j: int|
                0 <= j < old(self).div_stack@.len() - 1 ==> final(self).div_stack@[j] == old(
                    self,
                ).div_stack@[j],
            final(self).div_stack@.last().kind == old(self).div_stack@.last().kind,
            final(self).div_stack@.last().suppress_top_margin == old(
                self,
            ).div_stack@.last().suppress_top_margin,
            final(self).div_stack@.last().suppress_bottom_margin == old(
                self,
            ).div_stack@.last().suppress_bottom_margin,
            final(self).div_stack@.last().children@ == old(
                self,
            ).div_stack@.last().children@.push(child),
            final(self).rendered_lines == old(self).rendered_lines,
            final(self).pending_line == old(self).pending_line,
            final(self).current_source_index == old(self).current_source_index,
            final(self).eq_except_blocks(*old(self)),
    {
        let mut top = match self.div_stack.pop() {
            Some(b) => b,
            None => {
                proof {
                    assert(false);
                }
                Block {
                    kind: BlockKind::Root,
                    suppress_top_margin: false,
                    suppress_bottom_margin: false,
                    children: Vec::new(),
                }
            },
        };
        top.children.push(child);
        self.div_stack.push(top);
    }

    /// Closes the pending line off: when it holds any text it becomes one
    /// immutable rendered line (its source span ending at the cursor) and is
    /// appended both to the flat line list and as a child of the block on
    /// top of the stack; an empty pending line is discarded. Either way the
    /// accumulator is reset.
    pub fn flush_text(&mut self)
        requires
            old(self).wf(),
        ensures
            final(self).wf(),
            final(self).pending_line.text@.len() == 0,
            final(self).pending_line.runs@.len() == 0,
            final(self).pending_line.source_mappings@.len() == 0,
            final(self).current_source_index == old(self).current_source_index,
            final(self).eq_except_blocks(*old(self)),
            old(self).pending_line.text@.len() == 0 ==> final(self).div_stack == old(
                self,
            ).div_stack && final(self).rendered_lines == old(self).rendered_lines,
            old(self).pending_line.text@.len() > 0 ==> {
                &&& final(self).rendered_lines@.len() == old(self).rendered_lines@.len() + 1
                &&& (forall|j: int|
                    0 <= j < old(self).rendered_lines@.len() ==> final(self).rendered_lines@[j]
                        == old(self).rendered_lines@[j])
                &&& final(self).rendered_lines@.last().text@ == old(self).pending_line.text@
                &&& final(self).rendered_lines@.last().runs@ == old(self).pending_line.runs@
                &&& final(self).rendered_lines@.last().source_mappings@ == old(
                    self,
                ).pending_line.source_mappings@
                &&& final(self).rendered_lines@.last().source_end == old(self).current_source_index
                &&& final(self).rendered_lines@.last().extent == (LineExtent {
                    top: 0,
                    bottom: 0,
                    line_height: 0,
                })
                &&& final(self).div_stack@.len() == old(self).div_stack@.len()
                &&& (forall|j: int|
                    0 <= j < old(self).div_stack@.len() - 1 ==> final(self).div_stack@[j] == old(
                        self,
                    ).div_stack@[j])
                &&& final(self).div_stack@.last().kind == old(self).div_stack@.last().kind
                &&& final(self).div_stack@.last().suppress_top_margin == old(
                    self,
                ).div_stack@.last().suppress_top_margin
                &&& final(self).div_stack@.last().suppress_bottom_margin == old(
                    self,
                ).div_stack@.last().suppress_bottom_margin
                &&& final(self).div_stack@.last().children@ == old(
                    self,
                ).div_stack@.last().children@.push(
                    BlockChild::Line(old(self).rendered_lines@.len() as usize),
                )
            },
    {
        let text = self.pending_line.text.split_off(0);
        let runs = self.pending_line.runs.split_off(0);
        let source_mappings = self.pending_line.source_mappings.split_off(0);
        proof {
            assert(self.pending_line.text@ =~= Seq::<u8>::empty());
            assert(self.pending_line.runs@ =~= Seq::<TextRun>::empty());
            assert(self.pending_line.source_mappings@ =~= Seq::<SourceMapping>::empty());
            assert(text@ =~= old(self).pending_line.text@);
            assert(runs@ =~= old(self).pending_line.runs@);
            assert(source_mappings@ =~= old(self).pending_line.source_mappings@);
        }
        if text.len() == 0 {
            return ;
        }
        let index = self.rendered_lines.len();
        let line = RenderedLine {
            text,
            runs,
            source_mappings,
            source_end: self.current_source_index,
            extent: LineExtent { top: 0, bottom: 0, line_height: 0 },
        };
        proof {
            assert(line.wf());
        }
        self.rendered_lines.push(line);
        self.push_child(BlockChild::Line(index));
        proof {
            assert forall|i: int|
                0 <= i && i + 1 < self.rendered_lines@.len() implies self.rendered_lines@[i].source_end
                <= (#[trigger] self.rendered_lines@[i + 1]).source_start() by {
                if i + 2 < self.rendered_lines@.len() {
                    assert(self.rendered_lines@[i] == old(self).rendered_lines@[i]);
                    assert(self.rendered_lines@[i + 1] == old(self).rendered_lines@[i + 1]);
                }
            }
        }
    }

    /// Removes one trailing newline from the pending line, as fenced code
    /// blocks conventionally end with a newline that must not render as a
    /// blank line: the rendered text, the last run and the source cursor all
    /// shrink by one byte. Nothing happens when the pending text does not
    /// end with a newline (or, on degenerate input, when the trailing byte
    /// is not part of the last run's span or of the last mapped span).
    pub fn trim_trailing_newline(&mut self)
        requires
            old(self).wf(),
        ensures
            final(self).wf(),
            ({
                let p = old(self).pending_line;
                let trimmable = p.text@.len() > 0 && p.text@.last() == 10u8 && p.runs@.len() > 0
                    && p.runs@.last().len >= 1 && p.source_mappings@.len() > 0
                    && p.source_mappings@.last().rendered_index < p.text@.len();
                if trimmable {
                    &&& final(self).pending_line.text@ == p.text@.drop_last()
                    &&& final(self).pending_line.runs@ == p.runs@.drop_last().push(
                        TextRun {
                            len: (p.runs@.last().len - 1) as usize,
                            style: p.runs@.last().style,
                        },
                    )
                    &&& final(self).pending_line.source_mappings == p.source_mappings
                    &&& final(self).current_source_index == old(self).current_source_index - 1
                } else {
                    &&& final(self).pending_line == p
                    &&& final(self).current_source_index == old(self).current_source_index
                }
            }),
            final(self).div_stack == old(self).div_stack,
            final(self).rendered_lines == old(self).rendered_lines,
            final(self).eq_except_blocks(*old(self)),
    {
        let text_len = self.pending_line.text.len();
        if text_len == 0 {
            return ;
        }
        if *vstd::slice::slice_index_get(self.pending_line.text.as_slice(), text_len - 1) != 10u8 {
            return ;
        }
        let runs_len = self.pending_line.runs.len();
        if runs_len == 0 {
            return ;
        }
        let last_run = self.pending_line.runs[runs_len - 1];
        if last_run.len == 0 {
            return ;
        }
        let maps_len = self.pending_line.source_mappings.len();
        if self.pending_line.source_mappings[maps_len - 1].rendered_index >= text_len {
            return ;
        }
        self.pending_line.text.truncate(text_len - 1);
        let _popped = self.pending_line.runs.pop();
        self.pending_line.runs.push(
            TextRun { len: last_run.len - 1, style: last_run.style },
        );
        self.current_source_index = self.current_source_index - 1;
        proof {
            assert(self.pending_line.text@ =~= old(self).pending_line.text@.drop_last());
            let p = self.pending_line;
            assert(sum_run_lens(p.runs@) == sum_run_lens(p.runs@.drop_last()) + p.runs@.last().len);
            assert(p.runs@.drop_last() =~= old(self).pending_line.runs@.drop_last());
            assert forall|i: int|
                0 <= i < p.source_mappings@.len() implies #[trigger] p.source_mappings@[i].rendered_index
                <= p.text@.len() by {
                if i + 1 <= p.source_mappings@.len() - 1 {
                    assert(p.source_mappings@[i].rendered_index
                        < p.source_mappings@[p.source_mappings@.len() - 1].rendered_index || i
                        == p.source_mappings@.len() - 1);
                }
            }
        }
    }

    /// Opens a styled block for a structural tag: the pending line is
    /// flushed into the enclosing block first, then an empty block is pushed
    /// with its outer margins suppressed on the sides touching the document
    /// boundary (its range starting at offset 0, or ending at the document's
    /// final offset).
    pub fn push_div(
        &mut self,
        kind: BlockKind,
        range_start: usize,
        range_end: usize,
        markdown_end: usize,
    )
        requires
            old(self).wf(),
        ensures
            final(self).wf(),
            final(self).pending_line.text@.len() == 0,
            final(self).pending_line.runs@.len() == 0,
            final(self).pending_line.source_mappings@.len() == 0,
            final(self).current_source_index == old(self).current_source_index,
            final(self).eq_except_blocks(*old(self)),
            final(self).div_stack@.len() == old(self).div_stack@.len() + 1,
            final(self).div_stack@.last().kind == kind,
            final(self).div_stack@.last().suppress_top_margin == (range_start == 0),
            final(self).div_stack@.last().suppress_bottom_margin == (range_end == markdown_end),
            final(self).div_stack@.last().children@.len() == 0,
            forall|j: int|
                0 <= j < old(self).div_stack@.len() - 1 ==> final(self).div_stack@[j] == old(
                    self,
                ).div_stack@[j],
            old(self).pending_line.text@.len() == 0 ==> final(self).rendered_lines == old(
                self,
            ).rendered_lines && final(self).div_stack@[old(self).div_stack@.len() - 1] == old(
                self,
            ).div_stack@.last(),
            old(self).pending_line.text@.len() > 0 ==> {
                &&& final(self).rendered_lines@.len() == old(self).rendered_lines@.len() + 1
                &&& (forall|j: int|
                    0 <= j < old(self).rendered_lines@.len() ==> final(self).rendered_lines@[j]
                        == old(self).rendered_lines@[j])
                &&& final(self).rendered_lines@.last().text@ == old(self).pending_line.text@
                &&& final(self).rendered_lines@.last().runs@ == old(self).pending_line.runs@
                &&& final(self).rendered_lines@.last().source_mappings@ == old(
                    self,
                ).pending_line.source_mappings@
                &&& final(self).rendered_lines@.last().source_end == old(
                    self,
                ).current_source_index
                &&& final(self).div_stack@[old(self).div_stack@.len() - 1].kind == old(
                    self,
                ).div_stack@.last().kind
                &&& final(self).div_stack@[old(self).div_stack@.len() - 1].children@ == old(
                    self,
                ).div_stack@.last().children@.push(
                    BlockChild::Line(old(self).rendered_lines@.len() as usize),
                )
            },
    {
        self.flush_text();
        self.div_stack.push(
            Block {
                kind,
                suppress_top_margin: range_start == 0,
                suppress_bottom_margin: range_end == markdown_end,
                children: Vec::new(),
            },
        );
    }

    /// Closes the innermost open block: the pending line is flushed into it,
    /// it is popped, and it becomes the last child of the block below it. A
    /// pop that would remove the root is ignored (after the flush).
    pub fn pop_div(&mut self)
        requires
            old(self).wf(),
        ensures
            final(self).wf(),
            final(self).pending_line.text@.len() == 0,
            final(self).pending_line.runs@.len() == 0,
            final(self).pending_line.source_mappings@.len() == 0,
            final(self).current_source_index == old(self).current_source_index,
            final(self).eq_except_blocks(*old(self)),
            old(self).div_stack@.len() == 1 ==> final(self).div_stack@.len() == 1,
            old(self).div_stack@.len() >= 2 ==> {
                &&& final(self).div_stack@.len() == old(self).div_stack@.len() - 1
                &&& (forall|j: int|
                    0 <= j < old(self).div_stack@.len() - 2 ==> final(self).div_stack@[j] == old(
                        self,
                    ).div_stack@[j])
                &&& final(self).div_stack@.last().kind == old(self).div_stack@[old(
                    self,
                ).div_stack@.len() - 2].kind
                &&& final(self).div_stack@.last().children@.len() == old(self).div_stack@[old(
                    self,
                ).div_stack@.len() - 2].children@.len() + 1
                &&& (match final(self).div_stack@.last().children@.last() {
                    BlockChild::Block(b) => {
                        &&& b.kind == old(self).div_stack@.last().kind
                        &&& b.suppress_top_margin == old(self).div_stack@.last().suppress_top_margin
                        &&& b.suppress_bottom_margin == old(
                            self,
                        ).div_stack@.last().suppress_bottom_margin
                        &&& (old(self).pending_line.text@.len() == 0 ==> b.children@ == old(
                            self,
                        ).div_stack@.last().children@)
                        &&& (old(self).pending_line.text@.len() > 0 ==> b.children@ == old(
                            self,
                        ).div_stack@.last().children@.push(
                            BlockChild::Line(old(self).rendered_lines@.len() as usize),
                        ))
                    },
                    _ => false,
                })
            },
            old(self).pending_line.text@.len() == 0 ==> final(self).rendered_lines == old(
                self,
            ).rendered_lines,
            old(self).pending_line.text@.len() > 0 ==> {
                &&& final(self).rendered_lines@.len() == old(self).rendered_lines@.len() + 1
                &&& (forall|j: int|
                    0 <= j < old(self).rendered_lines@.len() ==> final(self).rendered_lines@[j]
                        == old(self).rendered_lines@[j])
                &&& final(self).rendered_lines@.last().text@ == old(self).pending_line.text@
                &&& final(self).rendered_lines@.last().runs@ == old(self).pending_line.runs@
                &&& final(self).rendered_lines@.last().source_mappings@ == old(
                    self,
                ).pending_line.source_mappings@
                &&& final(self).rendered_lines@.last().source_end == old(
                    self,
                ).current_source_index
            },
    {
        self.flush_text();
        if self.div_stack.len() >= 2 {
            let popped = match self.div_stack.pop() {
                Some(b) => b,
                None => Block {
                    kind: BlockKind::Root,
                    suppress_top_margin: false,
                    suppress_bottom_margin: false,
                    children: Vec::new(),
                },
            };
            self.push_child(BlockChild::Block(popped));
        }
    }

    /// Appends one leaf span to the pending line: a mapping entry is
    /// recorded at the span's start, the rendered text grows by the span's
    /// bytes, the styled runs grow by the span's runs (split by the given
    /// highlight sub-ranges when the innermost code block has a resolved
    /// language), and the source cursor advances one past the span's source
    /// bytes. An empty span does nothing. On degenerate input the span is
    /// mapped at the cursor when its offset runs backwards, no entry is
    /// recorded when the last entry still sits at the rendered end, and a
    /// span that would push the cursor past the address space is dropped.
    pub fn push_text(&mut self, text: &[u8], source_index: usize, highlights: &Vec<HighlightSpan>)
        requires
            old(self).wf(),
            spans_wf(highlights@, text@.len() as int),
        ensures
            final(self).wf(),
            final(self).div_stack == old(self).div_stack,
            final(self).rendered_lines == old(self).rendered_lines,
            final(self).eq_except_blocks(*old(self)),
            final(self).rendered_links == old(self).rendered_links,
            ({
                let p = old(self).pending_line;
                let cur: int = old(self).current_source_index as int;
                let eff: int = if source_index > old(self).current_source_index {
                    source_index as int
                } else {
                    cur
                };
                let style = spec_folded_style(
                    old(self).base_text_style,
                    old(self).text_style_stack@,
                );
                let lang_active = old(self).code_block_stack@.len() > 0 && old(
                    self,
                ).code_block_stack@.last() is Some;
                let new_runs: Seq<TextRun> = if lang_active {
                    spec_runs_for_spans(style, highlights@, 0, 0, text@.len() as int)
                } else {
                    spec_plain_run(style, text@.len() as int)
                };
                if text@.len() == 0 || eff + text@.len() > usize::MAX {
                    final(self).pending_line == p && final(self).current_source_index == old(
                        self,
                    ).current_source_index
                } else {
                    &&& final(self).pending_line.text@ == p.text@ + text@
                    &&& final(self).pending_line.runs@ == p.runs@ + new_runs
                    &&& (p.source_mappings@.len() == 0 ==> {
                        &&& final(self).pending_line.source_mappings@ == seq![
                            SourceMapping { rendered_index: 0, source_index: eff as usize },
                        ]
                        &&& final(self).current_source_index == eff + text@.len()
                    })
                    &&& (p.source_mappings@.len() > 0 && p.text@.len()
                        > p.source_mappings@.last().rendered_index ==> {
                        &&& final(self).pending_line.source_mappings@
                            == p.source_mappings@.push(
                            SourceMapping {
                                rendered_index: p.text@.len() as usize,
                                source_index: eff as usize,
                            },
                        )
                        &&& final(self).current_source_index == eff + text@.len()
                    })
                    &&& (p.source_mappings@.len() > 0 && p.text@.len()
                        == p.source_mappings@.last().rendered_index ==> {
                        &&& final(self).pending_line.source_mappings@ == p.source_mappings@
                        &&& final(self).current_source_index == cur + text@.len()
                    })
                }
            }),
    {
        if text.len() == 0 {
            return ;
        }
        let eff = if source_index > self.current_source_index {
            source_index
        } else {
            self.current_source_index
        };
        if text.len() > usize::MAX - eff {
            return ;
        }
        let old_text_len = self.pending_line.text.len();
        let maps_len = self.pending_line.source_mappings.len();
        if maps_len == 0 {
            self.pending_line.source_mappings.push(
                SourceMapping { rendered_index: 0, source_index: eff },
            );
            self.current_source_index = eff + text.len();
            proof {
                assert(self.pending_line.source_mappings@ =~= seq![
                    SourceMapping { rendered_index: 0, source_index: eff },
                ]);
            }
        } else if old_text_len > self.pending_line.source_mappings[maps_len - 1].rendered_index {
            proof {
                lemma_mappings_push_ordered(
                    self.pending_line.source_mappings@,
                    SourceMapping { rendered_index: old_text_len, source_index: eff },
                );
            }
            self.pending_line.source_mappings.push(
                SourceMapping { rendered_index: old_text_len, source_index: eff },
            );
            self.current_source_index = eff + text.len();
        } else {
            self.current_source_index = self.current_source_index + text.len();
        }
        append_bytes(&mut self.pending_line.text, text);
        let style = self.text_style();
        let lang_active = match self.active_language() {
            Some(_) => true,
            None => false,
        };
        let ghost base_runs: Seq<TextRun> = self.pending_line.runs@;
        if lang_active {
            append_highlighted_runs(&mut self.pending_line.runs, style, highlights, text.len());
        } else {
            let run = TextRun { len: text.len(), style };
            proof {
                lemma_sum_run_lens_push(self.pending_line.runs@, run);
            }
            self.pending_line.runs.push(run);
            proof {
                assert(self.pending_line.runs@ =~= base_runs + spec_plain_run(
                    style,
                    text@.len() as int,
                ));
            }
        }
    }

    /// Consumes one event of the stream. Structural `Start`/`End` tags push
    /// and pop blocks and style refinements; leaf events append to the
    /// pending line; a soft break renders as a single space; a hard break and
    /// a rule become childless blocks of their own; unsupported constructs
    /// are skipped. `markdown_end` is the document's final parsed offset
    /// (margin suppression); `language` is the embedding's resolved language
    /// for a fenced code block start, and `highlights` the external
    /// highlighter's sub-ranges for a leaf span when a language is active.
    #[verifier::rlimit(100)]
    pub fn process_event(
        &mut self,
        source: &[u8],
        range_start: usize,
        range_end: usize,
        event: &MarkdownEvent,
        markdown_end: usize,
        style: &MarkdownStyle,
        language: Option<u64>,
        highlights: &Vec<HighlightSpan>,
    )
        requires
            old(self).wf(),
            range_start <= range_end <= source@.len(),
            spans_wf(highlights@, range_end - range_start),
        ensures
            final(self).wf(),
            final(self).base_text_style == old(self).base_text_style,
            final(self).div_stack@.len() >= 1,
            (match event {
                MarkdownEvent::Start(tag) => {
                    &&& final(self).div_stack@.len() == old(self).div_stack@.len()
                        + divs_for_kind(kind_of(*tag))
                    &&& (divs_for_kind(kind_of(*tag)) == 1 ==> {
                        &&& final(self).div_stack@.last().kind == block_kind_of(*tag)
                        &&& final(self).div_stack@.last().suppress_top_margin == (range_start
                            == 0)
                        &&& final(self).div_stack@.last().suppress_bottom_margin == (range_end
                            == markdown_end)
                        &&& final(self).div_stack@.last().children@.len() == 0
                    })
                    &&& ((*tag) is Item ==> {
                        &&& final(self).div_stack@.last().kind == BlockKind::ItemContent
                        &&& final(self).div_stack@.last().children@.len() == 0
                        &&& final(self).div_stack@[final(self).div_stack@.len() - 2].kind
                            == BlockKind::Item
                        &&& final(self).div_stack@[final(self).div_stack@.len() - 2].children@
                            == seq![BlockChild::Bullet(spec_next_bullet(old(self).list_stack@))]
                    })
                },
                MarkdownEvent::End(kind) => {
                    &&& (old(self).div_stack@.len() - divs_for_kind(*kind) >= 1
                        ==> final(self).div_stack@.len() == old(self).div_stack@.len()
                        - divs_for_kind(*kind))
                    &&& final(self).div_stack@.len() <= old(self).div_stack@.len()
                },
                _ => final(self).div_stack@.len() == old(self).div_stack@.len(),
            }),
            (match event {
                MarkdownEvent::Start(tag) => (match tag {
                    MarkdownTag::CodeBlock(_) => final(self).code_block_stack@.len() == old(
                        self,
                    ).code_block_stack@.len() + 1,
                    _ => final(self).code_block_stack == old(self).code_block_stack,
                }),
                MarkdownEvent::End(kind) => (match kind {
                    MarkdownTagEnd::CodeBlock => final(self).code_block_stack@.len() == (
                    if old(self).code_block_stack@.len() > 0 {
                        old(self).code_block_stack@.len() - 1
                    } else {
                        0
                    }),
                    _ => final(self).code_block_stack == old(self).code_block_stack,
                }),
                _ => final(self).code_block_stack == old(self).code_block_stack,
            }),
            line_state(*final(self)) == spec_event_step(
                line_state(*old(self)),
                source@,
                range_start as int,
                range_end as int,
                *event,
                *style,
                language,
                highlights@,
            ),
            (match event {
                MarkdownEvent::Start(tag) => (match tag {
                    MarkdownTag::Link(dest) => {
                        if old(self).code_block_stack@.len() == 0 {
                            &&& final(self).rendered_links@.len() == old(
                                self,
                            ).rendered_links@.len() + 1
                            &&& (forall|j: int|
                                0 <= j < old(self).rendered_links@.len() ==> final(self).rendered_links@[j] == old(self).rendered_links@[j])
                            &&& final(self).rendered_links@.last().source_start == range_start
                            &&& final(self).rendered_links@.last().source_end == range_end
                            &&& final(self).rendered_links@.last().destination_url@ == dest@
                        } else {
                            final(self).rendered_links == old(self).rendered_links
                        }
                    },
                    _ => final(self).rendered_links == old(self).rendered_links,
                }),
                _ => final(self).rendered_links == old(self).rendered_links,
            }),
    {
        match event {
            MarkdownEvent::Start(tag) => match tag {
                MarkdownTag::Paragraph => {
                    self.push_div(BlockKind::Paragraph, range_start, range_end, markdown_end);
                    proof {
                        lemma_lines_model_after_flush(
                            old(self).rendered_lines@,
                            self.rendered_lines@,
                            line_state(*old(self)).pending,
                            old(self).current_source_index as int,
                        );
                        assert(line_state(*self) =~= spec_event_step(
                            line_state(*old(self)),
                            source@,
                            range_start as int,
                            range_end as int,
                            *event,
                            *style,
                            language,
                            highlights@,
                        ));
                    }
                },
                MarkdownTag::Heading(level) => {
                    self.push_text_style(style.heading);
                    self.push_div(BlockKind::Heading(*level), range_start, range_end, markdown_end);
                    proof {
                        lemma_lines_model_after_flush(
                            old(self).rendered_lines@,
                            self.rendered_lines@,
                            line_state(*old(self)).pending,
                            old(self).current_source_index as int,
                        );
                        assert(line_state(*self) =~= spec_event_step(
                            line_state(*old(self)),
                            source@,
                            range_start as int,
                            range_end as int,
                            *event,
                            *style,
                            language,
                            highlights@,
                        ));
                    }
                },
                MarkdownTag::BlockQuote => {
                    self.push_text_style(style.block_quote);
                    self.push_div(BlockKind::BlockQuote, range_start, range_end, markdown_end);
                    proof {
                        lemma_lines_model_after_flush(
                            old(self).rendered_lines@,
                            self.rendered_lines@,
                            line_state(*old(self)).pending,
                            old(self).current_source_index as int,
                        );
                        assert(line_state(*self) =~= spec_event_step(
                            line_state(*old(self)),
                            source@,
                            range_start as int,
                            range_end as int,
                            *event,
                            *style,
                            language,
                            highlights@,
                        ));
                    }
                },
                MarkdownTag::CodeBlock(kind) => {
                    let lang = match kind {
                        CodeBlockKind::Fenced(_) => language,
                        CodeBlockKind::Indented => None,
                    };
                    match style.code_block {
                        Some(cs) => self.push_text_style(cs),
                        None => (),
                    }
                    self.push_code_block(lang);
                    self.push_div(BlockKind::CodeBlock, range_start, range_end, markdown_end);
                    proof {
                        lemma_lines_model_after_flush(
                            old(self).rendered_lines@,
                            self.rendered_lines@,
                            line_state(*old(self)).pending,
                            old(self).current_source_index as int,
                        );
                        assert(line_state(*self) =~= spec_event_step(
                            line_state(*old(self)),
                            source@,
                            range_start as int,
                            range_end as int,
                            *event,
                            *style,
                            language,
                            highlights@,
                        ));
                    }
                },
                MarkdownTag::HtmlBlock => {
                    self.push_div(BlockKind::HtmlBlock, range_start, range_end, markdown_end);
                    proof {
                        lemma_lines_model_after_flush(
                            old(self).rendered_lines@,
                            self.rendered_lines@,
                            line_state(*old(self)).pending,
                            old(self).current_source_index as int,
                        );
                        assert(line_state(*self) =~= spec_event_step(
                            line_state(*old(self)),
                            source@,
                            range_start as int,
                            range_end as int,
                            *event,
                            *style,
                            language,
                            highlights@,
                        ));
                    }
                },
                MarkdownTag::List(bullet_index) => {
                    self.push_list(*bullet_index);
                    self.push_div(BlockKind::List, range_start, range_end, markdown_end);
                    proof {
                        lemma_lines_model_after_flush(
                            old(self).rendered_lines@,
                            self.rendered_lines@,
                            line_state(*old(self)).pending,
                            old(self).current_source_index as int,
                        );
                        assert(line_state(*self) =~= spec_event_step(
                            line_state(*old(self)),
                            source@,
                            range_start as int,
                            range_end as int,
                            *event,
                            *style,
                            language,
                            highlights@,
                        ));
                    }
                },
                MarkdownTag::Item => {
                    let bullet = self.next_bullet_index();
                    self.push_div(BlockKind::Item, range_start, range_end, markdown_end);
                    self.push_child(BlockChild::Bullet(bullet));
                    self.push_div(BlockKind::ItemContent, range_start, range_end, markdown_end);
                    proof {
                        assert(self.div_stack@[self.div_stack@.len() - 2].children@
                            =~= seq![BlockChild::Bullet(spec_next_bullet(old(self).list_stack@))]);
                        lemma_lines_model_after_flush(
                            old(self).rendered_lines@,
                            self.rendered_lines@,
                            line_state(*old(self)).pending,
                            old(self).current_source_index as int,
                        );
                        assert(line_state(*self) =~= spec_event_step(
                            line_state(*old(self)),
                            source@,
                            range_start as int,
                            range_end as int,
                            *event,
                            *style,
                            language,
                            highlights@,
                        ));
                    }
                },
                MarkdownTag::Emphasis => {
                    self.push_text_style(
                        TextStyleRefinement {
                            italic: Some(true),
                            bold: None,
                            strikethrough: None,
                            underline: None,
                            color: None,
                            font_size: None,
                        },
                    );
                },
                MarkdownTag::Strong => {
                    self.push_text_style(
                        TextStyleRefinement {
                            italic: None,
                            bold: Some(true),
                            strikethrough: None,
                            underline: None,
                            color: None,
                            font_size: None,
                        },
                    );
                },
                MarkdownTag::Strikethrough => {
                    self.push_text_style(
                        TextStyleRefinement {
                            italic: None,
                            bold: None,
                            strikethrough: Some(true),
                            underline: None,
                            color: None,
                            font_size: None,
                        },
                    );
                },
                MarkdownTag::Link(dest) => {
                    if self.code_block_stack.len() == 0 {
                        let url = clone_bytes(dest);
                        self.push_link(url, range_start, range_end);
                        self.push_text_style(style.link);
                    }
                },
                MarkdownTag::MetadataBlock => (),
                MarkdownTag::Other => (),
            },
            MarkdownEvent::End(kind) => match kind {
                MarkdownTagEnd::Paragraph => {
                    self.pop_div();
                    proof {
                        lemma_lines_model_after_flush(
                            old(self).rendered_lines@,
                            self.rendered_lines@,
                            line_state(*old(self)).pending,
                            old(self).current_source_index as int,
                        );
                        assert(line_state(*self) =~= spec_event_step(
                            line_state(*old(self)),
                            source@,
                            range_start as int,
                            range_end as int,
                            *event,
                            *style,
                            language,
                            highlights@,
                        ));
                    }
                },
                MarkdownTagEnd::Heading => {
                    self.pop_div();
                    self.pop_text_style();
                    proof {
                        lemma_lines_model_after_flush(
                            old(self).rendered_lines@,
                            self.rendered_lines@,
                            line_state(*old(self)).pending,
                            old(self).current_source_index as int,
                        );
                        assert(line_state(*self) =~= spec_event_step(
                            line_state(*old(self)),
                            source@,
                            range_start as int,
                            range_end as int,
                            *event,
                            *style,
                            language,
                            highlights@,
                        ));
                    }
                },
                MarkdownTagEnd::BlockQuote => {
                    self.pop_text_style();
                    self.pop_div();
                    proof {
                        lemma_lines_model_after_flush(
                            old(self).rendered_lines@,
                            self.rendered_lines@,
                            line_state(*old(self)).pending,
                            old(self).current_source_index as int,
                        );
                        assert(line_state(*self) =~= spec_event_step(
                            line_state(*old(self)),
                            source@,
                            range_start as int,
                            range_end as int,
                            *event,
                            *style,
                            language,
                            highlights@,
                        ));
                    }
                },
                MarkdownTagEnd::CodeBlock => {
                    self.trim_trailing_newline();
                    let ghost mid: MarkdownBuilder = *self;
                    self.pop_div();
                    self.pop_code_block();
                    match style.code_block {
                        Some(_) => self.pop_text_style(),
                        None => (),
                    }
                    proof {
                        assert(line_state(mid) =~= model_trim(line_state(*old(self))));
                        lemma_lines_model_after_flush(
                            mid.rendered_lines@,
                            self.rendered_lines@,
                            line_state(mid).pending,
                            mid.current_source_index as int,
                        );
                        assert(line_state(*self) =~= spec_event_step(
                            line_state(*old(self)),
                            source@,
                            range_start as int,
                            range_end as int,
                            *event,
                            *style,
                            language,
                            highlights@,
                        ));
                    }
                },
                MarkdownTagEnd::HtmlBlock => {
                    self.pop_div();
                    proof {
                        lemma_lines_model_after_flush(
                            old(self).rendered_lines@,
                            self.rendered_lines@,
                            line_state(*old(self)).pending,
                            old(self).current_source_index as int,
                        );
                        assert(line_state(*self) =~= spec_event_step(
                            line_state(*old(self)),
                            source@,
                            range_start as int,
                            range_end as int,
                            *event,
                            *style,
                            language,
                            highlights@,
                        ));
                    }
                },
                MarkdownTagEnd::List => {
                    self.pop_list();
                    self.pop_div();
                    proof {
                        lemma_lines_model_after_flush(
                            old(self).rendered_lines@,
                            self.rendered_lines@,
                            line_state(*old(self)).pending,
                            old(self).current_source_index as int,
                        );
                        assert(line_state(*self) =~= spec_event_step(
                            line_state(*old(self)),
                            source@,
                            range_start as int,
                            range_end as int,
                            *event,
                            *style,
                            language,
                            highlights@,
                        ));
                    }
                },
                MarkdownTagEnd::Item => {
                    self.pop_div();
                    self.pop_div();
                    proof {
                        lemma_lines_model_after_flush(
                            old(self).rendered_lines@,
                            self.rendered_lines@,
                            line_state(*old(self)).pending,
                            old(self).current_source_index as int,
                        );
                        assert(line_state(*self) =~= spec_event_step(
                            line_state(*old(self)),
                            source@,
                            range_start as int,
                            range_end as int,
                            *event,
                            *style,
                            language,
                            highlights@,
                        ));
                    }
                },
                MarkdownTagEnd::Emphasis => {
                    self.pop_text_style();
                },
                MarkdownTagEnd::Strong => {
                    self.pop_text_style();
                },
                MarkdownTagEnd::Strikethrough => {
                    self.pop_text_style();
                },
                MarkdownTagEnd::Link => {
                    if self.code_block_stack.len() == 0 {
                        self.pop_text_style();
                    }
                },
                MarkdownTagEnd::MetadataBlock => (),
                MarkdownTagEnd::Other => (),
            },
            MarkdownEvent::Text => {
                let span_text = vstd::slice::slice_subrange(source, range_start, range_end);
                self.push_text(span_text, range_start, highlights);
            },
            MarkdownEvent::Code => {
                self.push_text_style(style.inline_code);
                let span_text = vstd::slice::slice_subrange(source, range_start, range_end);
                self.push_text(span_text, range_start, highlights);
                self.pop_text_style();
            },
            MarkdownEvent::Html => {
                let span_text = vstd::slice::slice_subrange(source, range_start, range_end);
                self.push_text(span_text, range_start, highlights);
            },
            MarkdownEvent::InlineHtml => {
                let span_text = vstd::slice::slice_subrange(source, range_start, range_end);
                self.push_text(span_text, range_start, highlights);
            },
            MarkdownEvent::Rule => {
                self.push_div(BlockKind::Rule, range_start, range_end, markdown_end);
                self.pop_div();
                proof {
                    lemma_lines_model_after_flush(
                        old(self).rendered_lines@,
                        self.rendered_lines@,
                        line_state(*old(self)).pending,
                        old(self).current_source_index as int,
                    );
                    assert(line_state(*self) =~= spec_event_step(
                            line_state(*old(self)),
                            source@,
                            range_start as int,
                            range_end as int,
                            *event,
                            *style,
                            language,
                            highlights@,
                        ));
                }
            },
            MarkdownEvent::SoftBreak => {
                let mut space: Vec<u8> = Vec::new();
                space.push(32u8);
                let no_spans: Vec<HighlightSpan> = Vec::new();
                proof {
                    assert(space@ =~= seq![32u8]);
                }
                self.push_text(space.as_slice(), range_start, &no_spans);
            },
            MarkdownEvent::HardBreak => {
                self.push_div(BlockKind::HardBreak, range_start, range_end, markdown_end);
                self.pop_div();
                proof {
                    lemma_lines_model_after_flush(
                        old(self).rendered_lines@,
                        self.rendered_lines@,
                        line_state(*old(self)).pending,
                        old(self).current_source_index as int,
                    );
                    assert(line_state(*self) =~= spec_event_step(
                            line_state(*old(self)),
                            source@,
                            range_start as int,
                            range_end as int,
                            *event,
                            *style,
                            language,
                            highlights@,
                        ));
                }
            },
            MarkdownEvent::Other => (),
        }
    }

    /// Finishes the build: the last pending line is flushed into the root and
    /// the root block is returned together with the flat rendered-text
    /// index. The stream must have left exactly one block on the stack —
    /// a malformed stream that did not is a contract violation of the
    /// external parser.
    pub fn build(self) -> (res: RenderedMarkdown)
        requires
            self.wf(),
            self.div_stack@.len() == 1,
        ensures
            res.text.wf(),
            res.text.links == self.rendered_links,
            res.root.kind == self.div_stack@[0].kind,
            lines_model(res.text.lines@) == model_flush(line_state(self)).lines,
            self.pending_line.text@.len() == 0 ==> res.text.lines == self.rendered_lines
                && res.root.children@ == self.div_stack@[0].children@,
            self.pending_line.text@.len() > 0 ==> {
                &&& res.text.lines@.len() == self.rendered_lines@.len() + 1
                &&& (forall|j: int|
                    0 <= j < self.rendered_lines@.len() ==> res.text.lines@[j]
                        == self.rendered_lines@[j])
                &&& res.text.lines@.last().text@ == self.pending_line.text@
                &&& res.text.lines@.last().runs@ == self.pending_line.runs@
                &&& res.text.lines@.last().source_mappings@ == self.pending_line.source_mappings@
                &&& res.text.lines@.last().source_end == self.current_source_index
                &&& res.root.children@ == self.div_stack@[0].children@.push(
                    BlockChild::Line(self.rendered_lines@.len() as usize),
                )
            },
    {
        let ghost pre: MarkdownBuilder = self;
        let mut b = self;
        b.flush_text();
        proof {
            lemma_lines_model_after_flush(
                pre.rendered_lines@,
                b.rendered_lines@,
                line_state(pre).pending,
                pre.current_source_index as int,
            );
        }
        let root = match b.div_stack.pop() {
            Some(blk) => blk,
            None => Block {
                kind: BlockKind::Root,
                suppress_top_margin: false,
                suppress_bottom_margin: false,
                children: Vec::new(),
            },
        };
        RenderedMarkdown {
            root,
            text: RenderedText { lines: b.rendered_lines, links: b.rendered_links },
        }
    }
}

/// Builds the visual tree and the rendered-text index for a whole parsed
/// document in one pass, with no syntax highlighting (no language registry
/// is consulted). Verifying this function also establishes that consuming a
/// well-nested event stream pushes and pops the block stack in balance:
/// every `Start` pushes as many blocks as the matching `End` pops, so
/// exactly one root block remains at the end of the stream, as `build`
/// requires (`lemma_stream_balanced` states that law over the stream
/// alone). The rendered lines are exactly the fold of the per-event
/// line-building step over the stream (`spec_build_lines`, finished by one
/// last flush), and the recorded links are exactly the link tags the stream
/// opens outside code blocks, in stream order.
pub fn build_document(
    source: &Vec<u8>,
    events: &Vec<SpannedEvent>,
    style: &MarkdownStyle,
) -> (res: RenderedMarkdown)
    requires
        events_wf(events@, source@.len() as int),
    ensures
        res.text.wf(),
        lines_model(res.text.lines@) == model_flush(
            spec_build_lines(source@, events@, events@.len() as int, *style),
        ).lines,
        res.text.links@.map_values(|l: RenderedLink| link_model(l)) == spec_links_from(
            events@,
            0,
            0,
        ),
{
    let mut builder = MarkdownBuilder::new(style.base_text_style);
    let no_spans: Vec<HighlightSpan> = Vec::new();
    let n = events.len();
    let markdown_end = if n > 0 {
        events[n - 1].end
    } else {
        0
    };
    let mut i: usize = 0;
    proof {
        assert(no_spans@ =~= Seq::<HighlightSpan>::empty());
        assert(builder.rendered_links@.map_values(|l: RenderedLink| link_model(l)) =~= Seq::<
            (int, int, Seq<u8>),
        >::empty());
        assert(Seq::<(int, int, Seq<u8>)>::empty() + spec_links_from(events@, 0, 0)
            =~= spec_links_from(events@, 0, 0));
    }
    while i < n
        invariant
            i <= n,
            n == events@.len(),
            events_wf(events@, source@.len() as int),
            no_spans@.len() == 0,
            builder.wf(),
            open_tags_after(events@, i as int) is Some,
            builder.div_stack@.len() == 1 + sum_divs(open_tags_after(events@, i as int)->Some_0),
            builder.code_block_stack@.len() == spec_code_depth(events@, i as int),
            line_state(builder) == spec_build_lines(source@, events@, i as int, *style),
            spec_links_from(events@, 0, 0) == builder.rendered_links@.map_values(
                |l: RenderedLink| link_model(l),
            ) + spec_links_from(events@, i as int, spec_code_depth(events@, i as int)),
        decreases n - i,
    {
        let ghost stack_before: Seq<MarkdownTagEnd> = open_tags_after(events@, i as int)->Some_0;
        proof {
            lemma_open_tags_prefix(events@, i + 1, n as int);
            match events@[i as int].event {
                MarkdownEvent::Start(tag) => {
                    assert(open_tags_after(events@, i + 1)->Some_0 == stack_before.push(
                        kind_of(tag),
                    ));
                    assert(stack_before.push(kind_of(tag)).drop_last() =~= stack_before);
                    assert(sum_divs(stack_before.push(kind_of(tag))) == sum_divs(stack_before)
                        + divs_for_kind(kind_of(tag)));
                },
                MarkdownEvent::End(kind) => {
                    assert(stack_before.len() > 0 && stack_before.last() == kind);
                    assert(open_tags_after(events@, i + 1)->Some_0 == stack_before.drop_last());
                    assert(sum_divs(stack_before) == sum_divs(stack_before.drop_last())
                        + divs_for_kind(kind));
                    assert(sum_divs(stack_before.drop_last()) >= 0) by {
                        lemma_sum_divs_nonneg(stack_before.drop_last());
                    }
                },
                _ => {
                    assert(open_tags_after(events@, i + 1)->Some_0 == stack_before);
                },
            }
        }
        let ghost depth_before: int = spec_code_depth(events@, i as int);
        let ghost links_before: Seq<(int, int, Seq<u8>)> = builder.rendered_links@.map_values(
            |l: RenderedLink| link_model(l),
        );
        let ev = &events[i];
        builder.process_event(
            source.as_slice(),
            ev.start,
            ev.end,
            &ev.event,
            markdown_end,
            style,
            None,
            &no_spans,
        );
        proof {
            let e = events@[i as int];
            assert(no_spans@ =~= Seq::<HighlightSpan>::empty());
            assert(spec_build_lines(source@, events@, i + 1, *style) == spec_event_step(
                spec_build_lines(source@, events@, i as int, *style),
                source@,
                e.start as int,
                e.end as int,
                e.event,
                *style,
                None,
                Seq::empty(),
            ));
            let links_now: Seq<(int, int, Seq<u8>)> = builder.rendered_links@.map_values(
                |l: RenderedLink| link_model(l),
            );
            let rest = spec_links_from(
                events@,
                i + 1,
                spec_code_depth_step(e.event, depth_before),
            );
            assert(spec_code_depth(events@, i + 1) == spec_code_depth_step(
                e.event,
                depth_before,
            ));
            match e.event {
                MarkdownEvent::Start(tag) => {
                    match tag {
                        MarkdownTag::Link(dest) => {
                            if depth_before == 0 {
                                assert(links_now =~= links_before.push(
                                    (e.start as int, e.end as int, dest@),
                                ));
                                assert(spec_links_from(events@, i as int, depth_before) =~= seq![
                                    (e.start as int, e.end as int, dest@),
                                ] + rest);
                                assert(links_before + spec_links_from(
                                    events@,
                                    i as int,
                                    depth_before,
                                ) =~= links_now + rest);
                            } else {
                                assert(links_now =~= links_before);
                                assert(spec_links_from(events@, i as int, depth_before) =~= rest);
                            }
                        },
                        _ => {
                            assert(links_now =~= links_before);
                            assert(spec_links_from(events@, i as int, depth_before) =~= rest);
                        },
                    }
                },
                _ => {
                    assert(links_now =~= links_before);
                    assert(spec_links_from(events@, i as int, depth_before) =~= rest);
                },
            }
        }
        i = i + 1;
    }
    proof {
        lemma_stream_balanced(events@);
        assert(open_tags_after(events@, n as int)->Some_0 =~= Seq::<MarkdownTagEnd>::empty());
        assert(builder.div_stack@.len() == 1);
        assert(spec_links_from(events@, n as int, spec_code_depth(events@, n as int)) =~= Seq::<
            (int, int, Seq<u8>),
        >::empty());
        assert(spec_links_from(events@, 0, 0) =~= builder.rendered_links@.map_values(
            |l: RenderedLink| link_model(l),
        ));
    }
    builder.build()
}

/// How one event changes the number of open code blocks.
pub open spec fn spec_code_depth_step(event: MarkdownEvent, depth: int) -> int {
    match event {
        MarkdownEvent::Start(MarkdownTag::CodeBlock(_)) => depth + 1,
        MarkdownEvent::End(MarkdownTagEnd::CodeBlock) => if depth > 0 {
            depth - 1
        } else {
            0
        },
        _ => depth,
    }
}

/// The number of code blocks open after the first `k` events.
pub open spec fn spec_code_depth(events: Seq<SpannedEvent>, k: int) -> int
    decreases k,
{
    if k <= 0 {
        0
    } else {
        spec_code_depth_step(events[k - 1].event, spec_code_depth(events, k - 1))
    }
}

/// The hyperlinks a stream records from index `k` on, given how many code
/// blocks are open there: one `(source start, source end, destination)`
/// entry per `Start` of a link outside every code block, in stream order
/// (links inside code blocks are not interactive and are skipped).
pub open spec fn spec_links_from(events: Seq<SpannedEvent>, k: int, open_code_blocks: int) -> Seq<
    (int, int, Seq<u8>),
>
    decreases events.len() - k,
{
    if k < 0 || k >= events.len() {
        Seq::empty()
    } else {
        let here: Seq<(int, int, Seq<u8>)> = match events[k].event {
            MarkdownEvent::Start(MarkdownTag::Link(dest)) => if open_code_blocks == 0 {
                seq![(events[k].start as int, events[k].end as int, dest@)]
            } else {
                Seq::empty()
            },
            _ => Seq::empty(),
        };
        here + spec_links_from(
            events,
            k + 1,
            spec_code_depth_step(events[k].event, open_code_blocks),
        )
    }
}

/// The plain-value model of a recorded link.
pub open spec fn link_model(l: RenderedLink) -> (int, int, Seq<u8>) {
    (l.source_start as int, l.source_end as int, l.destination_url@)
}


/// The model of one finished rendered line: the views of its fields.
#[verifier::ext_equal]
pub struct LineModel {
    pub text: Seq<u8>,
    pub runs: Seq<TextRun>,
    pub source_mappings: Seq<SourceMapping>,
    pub source_end: int,
}

/// The model of the pending line accumulator.
#[verifier::ext_equal]
pub struct PendingModel {
    pub text: Seq<u8>,
    pub runs: Seq<TextRun>,
    pub source_mappings: Seq<SourceMapping>,
}

/// The line-building state of the builder: everything that determines the
/// rendered lines — the finished lines, the pending accumulator, the source
/// cursor, the style and code-block stacks and the base style. The block
/// tree and the link list evolve beside it and have laws of their own.
#[verifier::ext_equal]
pub struct BuildState {
    pub lines: Seq<LineModel>,
    pub pending: PendingModel,
    pub current: int,
    pub styles: Seq<TextStyleRefinement>,
    pub code_blocks: Seq<Option<u64>>,
    pub base: TextStyle,
}

/// The model of a finished line.
pub open spec fn line_model_of(l: RenderedLine) -> LineModel {
    LineModel {
        text: l.text@,
        runs: l.runs@,
        source_mappings: l.source_mappings@,
        source_end: l.source_end as int,
    }
}

/// The models of a sequence of finished lines.
pub open spec fn lines_model(lines: Seq<RenderedLine>) -> Seq<LineModel> {
    lines.map_values(|l: RenderedLine| line_model_of(l))
}

/// The line-building state a builder is in.
pub open spec fn line_state(b: MarkdownBuilder) -> BuildState {
    BuildState {
        lines: lines_model(b.rendered_lines@),
        pending: PendingModel {
            text: b.pending_line.text@,
            runs: b.pending_line.runs@,
            source_mappings: b.pending_line.source_mappings@,
        },
        current: b.current_source_index as int,
        styles: b.text_style_stack@,
        code_blocks: b.code_block_stack@,
        base: b.base_text_style,
    }
}

/// The empty accumulator.
pub open spec fn empty_pending() -> PendingModel {
    PendingModel { text: Seq::empty(), runs: Seq::empty(), source_mappings: Seq::empty() }
}

/// A fresh builder's line-building state.
pub open spec fn spec_initial_build_state(base: TextStyle) -> BuildState {
    BuildState {
        lines: Seq::empty(),
        pending: empty_pending(),
        current: 0,
        styles: Seq::empty(),
        code_blocks: Seq::empty(),
        base,
    }
}

/// Closing the pending line off: a nonempty accumulator becomes one finished
/// line whose source span ends at the cursor; the accumulator is reset
/// either way.
pub open spec fn model_flush(s: BuildState) -> BuildState {
    if s.pending.text.len() == 0 {
        BuildState { pending: empty_pending(), ..s }
    } else {
        BuildState {
            lines: s.lines.push(
                LineModel {
                    text: s.pending.text,
                    runs: s.pending.runs,
                    source_mappings: s.pending.source_mappings,
                    source_end: s.current,
                },
            ),
            pending: empty_pending(),
            ..s
        }
    }
}

/// Pushing a style refinement.
pub open spec fn model_push_style(s: BuildState, r: TextStyleRefinement) -> BuildState {
    BuildState { styles: s.styles.push(r), ..s }
}

/// Popping the innermost style refinement; a pop on an empty stack is
/// ignored.
pub open spec fn model_pop_style(s: BuildState) -> BuildState {
    if s.styles.len() > 0 {
        BuildState { styles: s.styles.drop_last(), ..s }
    } else {
        s
    }
}

/// Entering a code block with the resolved language.
pub open spec fn model_push_code(s: BuildState, language: Option<u64>) -> BuildState {
    BuildState { code_blocks: s.code_blocks.push(language), ..s }
}

/// Leaving the innermost code block; a pop on an empty stack is ignored.
pub open spec fn model_pop_code(s: BuildState) -> BuildState {
    if s.code_blocks.len() > 0 {
        BuildState { code_blocks: s.code_blocks.drop_last(), ..s }
    } else {
        s
    }
}

/// Removing one trailing newline from the accumulator: rendered text, last
/// run and cursor shrink by one byte when the text ends with a newline (and,
/// on degenerate accumulators, the trailing byte belongs to the last run's
/// and the last mapped span).
pub open spec fn model_trim(s: BuildState) -> BuildState {
    let p = s.pending;
    let trimmable = p.text.len() > 0 && p.text.last() == 10u8 && p.runs.len() > 0
        && p.runs.last().len >= 1 && p.source_mappings.len() > 0
        && p.source_mappings.last().rendered_index < p.text.len();
    if trimmable {
        BuildState {
            pending: PendingModel {
                text: p.text.drop_last(),
                runs: p.runs.drop_last().push(
                    TextRun { len: (p.runs.last().len - 1) as usize, style: p.runs.last().style },
                ),
                source_mappings: p.source_mappings,
            },
            current: s.current - 1,
            ..s
        }
    } else {
        s
    }
}

/// Appending one leaf span to the accumulator: a mapping entry at the span's
/// effective start, the text extended, the runs extended (split by the
/// highlight sub-ranges when the innermost code block has a language), the
/// cursor advanced — with the same degenerate-input rules as `push_text`.
pub open spec fn model_push_text(
    s: BuildState,
    text: Seq<u8>,
    source_index: int,
    highlights: Seq<HighlightSpan>,
) -> BuildState {
    let eff: int = if source_index > s.current {
        source_index
    } else {
        s.current
    };
    let style = spec_folded_style(s.base, s.styles);
    let lang_active = s.code_blocks.len() > 0 && s.code_blocks.last() is Some;
    let new_runs: Seq<TextRun> = if lang_active {
        spec_runs_for_spans(style, highlights, 0, 0, text.len() as int)
    } else {
        spec_plain_run(style, text.len() as int)
    };
    if text.len() == 0 || eff + text.len() > usize::MAX {
        s
    } else if s.pending.source_mappings.len() == 0 {
        BuildState {
            pending: PendingModel {
                text: s.pending.text + text,
                runs: s.pending.runs + new_runs,
                source_mappings: seq![
                    SourceMapping { rendered_index: 0, source_index: eff as usize },
                ],
            },
            current: eff + text.len(),
            ..s
        }
    } else if s.pending.text.len() > s.pending.source_mappings.last().rendered_index {
        BuildState {
            pending: PendingModel {
                text: s.pending.text + text,
                runs: s.pending.runs + new_runs,
                source_mappings: s.pending.source_mappings.push(
                    SourceMapping {
                        rendered_index: s.pending.text.len() as usize,
                        source_index: eff as usize,
                    },
                ),
            },
            current: eff + text.len(),
            ..s
        }
    } else {
        BuildState {
            pending: PendingModel {
                text: s.pending.text + text,
                runs: s.pending.runs + new_runs,
                source_mappings: s.pending.source_mappings,
            },
            current: s.current + text.len(),
            ..s
        }
    }
}

/// How one consumed event changes the line-building state: structural tags
/// flush the accumulator and adjust the style and code-block stacks, leaf
/// spans append to it, a soft break appends one literal space, a rule and a
/// hard break only flush (their blocks are childless), and unsupported
/// constructs (including metadata) change nothing — they emit no rendered
/// content.
pub open spec fn spec_event_step(
    s: BuildState,
    source: Seq<u8>,
    range_start: int,
    range_end: int,
    event: MarkdownEvent,
    style: MarkdownStyle,
    language: Option<u64>,
    highlights: Seq<HighlightSpan>,
) -> BuildState {
    match event {
        MarkdownEvent::Start(tag) => match tag {
            MarkdownTag::Paragraph => model_flush(s),
            MarkdownTag::Heading(_) => model_flush(model_push_style(s, style.heading)),
            MarkdownTag::BlockQuote => model_flush(model_push_style(s, style.block_quote)),
            MarkdownTag::CodeBlock(kind) => {
                let lang: Option<u64> = match kind {
                    CodeBlockKind::Fenced(_) => language,
                    CodeBlockKind::Indented => None,
                };
                let s1 = match style.code_block {
                    Some(cs) => model_push_style(s, cs),
                    None => s,
                };
                model_flush(model_push_code(s1, lang))
            },
            MarkdownTag::HtmlBlock => model_flush(s),
            MarkdownTag::List(_) => model_flush(s),
            MarkdownTag::Item => model_flush(s),
            MarkdownTag::Emphasis => model_push_style(
                s,
                TextStyleRefinement {
                    italic: Some(true),
                    bold: None,
                    strikethrough: None,
                    underline: None,
                    color: None,
                    font_size: None,
                },
            ),
            MarkdownTag::Strong => model_push_style(
                s,
                TextStyleRefinement {
                    italic: None,
                    bold: Some(true),
                    strikethrough: None,
                    underline: None,
                    color: None,
                    font_size: None,
                },
            ),
            MarkdownTag::Strikethrough => model_push_style(
                s,
                TextStyleRefinement {
                    italic: None,
                    bold: None,
                    strikethrough: Some(true),
                    underline: None,
                    color: None,
                    font_size: None,
                },
            ),
            MarkdownTag::Link(_) => if s.code_blocks.len() == 0 {
                model_push_style(s, style.link)
            } else {
                s
            },
            MarkdownTag::MetadataBlock => s,
            MarkdownTag::Other => s,
        },
        MarkdownEvent::End(kind) => match kind {
            MarkdownTagEnd::Paragraph => model_flush(s),
            MarkdownTagEnd::Heading => model_pop_style(model_flush(s)),
            MarkdownTagEnd::BlockQuote => model_flush(model_pop_style(s)),
            MarkdownTagEnd::CodeBlock => {
                let s1 = model_pop_code(model_flush(model_trim(s)));
                match style.code_block {
                    Some(_) => model_pop_style(s1),
                    None => s1,
                }
            },
            MarkdownTagEnd::HtmlBlock => model_flush(s),
            MarkdownTagEnd::List => model_flush(s),
            MarkdownTagEnd::Item => model_flush(s),
            MarkdownTagEnd::Emphasis => model_pop_style(s),
            MarkdownTagEnd::Strong => model_pop_style(s),
            MarkdownTagEnd::Strikethrough => model_pop_style(s),
            MarkdownTagEnd::Link => if s.code_blocks.len() == 0 {
                model_pop_style(s)
            } else {
                s
            },
            MarkdownTagEnd::MetadataBlock => s,
            MarkdownTagEnd::Other => s,
        },
        MarkdownEvent::Text => model_push_text(
            s,
            source.subrange(range_start, range_end),
            range_start,
            highlights,
        ),
        MarkdownEvent::Code => model_pop_style(
            model_push_text(
                model_push_style(s, style.inline_code),
                source.subrange(range_start, range_end),
                range_start,
                highlights,
            ),
        ),
        MarkdownEvent::Html => model_push_text(
            s,
            source.subrange(range_start, range_end),
            range_start,
            highlights,
        ),
        MarkdownEvent::InlineHtml => model_push_text(
            s,
            source.subrange(range_start, range_end),
            range_start,
            highlights,
        ),
        MarkdownEvent::Rule => model_flush(s),
        MarkdownEvent::SoftBreak => model_push_text(s, seq![32u8], range_start, Seq::empty()),
        MarkdownEvent::HardBreak => model_flush(s),
        MarkdownEvent::Other => s,
    }
}

/// The whole no-highlighting pipeline as a fold: the line-building state
/// after the first `k` events, as `build_document` consumes them (no
/// language registry, so no resolved languages and no highlight sub-ranges).
pub open spec fn spec_build_lines(
    source: Seq<u8>,
    events: Seq<SpannedEvent>,
    k: int,
    style: MarkdownStyle,
) -> BuildState
    decreases k,
{
    if k <= 0 {
        spec_initial_build_state(style.base_text_style)
    } else {
        spec_event_step(
            spec_build_lines(source, events, k - 1, style),
            source,
            events[k - 1].start as int,
            events[k - 1].end as int,
            events[k - 1].event,
            style,
            None,
            Seq::empty(),
        )
    }
}

/// Flushing a builder turns the pending accumulator into exactly the line
/// `model_flush` says.
proof fn lemma_lines_model_after_flush(
    pre_lines: Seq<RenderedLine>,
    post_lines: Seq<RenderedLine>,
    pending: PendingModel,
    current: int,
)
    requires
        pending.text.len() == 0 ==> post_lines == pre_lines,
        pending.text.len() > 0 ==> {
            &&& post_lines.len() == pre_lines.len() + 1
            &&& (forall|j: int| 0 <= j < pre_lines.len() ==> post_lines[j] == pre_lines[j])
            &&& post_lines.last().text@ == pending.text
            &&& post_lines.last().runs@ == pending.runs
            &&& post_lines.last().source_mappings@ == pending.source_mappings
            &&& post_lines.last().source_end == current
        },
    ensures
        pending.text.len() == 0 ==> lines_model(post_lines) == lines_model(pre_lines),
        pending.text.len() > 0 ==> lines_model(post_lines) == lines_model(pre_lines).push(
            LineModel {
                text: pending.text,
                runs: pending.runs,
                source_mappings: pending.source_mappings,
                source_end: current,
            },
        ),
{
    if pending.text.len() > 0 {
        assert(lines_model(post_lines) =~= lines_model(pre_lines).push(
            LineModel {
                text: pending.text,
                runs: pending.runs,
                source_mappings: pending.source_mappings,
                source_end: current,
            },
        )) by {
            assert forall|j: int| 0 <= j < post_lines.len() implies lines_model(post_lines)[j]
                == lines_model(pre_lines).push(
                LineModel {
                    text: pending.text,
                    runs: pending.runs,
                    source_mappings: pending.source_mappings,
                    source_end: current,
                },
            )[j] by {
                if j < pre_lines.len() {
                    assert(post_lines[j] == pre_lines[j]);
                } else {
                    assert(line_model_of(post_lines[j]) =~= (LineModel {
                        text: pending.text,
                        runs: pending.runs,
                        source_mappings: pending.source_mappings,
                        source_end: current,
                    }));
                }
            }
        }
    }
}

/// A well-nested stream has a defined open-tag stack at every prefix and
/// closes every tag it opens, so the block pushes and pops it drives (by
/// `divs_for_kind`, as `process_event` states per event) are balanced: the
/// open tags' block count returns to zero, leaving exactly the root on the
/// block stack — `build_document` discharges `build`'s one-root requirement
/// with this.
pub proof fn lemma_stream_balanced(events: Seq<SpannedEvent>)
    requires
        open_tags_after(events, events.len() as int) == Some(Seq::<MarkdownTagEnd>::empty()),
    ensures
        forall|k: int| 0 <= k <= events.len() ==> open_tags_after(events, k) is Some,
        sum_divs(open_tags_after(events, events.len() as int)->Some_0) == 0,
{
    assert forall|k: int| 0 <= k <= events.len() implies open_tags_after(events, k) is Some by {
        lemma_open_tags_prefix(events, k, events.len() as int);
    }
}

/// The language name a fenced code block's highlighter is loaded under,
/// given the registry's answer for the fence's info string: a name the
/// registry resolved is used as it stands; a failed lookup falls back to the
/// embedding's configured fallback language, provided the name was nonempty
/// and a fallback exists; in every other case (including a lookup that has
/// not resolved yet, `None`) no language is used. The registry itself is an
/// external service; this is the decision made on its answer.
pub fn resolve_language_name(
    name: &Vec<u8>,
    lookup: Option<bool>,
    fallback: Option<&Vec<u8>>,
) -> (out: Vec<u8>)
    ensures
        lookup == Some(true) ==> out@ == name@,
        lookup is None ==> out@.len() == 0,
        lookup == Some(false) ==> (match fallback {
            Some(f) => {
                if name@.len() > 0 {
                    out@ == f@
                } else {
                    out@.len() == 0
                }
            },
            None => out@.len() == 0,
        }),
{
    match lookup {
        Some(true) => clone_bytes(name),
        Some(false) => {
            if name.len() > 0 {
                match fallback {
                    Some(f) => clone_bytes(f),
                    None => Vec::new(),
                }
            } else {
                Vec::new()
            }
        },
        None => Vec::new(),
    }
}

/// Every tag pushes a non-negative number of blocks, so so does a whole
/// stack of open tags.
pub proof fn lemma_sum_divs_nonneg(stack: Seq<MarkdownTagEnd>)
    ensures
        sum_divs(stack) >= 0,
    decreases stack.len(),
{
    if stack.len() > 0 {
        lemma_sum_divs_nonneg(stack.drop_last());
    }
}

} // verus!

