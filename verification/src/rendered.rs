//! The whole-document index over the finished rendered lines: line lookup by
//! source offset or by vertical position, word and line range expansion,
//! rendered-text extraction for copying, and link hit-testing.

use vstd::prelude::*;
use vstd::slice::slice_subrange;

use crate::line::{append_bytes, LineExtent, RenderedLine};

verus! {

/// A hyperlink span: the source byte range of the link's markdown and the
/// destination it points at.
#[derive(Clone, Debug, PartialEq, Eq)]
pub struct RenderedLink {
    pub source_start: usize,
    pub source_end: usize,
    pub destination_url: Vec<u8>,
}

/// The finished, read-only index over the rendered document: the laid-out
/// lines in document order and the hyperlink spans in source order.
#[derive(Clone, Debug)]
pub struct RenderedText {
    pub lines: Vec<RenderedLine>,
    pub links: Vec<RenderedLink>,
}

/// Index of the first line whose mapped source span has not ended before `o`
/// (`lines.len()` when every line ends before `o`). Lines are separated by
/// structural whitespace not reflected in any mapping, so a query between two
/// lines belongs to the later one.
pub open spec fn line_index_for_source(lines: Seq<RenderedLine>, k: int, o: int) -> int
    decreases lines.len() - k,
{
    if k < 0 || k >= lines.len() {
        lines.len() as int
    } else if o <= lines[k].source_end {
        k
    } else {
        line_index_for_source(lines, k + 1, o)
    }
}

/// The first rendered offset at or before `r` that starts a word: offset 0 or
/// the offset just past the nearest space byte before `r`.
pub open spec fn word_start(text: Seq<u8>, r: int) -> int
    decreases r,
{
    if r <= 0 {
        0
    } else if text[r - 1] == 32u8 {
        r
    } else {
        word_start(text, r - 1)
    }
}

/// The first rendered offset at or after `r` that ends a word: the offset of
/// the nearest space byte at or after `r`, or the end of the rendered text.
pub open spec fn word_end(text: Seq<u8>, r: int) -> int
    decreases text.len() - r,
{
    if r < 0 || r >= text.len() {
        text.len() as int
    } else if text[r] == 32u8 {
        r
    } else {
        word_end(text, r + 1)
    }
}

/// The rendered slice a line contributes when the source range
/// `start..end` is copied: from `start` (or the line's beginning when the
/// range starts above it) to `end` clamped to the line's mapped span.
pub open spec fn piece_for_range(line: RenderedLine, start: int, end: int) -> Seq<u8> {
    let s: int = if start < line.source_start() {
        0
    } else {
        line.spec_rendered_for_source(start)
    };
    let q: int = if end > line.source_end {
        line.source_end as int
    } else {
        end
    };
    line.text@.subrange(s, line.spec_rendered_for_source(q))
}

/// The rendered slices of all lines from `k` on whose mapped source span
/// intersects `start..end`, in document order.
pub open spec fn pieces_for_range(lines: Seq<RenderedLine>, k: int, start: int, end: int) -> Seq<
    Seq<u8>,
>
    decreases lines.len() - k,
{
    if k < 0 || k >= lines.len() {
        Seq::empty()
    } else if start > lines[k].source_end {
        pieces_for_range(lines, k + 1, start, end)
    } else if end < lines[k].source_start() {
        Seq::empty()
    } else {
        seq![piece_for_range(lines[k], start, end)] + pieces_for_range(lines, k + 1, start, end)
    }
}

/// Joins rendered slices with a single newline byte between consecutive
/// slices.
pub open spec fn join_lines(pieces: Seq<Seq<u8>>) -> Seq<u8>
    decreases pieces.len(),
{
    if pieces.len() == 0 {
        Seq::empty()
    } else if pieces.len() == 1 {
        pieces[0]
    } else {
        pieces[0] + seq![10u8] + join_lines(pieces.drop_first())
    }
}

/// Appending one more piece appends one newline and the piece.
proof fn lemma_join_lines_push(pieces: Seq<Seq<u8>>, p: Seq<u8>)
    requires
        pieces.len() >= 1,
    ensures
        join_lines(pieces.push(p)) == join_lines(pieces) + seq![10u8] + p,
    decreases pieces.len(),
{
    if pieces.len() == 1 {
        assert(pieces.push(p).drop_first() =~= seq![p]);
        assert(join_lines(seq![p]) == seq![p][0]);
        assert(join_lines(pieces.push(p)) == pieces.push(p)[0] + seq![10u8] + join_lines(
            pieces.push(p).drop_first(),
        ));
    } else {
        lemma_join_lines_push(pieces.drop_first(), p);
        assert(pieces.push(p).drop_first() =~= pieces.drop_first().push(p));
        assert(join_lines(pieces) + seq![10u8] + p =~= pieces[0] + seq![10u8] + (join_lines(
            pieces.drop_first(),
        ) + seq![10u8] + p));
    }
}

/// Index of the first link span that contains `o` (`links.len()` when none
/// does).
pub open spec fn link_index_for_source(links: Seq<RenderedLink>, k: int, o: int) -> int
    decreases links.len() - k,
{
    if k < 0 || k >= links.len() {
        links.len() as int
    } else if links[k].source_start <= o < links[k].source_end {
        k
    } else {
        link_index_for_source(links, k + 1, o)
    }
}

/// The result of resolving a vertical position to a rendered line: the index
/// of the line whose own hit-test should answer, or the nearest source
/// offset when the position falls in the gap between two lines or past the
/// last line.
pub open spec fn spec_line_for_y(lines: Seq<RenderedLine>, k: int, y: int) -> Result<int, int>
    decreases lines.len() - k,
{
    if k < 0 || k >= lines.len() {
        Err(
            if lines.len() > 0 {
                lines[lines.len() - 1].source_end as int
            } else {
                0
            },
        )
    } else if y > lines[k].extent.bottom {
        if k + 1 < lines.len() && y < lines[k + 1].extent.top {
            Err(lines[k].source_end as int)
        } else {
            spec_line_for_y(lines, k + 1, y)
        }
    } else {
        Ok(k)
    }
}

/// The line owning a source offset and the rendered offset within it: the
/// first line whose span has not ended before the query, provided the query
/// does not precede that line's first mapped byte.
pub open spec fn spec_line_for_source(lines: Seq<RenderedLine>, k: int, o: int) -> Option<
    (int, int),
>
    decreases lines.len() - k,
{
    if k < 0 || k >= lines.len() {
        None
    } else if o < lines[k].source_start() {
        None
    } else if o > lines[k].source_end {
        spec_line_for_source(lines, k + 1, o)
    } else {
        Some((k, lines[k].spec_rendered_for_source(o)))
    }
}

/// The source range of the word around `o`: the query clamped into the
/// owning line (the first whose span has not ended before `o`), expanded in
/// that line's rendered text to the surrounding spaces, and mapped back to
/// source offsets; `(o, o)` when no line owns the offset.
pub open spec fn spec_surrounding_word_range(lines: Seq<RenderedLine>, o: int) -> (int, int) {
    let k: int = line_index_for_source(lines, 0, o);
    if k < lines.len() {
        let line = lines[k];
        let q: int = if o < line.source_start() {
            line.source_start()
        } else {
            o
        };
        let r: int = line.spec_rendered_for_source(q);
        (
            line.spec_source_for_rendered(word_start(line.text@, r)),
            line.spec_source_for_rendered(word_end(line.text@, r)),
        )
    } else {
        (o, o)
    }
}

/// The full source span of the line owning `o`; `(o, o)` when no line owns
/// the offset.
pub open spec fn spec_surrounding_line_range(lines: Seq<RenderedLine>, o: int) -> (int, int) {
    let k: int = line_index_for_source(lines, 0, o);
    if k < lines.len() {
        (lines[k].source_start(), lines[k].source_end as int)
    } else {
        (o, o)
    }
}

/// Scans backward from `r` for the start of the word around it.
fn scan_word_start(text: &Vec<u8>, r: usize) -> (s: usize)
    requires
        r <= text@.len(),
    ensures
        s == word_start(text@, r as int),
        s <= r,
{
    let mut k: usize = r;
    while k > 0 && *vstd::slice::slice_index_get(text.as_slice(), k - 1) != 32u8
        invariant
            k <= r <= text@.len(),
            word_start(text@, r as int) == word_start(text@, k as int),
        decreases k,
    {
        k = k - 1;
    }
    k
}

/// Scans forward from `r` for the end of the word around it.
fn scan_word_end(text: &Vec<u8>, r: usize) -> (e: usize)
    requires
        r <= text@.len(),
    ensures
        e == word_end(text@, r as int),
        r <= e <= text@.len(),
{
    let mut k: usize = r;
    while k < text.len() && *vstd::slice::slice_index_get(text.as_slice(), k) != 32u8
        invariant
            r <= k <= text@.len(),
            word_end(text@, r as int) == word_end(text@, k as int),
        decreases text@.len() - k,
    {
        k = k + 1;
    }
    k
}

impl RenderedText {
    /// Well-formedness: every line is well formed and consecutive lines cover
    /// increasing source spans (the source between two lines is structural
    /// whitespace belonging to neither).
    pub open spec fn wf(self) -> bool {
        &&& forall|i: int| 0 <= i < self.lines@.len() ==> (#[trigger] self.lines@[i]).wf()
        &&& forall|i: int|
            0 <= i && i + 1 < self.lines@.len() ==> self.lines@[i].source_end <= (
            #[trigger] self.lines@[i + 1]).source_start()
    }

    /// Records the vertical extent the embedding laid line `i` out at; every
    /// other part of the line is left unchanged.
    pub fn set_line_extent(&mut self, i: usize, extent: LineExtent)
        requires
            i < old(self).lines@.len(),
        ensures
            final(self).links == old(self).links,
            final(self).lines@.len() == old(self).lines@.len(),
            forall|j: int|
                0 <= j < old(self).lines@.len() && j != i ==> final(self).lines@[j] == old(
                    self,
                ).lines@[j],
            final(self).lines@[i as int].text == old(self).lines@[i as int].text,
            final(self).lines@[i as int].runs == old(self).lines@[i as int].runs,
            final(self).lines@[i as int].source_mappings == old(
                self,
            ).lines@[i as int].source_mappings,
            final(self).lines@[i as int].source_end == old(self).lines@[i as int].source_end,
            final(self).lines@[i as int].extent == extent,
            old(self).wf() ==> final(self).wf(),
    {
        let mut line = self.lines.remove(i);
        line.extent = extent;
        self.lines.insert(i, line);
        proof {
            assert forall|j: int| 0 <= j < old(self).lines@.len() && j != i implies self.lines@[j]
                == old(self).lines@[j] by {}
            if old(self).wf() {
                assert forall|j: int| 0 <= j < self.lines@.len() implies (
                #[trigger] self.lines@[j]).wf() by {
                    assert(old(self).lines@[j].wf());
                }
            }
        }
    }

    /// Resolves a vertical position to the line whose own (external)
    /// hit-test should answer the query: `Ok` with a line index when the
    /// position is at or above that line's bottom, `Err` with the nearest
    /// source offset when it falls in the gap between two lines or past the
    /// last line.
    pub fn line_for_position_y(&self, y: i64) -> (res: Result<usize, usize>)
        ensures
            (match (res, spec_line_for_y(self.lines@, 0, y as int)) {
                (Ok(i), Ok(j)) => i == j && i < self.lines@.len(),
                (Err(o), Err(p)) => o == p,
                _ => false,
            }),
    {
        let n = self.lines.len();
        let mut i: usize = 0;
        while i < n
            invariant
                i <= n,
                n == self.lines@.len(),
                spec_line_for_y(self.lines@, 0, y as int) == spec_line_for_y(
                    self.lines@,
                    i as int,
                    y as int,
                ),
            decreases n - i,
        {
            if y > self.lines[i].extent.bottom {
                if i + 1 < n && y < self.lines[i + 1].extent.top {
                    return Err(self.lines[i].source_end);
                }
            } else {
                return Ok(i);
            }
            i = i + 1;
        }
        if n > 0 {
            Err(self.lines[n - 1].source_end)
        } else {
            Err(0)
        }
    }

    /// Finds the line owning a source offset and the rendered offset within
    /// it, for caret placement and autoscroll; `None` when the offset
    /// precedes the first line whose span could contain it.
    pub fn line_for_source_index(&self, source_index: usize) -> (res: Option<(usize, usize)>)
        requires
            self.wf(),
        ensures
            (match (res, spec_line_for_source(self.lines@, 0, source_index as int)) {
                (Some((i, r)), Some((j, s))) => i == j && r == s && i < self.lines@.len()
                    && r <= self.lines@[i as int].text@.len(),
                (None, None) => true,
                _ => false,
            }),
    {
        let n = self.lines.len();
        let mut i: usize = 0;
        while i < n
            invariant
                i <= n,
                n == self.lines@.len(),
                self.wf(),
                spec_line_for_source(self.lines@, 0, source_index as int) == spec_line_for_source(
                    self.lines@,
                    i as int,
                    source_index as int,
                ),
            decreases n - i,
        {
            let line = &self.lines[i];
            if source_index < line.source_mappings[0].source_index {
                return None;
            } else if source_index <= line.source_end {
                proof {
                    line.lemma_rendered_for_source_bounds(source_index as int);
                }
                let r = line.rendered_index_for_source_index(source_index);
                return Some((i, r));
            }
            i = i + 1;
        }
        None
    }

    /// Expands a source offset to the source range of the word around it in
    /// the owning line's rendered text: back to the previous space (or the
    /// line start) and forward to the next space (or the line end), both
    /// mapped back to source offsets. Degenerates to `offset..offset` when
    /// no line owns the offset.
    pub fn surrounding_word_range(&self, source_index: usize) -> (res: (usize, usize))
        requires
            self.wf(),
        ensures
            res.0 == spec_surrounding_word_range(self.lines@, source_index as int).0,
            res.1 == spec_surrounding_word_range(self.lines@, source_index as int).1,
            res.0 <= res.1,
    {
        let n = self.lines.len();
        let mut i: usize = 0;
        while i < n
            invariant
                i <= n,
                n == self.lines@.len(),
                self.wf(),
                line_index_for_source(self.lines@, 0, source_index as int)
                    == line_index_for_source(self.lines@, i as int, source_index as int),
            decreases n - i,
        {
            let line = &self.lines[i];
            if source_index <= line.source_end {
                let line_start = line.source_mappings[0].source_index;
                let q = if source_index < line_start {
                    line_start
                } else {
                    source_index
                };
                proof {
                    line.lemma_rendered_for_source_bounds(q as int);
                }
                let r = line.rendered_index_for_source_index(q);
                let ws = scan_word_start(&line.text, r);
                let we = scan_word_end(&line.text, r);
                proof {
                    line.lemma_source_for_rendered_monotone(ws as int, we as int);
                }
                let a = line.source_index_for_rendered_index(ws);
                let b = line.source_index_for_rendered_index(we);
                return (a, b);
            }
            i = i + 1;
        }
        (source_index, source_index)
    }

    /// The full source span of the rendered line owning a source offset;
    /// degenerates to `offset..offset` when no line owns it.
    pub fn surrounding_line_range(&self, source_index: usize) -> (res: (usize, usize))
        requires
            self.wf(),
        ensures
            res.0 == spec_surrounding_line_range(self.lines@, source_index as int).0,
            res.1 == spec_surrounding_line_range(self.lines@, source_index as int).1,
            res.0 <= res.1,
    {
        let n = self.lines.len();
        let mut i: usize = 0;
        while i < n
            invariant
                i <= n,
                n == self.lines@.len(),
                self.wf(),
                line_index_for_source(self.lines@, 0, source_index as int)
                    == line_index_for_source(self.lines@, i as int, source_index as int),
            decreases n - i,
        {
            let line = &self.lines[i];
            if source_index <= line.source_end {
                proof {
                    if line.source_mappings@.len() > 1 {
                        assert(line.source_mappings@[0].source_index
                            <= line.source_mappings@.last().source_index);
                    }
                }
                return (line.source_mappings[0].source_index, line.source_end);
            }
            i = i + 1;
        }
        (source_index, source_index)
    }

    /// Extracts the rendered text for a source range: every line whose mapped
    /// span intersects the range contributes its rendered slice (clamped to
    /// the line), and contributing lines are joined with a single newline
    /// byte. This is the copy representation: it reflects soft-break
    /// collapsing and code-block trimming, not the literal source bytes.
    pub fn text_for_range(&self, start: usize, end: usize) -> (out: Vec<u8>)
        requires
            self.wf(),
            start <= end,
        ensures
            out@ == join_lines(pieces_for_range(self.lines@, 0, start as int, end as int)),
    {
        let ghost pieces0: Seq<Seq<u8>> = pieces_for_range(
            self.lines@,
            0,
            start as int,
            end as int,
        );
        let mut out: Vec<u8> = Vec::new();
        let mut first: bool = true;
        let ghost mut done: Seq<Seq<u8>> = Seq::empty();
        let n = self.lines.len();
        let mut i: usize = 0;
        while i < n
            invariant
                i <= n,
                n == self.lines@.len(),
                self.wf(),
                start <= end,
                pieces0 == pieces_for_range(self.lines@, 0, start as int, end as int),
                pieces0 =~= done + pieces_for_range(self.lines@, i as int, start as int, end as int),
                out@ == join_lines(done),
                first <==> done.len() == 0,
            decreases n - i,
        {
            let line = &self.lines[i];
            let line_start = line.source_mappings[0].source_index;
            if start > line.source_end {
                i = i + 1;
                continue ;
            }
            if end < line_start {
                proof {
                    assert(pieces_for_range(self.lines@, i as int, start as int, end as int)
                        =~= Seq::<Seq<u8>>::empty());
                    assert(pieces0 =~= done);
                }
                return out;
            }
            let s = if start < line_start {
                0
            } else {
                line.rendered_index_for_source_index(start)
            };
            let q = if end > line.source_end {
                line.source_end
            } else {
                end
            };
            proof {
                if line.source_mappings@.len() > 1 {
                    assert(line.source_mappings@[0].source_index
                        <= line.source_mappings@.last().source_index);
                }
                line.lemma_rendered_for_source_bounds(q as int);
                if start >= line_start {
                    line.lemma_rendered_for_source_monotone(start as int, q as int);
                }
            }
            let e = line.rendered_index_for_source_index(q);
            let slice = slice_subrange(line.text.as_slice(), s, e);
            let ghost p: Seq<u8> = piece_for_range(*line, start as int, end as int);
            if first {
                append_bytes(&mut out, slice);
                first = false;
                proof {
                    assert(join_lines(done.push(p)) =~= p);
                }
            } else {
                proof {
                    lemma_join_lines_push(done, p);
                }
                out.push(10u8);
                append_bytes(&mut out, slice);
            }
            proof {
                done = done.push(p);
            }
            i = i + 1;
        }
        proof {
            assert(pieces_for_range(self.lines@, n as int, start as int, end as int) =~= Seq::<
                Seq<u8>,
            >::empty());
            assert(pieces0 =~= done);
        }
        out
    }

    /// The first link span containing a source offset, if any. Link counts
    /// per document are small, so a linear scan suffices.
    pub fn link_for_source_index(&self, source_index: usize) -> (res: Option<&RenderedLink>)
        ensures
            (match res {
                Some(l) => {
                    let k: int = link_index_for_source(self.links@, 0, source_index as int);
                    k < self.links@.len() && *l == self.links@[k]
                },
                None => link_index_for_source(self.links@, 0, source_index as int)
                    == self.links@.len(),
            }),
    {
        let n = self.links.len();
        let mut i: usize = 0;
        while i < n
            invariant
                i <= n,
                n == self.links@.len(),
                link_index_for_source(self.links@, 0, source_index as int)
                    == link_index_for_source(self.links@, i as int, source_index as int),
            decreases n - i,
        {
            let link = &self.links[i];
            if link.source_start <= source_index && source_index < link.source_end {
                return Some(link);
            }
            i = i + 1;
        }
        None
    }
}

} // verus!
