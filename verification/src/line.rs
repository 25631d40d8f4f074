//! Per-line bidirectional mapping between source byte offsets and rendered
//! byte offsets.
//!
//! A rendered line records one `SourceMapping` entry at the start of every
//! pushed text span, i.e. at every point where the two offset spaces diverge.
//! Between consecutive entries the two spaces advance byte for byte, so a
//! lookup in either direction is a binary search for the entry with the
//! largest key at or below the query, plus the residual byte offset.

use vstd::prelude::*;

use crate::style::TextRun;

verus! {

/// The total byte length a sequence of styled runs covers.
pub open spec fn sum_run_lens(runs: Seq<TextRun>) -> int
    decreases runs.len(),
{
    if runs.len() == 0 {
        0
    } else {
        sum_run_lens(runs.drop_last()) + runs.last().len
    }
}

/// One correspondence point between the rendered and the source offset
/// spaces of a line.
#[derive(Copy, Clone, Debug, Default, PartialEq, Eq, Structural)]
pub struct SourceMapping {
    pub rendered_index: usize,
    pub source_index: usize,
}

/// The vertical extent a rendered line was laid out at, in integral layout
/// units chosen by the embedding. The text-shaping engine is external; its
/// geometry is handed back into this crate as plain values.
#[derive(Copy, Clone, Debug, Default, PartialEq, Eq, Structural)]
pub struct LineExtent {
    pub top: i64,
    pub bottom: i64,
    pub line_height: i64,
}

/// A mapping table is ordered: entries are strictly increasing in both
/// fields, and between two entries the rendered space never advances by more
/// than the source space (a pushed span's source bytes are never shorter
/// than its rendered bytes; collapsed spans get an entry of their own).
pub open spec fn mappings_ordered(maps: Seq<SourceMapping>) -> bool {
    forall|i: int, j: int|
        #![trigger maps[i], maps[j]]
        0 <= i < j < maps.len() ==> {
            &&& maps[i].source_index < maps[j].source_index
            &&& maps[i].rendered_index < maps[j].rendered_index
            &&& maps[j].rendered_index - maps[i].rendered_index <= maps[j].source_index
                - maps[i].source_index
        }
}

/// Index of the entry with the largest `source_index` at or below `o`
/// (entry 0 when every entry is above `o`).
pub open spec fn mapping_index_for_source(maps: Seq<SourceMapping>, o: int) -> int
    decreases maps.len(),
{
    if maps.len() <= 1 {
        0
    } else if o < maps[maps.len() - 1].source_index {
        mapping_index_for_source(maps.drop_last(), o)
    } else {
        maps.len() - 1
    }
}

/// Index of the entry with the largest `rendered_index` at or below `r`
/// (entry 0 when every entry is above `r`).
pub open spec fn mapping_index_for_rendered(maps: Seq<SourceMapping>, r: int) -> int
    decreases maps.len(),
{
    if maps.len() <= 1 {
        0
    } else if r < maps[maps.len() - 1].rendered_index {
        mapping_index_for_rendered(maps.drop_last(), r)
    } else {
        maps.len() - 1
    }
}

pub proof fn lemma_mapping_index_for_source(maps: Seq<SourceMapping>, o: int)
    requires
        maps.len() >= 1,
        mappings_ordered(maps),
        maps[0].source_index <= o,
    ensures
        ({
            let i: int = mapping_index_for_source(maps, o);
            &&& 0 <= i < maps.len()
            &&& maps[i].source_index <= o
            &&& i + 1 < maps.len() ==> o < maps[i + 1].source_index
        }),
    decreases maps.len(),
{
    if maps.len() > 1 && o < maps[maps.len() - 1].source_index {
        let sub = maps.drop_last();
        assert forall|i: int, j: int| 0 <= i < j < sub.len() implies {
            &&& sub[i].source_index < sub[j].source_index
            &&& sub[i].rendered_index < sub[j].rendered_index
            &&& sub[j].rendered_index - sub[i].rendered_index <= sub[j].source_index
                - sub[i].source_index
        } by {
            assert(sub[i] == maps[i]);
            assert(sub[j] == maps[j]);
        }
        lemma_mapping_index_for_source(sub, o);
        let i: int = mapping_index_for_source(sub, o);
        assert(sub[i] == maps[i]);
        if i + 1 < maps.len() {
            if i + 1 < sub.len() {
                assert(sub[i + 1] == maps[i + 1]);
            }
        }
    }
}

pub proof fn lemma_mapping_index_for_source_unique(maps: Seq<SourceMapping>, o: int, i: int)
    requires
        maps.len() >= 1,
        mappings_ordered(maps),
        maps[0].source_index <= o,
        0 <= i < maps.len(),
        maps[i].source_index <= o,
        i + 1 < maps.len() ==> o < maps[i + 1].source_index,
    ensures
        i == mapping_index_for_source(maps, o),
{
    lemma_mapping_index_for_source(maps, o);
    let j: int = mapping_index_for_source(maps, o);
    if i < j {
        assert(maps[i + 1].source_index <= maps[j].source_index || i + 1 == j);
    }
    if j < i {
        assert(maps[j + 1].source_index <= maps[i].source_index || j + 1 == i);
    }
}

pub proof fn lemma_mapping_index_for_rendered(maps: Seq<SourceMapping>, r: int)
    requires
        maps.len() >= 1,
        mappings_ordered(maps),
        maps[0].rendered_index <= r,
    ensures
        ({
            let i: int = mapping_index_for_rendered(maps, r);
            &&& 0 <= i < maps.len()
            &&& maps[i].rendered_index <= r
            &&& i + 1 < maps.len() ==> r < maps[i + 1].rendered_index
        }),
    decreases maps.len(),
{
    if maps.len() > 1 && r < maps[maps.len() - 1].rendered_index {
        let sub = maps.drop_last();
        assert forall|i: int, j: int| 0 <= i < j < sub.len() implies {
            &&& sub[i].source_index < sub[j].source_index
            &&& sub[i].rendered_index < sub[j].rendered_index
            &&& sub[j].rendered_index - sub[i].rendered_index <= sub[j].source_index
                - sub[i].source_index
        } by {
            assert(sub[i] == maps[i]);
            assert(sub[j] == maps[j]);
        }
        lemma_mapping_index_for_rendered(sub, r);
        let i: int = mapping_index_for_rendered(sub, r);
        assert(sub[i] == maps[i]);
        if i + 1 < maps.len() {
            if i + 1 < sub.len() {
                assert(sub[i + 1] == maps[i + 1]);
            }
        }
    }
}

pub proof fn lemma_mapping_index_for_rendered_unique(maps: Seq<SourceMapping>, r: int, i: int)
    requires
        maps.len() >= 1,
        mappings_ordered(maps),
        maps[0].rendered_index <= r,
        0 <= i < maps.len(),
        maps[i].rendered_index <= r,
        i + 1 < maps.len() ==> r < maps[i + 1].rendered_index,
    ensures
        i == mapping_index_for_rendered(maps, r),
{
    lemma_mapping_index_for_rendered(maps, r);
    let j: int = mapping_index_for_rendered(maps, r);
    if i < j {
        assert(maps[i + 1].rendered_index <= maps[j].rendered_index || i + 1 == j);
    }
    if j < i {
        assert(maps[j + 1].rendered_index <= maps[i].rendered_index || j + 1 == i);
    }
}

/// Binary search for the entry with the largest `source_index` at or below
/// `o`.
fn find_mapping_by_source(maps: &Vec<SourceMapping>, o: usize) -> (i: usize)
    requires
        maps@.len() >= 1,
        mappings_ordered(maps@),
        maps@[0].source_index <= o,
    ensures
        i == mapping_index_for_source(maps@, o as int),
{
    let mut lo: usize = 0;
    let mut hi: usize = maps.len();
    while hi - lo > 1
        invariant
            0 <= lo < hi <= maps@.len(),
            maps@.len() >= 1,
            mappings_ordered(maps@),
            maps@[lo as int].source_index <= o,
            hi < maps@.len() ==> o < maps@[hi as int].source_index,
        decreases hi - lo,
    {
        let mid = lo + (hi - lo) / 2;
        if maps[mid].source_index <= o {
            lo = mid;
        } else {
            hi = mid;
        }
    }
    proof {
        if lo + 1 < maps@.len() {
            assert(maps@[lo + 1].source_index >= maps@[hi as int].source_index || lo + 1 == hi);
        }
        lemma_mapping_index_for_source_unique(maps@, o as int, lo as int);
    }
    lo
}

/// Binary search for the entry with the largest `rendered_index` at or below
/// `r`.
fn find_mapping_by_rendered(maps: &Vec<SourceMapping>, r: usize) -> (i: usize)
    requires
        maps@.len() >= 1,
        mappings_ordered(maps@),
        maps@[0].rendered_index <= r,
    ensures
        i == mapping_index_for_rendered(maps@, r as int),
{
    let mut lo: usize = 0;
    let mut hi: usize = maps.len();
    while hi - lo > 1
        invariant
            0 <= lo < hi <= maps@.len(),
            maps@.len() >= 1,
            mappings_ordered(maps@),
            maps@[lo as int].rendered_index <= r,
            hi < maps@.len() ==> r < maps@[hi as int].rendered_index,
        decreases hi - lo,
    {
        let mid = lo + (hi - lo) / 2;
        if maps[mid].rendered_index <= r {
            lo = mid;
        } else {
            hi = mid;
        }
    }
    proof {
        if lo + 1 < maps@.len() {
            assert(maps@[lo + 1].rendered_index >= maps@[hi as int].rendered_index || lo + 1 == hi);
        }
        lemma_mapping_index_for_rendered_unique(maps@, r as int, lo as int);
    }
    lo
}

/// Appending one run adds its length to the total.
pub proof fn lemma_sum_run_lens_push(runs: Seq<TextRun>, r: TextRun)
    ensures
        sum_run_lens(runs.push(r)) == sum_run_lens(runs) + r.len,
{
    assert(runs.push(r).drop_last() =~= runs);
}

/// A new entry strictly past the last one (in both spaces, advancing the
/// rendered space no faster than the source space) keeps a mapping table
/// ordered.
pub proof fn lemma_mappings_push_ordered(maps: Seq<SourceMapping>, m: SourceMapping)
    requires
        maps.len() >= 1,
        mappings_ordered(maps),
        maps.last().source_index < m.source_index,
        maps.last().rendered_index < m.rendered_index,
        m.rendered_index - maps.last().rendered_index <= m.source_index
            - maps.last().source_index,
    ensures
        mappings_ordered(maps.push(m)),
{
    let maps2 = maps.push(m);
    assert forall|i: int, j: int|
        #![trigger maps2[i], maps2[j]]
        0 <= i < j < maps2.len() implies {
        &&& maps2[i].source_index < maps2[j].source_index
        &&& maps2[i].rendered_index < maps2[j].rendered_index
        &&& maps2[j].rendered_index - maps2[i].rendered_index <= maps2[j].source_index
            - maps2[i].source_index
    } by {
        if j < maps.len() {
            assert(maps2[i] == maps[i]);
            assert(maps2[j] == maps[j]);
        } else {
            assert(maps2[j] == m);
            assert(maps2[i] == maps[i]);
            let last = maps.len() - 1;
            if i < last {
                assert(maps[i].source_index < maps[last].source_index);
                assert(maps[i].rendered_index < maps[last].rendered_index);
                assert(maps[last].rendered_index - maps[i].rendered_index
                    <= maps[last].source_index - maps[i].source_index);
            }
        }
    }
}

/// Appends all of `src` to `dst`.
pub fn append_bytes(dst: &mut Vec<u8>, src: &[u8])
    ensures
        final(dst)@ == old(dst)@ + src@,
{
    let mut k: usize = 0;
    while k < src.len()
        invariant
            k <= src@.len(),
            dst@ == old(dst)@ + src@.subrange(0, k as int),
        decreases src@.len() - k,
    {
        let b = *vstd::slice::slice_index_get(src, k);
        dst.push(b);
        proof {
            assert(old(dst)@ + src@.subrange(0, k + 1 as int) =~= (old(dst)@ + src@.subrange(
                0,
                k as int,
            )).push(src@[k as int]));
        }
        k = k + 1;
    }
    proof {
        assert(src@.subrange(0, src@.len() as int) =~= src@);
    }
}

/// Copies a byte vector.
pub fn clone_bytes(src: &Vec<u8>) -> (out: Vec<u8>)
    ensures
        out@ == src@,
{
    let mut out: Vec<u8> = Vec::new();
    append_bytes(&mut out, src.as_slice());
    proof {
        assert(Seq::<u8>::empty() + src@ =~= src@);
    }
    out
}

/// Compares two byte vectors for equality.
pub fn bytes_eq(a: &Vec<u8>, b: &Vec<u8>) -> (r: bool)
    ensures
        r <==> a@ == b@,
{
    if a.len() != b.len() {
        return false;
    }
    let n = a.len();
    let mut k: usize = 0;
    while k < n
        invariant
            k <= n,
            n == a@.len() == b@.len(),
            forall|j: int| 0 <= j < k ==> a@[j] == b@[j],
        decreases n - k,
    {
        if *vstd::slice::slice_index_get(a.as_slice(), k) != *vstd::slice::slice_index_get(
            b.as_slice(),
            k,
        ) {
            return false;
        }
        k = k + 1;
    }
    proof {
        assert(a@ =~= b@);
    }
    true
}

/// One laid-out line of rendered text: its rendered bytes, the styled runs
/// they are shaped with, the offset-mapping table, the source offset one past
/// its last mapped byte, and the vertical extent the embedding laid it out
/// at.
#[derive(Clone, Debug)]
pub struct RenderedLine {
    pub text: Vec<u8>,
    pub runs: Vec<TextRun>,
    pub source_mappings: Vec<SourceMapping>,
    pub source_end: usize,
    pub extent: LineExtent,
}

impl RenderedLine {
    /// Well-formedness: at least one entry, the first at rendered offset 0;
    /// entries ordered; every entry within the rendered text; the runs cover
    /// the rendered text exactly; `source_end` one past the source byte
    /// corresponding to the rendered end.
    pub open spec fn wf(self) -> bool {
        &&& self.source_mappings@.len() >= 1
        &&& self.source_mappings@[0].rendered_index == 0
        &&& mappings_ordered(self.source_mappings@)
        &&& forall|i: int|
            0 <= i < self.source_mappings@.len()
                ==> #[trigger] self.source_mappings@[i].rendered_index <= self.text@.len()
        &&& sum_run_lens(self.runs@) == self.text@.len()
        &&& self.source_end == self.source_mappings@.last().source_index + self.text@.len()
            - self.source_mappings@.last().rendered_index
    }

    /// The source offset of the line's first mapped byte.
    pub open spec fn source_start(self) -> int {
        self.source_mappings@[0].source_index as int
    }

    /// The rendered width governed by entry `i`: up to the next entry's
    /// rendered offset, or to the end of the rendered text for the last entry.
    pub open spec fn rendered_limit(self, i: int) -> int {
        if i + 1 < self.source_mappings@.len() {
            self.source_mappings@[i + 1].rendered_index as int
        } else {
            self.text@.len() as int
        }
    }

    /// The rendered offset corresponding to source offset `o`: the residual
    /// past the governing entry, clamped to the entry's rendered width (a
    /// query inside a span of source bytes that the line elided maps to the
    /// point where the rendered text resumes).
    pub open spec fn spec_rendered_for_source(self, o: int) -> int {
        let i: int = mapping_index_for_source(self.source_mappings@, o);
        let m = self.source_mappings@[i];
        if o - m.source_index <= self.rendered_limit(i) - m.rendered_index {
            m.rendered_index + (o - m.source_index)
        } else {
            self.rendered_limit(i)
        }
    }

    /// The source offset corresponding to rendered offset `r`.
    pub open spec fn spec_source_for_rendered(self, r: int) -> int {
        let m = self.source_mappings@[mapping_index_for_rendered(self.source_mappings@, r)];
        m.source_index + (r - m.rendered_index)
    }

    /// Converts a source offset within this line to a rendered offset.
    pub fn rendered_index_for_source_index(&self, source_index: usize) -> (r: usize)
        requires
            self.wf(),
            self.source_start() <= source_index,
        ensures
            r == self.spec_rendered_for_source(source_index as int),
            r <= self.text@.len(),
    {
        proof {
            lemma_mapping_index_for_source(self.source_mappings@, source_index as int);
        }
        let i = find_mapping_by_source(&self.source_mappings, source_index);
        let n = self.source_mappings.len();
        let m = self.source_mappings[i];
        let limit = if i < n - 1 {
            self.source_mappings[i + 1].rendered_index
        } else {
            self.text.len()
        };
        let residual = source_index - m.source_index;
        let room = limit - m.rendered_index;
        if residual <= room {
            m.rendered_index + residual
        } else {
            limit
        }
    }

    /// Converts a rendered offset within this line back to a source offset.
    pub fn source_index_for_rendered_index(&self, rendered_index: usize) -> (o: usize)
        requires
            self.wf(),
            rendered_index <= self.text@.len(),
        ensures
            o == self.spec_source_for_rendered(rendered_index as int),
            self.source_start() <= o <= self.source_end,
    {
        proof {
            lemma_mapping_index_for_rendered(self.source_mappings@, rendered_index as int);
            self.lemma_source_for_rendered_bounds(rendered_index as int);
        }
        let i = find_mapping_by_rendered(&self.source_mappings, rendered_index);
        let m = self.source_mappings[i];
        m.source_index + (rendered_index - m.rendered_index)
    }

    /// The source offset a rendered offset maps back to lies between the
    /// line's first mapped source offset and `source_end`.
    pub proof fn lemma_source_for_rendered_bounds(self, r: int)
        requires
            self.wf(),
            0 <= r <= self.text@.len(),
        ensures
            self.source_start() <= self.spec_source_for_rendered(r) <= self.source_end,
    {
        let maps = self.source_mappings@;
        lemma_mapping_index_for_rendered(maps, r);
        let i: int = mapping_index_for_rendered(maps, r);
        if i + 1 < maps.len() {
            assert(maps[maps.len() - 1].source_index <= self.source_end);
        }
    }

    /// Mapping a source offset to a rendered offset is monotone: a later
    /// source byte never maps to an earlier rendered byte.
    pub proof fn lemma_rendered_for_source_monotone(self, o1: int, o2: int)
        requires
            self.wf(),
            self.source_start() <= o1 <= o2,
        ensures
            self.spec_rendered_for_source(o1) <= self.spec_rendered_for_source(o2),
    {
        let maps = self.source_mappings@;
        lemma_mapping_index_for_source(maps, o1);
        lemma_mapping_index_for_source(maps, o2);
        let i1: int = mapping_index_for_source(maps, o1);
        let i2: int = mapping_index_for_source(maps, o2);
        if i2 < i1 {
            assert(maps[i2 + 1].source_index <= maps[i1].source_index || i2 + 1 == i1);
            assert(false);
        }
        if i1 < i2 {
            assert(self.spec_rendered_for_source(o1) <= self.rendered_limit(i1));
            assert(maps[i1 + 1].rendered_index <= maps[i2].rendered_index || i1 + 1 == i2);
            assert(maps[i2].rendered_index <= self.spec_rendered_for_source(o2));
        }
    }

    /// Rendered offsets computed for in-line source offsets stay within the
    /// rendered text.
    pub proof fn lemma_rendered_for_source_bounds(self, o: int)
        requires
            self.wf(),
            self.source_start() <= o,
        ensures
            0 <= self.spec_rendered_for_source(o) <= self.text@.len(),
    {
        let maps = self.source_mappings@;
        lemma_mapping_index_for_source(maps, o);
        let i: int = mapping_index_for_source(maps, o);
        if i + 1 < maps.len() {
            assert(maps[i + 1].rendered_index <= self.text@.len());
        }
    }

    /// Mapping a rendered offset back to source is monotone: a later rendered
    /// byte never maps to an earlier source byte.
    pub proof fn lemma_source_for_rendered_monotone(self, r1: int, r2: int)
        requires
            self.wf(),
            0 <= r1 <= r2 <= self.text@.len(),
        ensures
            self.spec_source_for_rendered(r1) <= self.spec_source_for_rendered(r2),
    {
        let maps = self.source_mappings@;
        lemma_mapping_index_for_rendered(maps, r1);
        lemma_mapping_index_for_rendered(maps, r2);
        let i1: int = mapping_index_for_rendered(maps, r1);
        let i2: int = mapping_index_for_rendered(maps, r2);
        if i2 < i1 {
            assert(maps[i2 + 1].rendered_index <= maps[i1].rendered_index || i2 + 1 == i1);
            assert(false);
        }
        if i1 < i2 {
            assert(r1 < maps[i1 + 1].rendered_index);
            assert(maps[i1 + 1].source_index <= maps[i2].source_index || i1 + 1 == i2);
        }
    }

    /// A mapping-table breakpoint survives the round trip: converting a
    /// breakpoint's rendered offset to a source offset and back returns the
    /// same rendered offset.
    pub proof fn lemma_breakpoint_round_trip(self, i: int)
        requires
            self.wf(),
            0 <= i < self.source_mappings@.len(),
        ensures
            self.spec_rendered_for_source(
                self.spec_source_for_rendered(self.source_mappings@[i].rendered_index as int),
            ) == self.source_mappings@[i].rendered_index,
    {
        let maps = self.source_mappings@;
        let m = maps[i];
        lemma_mapping_index_for_rendered_unique(maps, m.rendered_index as int, i);
        assert(self.spec_source_for_rendered(m.rendered_index as int) == m.source_index);
        lemma_mapping_index_for_source_unique(maps, m.source_index as int, i);
    }

    /// A source offset is covered when it lies in the region that corresponds
    /// byte for byte to rendered text: at most the width of the governing
    /// entry's rendered span past that entry.
    pub open spec fn source_offset_covered(self, o: int) -> bool {
        let maps = self.source_mappings@;
        let i: int = mapping_index_for_source(maps, o);
        &&& self.source_start() <= o
        &&& (i + 1 < maps.len() ==> o - maps[i].source_index < maps[i + 1].rendered_index
            - maps[i].rendered_index)
        &&& (i + 1 == maps.len() ==> o <= self.source_end)
    }

    /// Round trip for covered source offsets: converting a covered source
    /// offset to its rendered offset and back returns the original offset.
    pub proof fn lemma_offset_round_trip(self, o: int)
        requires
            self.wf(),
            self.source_offset_covered(o),
        ensures
            self.spec_source_for_rendered(self.spec_rendered_for_source(o)) == o,
    {
        let maps = self.source_mappings@;
        lemma_mapping_index_for_source(maps, o);
        let i: int = mapping_index_for_source(maps, o);
        let m = maps[i];
        let r: int = self.spec_rendered_for_source(o);
        if i + 1 < maps.len() {
            assert(maps[i + 1].rendered_index <= self.text@.len());
            assert(r == m.rendered_index + (o - m.source_index));
            lemma_mapping_index_for_rendered_unique(maps, r, i);
        } else {
            assert(o - m.source_index <= self.text@.len() - m.rendered_index);
            assert(r == m.rendered_index + (o - m.source_index));
            lemma_mapping_index_for_rendered_unique(maps, r, i);
        }
    }

    /// Maps the text-shaping engine's hit-test answer for this line (the
    /// rendered offset nearest the queried point, `Err` when the point fell
    /// outside the line's shaped bounds) to the corresponding source offset,
    /// keeping the in-bounds/out-of-bounds distinction.
    pub fn source_index_for_hit(&self, hit: Result<usize, usize>) -> (res: Result<usize, usize>)
        requires
            self.wf(),
            (match hit {
                Ok(r) => r <= self.text@.len(),
                Err(r) => r <= self.text@.len(),
            }),
        ensures
            (match (hit, res) {
                (Ok(r), Ok(o)) => o == self.spec_source_for_rendered(r as int),
                (Err(r), Err(o)) => o == self.spec_source_for_rendered(r as int),
                _ => false,
            }),
    {
        match hit {
            Ok(rendered_index) => Ok(self.source_index_for_rendered_index(rendered_index)),
            Err(rendered_index) => Err(self.source_index_for_rendered_index(rendered_index)),
        }
    }
}

} // verus!
