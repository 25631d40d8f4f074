//! The document owner and re-parse scheduler: it holds the source text, the
//! selection, and the latest parsed snapshot, and decides for every mutation
//! whether to start a background parse, queue one behind the parse already
//! in flight, or do nothing.
//!
//! The background work itself (running the external parser over a snapshot)
//! is the embedding's: this crate's methods return the snapshot to parse,
//! and the embedding hands the finished `ParsedMarkdown` back through
//! `on_parse_complete`. At most one parse task is alive at any time.

use vstd::prelude::*;

use crate::events::SpannedEvent;
use crate::line::bytes_eq;
use crate::rendered::{
    join_lines, pieces_for_range, spec_surrounding_line_range, spec_surrounding_word_range,
    RenderedLink, RenderedText,
};
use crate::selection::Selection;

verus! {

/// An immutable snapshot of a completed parse: the source text it was parsed
/// from and the ordered event stream the external parser produced. Replaced
/// wholesale on every re-parse, never mutated in place.
#[derive(Clone, Debug)]
pub struct ParsedMarkdown {
    pub source: Vec<u8>,
    pub events: Vec<SpannedEvent>,
}

impl ParsedMarkdown {
    /// The source text this snapshot was parsed from.
    pub fn source(&self) -> (s: &Vec<u8>)
        ensures
            s@ == self.source@,
    {
        &self.source
    }

    /// The parsed event stream, in document order.
    pub fn events(&self) -> (e: &Vec<SpannedEvent>)
        ensures
            e@ == self.events@,
    {
        &self.events
    }
}

impl Default for ParsedMarkdown {
    /// The empty document: no source, no events.
    fn default() -> (d: ParsedMarkdown)
        ensures
            d.source@.len() == 0,
            d.events@.len() == 0,
    {
        ParsedMarkdown { source: Vec::new(), events: Vec::new() }
    }
}

/// The scheduler state a proof tracks: the source text, whether a parse is
/// in flight, and whether a re-parse is queued behind it.
pub open spec fn spec_scheduler_state(m: Markdown) -> (Seq<u8>, bool, bool) {
    (m.source@, m.pending_parse, m.should_reparse)
}

/// One mutation step: the text is appended and a parse is requested. An
/// empty source leaves everything untouched; a request while a parse is in
/// flight only queues a re-parse; otherwise a parse over the new source
/// starts. Returns the new state and whether a parse task was spawned.
pub open spec fn spec_mutate(state: (Seq<u8>, bool, bool), text: Seq<u8>) -> (
    (Seq<u8>, bool, bool),
    bool,
) {
    let source = state.0 + text;
    if source.len() == 0 {
        ((source, state.1, state.2), false)
    } else if state.1 {
        ((source, true, true), false)
    } else {
        ((source, true, false), true)
    }
}

/// A whole burst of mutations, applied left to right.
pub open spec fn spec_mutate_all(state: (Seq<u8>, bool, bool), texts: Seq<Seq<u8>>) -> (
    Seq<u8>,
    bool,
    bool,
)
    decreases texts.len(),
{
    if texts.len() == 0 {
        state
    } else {
        spec_mutate_all(spec_mutate(state, texts[0]).0, texts.drop_first())
    }
}

/// How many parse tasks a burst of mutations spawns.
pub open spec fn spec_spawn_count(state: (Seq<u8>, bool, bool), texts: Seq<Seq<u8>>) -> int
    decreases texts.len(),
{
    if texts.len() == 0 {
        0
    } else {
        (if spec_mutate(state, texts[0]).1 {
            1int
        } else {
            0int
        }) + spec_spawn_count(spec_mutate(state, texts[0]).0, texts.drop_first())
    }
}

/// Completing the in-flight parse: the flag clears, and a queued re-parse
/// immediately starts a fresh parse over the latest source (cleared first,
/// so no mutation is lost). Returns the new state and whether a parse task
/// was spawned.
pub open spec fn spec_complete(state: (Seq<u8>, bool, bool)) -> ((Seq<u8>, bool, bool), bool) {
    if !state.2 {
        ((state.0, false, false), false)
    } else if state.0.len() == 0 {
        ((state.0, false, true), false)
    } else {
        ((state.0, true, false), true)
    }
}

/// Single-flight law: any number of mutations issued while a parse is in
/// flight spawn no task at all — they coalesce into the queued-re-parse flag
/// — and completing the in-flight parse then spawns exactly one task, over
/// the most recent source (the original source with every mutation
/// appended).
pub proof fn lemma_single_flight(state: (Seq<u8>, bool, bool), texts: Seq<Seq<u8>>)
    requires
        state.1,
        state.0.len() > 0,
        texts.len() > 0,
    ensures
        spec_spawn_count(state, texts) == 0,
        spec_mutate_all(state, texts).0 == state.0 + texts.flatten(),
        spec_mutate_all(state, texts).1,
        spec_mutate_all(state, texts).2,
        spec_complete(spec_mutate_all(state, texts)).1,
        spec_complete(spec_mutate_all(state, texts)).0.0 == state.0 + texts.flatten(),
        spec_complete(spec_mutate_all(state, texts)).0 == (
            (state.0 + texts.flatten(), true, false)
        ),
    decreases texts.len(),
{
    let step = spec_mutate(state, texts[0]);
    assert(step.0.0 =~= state.0 + texts[0]);
    if texts.len() == 1 {
        assert(texts.drop_first().len() == 0);
        assert(spec_mutate_all(step.0, texts.drop_first()) == step.0);
        assert(spec_spawn_count(step.0, texts.drop_first()) == 0);
        assert(texts.drop_first().flatten() =~= Seq::<u8>::empty());
        assert(texts.flatten() =~= texts[0] + texts.drop_first().flatten());
        assert(spec_mutate_all(state, texts).0 =~= state.0 + texts.flatten());
    } else {
        lemma_single_flight(step.0, texts.drop_first());
        assert(texts.flatten() =~= texts[0] + texts.drop_first().flatten());
        assert(step.0.0 + texts.drop_first().flatten() =~= state.0 + texts.flatten());
    }
}

/// The markdown document: the live source text, the selection and
/// interaction state, the latest parsed snapshot, and the single-flight
/// scheduler flags.
#[derive(Debug)]
pub struct Markdown {
    pub source: Vec<u8>,
    pub selection: Selection,
    pub pressed_link: Option<RenderedLink>,
    pub autoscroll_request: Option<usize>,
    pub parsed_markdown: ParsedMarkdown,
    pub should_reparse: bool,
    pub pending_parse: bool,
    pub parse_links_only: bool,
}

impl Markdown {
    /// The document invariant: the selection never runs backwards, and a
    /// parse is in flight only over a nonempty source.
    pub open spec fn wf(self) -> bool {
        &&& self.selection.wf()
        &&& self.pending_parse ==> self.source@.len() > 0
    }

    /// A fresh document over `source`, parsing full markdown. Returns the
    /// document and the snapshot to hand to the external parser, when the
    /// source is nonempty.
    pub fn new(source: Vec<u8>) -> (res: (Markdown, Option<Vec<u8>>))
        ensures
            res.0.wf(),
            res.0.source@ == source@,
            !res.0.parse_links_only,
            res.0.selection == (Selection { start: 0usize, end: 0usize, reversed: false, pending: false }),
            res.0.pressed_link is None,
            res.0.autoscroll_request is None,
            res.0.parsed_markdown.source@.len() == 0,
            res.0.parsed_markdown.events@.len() == 0,
            !res.0.should_reparse,
            res.0.pending_parse == (source@.len() > 0),
            source@.len() == 0 ==> res.1 is None,
            source@.len() > 0 ==> (match res.1 {
                Some(snapshot) => snapshot@ == source@,
                None => false,
            }),
    {
        Markdown::with_mode(source, false)
    }

    /// A fresh document over `source` in the links-only degraded mode, for
    /// plain text with autolinks.
    pub fn new_text(source: Vec<u8>) -> (res: (Markdown, Option<Vec<u8>>))
        ensures
            res.0.wf(),
            res.0.source@ == source@,
            res.0.parse_links_only,
            res.0.selection == (Selection { start: 0usize, end: 0usize, reversed: false, pending: false }),
            res.0.pressed_link is None,
            res.0.autoscroll_request is None,
            res.0.parsed_markdown.source@.len() == 0,
            res.0.parsed_markdown.events@.len() == 0,
            !res.0.should_reparse,
            res.0.pending_parse == (source@.len() > 0),
            source@.len() == 0 ==> res.1 is None,
            source@.len() > 0 ==> (match res.1 {
                Some(snapshot) => snapshot@ == source@,
                None => false,
            }),
    {
        Markdown::with_mode(source, true)
    }

    fn with_mode(source: Vec<u8>, parse_links_only: bool) -> (res: (Markdown, Option<Vec<u8>>))
        ensures
            res.0.wf(),
            res.0.source@ == source@,
            res.0.parse_links_only == parse_links_only,
            res.0.selection == (Selection { start: 0usize, end: 0usize, reversed: false, pending: false }),
            res.0.pressed_link is None,
            res.0.autoscroll_request is None,
            res.0.parsed_markdown.source@.len() == 0,
            res.0.parsed_markdown.events@.len() == 0,
            !res.0.should_reparse,
            res.0.pending_parse == (source@.len() > 0),
            source@.len() == 0 ==> res.1 is None,
            source@.len() > 0 ==> (match res.1 {
                Some(snapshot) => snapshot@ == source@,
                None => false,
            }),
    {
        let mut this = Markdown {
            source,
            selection: Selection::default(),
            pressed_link: None,
            autoscroll_request: None,
            parsed_markdown: ParsedMarkdown::default(),
            should_reparse: false,
            pending_parse: false,
            parse_links_only,
        };
        let request = this.parse();
        (this, request)
    }

    /// The current source text.
    pub fn source(&self) -> (s: &Vec<u8>)
        ensures
            s@ == self.source@,
    {
        &self.source
    }

    /// The latest parsed snapshot.
    pub fn parsed_markdown(&self) -> (p: &ParsedMarkdown)
        ensures
            p.source@ == self.parsed_markdown.source@,
            p.events@ == self.parsed_markdown.events@,
    {
        &self.parsed_markdown
    }

    /// Requests a re-derivation of the parsed document: nothing happens over
    /// an empty source; while a parse is in flight the request coalesces
    /// into the queued-re-parse flag; otherwise exactly one background parse
    /// starts, over a snapshot of the current source, which is returned for
    /// the embedding to run.
    pub fn parse(&mut self) -> (request: Option<Vec<u8>>)
        ensures
            final(self).wf() == old(self).wf(),
            final(self).source == old(self).source,
            final(self).selection == old(self).selection,
            final(self).pressed_link == old(self).pressed_link,
            final(self).autoscroll_request == old(self).autoscroll_request,
            final(self).parsed_markdown == old(self).parsed_markdown,
            final(self).parse_links_only == old(self).parse_links_only,
            ({
                let step = spec_mutate(spec_scheduler_state(*old(self)), Seq::<u8>::empty());
                &&& final(self).pending_parse == step.0.1
                &&& final(self).should_reparse == step.0.2
                &&& (request is Some <==> step.1)
                &&& (match request {
                    Some(snapshot) => snapshot@ == old(self).source@,
                    None => true,
                })
            }),
    {
        proof {
            assert(old(self).source@ + Seq::<u8>::empty() =~= old(self).source@);
        }
        if self.source.len() == 0 {
            return None;
        }
        if self.pending_parse {
            self.should_reparse = true;
            return None;
        }
        self.should_reparse = false;
        self.pending_parse = true;
        Some(crate::line::clone_bytes(&self.source))
    }

    /// Appends text to the source and requests a re-parse, without blocking:
    /// the parse either starts now over the new source, or is queued behind
    /// the one in flight.
    pub fn append(&mut self, text: &[u8]) -> (request: Option<Vec<u8>>)
        requires
            old(self).wf(),
        ensures
            final(self).wf(),
            final(self).source@ == old(self).source@ + text@,
            final(self).selection == old(self).selection,
            final(self).pressed_link == old(self).pressed_link,
            final(self).autoscroll_request == old(self).autoscroll_request,
            final(self).parsed_markdown == old(self).parsed_markdown,
            final(self).parse_links_only == old(self).parse_links_only,
            ({
                let step = spec_mutate(spec_scheduler_state(*old(self)), text@);
                &&& final(self).pending_parse == step.0.1
                &&& final(self).should_reparse == step.0.2
                &&& (request is Some <==> step.1)
                &&& (match request {
                    Some(snapshot) => snapshot@ == old(self).source@ + text@,
                    None => true,
                })
            }),
    {
        crate::line::append_bytes(&mut self.source, text);
        self.parse()
    }

    /// Replaces the source wholesale. Resetting to the current text is a
    /// no-op: no new parse is spawned and the selection is unchanged.
    /// Otherwise the selection, the pending flags and the parsed snapshot
    /// are discarded and a fresh parse starts over the new source (when it
    /// is nonempty).
    pub fn reset(&mut self, source: Vec<u8>) -> (request: Option<Vec<u8>>)
        requires
            old(self).wf(),
        ensures
            final(self).wf(),
            old(self).source@ == source@ ==> *final(self) == *old(self) && request is None,
            old(self).source@ != source@ ==> {
                &&& final(self).source@ == source@
                &&& final(self).selection == (Selection { start: 0usize, end: 0usize, reversed: false, pending: false })
                &&& final(self).autoscroll_request is None
                &&& final(self).pressed_link == old(self).pressed_link
                &&& final(self).parsed_markdown.source@.len() == 0
                &&& final(self).parsed_markdown.events@.len() == 0
                &&& final(self).parse_links_only == old(self).parse_links_only
                &&& !final(self).should_reparse
                &&& final(self).pending_parse == (source@.len() > 0)
                &&& (source@.len() == 0 ==> request is None)
                &&& (source@.len() > 0 ==> (match request {
                    Some(snapshot) => snapshot@ == source@,
                    None => false,
                }))
            },
    {
        if bytes_eq(&source, &self.source) {
            return None;
        }
        self.source = source;
        self.selection = Selection::default();
        self.autoscroll_request = None;
        self.pending_parse = false;
        self.should_reparse = false;
        self.parsed_markdown = ParsedMarkdown::default();
        self.parse()
    }

    /// Installs a completed background parse, clears the in-flight flag and,
    /// when a mutation arrived while the parse was running, immediately
    /// starts one fresh parse over the latest source — installation,
    /// flag-clearing and re-trigger are a single atomic step from the UI
    /// thread's view.
    pub fn on_parse_complete(&mut self, parsed: ParsedMarkdown) -> (request: Option<Vec<u8>>)
        requires
            old(self).wf(),
        ensures
            final(self).wf(),
            final(self).source == old(self).source,
            final(self).selection == old(self).selection,
            final(self).pressed_link == old(self).pressed_link,
            final(self).autoscroll_request == old(self).autoscroll_request,
            final(self).parsed_markdown == parsed,
            final(self).parse_links_only == old(self).parse_links_only,
            ({
                let step = spec_complete(spec_scheduler_state(*old(self)));
                &&& final(self).pending_parse == step.0.1
                &&& final(self).should_reparse == step.0.2
                &&& (request is Some <==> step.1)
                &&& (match request {
                    Some(snapshot) => snapshot@ == old(self).source@,
                    None => true,
                })
            }),
    {
        self.parsed_markdown = parsed;
        self.pending_parse = false;
        if self.should_reparse {
            self.parse()
        } else {
            None
        }
    }

    /// A failed background parse is treated as if it had not completed: the
    /// previous snapshot stays in effect, and a queued re-parse still
    /// triggers a fresh attempt.
    pub fn on_parse_failed(&mut self) -> (request: Option<Vec<u8>>)
        requires
            old(self).wf(),
        ensures
            final(self).wf(),
            final(self).source == old(self).source,
            final(self).selection == old(self).selection,
            final(self).pressed_link == old(self).pressed_link,
            final(self).autoscroll_request == old(self).autoscroll_request,
            final(self).parsed_markdown == old(self).parsed_markdown,
            final(self).parse_links_only == old(self).parse_links_only,
            ({
                let step = spec_complete(spec_scheduler_state(*old(self)));
                &&& final(self).pending_parse == step.0.1
                &&& final(self).should_reparse == step.0.2
                &&& (request is Some <==> step.1)
                &&& (match request {
                    Some(snapshot) => snapshot@ == old(self).source@,
                    None => true,
                })
            }),
    {
        self.pending_parse = false;
        if self.should_reparse {
            self.parse()
        } else {
            None
        }
    }

    /// The rendered text of the current selection, for the clipboard; `None`
    /// when the selection is empty.
    pub fn copy(&self, text: &RenderedText) -> (out: Option<Vec<u8>>)
        requires
            text.wf(),
            self.selection.wf(),
        ensures
            self.selection.end <= self.selection.start ==> out is None,
            self.selection.start < self.selection.end ==> (match out {
                Some(v) => v@ == join_lines(
                    pieces_for_range(
                        text.lines@,
                        0,
                        self.selection.start as int,
                        self.selection.end as int,
                    ),
                ),
                None => false,
            }),
    {
        if self.selection.end <= self.selection.start {
            return None;
        }
        Some(text.text_for_range(self.selection.start, self.selection.end))
    }

    /// A press on a link records it; activation is decided at release.
    pub fn press_link(&mut self, link: RenderedLink)
        ensures
            final(self).pressed_link == Some(link),
            final(self).source == old(self).source,
            final(self).selection == old(self).selection,
            final(self).autoscroll_request == old(self).autoscroll_request,
            final(self).parsed_markdown == old(self).parsed_markdown,
            final(self).should_reparse == old(self).should_reparse,
            final(self).pending_parse == old(self).pending_parse,
            final(self).parse_links_only == old(self).parse_links_only,
    {
        self.pressed_link = Some(link);
    }

    /// A press outside any link starts a pending selection at the resolved
    /// source offset: zero-width for a single click, the surrounding word
    /// for a double click, the whole line for a triple click.
    pub fn start_selection(&mut self, text: &RenderedText, source_index: usize, click_count: u64)
        requires
            text.wf(),
        ensures
            final(self).source == old(self).source,
            final(self).pressed_link == old(self).pressed_link,
            final(self).autoscroll_request == old(self).autoscroll_request,
            final(self).parsed_markdown == old(self).parsed_markdown,
            final(self).should_reparse == old(self).should_reparse,
            final(self).pending_parse == old(self).pending_parse,
            final(self).parse_links_only == old(self).parse_links_only,
            final(self).selection.pending,
            !final(self).selection.reversed,
            final(self).selection.wf(),
            click_count == 2 ==> final(self).selection.start == spec_surrounding_word_range(
                text.lines@,
                source_index as int,
            ).0 && final(self).selection.end == spec_surrounding_word_range(
                text.lines@,
                source_index as int,
            ).1,
            click_count == 3 ==> final(self).selection.start == spec_surrounding_line_range(
                text.lines@,
                source_index as int,
            ).0 && final(self).selection.end == spec_surrounding_line_range(
                text.lines@,
                source_index as int,
            ).1,
            click_count != 2 && click_count != 3 ==> final(self).selection.start == source_index
                && final(self).selection.end == source_index,
    {
        let range: (usize, usize) = if click_count == 2 {
            text.surrounding_word_range(source_index)
        } else if click_count == 3 {
            text.surrounding_line_range(source_index)
        } else {
            (source_index, source_index)
        };
        self.selection = Selection {
            start: range.0,
            end: range.1,
            reversed: false,
            pending: true,
        };
    }

    /// A drag while a selection is pending moves its head to the resolved
    /// source offset and requests autoscroll to it; a move without a pending
    /// selection changes nothing.
    pub fn drag_selection(&mut self, source_index: usize)
        ensures
            final(self).source == old(self).source,
            final(self).pressed_link == old(self).pressed_link,
            final(self).parsed_markdown == old(self).parsed_markdown,
            final(self).should_reparse == old(self).should_reparse,
            final(self).pending_parse == old(self).pending_parse,
            final(self).parse_links_only == old(self).parse_links_only,
            !old(self).selection.pending ==> final(self).selection == old(self).selection && final(self).autoscroll_request == old(self).autoscroll_request,
            old(self).selection.pending ==> {
                &&& final(self).autoscroll_request == Some(source_index)
                &&& final(self).selection.pending
                &&& final(self).selection.spec_tail() == old(self).selection.spec_tail()
                &&& (source_index < old(self).selection.spec_tail() ==> final(self).selection == (
                Selection {
                    start: source_index,
                    end: old(self).selection.spec_tail(),
                    reversed: true,
                    pending: true,
                }))
                &&& (source_index >= old(self).selection.spec_tail() ==> final(self).selection
                    == (Selection {
                    start: old(self).selection.spec_tail(),
                    end: source_index,
                    reversed: false,
                    pending: true,
                }))
            },
    {
        if self.selection.pending {
            self.selection.set_head(source_index);
            self.autoscroll_request = Some(source_index);
        }
    }

    /// A release activates the pressed link when the release point still
    /// hovers the same link and returns its destination; otherwise a pending
    /// selection is finalized. The pressed link is consumed either way.
    pub fn release_selection(&mut self, hovered_link: Option<&RenderedLink>) -> (open: Option<
        Vec<u8>,
    >)
        ensures
            final(self).source == old(self).source,
            final(self).parsed_markdown == old(self).parsed_markdown,
            final(self).autoscroll_request == old(self).autoscroll_request,
            final(self).should_reparse == old(self).should_reparse,
            final(self).pending_parse == old(self).pending_parse,
            final(self).parse_links_only == old(self).parse_links_only,
            final(self).pressed_link is None,
            (match old(self).pressed_link {
                Some(pressed) => {
                    &&& final(self).selection == old(self).selection
                    &&& (match (hovered_link, open) {
                        (Some(hovered), Some(url)) => pressed.source_start == hovered.source_start
                            && pressed.source_end == hovered.source_end
                            && pressed.destination_url@ == hovered.destination_url@ && url@
                            == pressed.destination_url@,
                        (Some(hovered), None) => !(pressed.source_start == hovered.source_start
                            && pressed.source_end == hovered.source_end
                            && pressed.destination_url@ == hovered.destination_url@),
                        (None, o) => o is None,
                    })
                },
                None => {
                    &&& open is None
                    &&& final(self).selection.start == old(self).selection.start
                    &&& final(self).selection.end == old(self).selection.end
                    &&& final(self).selection.reversed == old(self).selection.reversed
                    &&& !final(self).selection.pending
                },
            }),
    {
        let pressed = self.pressed_link.take();
        match pressed {
            Some(link) => {
                match hovered_link {
                    Some(hovered) => {
                        if link.source_start == hovered.source_start && link.source_end
                            == hovered.source_end && bytes_eq(
                            &link.destination_url,
                            &hovered.destination_url,
                        ) {
                            Some(link.destination_url)
                        } else {
                            None
                        }
                    },
                    None => None,
                }
            },
            None => {
                self.selection.pending = false;
                None
            },
        }
    }

    /// A press outside the document clears the selection and any pressed
    /// link.
    pub fn clear_selection(&mut self)
        ensures
            final(self).selection == (Selection { start: 0usize, end: 0usize, reversed: false, pending: false }),
            final(self).pressed_link is None,
            final(self).source == old(self).source,
            final(self).autoscroll_request == old(self).autoscroll_request,
            final(self).parsed_markdown == old(self).parsed_markdown,
            final(self).should_reparse == old(self).should_reparse,
            final(self).pending_parse == old(self).pending_parse,
            final(self).parse_links_only == old(self).parse_links_only,
    {
        self.selection = Selection::default();
        self.pressed_link = None;
    }

    /// Hands out and clears the pending autoscroll target.
    pub fn take_autoscroll_request(&mut self) -> (r: Option<usize>)
        ensures
            r == old(self).autoscroll_request,
            final(self).autoscroll_request is None,
            final(self).source == old(self).source,
            final(self).selection == old(self).selection,
            final(self).pressed_link == old(self).pressed_link,
            final(self).parsed_markdown == old(self).parsed_markdown,
            final(self).should_reparse == old(self).should_reparse,
            final(self).pending_parse == old(self).pending_parse,
            final(self).parse_links_only == old(self).parse_links_only,
    {
        self.autoscroll_request.take()
    }
}

} // verus!
