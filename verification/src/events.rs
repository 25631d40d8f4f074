//! The flat markdown event stream the external parser hands back: leaf
//! events and structural `Start`/`End` tags, each paired with a half-open
//! source byte range, together with the well-nestedness specification the
//! builder relies on.

use vstd::prelude::*;

verus! {

/// Heading depth.
#[derive(Copy, Clone, Debug, PartialEq, Eq, Structural)]
pub enum HeadingLevel {
    H1,
    H2,
    H3,
    H4,
    H5,
    H6,
}

/// How a code block was introduced: indented, or fenced with an info string
/// naming the language.
#[derive(Clone, Debug, PartialEq, Eq)]
pub enum CodeBlockKind {
    Indented,
    Fenced(Vec<u8>),
}

/// A structural tag opened by a `Start` event.
#[derive(Clone, Debug, PartialEq, Eq)]
pub enum MarkdownTag {
    Paragraph,
    Heading(HeadingLevel),
    BlockQuote,
    CodeBlock(CodeBlockKind),
    HtmlBlock,
    /// A list; carries the first item number of an ordered list, `None` for
    /// an unordered one.
    List(Option<u64>),
    Item,
    Emphasis,
    Strong,
    Strikethrough,
    /// A hyperlink; carries the destination URL.
    Link(Vec<u8>),
    MetadataBlock,
    /// A structural construct this renderer does not support; it is skipped.
    Other,
}

/// The tag kind closed by an `End` event (payload-free).
#[derive(Copy, Clone, Debug, PartialEq, Eq, Structural)]
pub enum MarkdownTagEnd {
    Paragraph,
    Heading,
    BlockQuote,
    CodeBlock,
    HtmlBlock,
    List,
    Item,
    Emphasis,
    Strong,
    Strikethrough,
    Link,
    MetadataBlock,
    Other,
}

/// The kind of tag a `Start` event opens.
pub open spec fn kind_of(tag: MarkdownTag) -> MarkdownTagEnd {
    match tag {
        MarkdownTag::Paragraph => MarkdownTagEnd::Paragraph,
        MarkdownTag::Heading(_) => MarkdownTagEnd::Heading,
        MarkdownTag::BlockQuote => MarkdownTagEnd::BlockQuote,
        MarkdownTag::CodeBlock(_) => MarkdownTagEnd::CodeBlock,
        MarkdownTag::HtmlBlock => MarkdownTagEnd::HtmlBlock,
        MarkdownTag::List(_) => MarkdownTagEnd::List,
        MarkdownTag::Item => MarkdownTagEnd::Item,
        MarkdownTag::Emphasis => MarkdownTagEnd::Emphasis,
        MarkdownTag::Strong => MarkdownTagEnd::Strong,
        MarkdownTag::Strikethrough => MarkdownTagEnd::Strikethrough,
        MarkdownTag::Link(_) => MarkdownTagEnd::Link,
        MarkdownTag::MetadataBlock => MarkdownTagEnd::MetadataBlock,
        MarkdownTag::Other => MarkdownTagEnd::Other,
    }
}

/// One parsed markdown event: a structural `Start`/`End` pair boundary or a
/// leaf.
#[derive(Clone, Debug, PartialEq, Eq)]
pub enum MarkdownEvent {
    Start(MarkdownTag),
    End(MarkdownTagEnd),
    Text,
    Code,
    Html,
    InlineHtml,
    Rule,
    SoftBreak,
    HardBreak,
    /// A leaf construct this renderer does not support; it is skipped.
    Other,
}

/// An event paired with the half-open source byte range it was parsed from.
#[derive(Clone, Debug, PartialEq, Eq)]
pub struct SpannedEvent {
    pub start: usize,
    pub end: usize,
    pub event: MarkdownEvent,
}

/// The stack of open tag kinds after the first `k` events, or `None` when
/// some `End` among them did not match the innermost open tag.
pub open spec fn open_tags_after(events: Seq<SpannedEvent>, k: int) -> Option<Seq<MarkdownTagEnd>>
    decreases k,
{
    if k <= 0 {
        Some(Seq::empty())
    } else {
        match open_tags_after(events, k - 1) {
            None => None,
            Some(stack) => match events[k - 1].event {
                MarkdownEvent::Start(tag) => Some(stack.push(kind_of(tag))),
                MarkdownEvent::End(kind) => if stack.len() > 0 && stack.last() == kind {
                    Some(stack.drop_last())
                } else {
                    None
                },
                _ => Some(stack),
            },
        }
    }
}

/// A well-formed event stream: every range lies within the source and every
/// `Start` has exactly one matching `End`, stack-nested with no crossing.
pub open spec fn events_wf(events: Seq<SpannedEvent>, source_len: int) -> bool {
    &&& forall|k: int|
        0 <= k < events.len() ==> (#[trigger] events[k]).start <= events[k].end <= source_len
    &&& open_tags_after(events, events.len() as int) == Some(Seq::<MarkdownTagEnd>::empty())
}

/// A prefix of a stream whose `End` events all matched still has all its
/// `End` events matched.
pub proof fn lemma_open_tags_prefix(events: Seq<SpannedEvent>, k: int, n: int)
    requires
        0 <= k <= n,
        open_tags_after(events, n) is Some,
    ensures
        open_tags_after(events, k) is Some,
    decreases n - k,
{
    if k < n {
        lemma_open_tags_prefix(events, k + 1, n);
    }
}

} // verus!
