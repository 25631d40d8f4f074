//! Core of an interactive markdown renderer: it turns a flat stream of
//! markdown events into a tree of styled blocks plus a flat index of rendered
//! text lines, keeps a bidirectional mapping between source byte offsets and
//! rendered byte offsets, tracks the text selection, and schedules debounced
//! single-flight background re-parses of the source text.
//!
//! The markdown grammar itself, text shaping, syntax highlighting and the
//! windowing system are external collaborators: this crate consumes their
//! results as plain values and is verified against exact contracts.

pub mod builder;
pub mod document;
pub mod events;
pub mod line;
pub mod rendered;
pub mod selection;
pub mod style;
