//! Client-side editing core of a collaborative rich-text document.
//!
//! A [`document::Document`] owns its content as a [`delta::Delta`] (an ordered
//! sequence of operations), an undo/redo [`history::History`], and a revision
//! counter.  Edits are turned into minimal deltas that preserve the formatting
//! of unaffected text, composed into the current state, and recorded as
//! invertible history entries.  Two documents that diverged from a common
//! ancestor are reconciled by the convergence procedure
//! [`document::transform`].

pub mod attributes;
pub mod delta;
pub mod document;
pub mod history;
pub mod interval;
pub mod laws;
