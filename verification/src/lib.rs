//! A zero-copy scanner over string slices.
//!
//! A [`StrSlicer`] walks forward through a borrowed `&str`, carving off
//! substrings delimited by caller-supplied [`Pattern`]s, without allocating
//! or copying. Every operation is specified over the UTF-8 byte encoding of
//! the text, and the cursor invariant — the byte offset always lies on a
//! character boundary — is machine-checked.
//!
//! The modules: [`slicer`] holds the cursor engine and the [`Tracker`]
//! capability, [`pattern`] the pattern capability and its built-in
//! implementations, [`trackers`] the line-counting tracker, [`scan`] the
//! byte-level scanning routines the cursor is built from, [`diag`] the
//! diagnostics for invalid explicit positions, and [`laws`] the proved laws
//! that relate the operations to one another.

pub mod diag;
pub mod laws;
pub mod pattern;
pub mod scan;
pub mod slicer;
pub mod trackers;

pub use pattern::NonWhitespacePattern;
pub use pattern::Pattern;
pub use pattern::WhitespacePattern;
pub use slicer::AsSlicer;
pub use slicer::StrSlicer;
pub use slicer::Tracker;
