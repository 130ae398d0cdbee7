//! A document algebra for building structured, annotatable text.
//!
//! Clients assemble a tree of primitive pieces (literal text, indentation
//! markers, concatenation groups, alternative layouts) with a small
//! combinator API, and may attach typed annotations to arbitrary
//! sub-regions of the tree.  A later layout resolver walks the finished
//! tree; this crate only builds it, and proves that what it builds is
//! structurally well formed: concatenation chains stay flat, declared
//! widths are never negative, and annotation brackets are always
//! balanced and properly nested.

pub mod doc;
pub mod laws;
pub mod trace;

pub use doc::AnnotDetails;
pub use doc::Doc;
pub use doc::DocBase;
