//! Translator for textual debug dumps of a node's transaction pool.
//!
//! Two dump shapes are supported: a full-transaction dump ("Content") and a
//! per-address nonce-summary dump ("Inspect"). The library detects the shape,
//! translates either one into a JSON value, and serializes that value to
//! pretty-printed text. All processing is pure text transformation over
//! sequences of characters; the process entrypoint that performs I/O lives
//! outside the library.

pub mod chars;
pub mod content;
pub mod encode;
pub mod inspect;
pub mod json;
pub mod normalize;
pub mod parse;
pub mod rewrite;
pub mod translate;
