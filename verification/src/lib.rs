//! A miniature in-memory SQL engine.
//!
//! Raw statement text is tokenized, parsed into a typed statement, and
//! executed against an in-memory table store.  The whole store can be
//! serialized to a byte snapshot and restored from one; the snapshot
//! round-trip is proved exact.

pub mod digits;
pub mod text;
pub mod value;
pub mod tokenizer;
pub mod ast;
pub mod parser;
pub mod executor;
pub mod codec;
pub mod render;
pub mod laws;
