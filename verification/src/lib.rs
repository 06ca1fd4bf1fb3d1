//! A streaming, pull-based XML tokenizer.
//!
//! Bytes come in as a sequence of chunks (the deliveries of an underlying
//! byte source); a cursor decodes them on demand into Unicode scalar values,
//! a token engine matches punctuation, delimited regions and rule-driven
//! literals over the decoded characters with zero-cost backtracking, and a
//! finite state machine on top assembles the public event stream, one event
//! per call.
//!
//! Every operation is specified as a function of the concatenation of the
//! delivered chunks, so the event stream provably does not depend on how the
//! input was split into deliveries, nor on a byte-order mark matching the
//! detected encoding.

pub mod encoding;
pub mod error;
pub mod laws;
pub mod reader;
pub mod token;
