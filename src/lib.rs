//! Source-code analysis: turns a file's text and declared language into a language-neutral
//! syntax tree, line metrics, dependencies, exports and a declarations-only skeleton, and
//! runs many such parses as a batch with a bound on the parses in flight.
//!
//! - `registry`: the supported languages and the grammar adapter of each
//! - `text`, `lines`: characters, physical lines and their classification
//! - `syntax`: the tree and how it is built from a file's code lines
//! - `engine`: one request to one response
//! - `skeleton`: signatures with bodies elided
//! - `batch`: the bounded-concurrency orchestration of a stream of requests
//! - `service`: the operations of the parser service
pub mod text;
pub mod lines;
pub mod registry;
pub mod syntax;
pub mod engine;
pub mod skeleton;
pub mod batch;
pub mod service;
