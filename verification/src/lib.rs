//! Reconciles the documents of a document store with a message schema.
//!
//! The crate holds the decisions of a reconciliation run, each with a proved
//! contract: the structural validator that compares a JSON tree with a message
//! descriptor, the cursor that pages through a collection, the rules of the
//! conditional write, and the per-document state machine that sequences them.
//! Network traffic, the transform engine and the reading of schema files are
//! left to the program around it.

pub mod args;
pub mod conformance;
pub mod descriptor;
pub mod edits;
pub mod fetch;
pub mod json;
pub mod pipeline;
pub mod text;
pub mod update;
pub mod valid_proto;
