//! Evaluation of uploaded documents by a language model, as far as it can be
//! decided without touching the outside world: what kind of document a
//! buffer holds, how its text is split into pages, which inference calls a
//! run makes and when, and what becomes of a record in the object store.
//!
//! Every module that needs the store, the extraction of text or the
//! inference service hands its caller a step to perform and takes the
//! outcome back.

pub mod chain;
pub mod errors;
pub mod evaluate;
pub mod extract;
pub mod lifecycle;
pub mod splitter;
pub mod store;
pub mod surface;
pub mod text;
pub mod trigger;
