//! Pure planning and text logic behind the `decon` tutorial generator:
//! module keys, monorepo scope, setup scoring, context budget, Mermaid
//! sanitize/validate, structured-block extraction, structural evaluation,
//! and the LLM-call budget tracker.

pub mod abstraction;
pub mod budget;
pub mod config;
pub mod crawl;
pub mod diagrams;
pub mod eval;
pub mod extract;
pub mod llm;
pub mod mermaid;
pub mod module;
pub mod order;
pub mod pipeline;
pub mod progress;
pub mod scope;
pub mod setup;
pub mod text;

use vstd::prelude::*;

verus! {

/// The version of this crate.
pub const VERSION: &'static str = "0.1.0";

} // verus!
