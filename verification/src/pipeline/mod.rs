//! Stage logic of the pipeline: prompt ids and input sanitizing, the
//! identify stage's checks, dry-run planning, and checkpoint path rules.

pub mod checkpoint;
pub mod dry_run;
pub mod identify;
pub mod prompts;
