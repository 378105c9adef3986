use vstd::prelude::*;

verus! {

/// Why a pipeline run stopped without a commit message.
#[derive(Debug, Clone)]
pub enum PipelineError {
    /// The token budget leaves no room for text, or the overlap does not
    /// leave the planner a positive step.
    Configuration,
    /// The input could not be tokenized faithfully; the position is a character offset into it.
    Tokenization { offset: usize },
    /// The generation service failed; the message is its description.
    Generation(String),
}

} // verus!
