//! Token-budgeted segmentation of a long diff into overlapping windows, and the
//! refinement loop that threads each window's commit message into the next request.
pub mod error;
pub mod message;
pub mod pipeline;
pub mod planner;
pub mod refine;
pub mod tokenizer;
