//! What holds of inference as a whole.

pub mod asks;
pub mod calls;
pub mod ends;
pub mod firsts;
pub mod guard;
pub mod indexing;
pub mod kept;
pub mod keys;
pub mod lookups;
pub mod members;
pub mod operators;
