//! Type inference for Lua member access.

pub mod cache;
pub mod code_lens;
pub mod db;
pub mod infer_index;
pub mod infer_setmetatable;
pub mod laws;
pub mod model;
pub mod reach;
pub mod syntax;
pub mod table;
pub mod text;
pub mod types;
