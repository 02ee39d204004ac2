use vstd::prelude::*;

pub mod text;
pub mod json;
pub mod util;
pub mod tokenizer;
pub mod slots;
pub mod text_component;
pub mod query;
pub mod order;
pub mod index;
pub mod indexes;
pub mod archive;
pub mod dictionary;
pub mod builder;
pub mod dict;
pub mod server;
pub mod number;
pub mod modlist;
pub mod download;
pub mod index_build;
pub mod cache;
pub mod memory_index;

verus! {
} // verus!
