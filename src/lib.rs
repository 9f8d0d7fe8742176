//! A small markup parser: a whitespace tokenizer feeding a character-level
//! state machine that builds an index-linked tree of nodes.
pub mod text;
pub mod tokenizer;
pub mod tree;
pub mod attributes;
pub mod builder;
pub mod render;
