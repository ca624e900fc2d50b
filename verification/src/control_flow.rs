//! Structured control flow: a tree of blocks, loops, `if`s and basic blocks.
pub mod selector;
pub mod segment_order;
pub mod element;
pub mod blocks;
pub mod paths;
pub mod shape;
