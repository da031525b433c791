//! Front-end decomposition stage of a small curly-brace language compiler.
//!
//! Raw source text, given as a sequence of lines, is turned into two trees:
//! a tree of nested lexical scopes ([`block::Block`]) derived purely from
//! brace nesting, and a parallel tree of classified tokens
//! ([`project::TokenBlock`]) ready for a grammar-level parser. A stateful
//! [`cursor::LineCursor`] offers forward/backward iteration over the lines,
//! and a [`cache::BlockCache`] memoizes previously built scope trees.

pub mod block;
pub mod cache;
pub mod cursor;
pub mod line;
pub mod project;
pub mod token;
