//! The front end of a small source-to-source compiler: a model of the
//! grammar engine's rule-tagged parse trees, the lowering of those trees
//! into a typed AST, the literal conversions that lowering performs, the
//! computable parts of the project pipeline, and spell correction for
//! mistyped subcommands.

pub mod ast;
pub mod literals;
pub mod parse_tree;
pub mod project;
pub mod suggest;
