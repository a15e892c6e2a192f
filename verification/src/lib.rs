//! A small tree-walking interpreter for a Lua-like scripting language.
//!
//! The crate is split into four parts:
//! - [`parser`]: a recursive-descent parser with ordered backtracking that
//!   turns source text into an abstract syntax tree of [`parser::Rule`] nodes;
//! - [`value`]: the runtime values (nil, booleans, integers, strings,
//!   functions and tables) and call frames;
//! - [`state`]: the virtual-machine state: a global table, a flat value
//!   stack (the registry) and a stack of call frames, together with the
//!   calling convention and the operator semantics;
//! - [`eval`]: the evaluator, which walks the syntax tree and drives the
//!   state.

pub mod eval;
pub mod parser;
pub mod state;
pub mod value;
