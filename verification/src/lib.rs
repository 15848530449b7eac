//! Lowering of a parsed program into a typed intermediate representation made
//! of basic blocks.
//!
//! [`ast`] holds the syntax tree that a parser hands over, [`ir`] the
//! representation a code generator consumes, and [`ir::builder`] the pass that
//! turns one into the other: scoped name resolution, type checking, the
//! desugaring of short-circuit operators and the assembly of the control-flow
//! graph.

pub mod ast;
pub mod ir;
