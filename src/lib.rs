//! A verified interpreter for the eight-instruction tape language:
//! a compiler that folds runs of arithmetic and move symbols, an optional
//! pass that resolves bracket jump targets ahead of time, and an execution
//! engine with an explicit run lifecycle.
//!
//! `semantics` states what compiling and executing mean, `scan` what bracket
//! matching means, and `laws` proves properties that relate them.

pub mod brain_fuck_interpreter;
pub mod error;
pub mod laws;
pub mod op_code;
pub mod scan;
pub mod semantics;

pub use brain_fuck_interpreter::BrainFuckInterpreter;
pub use error::Error;
pub use op_code::OpCode;
pub use semantics::State;
