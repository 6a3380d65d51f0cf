//! A verified simulator for a small fixed-tape machine.
//!
//! The machine repeatedly reads the symbol under its head, looks the
//! (symbol, state) pair up in an immutable transition table, writes a new
//! symbol, moves the head one cell left or right (with an asymmetric wrap at
//! the tape's edges), and changes state.  `table` holds the transition table;
//! `engine` holds the execution loop and its mathematical model.

pub mod engine;
pub mod table;

pub use engine::ExecutionTrace;
pub use engine::HaltReason;
pub use engine::TraceRecord;
pub use engine::simulate;
pub use table::ConstructionError;
pub use table::Direction;
pub use table::Instruction;
pub use table::TransitionKey;
pub use table::TransitionTable;
