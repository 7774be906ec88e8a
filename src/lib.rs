//! An interpreter for the eight-symbol tape language: bracket resolution into
//! a jump table, a stepped execution engine over a circular tape, and the
//! text helpers around them.
pub mod interpret;
pub mod resolve;
pub mod tape;
pub mod text;

pub use interpret::{execute, run, Machine, RunResult};
pub use resolve::{generate_loop_lookup_table, symbols, Error, JumpTable};
pub use tape::{decrement_memory_pointer, increment_memory_pointer, TAPE_SIZE};
pub use text::{error_excerpt, sanitize_input, truncate_string};
