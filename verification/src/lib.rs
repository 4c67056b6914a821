//! A deterministic single-tape Turing machine: the machine description with
//! its builder and resolver, the two-sided tape, and the stepping interpreter.
//! Every function is verified against a mathematical model of its data.

pub mod builder;
pub mod desc;
pub mod errors;
pub mod machine;
pub mod parser;
pub mod resolver;
pub mod table;
pub mod tape;
pub mod text;
pub mod validate;

pub use desc::{Movement, State, Transition};
pub use errors::TMDescError;
pub use machine::{TMView, TM};
pub use table::TMDesc;
pub use tape::{Tape, TapeView};
pub use text::{chars_of, split_fields, string_of};
