//! A layout-preserving text template engine.
//!
//! A document is read line by line. Each line is split into tokens that carry
//! their place in the source; the tokens are grouped into symbols, among them
//! the placeholders `${name}` and `${...name}`; every placeholder is replaced
//! by a value or by the content of a file; and the text is written out again
//! with each surviving fragment moved sideways by exactly as much as the
//! replacements before it on its line have grown or shrunk.
//!
//! Columns and lengths are counted in `char`s throughout.

pub mod args;
pub mod back;
pub mod emission;
pub mod files;
pub mod front;
pub mod layout;
pub mod lexing;
pub mod parsing;
pub mod pipeline;
pub mod position;
pub mod round_trip;
pub mod symbol;
pub mod symbol_table;
pub mod text;
pub mod token;

pub use args::symbol_table_from_args;
pub use position::{Position, Range};
pub use symbol::Symbol;
pub use symbol_table::SymbolTable;
pub use token::Token;
