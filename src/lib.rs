//! A command-line argument parser: a declared schema of commands, options and
//! positional slots, a tokenizer that groups raw words into instances, and a
//! binder that resolves them into a queryable `Cli`.
pub mod text;
pub mod search;
pub mod schema;
pub mod instance;
pub mod raw;
pub mod pattern;
pub mod tokenize;
pub mod rawmap;
pub mod cli;
pub mod laws;
pub mod number;

pub use cli::{parse, Cli, Cmd};
pub use raw::Raw;
pub use schema::{Application, Argument, ArgumentType, Command, Options};
pub use instance::Instance;
pub use tokenize::{normalize, ParseError};
