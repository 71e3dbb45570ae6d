//! A front end for small boolean circuits: a tokenizer and a stack-driven
//! parser that turn one line of text into an input count and a gate tree,
//! and a lexicon of words with their descriptions.

pub mod emulate;
pub mod gate;
pub mod lexer;
pub mod lexicon;
pub mod order;
pub mod parser;
pub mod remote;
pub mod reply;
pub mod text;
pub mod token;

pub use gate::Gate;
pub use lexer::tokenize;
pub use lexicon::Lexicon;
pub use parser::parse;
pub use token::{Error, Token};
