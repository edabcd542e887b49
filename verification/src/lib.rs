//! The front end of a command-line shell: characters to tokens, tokens to
//! words and operators, words and operators to a command tree.

use vstd::prelude::*;
use vstd::string::StringExecFns;

pub mod buffer;
pub mod chars;
pub mod cmd;
pub mod drive;
pub mod error;
pub mod expand;
pub mod lexer;
pub mod line;
pub mod mode;
pub mod parser;
pub mod roundtrip;
pub mod shell;
pub mod smap;
pub mod source;
pub mod state;
pub mod token;
pub mod walker;

verus! {

/// The tree items of `input`, handed out one by one.
pub fn parse(input: &str) -> (items: walker::Walker<lexer::Lexer>)
    ensures
        items.stream() == lexer::lex_stream(input@),
{
    let chars = chars::OwnedCharBuffer::new(String::from_str(input));
    walker::Walker::new(lexer::Lexer::new(chars))
}

} // verus!
