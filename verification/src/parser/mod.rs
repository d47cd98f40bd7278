//! Parsing: tokenization of a line and construction of its AST.
//!
//! `parse_line` is the main entry point: it tokenizes one line and groups
//! the tokens into a semantic line record.

use vstd::prelude::*;

pub mod ast;
pub mod lexer;

pub use ast::{Command, Comment, GCommand, GParameter, GParsedLine, Parameter, ParsedLine};
pub use lexer::{is_command, tokenize_line, Token, TokenKind};

verus! {

/// The parsed form of one line.
pub open spec fn spec_parse_line(line: Seq<char>) -> GParsedLine {
    ast::spec_tokens_to_parsed_line(lexer::spec_lex_line(line))
}

/// Parse a single line of G-code into a structured line record.
pub fn parse_line(line: &str) -> (r: ParsedLine)
    requires
        crate::text::width_sum(line@) <= usize::MAX,
    ensures
        r@ == spec_parse_line(line@),
{
    let tokens = lexer::tokenize_line(line);
    ast::tokens_to_parsed_line(tokens)
}

} // verus!
