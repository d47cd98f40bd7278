//! Positionless tokens for parsing.
//!
//! The byte-accurate tokenizer lives in [`crate::gcode`]; this module
//! presents the same token stream without offsets, which is all the parser
//! and the validation engine need.

use vstd::prelude::*;

use crate::gcode::{spec_tokenize_line, GToken};
use crate::text::{is_ascii_letter, spec_upper_char, width_sum};

verus! {

/// The kind of a token.
#[derive(Debug, Clone, Copy, PartialEq, Eq, Structural)]
pub enum TokenKind {
    Command,
    Parameter,
    Comment,
}

/// A token: its kind and its text.
#[derive(Debug, Clone, PartialEq)]
pub struct Token {
    pub kind: TokenKind,
    pub text: String,
}

/// Mathematical image of a [`Token`].
pub ghost struct GLexToken {
    pub kind: TokenKind,
    pub text: Seq<char>,
}

impl View for Token {
    type V = GLexToken;

    open spec fn view(&self) -> GLexToken {
        GLexToken { kind: self.kind, text: self.text@ }
    }
}

/// The views of a sequence of tokens.
pub open spec fn lex_tokens_view(ts: Seq<Token>) -> Seq<GLexToken> {
    ts.map_values(|t: Token| t@)
}

/// The positionless image of a positioned token kind.
pub open spec fn kind_of(k: crate::gcode::TokenKind) -> TokenKind {
    match k {
        crate::gcode::TokenKind::Command => TokenKind::Command,
        crate::gcode::TokenKind::Param => TokenKind::Parameter,
        crate::gcode::TokenKind::Comment => TokenKind::Comment,
    }
}

/// The tokens of one line, without positions.
pub open spec fn spec_lex_line(line: Seq<char>) -> Seq<GLexToken> {
    spec_tokenize_line(line, 0).map_values(
        |g: GToken| GLexToken { kind: kind_of(g.kind), text: g.text },
    )
}

/// Tokenize a line of G-code into positionless tokens.
pub fn tokenize_line(line: &str) -> (tokens: Vec<Token>)
    requires
        width_sum(line@) <= usize::MAX,
    ensures
        lex_tokens_view(tokens@) == spec_lex_line(line@),
{
    let gtoks = crate::gcode::tokenize_line(line, 0);
    let n = gtoks.len();
    let mut out: Vec<Token> = Vec::new();
    let ghost gview = crate::gcode::tokens_view(gtoks@);
    while out.len() < n
        invariant
            n == gtoks@.len(),
            out@.len() <= n,
            gview == crate::gcode::tokens_view(gtoks@),
            gview == spec_tokenize_line(line@, 0),
            gview.len() == n,
            lex_tokens_view(out@) =~= spec_lex_line(line@).take(out@.len() as int),
            spec_lex_line(line@).len() == n,
        decreases n - out.len(),
    {
        let i = out.len();
        let t = &gtoks[i];
        let kind = match t.kind {
            crate::gcode::TokenKind::Command => TokenKind::Command,
            crate::gcode::TokenKind::Param => TokenKind::Parameter,
            crate::gcode::TokenKind::Comment => TokenKind::Comment,
        };
        let text = t.text.clone();
        out.push(Token { kind, text });
        proof {
            assert(gview[i as int] == gtoks@[i as int]@);
            assert(spec_lex_line(line@)[i as int] == (GLexToken {
                kind: kind_of(gview[i as int].kind),
                text: gview[i as int].text,
            }));
            assert(lex_tokens_view(out@) =~= spec_lex_line(line@).take(out@.len() as int));
        }
    }
    proof {
        assert(spec_lex_line(line@).take(n as int) =~= spec_lex_line(line@));
    }
    out
}

/// The command heuristic on a whole word: commands start with G, M or T.
pub open spec fn spec_is_command(text: Seq<char>) -> bool {
    text.len() > 0 && crate::gcode::is_command_first(text[0])
}

/// Determine whether a token's text would be classified as a command.
pub fn is_command(text: &str) -> (r: bool)
    ensures
        r == spec_is_command(text@),
{
    let cs = crate::text::chars_of(text);
    if cs.len() == 0 {
        false
    } else {
        crate::gcode::command_first(cs[0])
    }
}

} // verus!
