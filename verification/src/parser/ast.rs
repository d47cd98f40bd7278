//! Line-oriented AST for G-code.
//!
//! A parsed line is a command with its parameters and an optional trailing
//! comment, a bare comment, or nothing. Value parsing and typing are
//! deliberately deferred to validation, where the rules are flavor-specific.

use vstd::prelude::*;

use super::lexer::{GLexToken, Token, TokenKind};
use crate::text::is_ascii_letter;

verus! {

/// A parsed line of G-code.
#[derive(Debug, PartialEq)]
pub enum ParsedLine {
    /// A command with parameters and an optional comment.
    Command(Command),
    /// A comment-only line.
    Comment(Comment),
    /// An empty or whitespace-only line.
    Empty,
}

/// A G-code command such as `G1` or `M104`.
#[derive(Debug, PartialEq)]
pub struct Command {
    pub name: String,
    pub parameters: Vec<Parameter>,
    pub comment: Option<Comment>,
}

/// A command parameter such as `X10`: its letter and its raw value.
#[derive(Debug, PartialEq)]
pub struct Parameter {
    pub letter: char,
    pub value: String,
}

/// A comment with its delimiters stripped.
#[derive(Debug, PartialEq)]
pub struct Comment {
    pub text: String,
}

/// Mathematical image of a [`Parameter`].
pub ghost struct GParameter {
    pub letter: char,
    pub value: Seq<char>,
}

/// Mathematical image of a [`Command`].
pub ghost struct GCommand {
    pub name: Seq<char>,
    pub parameters: Seq<GParameter>,
    pub comment: Option<Seq<char>>,
}

/// Mathematical image of a [`ParsedLine`].
pub ghost enum GParsedLine {
    Command(GCommand),
    Comment(Seq<char>),
    Empty,
}

impl View for Parameter {
    type V = GParameter;

    open spec fn view(&self) -> GParameter {
        GParameter { letter: self.letter, value: self.value@ }
    }
}

impl View for Command {
    type V = GCommand;

    open spec fn view(&self) -> GCommand {
        GCommand {
            name: self.name@,
            parameters: self.parameters@.map_values(|p: Parameter| p@),
            comment: match self.comment {
                Some(ref c) => Some(c.text@),
                None => None,
            },
        }
    }
}

impl View for ParsedLine {
    type V = GParsedLine;

    open spec fn view(&self) -> GParsedLine {
        match self {
            ParsedLine::Command(c) => GParsedLine::Command(c@),
            ParsedLine::Comment(c) => GParsedLine::Comment(c.text@),
            ParsedLine::Empty => GParsedLine::Empty,
        }
    }
}

/// First index in `ts` holding a token of kind `k`, if any.
pub open spec fn spec_first_kind(ts: Seq<GLexToken>, k: TokenKind) -> Option<int>
    decreases ts.len(),
{
    if ts.len() == 0 {
        None
    } else if ts[0].kind == k {
        Some(0)
    } else {
        match spec_first_kind(ts.drop_first(), k) {
            None => None,
            Some(i) => Some(1 + i),
        }
    }
}

pub proof fn lemma_spec_first_kind(ts: Seq<GLexToken>, k: TokenKind)
    ensures
        match spec_first_kind(ts, k) {
            Some(i) => 0 <= i < ts.len() && ts[i].kind == k,
            None => forall|i: int| 0 <= i < ts.len() ==> (#[trigger] ts[i]).kind != k,
        },
    decreases ts.len(),
{
    if ts.len() > 0 && ts[0].kind != k {
        lemma_spec_first_kind(ts.drop_first(), k);
        if spec_first_kind(ts.drop_first(), k) is None {
            assert forall|i: int| 0 <= i < ts.len() implies (#[trigger] ts[i]).kind != k by {
                if i > 0 {
                    assert(ts.drop_first()[i - 1] == ts[i]);
                }
            }
        }
    }
}

/// The parameter denoted by a token's text: its first character as the
/// letter and the rest as the raw value. Texts without a letter or shorter
/// than two characters denote no parameter and are dropped.
pub open spec fn spec_param_of(text: Seq<char>) -> Option<GParameter> {
    if text.len() >= 2 && is_ascii_letter(text[0]) {
        Some(GParameter { letter: text[0], value: text.skip(1) })
    } else {
        None
    }
}

/// The parameters denoted by a token stream, in order.
pub open spec fn spec_params_of(ts: Seq<GLexToken>) -> Seq<GParameter>
    decreases ts.len(),
{
    if ts.len() == 0 {
        Seq::empty()
    } else {
        let rest = spec_params_of(ts.drop_first());
        if ts[0].kind == TokenKind::Parameter {
            match spec_param_of(ts[0].text) {
                Some(p) => seq![p] + rest,
                None => rest,
            }
        } else {
            rest
        }
    }
}

/// A comment's text with its delimiters stripped: the leading ';', or a
/// balanced pair of parentheses.
pub open spec fn spec_comment_text(text: Seq<char>) -> Seq<char> {
    if text.len() >= 1 && text[0] == ';' {
        text.skip(1)
    } else if text.len() >= 2 && text[0] == '(' && text.last() == ')' {
        text.subrange(1, text.len() - 1)
    } else {
        text
    }
}

/// The parsed line denoted by a token stream: a command if a command token
/// exists, else a comment if a comment token exists, else nothing.
pub open spec fn spec_tokens_to_parsed_line(ts: Seq<GLexToken>) -> GParsedLine {
    match spec_first_kind(ts, TokenKind::Command) {
        Some(i) => GParsedLine::Command(
            GCommand {
                name: ts[i].text,
                parameters: spec_params_of(ts),
                comment: match spec_first_kind(ts, TokenKind::Comment) {
                    Some(j) => Some(spec_comment_text(ts[j].text)),
                    None => None,
                },
            },
        ),
        None => match spec_first_kind(ts, TokenKind::Comment) {
            Some(j) => GParsedLine::Comment(spec_comment_text(ts[j].text)),
            None => GParsedLine::Empty,
        },
    }
}

/// Parse a single parameter token such as `X10.5`.
pub fn parse_parameter_token(text: &str) -> (r: Option<Parameter>)
    ensures
        match spec_param_of(text@) {
            Some(p) => r is Some && r->0@ == p,
            None => r is None,
        },
{
    let cs = crate::text::chars_of(text);
    if cs.len() < 2 {
        return None;
    }
    let letter = cs[0];
    if !crate::text::ascii_letter(letter) {
        return None;
    }
    let value = crate::text::line_part(text, 1, cs.len());
    Some(Parameter { letter, value })
}

/// Strip the comment delimiters from a comment token's text.
pub fn extract_comment_text(text: &str) -> (r: String)
    ensures
        r@ == spec_comment_text(text@),
{
    let cs = crate::text::chars_of(text);
    let n = cs.len();
    if n >= 1 && cs[0] == ';' {
        crate::text::line_part(text, 1, n)
    } else if n >= 2 && cs[0] == '(' && cs[n - 1] == ')' {
        crate::text::line_part(text, 1, n - 1)
    } else {
        crate::text::line_part(text, 0, n)
    }
}

/// Find the first token of the given kind.
fn first_of_kind(tokens: &Vec<Token>, k: TokenKind) -> (r: Option<usize>)
    ensures
        match spec_first_kind(super::lexer::lex_tokens_view(tokens@), k) {
            Some(i) => r is Some && r->0 == i,
            None => r is None,
        },
{
    let ghost ts = super::lexer::lex_tokens_view(tokens@);
    proof {
        assert(ts.skip(0) =~= ts);
    }
    let n = tokens.len();
    let mut i: usize = 0;
    while i < n
        invariant
            ts == super::lexer::lex_tokens_view(tokens@),
            n == tokens@.len(),
            i <= n,
            spec_first_kind(ts, k) == match spec_first_kind(ts.skip(i as int), k) {
                None => None::<int>,
                Some(j) => Some(j + i),
            },
        decreases n - i,
    {
        let ghost rest = ts.skip(i as int);
        proof {
            assert(rest[0] == ts[i as int]);
        }
        if tokens[i].kind == k {
            return Some(i);
        }
        i = i + 1;
        proof {
            assert(rest.drop_first() =~= ts.skip(i as int));
        }
    }
    proof {
        assert(ts.skip(n as int) =~= Seq::<GLexToken>::empty());
    }
    None
}

/// Build a parsed line from a token stream.
pub fn tokens_to_parsed_line(tokens: Vec<Token>) -> (r: ParsedLine)
    ensures
        r@ == spec_tokens_to_parsed_line(super::lexer::lex_tokens_view(tokens@)),
{
    let ghost ts = super::lexer::lex_tokens_view(tokens@);
    proof {
        lemma_spec_first_kind(ts, TokenKind::Command);
        lemma_spec_first_kind(ts, TokenKind::Comment);
    }
    let cmd_idx = first_of_kind(&tokens, TokenKind::Command);
    let comment_idx = first_of_kind(&tokens, TokenKind::Comment);
    match cmd_idx {
        Some(ci) => {
            let name = tokens[ci].text.clone();
            // collect the parameters in order
            let n = tokens.len();
            let mut parameters: Vec<Parameter> = Vec::new();
            proof {
                assert(ts.skip(0) =~= ts);
            }
            let mut i: usize = 0;
            while i < n
                invariant
                    ts == super::lexer::lex_tokens_view(tokens@),
                    n == tokens@.len(),
                    i <= n,
                    spec_params_of(ts) =~= parameters@.map_values(|p: Parameter| p@)
                        + spec_params_of(ts.skip(i as int)),
                decreases n - i,
            {
                let ghost rest = ts.skip(i as int);
                let ghost prev = parameters@;
                proof {
                    assert(rest[0] == ts[i as int]);
                    assert(rest.drop_first() =~= ts.skip(i + 1));
                }
                let t = &tokens[i];
                if t.kind == TokenKind::Parameter {
                    match parse_parameter_token(t.text.as_str()) {
                        Some(p) => {
                            parameters.push(p);
                            proof {
                                assert(parameters@.map_values(|p: Parameter| p@)
                                    =~= prev.map_values(|p: Parameter| p@).push(
                                    parameters@.last()@,
                                ));
                            }
                        },
                        None => {
                        },
                    }
                }
                i = i + 1;
            }
            proof {
                assert(ts.skip(n as int) =~= Seq::<GLexToken>::empty());
                assert(spec_params_of(ts) =~= parameters@.map_values(|p: Parameter| p@));
            }
            let comment = match comment_idx {
                Some(cj) => Some(
                    Comment { text: extract_comment_text(tokens[cj].text.as_str()) },
                ),
                None => None,
            };
            ParsedLine::Command(Command { name, parameters, comment })
        },
        None => {
            match comment_idx {
                Some(cj) => ParsedLine::Comment(
                    Comment { text: extract_comment_text(tokens[cj].text.as_str()) },
                ),
                None => ParsedLine::Empty,
            }
        },
    }
}

} // verus!
