//! Byte-accurate, line-oriented G-code tokenizer.
//!
//! `tokenize_line` scans one line into typed tokens that carry absolute byte
//! offsets, suitable for mapping diagnostics back into an editor buffer.
//! The tokenizer is total: malformed input is skipped, never rejected.

use vstd::prelude::*;

use crate::text::{
    ascii_digit, ascii_letter, char_width, char_width_exec, chars_of, is_ascii_digit,
    is_ascii_letter, lemma_width_sum_concat, lemma_width_sum_is_byte_len, lemma_width_sum_split,
    spec_upper_char, upper_char, width_sum,
};

verus! {

/// The kind of a G-code token.
#[derive(Debug, Clone, Copy, PartialEq, Eq, Structural)]
pub enum TokenKind {
    Command,
    Param,
    Comment,
}

/// A G-code token: its kind, its text, and its absolute byte range
/// (half-open) in the source document.
#[derive(Debug, Clone, PartialEq)]
pub struct Token {
    pub kind: TokenKind,
    pub text: String,
    pub start: usize,
    pub end: usize,
}

/// Mathematical image of a [`Token`].
pub ghost struct GToken {
    pub kind: TokenKind,
    pub text: Seq<char>,
    pub start: int,
    pub end: int,
}

impl View for Token {
    type V = GToken;

    open spec fn view(&self) -> GToken {
        GToken { kind: self.kind, text: self.text@, start: self.start as int, end: self.end as int }
    }
}

/// The views of a sequence of tokens.
pub open spec fn tokens_view(ts: Seq<Token>) -> Seq<GToken> {
    ts.map_values(|t: Token| t@)
}

/// Characters that may continue a command or parameter word: ASCII
/// alphanumerics, '.', '-' and '+'.
pub open spec fn is_word_char(c: char) -> bool {
    is_ascii_letter(c) || is_ascii_digit(c) || c == '.' || c == '-' || c == '+'
}

/// Words starting with G, M or T (either case) are classified as commands;
/// every other word is a parameter. This is a deliberate heuristic, not a
/// grammar: a dialect command not starting with G/M/T is seen as a parameter.
pub open spec fn is_command_first(c: char) -> bool {
    spec_upper_char(c) == 'G' || spec_upper_char(c) == 'M' || spec_upper_char(c) == 'T'
}

/// First index at or after `j` that does not continue a word, or the line
/// length if the word runs to the end.
pub open spec fn word_end(line: Seq<char>, j: int) -> int
    decreases line.len() - j,
    when 0 <= j <= line.len()
{
    if j >= line.len() || !is_word_char(line[j]) {
        j
    } else {
        word_end(line, j + 1)
    }
}

/// Index one past the first ')' at or after `j`, or the line length if no
/// ')' follows (an unterminated parenthetical comment closes at line end).
pub open spec fn paren_end(line: Seq<char>, j: int) -> int
    decreases line.len() - j,
    when 0 <= j <= line.len()
{
    if j >= line.len() {
        line.len() as int
    } else if line[j] == ')' {
        j + 1
    } else {
        paren_end(line, j + 1)
    }
}

pub proof fn lemma_word_end_bounds(line: Seq<char>, j: int)
    requires
        0 <= j <= line.len(),
    ensures
        j <= word_end(line, j) <= line.len(),
    decreases line.len() - j,
{
    if j < line.len() && is_word_char(line[j]) {
        lemma_word_end_bounds(line, j + 1);
    }
}

pub proof fn lemma_paren_end_bounds(line: Seq<char>, j: int)
    requires
        0 <= j <= line.len(),
    ensures
        j <= paren_end(line, j) <= line.len(),
    decreases line.len() - j,
{
    if j < line.len() && line[j] != ')' {
        lemma_paren_end_bounds(line, j + 1);
    }
}

/// The tokens of `line` from character index `i` onward, with `pos` the
/// absolute byte offset of index `i`. This is the functional meaning of
/// [`tokenize_line`].
pub open spec fn spec_tokenize_from(line: Seq<char>, i: int, pos: int) -> Seq<GToken>
    decreases line.len() - i,
    when 0 <= i
    via spec_tokenize_from_decreases
{
    if i >= line.len() {
        Seq::empty()
    } else {
        let c = line[i];
        if c == ';' {
            let text = line.subrange(i, line.len() as int);
            seq![GToken { kind: TokenKind::Comment, text, start: pos, end: pos + width_sum(text) }]
        } else if c == '(' {
            let e = paren_end(line, i + 1);
            let text = line.subrange(i, e);
            seq![
                GToken { kind: TokenKind::Comment, text, start: pos, end: pos + width_sum(text) },
            ] + spec_tokenize_from(line, e, pos + width_sum(text))
        } else if is_ascii_letter(c) {
            let e = word_end(line, i + 1);
            let text = line.subrange(i, e);
            let kind = if is_command_first(c) {
                TokenKind::Command
            } else {
                TokenKind::Param
            };
            seq![GToken { kind, text, start: pos, end: pos + width_sum(text) }]
                + spec_tokenize_from(line, e, pos + width_sum(text))
        } else {
            spec_tokenize_from(line, i + 1, pos + char_width(c))
        }
    }
}

#[via_fn]
proof fn spec_tokenize_from_decreases(line: Seq<char>, i: int, pos: int) {
    if 0 <= i < line.len() {
        lemma_paren_end_bounds(line, i + 1);
        lemma_word_end_bounds(line, i + 1);
    }
}

/// The tokens of one full line at absolute byte offset `pos`.
pub open spec fn spec_tokenize_line(line: Seq<char>, pos: int) -> Seq<GToken> {
    spec_tokenize_from(line, 0, pos)
}

/// Exec test for a word character.
pub fn word_char(c: char) -> (r: bool)
    ensures
        r == is_word_char(c),
{
    ascii_letter(c) || ascii_digit(c) || c == '.' || c == '-' || c == '+'
}

/// Exec test for the command heuristic on a word's first character.
pub fn command_first(c: char) -> (r: bool)
    ensures
        r == is_command_first(c),
{
    let u = upper_char(c);
    u == 'G' || u == 'M' || u == 'T'
}

/// Tokenize one line of G-code. `offset` is the absolute byte offset of the
/// line's first byte; token byte ranges are absolute. Whitespace and bytes
/// that start no token are skipped: the tokenizer never fails.
pub fn tokenize_line(line: &str, offset: usize) -> (tokens: Vec<Token>)
    requires
        offset + width_sum(line@) <= usize::MAX,
    ensures
        tokens_view(tokens@) == spec_tokenize_line(line@, offset as int),
{
    let cs = chars_of(line);
    let n = cs.len();
    let mut toks: Vec<Token> = Vec::new();
    let mut i: usize = 0;
    let mut pos: usize = offset;
    proof {
        assert(line@.subrange(0, 0) =~= Seq::<char>::empty());
        lemma_width_sum_split(line@, 0, 0);
    }
    while i < n
        invariant
            cs@ == line@,
            n == cs@.len(),
            i <= n,
            offset + width_sum(line@) <= usize::MAX,
            pos == offset + width_sum(line@.subrange(0, i as int)),
            spec_tokenize_line(line@, offset as int) == tokens_view(toks@) + spec_tokenize_from(
                line@,
                i as int,
                pos as int,
            ),
        decreases n - i,
    {
        let ghost prev_toks = toks@;
        let ghost gi = i as int;
        let ghost gpos = pos as int;
        let c = cs[i];
        if c == ';' {
            let t = line.substring_char(i, n);
            let w = t.len();
            proof {
                lemma_width_sum_is_byte_len(t@);
                lemma_width_sum_split(line@, gi, n as int);
                crate::text::lemma_width_sum_bounds(line@.subrange(0, gi));
            }
            let text = t.to_owned();
            let tok = Token { kind: TokenKind::Comment, text, start: pos, end: pos + w };
            toks.push(tok);
            i = n;
            pos = pos + w;
            proof {
                assert(line@.subrange(0, n as int) =~= line@);
                lemma_width_sum_split(line@, gi, n as int);
                assert(tokens_view(toks@) =~= tokens_view(prev_toks) + seq![tok@]);
                assert(spec_tokenize_from(line@, gi, gpos) =~= seq![tok@]);
                assert(tokens_view(toks@) + spec_tokenize_from(line@, i as int, pos as int)
                    =~= tokens_view(prev_toks) + spec_tokenize_from(line@, gi, gpos));
            }
        } else if c == '(' {
            let mut j = i + 1;
            while j < n && cs[j] != ')'
                invariant
                    cs@ == line@,
                    n == cs@.len(),
                    i + 1 <= j <= n,
                    paren_end(line@, i + 1) == paren_end(line@, j as int),
                decreases n - j,
            {
                j = j + 1;
            }
            let e = if j < n {
                j + 1
            } else {
                n
            };
            proof {
                assert(e == paren_end(line@, i + 1));
                lemma_paren_end_bounds(line@, gi + 1);
            }
            let t = line.substring_char(i, e);
            let w = t.len();
            proof {
                lemma_width_sum_is_byte_len(t@);
                lemma_width_sum_split(line@, gi, e as int);
                crate::text::lemma_width_sum_bounds(line@.subrange(0, gi));
                crate::text::lemma_width_sum_bounds(line@.subrange(e as int, n as int));
            }
            let text = t.to_owned();
            let tok = Token { kind: TokenKind::Comment, text, start: pos, end: pos + w };
            toks.push(tok);
            i = e;
            pos = pos + w;
            proof {
                assert(line@.subrange(0, e as int) =~= line@.subrange(0, gi) + line@.subrange(
                    gi,
                    e as int,
                ));
                lemma_width_sum_concat(line@.subrange(0, gi), line@.subrange(gi, e as int));
                assert(tokens_view(toks@) =~= tokens_view(prev_toks) + seq![tok@]);
                assert(spec_tokenize_from(line@, gi, gpos) =~= seq![tok@] + spec_tokenize_from(
                    line@,
                    i as int,
                    pos as int,
                ));
                assert(tokens_view(toks@) + spec_tokenize_from(line@, i as int, pos as int)
                    =~= tokens_view(prev_toks) + spec_tokenize_from(line@, gi, gpos));
            }
        } else if ascii_letter(c) {
            let mut j = i + 1;
            while j < n && word_char(cs[j])
                invariant
                    cs@ == line@,
                    n == cs@.len(),
                    i + 1 <= j <= n,
                    word_end(line@, i + 1) == word_end(line@, j as int),
                decreases n - j,
            {
                j = j + 1;
            }
            let e = j;
            proof {
                assert(e == word_end(line@, i + 1));
                lemma_word_end_bounds(line@, gi + 1);
            }
            let t = line.substring_char(i, e);
            let w = t.len();
            proof {
                lemma_width_sum_is_byte_len(t@);
                lemma_width_sum_split(line@, gi, e as int);
                crate::text::lemma_width_sum_bounds(line@.subrange(0, gi));
                crate::text::lemma_width_sum_bounds(line@.subrange(e as int, n as int));
            }
            let text = t.to_owned();
            let kind = if command_first(c) {
                TokenKind::Command
            } else {
                TokenKind::Param
            };
            let tok = Token { kind, text, start: pos, end: pos + w };
            toks.push(tok);
            i = e;
            pos = pos + w;
            proof {
                assert(line@.subrange(0, e as int) =~= line@.subrange(0, gi) + line@.subrange(
                    gi,
                    e as int,
                ));
                lemma_width_sum_concat(line@.subrange(0, gi), line@.subrange(gi, e as int));
                assert(tokens_view(toks@) =~= tokens_view(prev_toks) + seq![tok@]);
                assert(spec_tokenize_from(line@, gi, gpos) =~= seq![tok@] + spec_tokenize_from(
                    line@,
                    i as int,
                    pos as int,
                ));
                assert(tokens_view(toks@) + spec_tokenize_from(line@, i as int, pos as int)
                    =~= tokens_view(prev_toks) + spec_tokenize_from(line@, gi, gpos));
            }
        } else {
            let w = char_width_exec(c);
            proof {
                lemma_width_sum_split(line@, gi, gi + 1);
                assert(line@.subrange(gi, gi + 1) =~= seq![line@[gi]]);
                crate::text::lemma_width_sum_singleton(line@[gi]);
                assert(line@.subrange(0, gi + 1) =~= line@.subrange(0, gi) + line@.subrange(
                    gi,
                    gi + 1,
                ));
                lemma_width_sum_concat(line@.subrange(0, gi), line@.subrange(gi, gi + 1));
                crate::text::lemma_width_sum_bounds(line@.subrange(0, gi));
                crate::text::lemma_width_sum_bounds(line@.subrange(gi + 1, n as int));
            }
            i = i + 1;
            pos = pos + w;
        }
    }
    proof {
        assert(line@.subrange(0, n as int) =~= line@);
        assert(spec_tokenize_from(line@, n as int, pos as int) =~= Seq::<GToken>::empty());
        assert(tokens_view(toks@) + Seq::<GToken>::empty() =~= tokens_view(toks@));
    }
    toks
}

/// The tokens of a sequence of lines, offsets accumulating by each line's
/// byte length plus one for the line break.
pub open spec fn spec_tokenize_lines(lines: Seq<Seq<char>>, offset: int) -> Seq<GToken>
    decreases lines.len(),
{
    if lines.len() == 0 {
        Seq::empty()
    } else {
        spec_tokenize_line(lines[0], offset) + spec_tokenize_lines(
            lines.drop_first(),
            offset + width_sum(lines[0]) + 1,
        )
    }
}

/// The tokens of a whole document.
pub open spec fn spec_tokenize_text(s: Seq<char>) -> Seq<GToken> {
    spec_tokenize_lines(crate::text::spec_lines(s), 0)
}

/// Total byte budget of a sequence of lines: each line's byte length plus
/// one for its line break.
pub open spec fn lines_cost(lines: Seq<Seq<char>>) -> int
    decreases lines.len(),
{
    if lines.len() == 0 {
        0
    } else {
        width_sum(lines[0]) + 1 + lines_cost(lines.drop_first())
    }
}

pub proof fn lemma_lines_cost_nonneg(lines: Seq<Seq<char>>)
    ensures
        lines_cost(lines) >= 0,
    decreases lines.len(),
{
    if lines.len() > 0 {
        crate::text::lemma_width_sum_bounds(lines[0]);
        lemma_lines_cost_nonneg(lines.drop_first());
    }
}

/// Each line's byte length fits within the whole sequence's byte budget.
pub proof fn lemma_lines_cost_elem(lines: Seq<Seq<char>>, k: int)
    requires
        0 <= k < lines.len(),
    ensures
        width_sum(lines[k]) + 1 <= lines_cost(lines),
    decreases k,
{
    lemma_lines_cost_nonneg(lines.drop_first());
    crate::text::lemma_width_sum_bounds(lines[0]);
    if k > 0 {
        lemma_lines_cost_elem(lines.drop_first(), k - 1);
    }
}

/// The byte budget of the lines from index `i` onward never exceeds the
/// byte length of that part of the document, plus one for a missing final
/// line break.
pub proof fn lemma_lines_cost_bound(s: Seq<char>, i: int)
    requires
        0 <= i <= s.len(),
    ensures
        lines_cost(crate::text::spec_lines_from(s, i)) <= width_sum(
            s.subrange(i, s.len() as int),
        ) + 1,
    decreases s.len() - i,
{
    crate::text::lemma_width_sum_bounds(s.subrange(i, s.len() as int));
    if i < s.len() {
        let e = crate::text::find_nl(s, i);
        crate::text::lemma_find_nl_bounds(s, i);
        let raw = s.subrange(i, e);
        let ln = crate::text::strip_cr(raw);
        if raw.len() > 0 && raw.last() == '\r' {
            assert(raw =~= raw.drop_last() + seq![raw.last()]);
            lemma_width_sum_concat(raw.drop_last(), seq![raw.last()]);
            crate::text::lemma_width_sum_singleton(raw.last());
        }
        assert(width_sum(ln) <= width_sum(raw));
        if e >= s.len() {
            assert(seq![ln].drop_first() =~= Seq::<Seq<char>>::empty());
            assert(lines_cost(seq![ln].drop_first()) == 0);
            assert(lines_cost(crate::text::spec_lines_from(s, i)) == width_sum(ln) + 1);
            assert(raw =~= s.subrange(i, s.len() as int));
        } else {
            lemma_lines_cost_bound(s, e + 1);
            assert(s[e] == '\n');
            assert(s.subrange(i, s.len() as int) =~= raw + seq![s[e]] + s.subrange(
                e + 1,
                s.len() as int,
            ));
            lemma_width_sum_concat(raw + seq![s[e]], s.subrange(e + 1, s.len() as int));
            lemma_width_sum_concat(raw, seq![s[e]]);
            crate::text::lemma_width_sum_singleton(s[e]);
            assert(crate::text::spec_lines_from(s, i).drop_first() =~= crate::text::spec_lines_from(
                s,
                e + 1,
            ));
        }
    }
}

/// Tokenize a whole document: tokens of every line, with absolute byte
/// offsets accumulating line by line.
pub fn tokenize_text(text: &str) -> (tokens: Vec<Token>)
    requires
        width_sum(text@) < usize::MAX,
    ensures
        tokens_view(tokens@) == spec_tokenize_text(text@),
{
    let lines = crate::text::split_lines(text);
    let ghost ls = crate::text::spec_lines(text@);
    proof {
        lemma_lines_cost_bound(text@, 0);
        assert(text@.subrange(0, text@.len() as int) =~= text@);
    }
    let mut toks: Vec<Token> = Vec::new();
    let mut offset: usize = 0;
    let mut li: usize = 0;
    proof {
        assert(ls.skip(0) =~= ls);
    }
    while li < lines.len()
        invariant
            crate::text::lines_views(lines@) == ls,
            li <= lines@.len(),
            offset + lines_cost(ls.skip(li as int)) <= width_sum(text@) + 1,
            width_sum(text@) < usize::MAX,
            spec_tokenize_text(text@) == tokens_view(toks@) + spec_tokenize_lines(
                ls.skip(li as int),
                offset as int,
            ),
        decreases lines@.len() - li,
    {
        let ghost prev = toks@;
        let ghost goff = offset as int;
        let ghost rest = ls.skip(li as int);
        proof {
            assert(rest[0] == lines@[li as int]@);
            lemma_lines_cost_nonneg(rest.drop_first());
            crate::text::lemma_width_sum_bounds(rest[0]);
        }
        let line = &lines[li];
        let mut line_toks = tokenize_line(line.as_str(), offset);
        let w = line.as_str().len();
        proof {
            lemma_width_sum_is_byte_len(line@);
        }
        let ghost lt = line_toks@;
        toks.append(&mut line_toks);
        offset = offset + w + 1;
        li = li + 1;
        proof {
            assert(rest.drop_first() =~= ls.skip(li as int));
            assert(tokens_view(toks@) =~= tokens_view(prev) + tokens_view(lt));
            assert(tokens_view(prev) + spec_tokenize_lines(rest, goff) =~= tokens_view(toks@)
                + spec_tokenize_lines(ls.skip(li as int), offset as int));
        }
    }
    proof {
        assert(ls.skip(lines@.len() as int) =~= Seq::<Seq<char>>::empty());
        assert(tokens_view(toks@) + Seq::<GToken>::empty() =~= tokens_view(toks@));
    }
    toks
}

/// First index in `ts` whose byte range contains `p`, or the length if none.
pub open spec fn spec_first_at(ts: Seq<GToken>, p: int) -> int
    decreases ts.len(),
{
    if ts.len() == 0 {
        0
    } else if ts[0].start <= p < ts[0].end {
        0
    } else {
        1 + spec_first_at(ts.drop_first(), p)
    }
}

pub proof fn lemma_spec_first_at_bounds(ts: Seq<GToken>, p: int)
    ensures
        0 <= spec_first_at(ts, p) <= ts.len(),
        spec_first_at(ts, p) < ts.len() ==> ts[spec_first_at(ts, p)].start <= p < ts[spec_first_at(
            ts,
            p,
        )].end,
    decreases ts.len(),
{
    if ts.len() > 0 && !(ts[0].start <= p < ts[0].end) {
        lemma_spec_first_at_bounds(ts.drop_first(), p);
    }
}

/// Find the first token whose byte range contains the given position.
pub fn token_at_position(tokens: &Vec<Token>, position: usize) -> (r: Option<&Token>)
    ensures
        ({
            let ts = tokens_view(tokens@);
            let k = spec_first_at(ts, position as int);
            match r {
                Some(t) => k < ts.len() && t@ == ts[k],
                None => k == ts.len(),
            }
        }),
{
    let ghost ts = tokens_view(tokens@);
    proof {
        assert(ts.skip(0) =~= ts);
    }
    let mut i: usize = 0;
    while i < tokens.len()
        invariant
            ts == tokens_view(tokens@),
            i <= tokens@.len(),
            spec_first_at(ts, position as int) == i + spec_first_at(
                ts.skip(i as int),
                position as int,
            ),
        decreases tokens@.len() - i,
    {
        let ghost rest = ts.skip(i as int);
        proof {
            assert(rest[0] == ts[i as int]);
        }
        let t = &tokens[i];
        if t.start <= position && position < t.end {
            return Some(t);
        }
        i = i + 1;
        proof {
            assert(rest.drop_first() =~= ts.skip(i as int));
        }
    }
    proof {
        assert(ts.skip(tokens@.len() as int) =~= Seq::<GToken>::empty());
    }
    None
}


/// Determine whether a token's text would be classified as a command:
/// words starting with G, M or T, in either case.
pub fn is_command_text(text: &str) -> (r: bool)
    ensures
        r == (text@.len() > 0 && is_command_first(text@[0])),
{
    let cs = chars_of(text);
    if cs.len() == 0 {
        false
    } else {
        command_first(cs[0])
    }
}

/// A G-code command assembled from positioned tokens: its code, its
/// numerically interpreted parameters, and an optional raw comment text.
#[derive(Debug, Clone, PartialEq)]
pub struct Command {
    pub code: String,
    pub params: Vec<Parameter>,
    pub comment: Option<String>,
}

/// Mathematical image of a [`Command`].
pub ghost struct GCmd {
    pub code: Seq<char>,
    pub params: Seq<Parameter>,
    pub comment: Option<Seq<char>>,
}

impl View for Command {
    type V = GCmd;

    open spec fn view(&self) -> GCmd {
        GCmd {
            code: self.code@,
            params: self.params@,
            comment: match self.comment {
                Some(ref c) => Some(c@),
                None => None,
            },
        }
    }
}

/// A numerically interpreted parameter such as `X10.5`: its letter and its
/// fixed-point value.
#[derive(Debug, Clone, Copy, PartialEq, Eq, Structural)]
pub struct Parameter {
    pub letter: char,
    pub value: crate::value::Decimal,
}

/// The parameter denoted by a token text such as `X10.5`. `None` when the
/// text is too short, starts with no ASCII letter, or carries no
/// well-formed number.
pub open spec fn spec_param_simple(text: Seq<char>) -> Option<Parameter> {
    if text.len() >= 2 && is_ascii_letter(text[0]) && crate::value::decimal_grammar_ok(
        text.skip(1),
    ) {
        Some(
            Parameter {
                letter: text[0],
                value: crate::value::Decimal {
                    units: crate::value::spec_decimal_units(text.skip(1)) as i128,
                },
            },
        )
    } else {
        None
    }
}

/// Parse a parameter token such as `X10.5` into its letter and value.
pub fn parse_parameter_simple(text: &str) -> (r: Option<Parameter>)
    ensures
        r == spec_param_simple(text@),
{
    let cs = chars_of(text);
    let n = cs.len();
    if n < 2 {
        return None;
    }
    let letter = cs[0];
    if !ascii_letter(letter) {
        return None;
    }
    let rest = crate::text::line_part(text, 1, n);
    match crate::value::Decimal::parse(rest.as_str()) {
        Some(value) => {
            proof {
                assert(rest@ == text@.skip(1));
            }
            Some(Parameter { letter, value })
        },
        None => None,
    }
}

/// The letter and raw value of a parameter token; an empty value stands
/// for a flag-style parameter and defaults to "1".
pub open spec fn spec_param_raw(text: Seq<char>) -> Option<(char, Seq<char>)> {
    if text.len() == 0 {
        None
    } else if text.len() == 1 {
        Some((text[0], "1"@))
    } else {
        Some((text[0], text.skip(1)))
    }
}

/// Split a parameter token into its letter and raw value string; a bare
/// letter gets the flag value "1".
pub fn parse_parameter(param_text: &str) -> (r: Option<(char, String)>)
    ensures
        match spec_param_raw(param_text@) {
            Some(p) => r is Some && (r->0).0 == p.0 && (r->0).1@ == p.1,
            None => r is None,
        },
{
    let cs = chars_of(param_text);
    let n = cs.len();
    if n == 0 {
        return None;
    }
    let letter = cs[0];
    if n == 1 {
        let one = "1".to_owned();
        Some((letter, one))
    } else {
        Some((letter, crate::text::line_part(param_text, 1, n)))
    }
}

/// Last index in `ts` holding a token of kind `k`, if any.
pub open spec fn spec_last_kind(ts: Seq<GToken>, k: TokenKind) -> Option<int>
    decreases ts.len(),
{
    if ts.len() == 0 {
        None
    } else if ts.last().kind == k {
        Some(ts.len() - 1)
    } else {
        spec_last_kind(ts.drop_last(), k)
    }
}

/// The well-formed numeric parameters of a token stream, in order.
pub open spec fn spec_params_simple(ts: Seq<GToken>) -> Seq<Parameter>
    decreases ts.len(),
{
    if ts.len() == 0 {
        Seq::empty()
    } else {
        let rest = spec_params_simple(ts.drop_first());
        if ts[0].kind == TokenKind::Param {
            match spec_param_simple(ts[0].text) {
                Some(p) => seq![p] + rest,
                None => rest,
            }
        } else {
            rest
        }
    }
}

/// Group a token stream into a command: the last command token's code, the
/// well-formed numeric parameters in order, and the last comment's raw
/// text. `None` when no command token occurs.
pub fn parse_command_from_tokens(tokens: &Vec<Token>) -> (r: Option<Command>)
    ensures
        ({
            let ts = tokens_view(tokens@);
            match spec_last_kind(ts, TokenKind::Command) {
                Some(i) => r is Some && r->0@.code == ts[i].text && r->0@.params
                    == spec_params_simple(ts) && r->0@.comment == (match spec_last_kind(
                    ts,
                    TokenKind::Comment,
                ) {
                    Some(j) => Some(ts[j].text),
                    None => None::<Seq<char>>,
                }),
                None => r is None,
            }
        }),
{
    let ghost ts = tokens_view(tokens@);
    let n = tokens.len();
    let mut code: Option<String> = None;
    let mut params: Vec<Parameter> = Vec::new();
    let mut comment: Option<String> = None;
    proof {
        assert(ts.skip(0) =~= ts);
        assert(ts.take(0) =~= Seq::<GToken>::empty());
    }
    let mut i: usize = 0;
    while i < n
        invariant
            ts == tokens_view(tokens@),
            n == tokens@.len(),
            i <= n,
            match spec_last_kind(ts.take(i as int), TokenKind::Command) {
                Some(ci) => code is Some && code->0@ == ts[ci].text,
                None => code is None,
            },
            match spec_last_kind(ts.take(i as int), TokenKind::Comment) {
                Some(cj) => comment is Some && comment->0@ == ts[cj].text,
                None => comment is None,
            },
            spec_params_simple(ts) =~= params@ + spec_params_simple(ts.skip(i as int)),
        decreases n - i,
    {
        let ghost rest = ts.skip(i as int);
        let ghost prev_params = params@;
        proof {
            assert(rest[0] == ts[i as int]);
            assert(rest.drop_first() =~= ts.skip(i + 1));
            assert(ts.take(i + 1).drop_last() =~= ts.take(i as int));
            assert(ts.take(i + 1).last() == ts[i as int]);
        }
        let tok = &tokens[i];
        match tok.kind {
            TokenKind::Command => {
                code = Some(tok.text.clone());
            },
            TokenKind::Param => {
                match parse_parameter_simple(tok.text.as_str()) {
                    Some(p) => {
                        params.push(p);
                        proof {
                            assert(params@ =~= prev_params.push(p));
                        }
                    },
                    None => {
                    },
                }
            },
            TokenKind::Comment => {
                comment = Some(tok.text.clone());
            },
        }
        i = i + 1;
    }
    proof {
        assert(ts.take(n as int) =~= ts);
        assert(ts.skip(n as int) =~= Seq::<GToken>::empty());
        assert(params@ + Seq::<Parameter>::empty() =~= params@);
    }
    match code {
        Some(c) => Some(Command { code: c, params, comment }),
        None => None,
    }
}

/// A forward-only token stream over a document: tokens come line by line,
/// with byte offsets accumulating as in [`tokenize_text`]. Not restartable.
#[derive(Debug)]
pub struct TokenIterator {
    lines: Vec<String>,
    li: usize,
    offset: usize,
    // tokens of the current line, in reverse, so the next one is last
    buffer: Vec<Token>,
}

impl TokenIterator {
    /// The tokens this iterator has yet to yield.
    pub closed spec fn remaining(&self) -> Seq<GToken> {
        tokens_view(self.buffer@.reverse()) + spec_tokenize_lines(
            crate::text::lines_views(self.lines@).skip(self.li as int),
            self.offset as int,
        )
    }

    /// The iterator's bookkeeping stays within machine bounds.
    pub closed spec fn wf(&self) -> bool {
        &&& self.li <= self.lines@.len()
        &&& self.offset + lines_cost(
            crate::text::lines_views(self.lines@).skip(self.li as int),
        ) <= usize::MAX
    }

    /// Start a token stream over a whole document.
    pub fn new(text: &str) -> (r: TokenIterator)
        requires
            width_sum(text@) < usize::MAX,
        ensures
            r.wf(),
            r.remaining() == spec_tokenize_text(text@),
    {
        let lines = crate::text::split_lines(text);
        proof {
            lemma_lines_cost_bound(text@, 0);
            assert(text@.subrange(0, text@.len() as int) =~= text@);
            assert(crate::text::lines_views(lines@).skip(0) =~= crate::text::lines_views(
                lines@,
            ));
            assert(tokens_view(Seq::<Token>::empty().reverse()) =~= Seq::<GToken>::empty());
        }
        TokenIterator { lines, li: 0, offset: 0, buffer: Vec::new() }
    }

    /// The next token of the stream, or `None` at its end.
    pub fn next_token(&mut self) -> (r: Option<Token>)
        requires
            old(self).wf(),
        ensures
            final(self).wf(),
            match r {
                Some(t) => old(self).remaining().len() > 0 && t@ == old(self).remaining()[0]
                    && final(self).remaining() == old(self).remaining().drop_first(),
                None => old(self).remaining().len() == 0 && final(self).remaining()
                    == old(self).remaining(),
            },
    {
        loop
            invariant
                self.wf(),
                self.remaining() == old(self).remaining(),
            decreases self.lines@.len() - self.li,
        {
            let ghost rem = self.remaining();
            if self.buffer.len() > 0 {
                let ghost buf0 = self.buffer@;
                let t = self.buffer.pop().unwrap();
                proof {
                    assert(buf0.drop_last() =~= self.buffer@);
                    assert(self.buffer@.reverse() =~= buf0.reverse().drop_first());
                    assert(tokens_view(buf0.reverse())[0] == buf0.reverse()[0]@);
                    assert(buf0.reverse()[0] == t);
                    assert(tokens_view(self.buffer@.reverse()) =~= tokens_view(
                        buf0.reverse(),
                    ).drop_first());
                    assert(rem[0] == t@);
                    assert(self.remaining() =~= rem.drop_first());
                }
                return Some(t);
            }
            if self.li >= self.lines.len() {
                proof {
                    assert(crate::text::lines_views(self.lines@).skip(self.li as int) =~= Seq::<
                        Seq<char>,
                    >::empty());
                    assert(rem =~= Seq::<GToken>::empty());
                }
                return None;
            }
            let ghost ls = crate::text::lines_views(self.lines@);
            let ghost gli = self.li as int;
            proof {
                assert(ls.skip(gli)[0] == ls[gli]);
                assert(ls.skip(gli).drop_first() =~= ls.skip(gli + 1));
                lemma_lines_cost_nonneg(ls.skip(gli).drop_first());
                crate::text::lemma_width_sum_bounds(ls[gli]);
            }
            let line = &self.lines[self.li];
            let mut toks = tokenize_line(line.as_str(), self.offset);
            let w = line.as_str().len();
            proof {
                lemma_width_sum_is_byte_len(line@);
            }
            let ghost toks0 = toks@;
            // reverse into the buffer so the next token sits at the end
            let mut buf: Vec<Token> = Vec::new();
            proof {
                assert(toks0.subrange(0, toks0.len() as int) =~= toks0);
            }
            while toks.len() > 0
                invariant
                    toks@.len() <= toks0.len(),
                    toks@ == toks0.subrange(0, toks@.len() as int),
                    buf@.len() + toks@.len() == toks0.len(),
                    buf@.reverse() =~= toks0.subrange(toks@.len() as int, toks0.len() as int),
                decreases toks@.len(),
            {
                let ghost tlen = toks@.len() as int;
                let ghost buf_prev = buf@;
                let t = toks.pop().unwrap();
                buf.push(t);
                proof {
                    assert(t == toks0[tlen - 1]);
                    assert(toks@ =~= toks0.subrange(0, tlen - 1));
                    assert(buf@ == buf_prev.push(t));
                    assert forall|k: int| 0 <= k < buf@.len() implies buf@.reverse()[k]
                        == toks0.subrange(tlen - 1, toks0.len() as int)[k] by {
                        if k == 0 {
                            assert(buf@.reverse()[0] == buf@[buf@.len() - 1]);
                        } else {
                            assert(buf@.reverse()[k] == buf@[buf@.len() - 1 - k]);
                            assert(buf@[buf@.len() - 1 - k] == buf_prev[buf_prev.len() - 1 - (k
                                - 1)]);
                            assert(buf_prev.reverse()[k - 1] == buf_prev[buf_prev.len() - 1 - (k
                                - 1)]);
                            assert(buf_prev.reverse()[k - 1] == toks0.subrange(
                                tlen,
                                toks0.len() as int,
                            )[k - 1]);
                        }
                    }
                    assert(buf@.reverse() =~= toks0.subrange(tlen - 1, toks0.len() as int));
                }
            }
            proof {
                assert(buf@.reverse() =~= toks0);
            }
            self.buffer = buf;
            self.offset = self.offset + w + 1;
            self.li = self.li + 1;
            proof {
                assert(tokens_view(self.buffer@.reverse()) =~= tokens_view(toks0));
                assert(self.remaining() =~= rem);
            }
        }
    }
}


/// Determinism of the tokenizer: any two token vectors that tokenize the
/// same line at the same offset are the same token stream.
pub proof fn lemma_tokenize_line_deterministic(
    line: Seq<char>,
    offset: int,
    ts1: Seq<Token>,
    ts2: Seq<Token>,
)
    requires
        tokens_view(ts1) == spec_tokenize_line(line, offset),
        tokens_view(ts2) == spec_tokenize_line(line, offset),
    ensures
        tokens_view(ts1) == tokens_view(ts2),
{
}

/// Every token of `ts` has a non-empty byte range within `[lo, hi]`, and
/// the ranges are ordered and non-overlapping.
pub open spec fn tokens_in_range(ts: Seq<GToken>, lo: int, hi: int) -> bool {
    &&& forall|k: int|
        0 <= k < ts.len() ==> lo <= (#[trigger] ts[k]).start < ts[k].end <= hi
    &&& forall|k: int| 0 <= k && k + 1 < ts.len() ==> (#[trigger] ts[k]).end <= ts[k + 1].start
}

/// Prepending a token that ends where the rest begins keeps the ranges
/// ordered and bounded.
#[verifier::rlimit(100)]
#[verifier::spinoff_prover]
proof fn lemma_cons_range(g: GToken, rest: Seq<GToken>, lo: int, hi: int)
    requires
        lo <= g.start < g.end <= hi,
        tokens_in_range(rest, g.end, hi),
    ensures
        tokens_in_range(seq![g] + rest, lo, hi),
{
    let ts = seq![g] + rest;
    assert(ts.len() == 1 + rest.len());
    assert(ts[0] == g);
    assert forall|k: int| 0 <= k < ts.len() implies lo <= (#[trigger] ts[k]).start < ts[k].end
        <= hi by {
        if k > 0 {
            assert(ts[k] == rest[k - 1]);
        }
    }
    assert forall|k: int| 0 <= k && k + 1 < ts.len() implies (#[trigger] ts[k]).end <= ts[k
        + 1].start by {
        assert(ts.len() == 1 + rest.len());
        if k > 0 {
            assert(ts[k] == rest[k - 1]);
            assert(ts[k + 1] == rest[k]);
        } else {
            assert(rest.len() >= 1);
            assert(ts[1] == rest[0]);
            assert(rest[0].start >= g.end);
        }
    }
}

/// Token coverage from an intermediate state: the tokens of the rest of
/// the line lie within the rest of the line's byte range.
#[verifier::rlimit(100)]
pub proof fn lemma_token_coverage_from(line: Seq<char>, i: int, pos: int)
    requires
        0 <= i <= line.len(),
    ensures
        tokens_in_range(
            spec_tokenize_from(line, i, pos),
            pos,
            pos + width_sum(line.subrange(i, line.len() as int)),
        ),
    decreases line.len() - i,
{
    let len = line.len() as int;
    let hi = pos + width_sum(line.subrange(i, len));
    crate::text::lemma_width_sum_bounds(line.subrange(i, len));
    if i >= len {
    } else {
        let c = line[i];
        if c == ';' {
            assert(line.subrange(i, len).len() >= 1);
        } else if c == '(' {
            let e = paren_end(line, i + 1);
            lemma_paren_end_bounds(line, i + 1);
            let text = line.subrange(i, e);
            let w = width_sum(text);
            crate::text::lemma_width_sum_bounds(text);
            lemma_token_coverage_from(line, e, pos + w);
            assert(line.subrange(i, len) =~= line.subrange(i, e) + line.subrange(e, len));
            crate::text::lemma_width_sum_concat(line.subrange(i, e), line.subrange(e, len));
            crate::text::lemma_width_sum_bounds(line.subrange(e, len));
            let g = GToken { kind: TokenKind::Comment, text, start: pos, end: pos + w };
            lemma_cons_range(g, spec_tokenize_from(line, e, pos + w), pos, hi);
        } else if is_ascii_letter(c) {
            let e = word_end(line, i + 1);
            lemma_word_end_bounds(line, i + 1);
            let text = line.subrange(i, e);
            let w = width_sum(text);
            crate::text::lemma_width_sum_bounds(text);
            lemma_token_coverage_from(line, e, pos + w);
            assert(line.subrange(i, len) =~= line.subrange(i, e) + line.subrange(e, len));
            crate::text::lemma_width_sum_concat(line.subrange(i, e), line.subrange(e, len));
            crate::text::lemma_width_sum_bounds(line.subrange(e, len));
            let kind = if is_command_first(c) {
                TokenKind::Command
            } else {
                TokenKind::Param
            };
            let g = GToken { kind, text, start: pos, end: pos + w };
            lemma_cons_range(g, spec_tokenize_from(line, e, pos + w), pos, hi);
        } else {
            crate::text::lemma_char_width_bounds(c);
            let cw = crate::text::char_width(c);
            lemma_token_coverage_from(line, i + 1, pos + cw);
            assert(line.subrange(i, len) =~= line.subrange(i, i + 1) + line.subrange(i + 1, len));
            crate::text::lemma_width_sum_concat(line.subrange(i, i + 1), line.subrange(i + 1, len));
            assert(line.subrange(i, i + 1) =~= seq![c]);
            crate::text::lemma_width_sum_singleton(c);
            let rest = spec_tokenize_from(line, i + 1, pos + cw);
            assert(spec_tokenize_from(line, i, pos) == rest);
            assert forall|k: int| 0 <= k < rest.len() implies pos <= (#[trigger] rest[k]).start
                < rest[k].end <= hi by {}
        }
    }
}

/// Token coverage: the byte ranges of the tokens of one line are
/// non-empty, non-overlapping, ordered by start, and contained within the
/// line's own byte range.
#[verifier::rlimit(60)]
pub proof fn lemma_token_coverage(line: Seq<char>, offset: int)
    ensures
        tokens_in_range(spec_tokenize_line(line, offset), offset, offset + width_sum(line)),
{
    lemma_token_coverage_from(line, 0, offset);
    assert(line.subrange(0, line.len() as int) =~= line);
}

} // verus!
