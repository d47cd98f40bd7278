//! Tests for the byte-accurate tokenizer and the token stream.

use gcode_language_server::gcode::{
    parse_command_from_tokens, parse_parameter_simple, token_at_position, tokenize_line,
    tokenize_text, Parameter, Token, TokenIterator, TokenKind,
};
use gcode_language_server::value::Decimal;

#[test]
fn tokenize_line_basic() {
    let tokens = tokenize_line("G1 X10.0 Y5.2 ; move command", 0);
    assert_eq!(tokens.len(), 4);

    assert_eq!(tokens[0].kind, TokenKind::Command);
    assert_eq!(tokens[0].text, "G1");
    assert_eq!(tokens[0].start, 0);
    assert_eq!(tokens[0].end, 2);

    assert_eq!(tokens[1].kind, TokenKind::Param);
    assert_eq!(tokens[1].text, "X10.0");

    assert_eq!(tokens[2].kind, TokenKind::Param);
    assert_eq!(tokens[2].text, "Y5.2");

    assert_eq!(tokens[3].kind, TokenKind::Comment);
    assert_eq!(tokens[3].text, "; move command");
}

#[test]
fn token_at_position_basic() {
    let tokens = tokenize_line("G1 X10.0 Y5.2", 0);
    let token = token_at_position(&tokens, 3).unwrap();
    assert_eq!(token.text, "X10.0");
    assert_eq!(token.kind, TokenKind::Param);

    let token = token_at_position(&tokens, 0).unwrap();
    assert_eq!(token.text, "G1");
    assert_eq!(token.kind, TokenKind::Command);
}

#[test]
fn parse_command_from_tokens_basic() {
    let line = "G1 X10.0 Y5.2 ; move command";
    let tokens = tokenize_line(line, 0);
    let command = parse_command_from_tokens(&tokens).expect("command");

    assert_eq!(command.code, "G1");
    assert_eq!(command.params.len(), 2);
    assert_eq!(command.params[0].letter, 'X');
    assert_eq!(command.params[0].value, Decimal::from_whole(10));
    assert_eq!(command.params[1].letter, 'Y');
    assert_eq!(command.params[1].value, Decimal::parse("5.2").unwrap());
    assert!(command.comment.is_some());
    assert!(command.comment.unwrap().contains("move command"));
}

#[test]
fn parse_parameter_basic() {
    assert_eq!(
        parse_parameter_simple("X10.5").unwrap(),
        Parameter {
            letter: 'X',
            value: Decimal::parse("10.5").unwrap()
        }
    );
    assert_eq!(
        parse_parameter_simple("S200").unwrap(),
        Parameter {
            letter: 'S',
            value: Decimal::from_whole(200)
        }
    );
    assert!(parse_parameter_simple("").is_none());
    assert!(parse_parameter_simple("10.5").is_none()); // no letter
}

#[test]
fn streaming_iterator_basic() {
    let content = "G28 ; home\nM104 S200\nG1 X0 Y0\n";
    let mut it = TokenIterator::new(content);
    let mut tokens: Vec<Token> = Vec::new();
    while let Some(t) = it.next_token() {
        tokens.push(t);
    }

    // Should have tokens from all lines
    let commands: Vec<_> = tokens
        .iter()
        .filter(|t| t.kind == TokenKind::Command)
        .collect();
    assert!(commands.len() >= 3); // G28, M104, G1
}

#[test]
fn missing_newline_at_eof() {
    // last line has no trailing newline
    let text = "G1 X1 Y1\nG0 X0 Y0"; // no '\n' at EOF
    let tokens = tokenize_text(text);
    // there should be a token for the last line's command (G0)
    assert!(tokens.iter().any(|t| t.text == "G0"));
}

#[test]
fn multiple_commands_on_one_line() {
    // a single line containing two commands separated by whitespace
    let text = "G28 G1 X0 Y0\n";
    let tokens = tokenize_text(text);
    // Expect two command tokens at least: G28 and G1
    let commands: Vec<_> = tokens
        .iter()
        .filter(|t| t.kind == TokenKind::Command)
        .collect();
    assert!(commands.iter().any(|t| t.text == "G28"));
    assert!(commands.iter().any(|t| t.text == "G1"));
}

#[test]
fn long_comment_block() {
    // long comment (simulate large comments) should be captured as a comment token
    let long_comment = "a".repeat(10_000);
    let text = format!("G1 X0 Y0 ;{}\n", long_comment);
    let tokens = tokenize_text(&text);
    let comment = tokens
        .iter()
        .find(|t| t.kind == TokenKind::Comment)
        .expect("comment token");
    assert!(comment.text.len() >= 10_000);
}

#[test]
fn integration_tokenize_sample() {
    let sample = ["G28 ; home", "M104 S200 (set hotend)", "G1 X10 Y10 F1500"];

    // Join the lines with newlines to create a complete text
    let text = sample.join("\n");
    let tokens = tokenize_text(&text);

    // quick sanity: we should have at least one command per line
    assert!(tokens.iter().any(|t| t.kind == TokenKind::Command));

    // find token at a few positions
    let t0 = token_at_position(&tokens, 0).expect("token at 0");
    assert_eq!(t0.kind, TokenKind::Command);

    // position inside comment of first line
    let comment_pos = sample[0].find(';').unwrap() + 1;
    let global_pos = comment_pos;
    let t_comment = token_at_position(&tokens, global_pos).expect("comment token");
    assert_eq!(t_comment.kind, TokenKind::Comment);
}

#[test]
fn tokenize_text_offsets_accumulate() {
    // offsets on the second line continue after the first line plus newline
    let tokens = tokenize_text("G28\nG1 X2");
    let g1 = tokens.iter().find(|t| t.text == "G1").unwrap();
    assert_eq!(g1.start, 4);
    assert_eq!(g1.end, 6);
    let x2 = tokens.iter().find(|t| t.text == "X2").unwrap();
    assert_eq!(x2.start, 7);
    assert_eq!(x2.end, 9);
}

#[test]
fn unterminated_paren_comment_closes_at_line_end() {
    let tokens = tokenize_line("G1 (never closed", 0);
    assert_eq!(tokens.len(), 2);
    assert_eq!(tokens[1].kind, TokenKind::Comment);
    assert_eq!(tokens[1].text, "(never closed");
    assert_eq!(tokens[1].end, 16);
}

#[test]
fn garbage_bytes_are_skipped() {
    let tokens = tokenize_line("@! G1 #% X1", 0);
    assert_eq!(tokens.len(), 2);
    assert_eq!(tokens[0].text, "G1");
    assert_eq!(tokens[1].text, "X1");
}

#[test]
fn token_ranges_are_ordered_and_disjoint() {
    let line = "G1 (mid) X10.5 ; tail";
    let tokens = tokenize_line(line, 7);
    assert!(!tokens.is_empty());
    for t in &tokens {
        assert!(7 <= t.start && t.start < t.end);
        assert!(t.end <= 7 + line.len());
    }
    for w in tokens.windows(2) {
        assert!(w[0].end <= w[1].start);
    }
}

#[test]
fn tokenizing_twice_gives_equal_streams() {
    let line = "M104 S210 ; heat";
    assert_eq!(tokenize_line(line, 3), tokenize_line(line, 3));
    let text = "G28\nG1 X1 Y2\n";
    assert_eq!(tokenize_text(text), tokenize_text(text));
}
