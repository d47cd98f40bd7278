//! Tests for the positionless lexer and the line parser.

use gcode_language_server::parser::ast::{extract_comment_text, parse_parameter_token};
use gcode_language_server::parser::{
    is_command, parse_line, tokenize_line, Comment, ParsedLine, Token, TokenKind,
};

#[test]
fn test_tokenize_simple_command() {
    let tokens = tokenize_line("G1 X10 Y20");

    assert_eq!(tokens.len(), 3);
    assert_eq!(tokens[0].kind, TokenKind::Command);
    assert_eq!(tokens[0].text, "G1");
    assert_eq!(tokens[1].kind, TokenKind::Parameter);
    assert_eq!(tokens[1].text, "X10");
    assert_eq!(tokens[2].kind, TokenKind::Parameter);
    assert_eq!(tokens[2].text, "Y20");
}

#[test]
fn test_tokenize_with_semicolon_comment() {
    let tokens = tokenize_line("G1 X10 ; move to X10");

    assert_eq!(tokens.len(), 3);
    assert_eq!(tokens[2].kind, TokenKind::Comment);
    assert_eq!(tokens[2].text, "; move to X10");
}

#[test]
fn test_tokenize_paren_comment() {
    let tokens = tokenize_line("G1 (rapid move) X10");

    assert_eq!(tokens.len(), 3);
    assert_eq!(tokens[1].kind, TokenKind::Comment);
    assert_eq!(tokens[1].text, "(rapid move)");
}

#[test]
fn test_tokenize_comment_only() {
    let tokens = tokenize_line("; this is a comment");

    assert_eq!(tokens.len(), 1);
    assert_eq!(tokens[0].kind, TokenKind::Comment);
    assert_eq!(tokens[0].text, "; this is a comment");
}

#[test]
fn test_tokenize_empty_line() {
    let tokens = tokenize_line("   ");
    assert_eq!(tokens.len(), 0);
}

#[test]
fn test_is_command() {
    assert!(is_command("G1"));
    assert!(is_command("M104"));
    assert!(is_command("T0"));
    assert!(!is_command("X10"));
    assert!(!is_command("S255"));
}

#[test]
fn test_float_parameters() {
    let tokens = tokenize_line("G1 X10.5 Y-2.3 Z+1.0");

    assert_eq!(tokens.len(), 4);
    assert_eq!(tokens[1].text, "X10.5");
    assert_eq!(tokens[2].text, "Y-2.3");
    assert_eq!(tokens[3].text, "Z+1.0");
}

#[test]
fn test_parse_parameter_token() {
    let param = parse_parameter_token("X10.5").unwrap();
    assert_eq!(param.letter, 'X');
    assert_eq!(param.value, "10.5");
}

#[test]
fn test_extract_semicolon_comment() {
    let text = extract_comment_text("; this is a comment");
    assert_eq!(text, " this is a comment");
}

#[test]
fn test_extract_paren_comment() {
    let text = extract_comment_text("(this is a comment)");
    assert_eq!(text, "this is a comment");
}

#[test]
fn test_tokens_to_command() {
    let tokens = vec![
        Token {
            kind: TokenKind::Command,
            text: "G1".to_string(),
        },
        Token {
            kind: TokenKind::Parameter,
            text: "X10".to_string(),
        },
        Token {
            kind: TokenKind::Parameter,
            text: "Y20".to_string(),
        },
    ];

    let result = gcode_language_server::parser::ast::tokens_to_parsed_line(tokens);

    if let ParsedLine::Command(cmd) = result {
        assert_eq!(cmd.name, "G1");
        assert_eq!(cmd.parameters.len(), 2);
        assert_eq!(cmd.parameters[0].letter, 'X');
        assert_eq!(cmd.parameters[0].value, "10");
    } else {
        panic!("Expected command");
    }
}

#[test]
fn test_parse_simple_command() {
    let result = parse_line("G1 X10 Y20");

    if let ParsedLine::Command(cmd) = result {
        assert_eq!(cmd.name, "G1");
        assert_eq!(cmd.parameters.len(), 2);
        assert_eq!(cmd.parameters[0].letter, 'X');
        assert_eq!(cmd.parameters[0].value, "10");
    } else {
        panic!("Expected command");
    }
}

#[test]
fn test_parse_with_comment() {
    let result = parse_line("G1 X10 ; move to X10");

    if let ParsedLine::Command(cmd) = result {
        assert_eq!(cmd.name, "G1");
        assert_eq!(
            cmd.comment,
            Some(Comment {
                text: " move to X10".to_string()
            })
        );
    } else {
        panic!("Expected command");
    }
}

#[test]
fn test_parse_comment_only() {
    let result = parse_line("; this is a comment");

    if let ParsedLine::Comment(comment) = result {
        assert_eq!(comment.text, " this is a comment");
    } else {
        panic!("Expected comment");
    }
}

#[test]
fn test_parse_empty_line() {
    let result = parse_line("   ");
    assert!(matches!(result, ParsedLine::Empty));
}

#[test]
fn bare_letter_parameter_is_dropped() {
    // an unparseable parameter token (no value) is dropped, not fatal
    let result = parse_line("G28 X");
    if let ParsedLine::Command(cmd) = result {
        assert_eq!(cmd.name, "G28");
        assert_eq!(cmd.parameters.len(), 0);
    } else {
        panic!("Expected command");
    }
}
