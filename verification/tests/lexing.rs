use lexer::lex_str;
use lexer::recognize::get_next_token;
use lexer::token::{LexError, Lexeme, LexemeKind};

#[test]
fn get_next_token_test() {
    let (new_input, consumed_input, lexed_kind) = get_next_token("  test").unwrap();
    assert_eq!(new_input, "test");
    assert_eq!(consumed_input, "  ");
    assert_eq!(lexed_kind, LexemeKind::Whitespace(String::from("  ")));

    let (new_input, consumed_input, lexed_kind) = get_next_token(&new_input).unwrap();
    assert_eq!(new_input, "");
    assert_eq!(consumed_input, "test");
    assert_eq!(lexed_kind, LexemeKind::Identifier(String::from("test")));
}

#[test]
fn lex_str_test() {
    let lexed = lex_str("test foo bar").unwrap();
    assert_eq!(lexed.len(), 3);
    assert_eq!(
        lexed,
        vec![
            Lexeme {
                kind: LexemeKind::Identifier(String::from("test")),
                line: 1,
                column: 1,
            },
            Lexeme {
                kind: LexemeKind::Identifier(String::from("foo")),
                line: 1,
                column: 6,
            },
            Lexeme {
                kind: LexemeKind::Identifier(String::from("bar")),
                line: 1,
                column: 10,
            }
        ]
    );
}

#[test]
fn lexing_identifiers_vs_keywords() {
    let lexed = lex_str("test return").unwrap();
    assert_eq!(
        lexed,
        vec![
            Lexeme {
                kind: LexemeKind::Identifier(String::from("test")),
                line: 1,
                column: 1,
            },
            Lexeme {
                kind: LexemeKind::Keyword(String::from("return")),
                line: 1,
                column: 6,
            }
        ]
    );
}

#[test]
fn lexing_symbols() {
    let lexed = lex_str("{}();").unwrap();
    assert_eq!(
        lexed,
        vec![
            Lexeme {
                kind: LexemeKind::OpenBrace,
                line: 1,
                column: 1,
            },
            Lexeme {
                kind: LexemeKind::CloseBrace,
                line: 1,
                column: 2,
            },
            Lexeme {
                kind: LexemeKind::OpenParen,
                line: 1,
                column: 3,
            },
            Lexeme {
                kind: LexemeKind::CloseParen,
                line: 1,
                column: 4,
            },
            Lexeme {
                kind: LexemeKind::Semicolon,
                line: 1,
                column: 5,
            },
        ]
    );
}

#[test]
fn int_literals() {
    let lexed = lex_str("123 456").unwrap();
    assert_eq!(
        lexed,
        vec![
            Lexeme {
                kind: LexemeKind::IntLiteral(123),
                line: 1,
                column: 1,
            },
            Lexeme {
                kind: LexemeKind::IntLiteral(456),
                line: 1,
                column: 5,
            }
        ]
    );
}

#[test]
fn newline_resets_column() {
    let lexed = lex_str("foo\nbar").unwrap();
    assert_eq!(
        lexed,
        vec![
            Lexeme {
                kind: LexemeKind::Identifier(String::from("foo")),
                line: 1,
                column: 1,
            },
            Lexeme {
                kind: LexemeKind::Identifier(String::from("bar")),
                line: 2,
                column: 1,
            }
        ]
    );
}

#[test]
fn unrecognized_input_position() {
    let err = lex_str("foo $ bar").unwrap_err();
    assert_eq!(err, LexError::UnrecognizedInput { line: 1, column: 5 });
}

#[test]
fn unrecognized_input_after_newlines() {
    let err = lex_str("foo\nbar $").unwrap_err();
    assert_eq!(err, LexError::UnrecognizedInput { line: 2, column: 5 });
}

#[test]
fn empty_input_lexes_to_nothing() {
    let lexed = lex_str("").unwrap();
    assert!(lexed.is_empty());
}

#[test]
fn whitespace_only_input_lexes_to_nothing() {
    let lexed = lex_str(" \t\r\n  ").unwrap();
    assert!(lexed.is_empty());
}

#[test]
fn keyword_int_is_reserved() {
    let lexed = lex_str("int x;").unwrap();
    assert_eq!(
        lexed,
        vec![
            Lexeme {
                kind: LexemeKind::Keyword(String::from("int")),
                line: 1,
                column: 1,
            },
            Lexeme {
                kind: LexemeKind::Identifier(String::from("x")),
                line: 1,
                column: 5,
            },
            Lexeme {
                kind: LexemeKind::Semicolon,
                line: 1,
                column: 6,
            },
        ]
    );
}

#[test]
fn int_literal_at_i32_max() {
    let lexed = lex_str("2147483647").unwrap();
    assert_eq!(
        lexed,
        vec![Lexeme {
            kind: LexemeKind::IntLiteral(2147483647),
            line: 1,
            column: 1,
        }]
    );
}

#[test]
fn int_literal_overflow_is_reported() {
    let err = lex_str("2147483648").unwrap_err();
    assert_eq!(
        err,
        LexError::IntLiteralOverflow {
            line: 1,
            column: 1,
            text: String::from("2147483648"),
        }
    );
}

#[test]
fn int_literal_overflow_position() {
    let err = lex_str("x 99999999999").unwrap_err();
    assert_eq!(
        err,
        LexError::IntLiteralOverflow {
            line: 1,
            column: 3,
            text: String::from("99999999999"),
        }
    );
}

#[test]
fn lexing_is_deterministic() {
    let input = "int main() {\n  return 42;\n}\n";
    let first = lex_str(input).unwrap();
    let second = lex_str(input).unwrap();
    assert_eq!(first, second);
}

#[test]
fn consumed_spans_reconstruct_input() {
    let input = "int main() {\n  return 42;\n}\n";
    let mut remainder = String::from(input);
    let mut reconstructed = String::new();
    while let Some((new_input, consumed, _)) = get_next_token(&remainder) {
        reconstructed.push_str(&consumed);
        remainder = new_input;
    }
    assert_eq!(remainder, "");
    assert_eq!(reconstructed, input);
}

#[test]
fn progress_on_recognized_characters() {
    let lexed = lex_str("  a1_b {\t} 007 ;").unwrap();
    assert!(lexed.len() >= 1);
}

#[test]
fn a_full_function_definition() {
    let lexed = lex_str("int main() {\n  return 2;\n}").unwrap();
    assert_eq!(
        lexed,
        vec![
            Lexeme {
                kind: LexemeKind::Keyword(String::from("int")),
                line: 1,
                column: 1,
            },
            Lexeme {
                kind: LexemeKind::Identifier(String::from("main")),
                line: 1,
                column: 5,
            },
            Lexeme {
                kind: LexemeKind::OpenParen,
                line: 1,
                column: 9,
            },
            Lexeme {
                kind: LexemeKind::CloseParen,
                line: 1,
                column: 10,
            },
            Lexeme {
                kind: LexemeKind::OpenBrace,
                line: 1,
                column: 12,
            },
            Lexeme {
                kind: LexemeKind::Keyword(String::from("return")),
                line: 2,
                column: 3,
            },
            Lexeme {
                kind: LexemeKind::IntLiteral(2),
                line: 2,
                column: 10,
            },
            Lexeme {
                kind: LexemeKind::Semicolon,
                line: 2,
                column: 11,
            },
            Lexeme {
                kind: LexemeKind::CloseBrace,
                line: 3,
                column: 1,
            },
        ]
    );
}

#[test]
fn get_next_token_rejects_unrecognized_start() {
    assert!(get_next_token("$foo").is_none());
    assert!(get_next_token("").is_none());
    assert!(get_next_token("_x").is_none());
}
