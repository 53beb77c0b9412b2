use lexer::position::advance_position;
use lexer::recognize::{convert_identifier_str, convert_symbol_str, str_eq};
use lexer::token::LexemeKind;

#[test]
fn advance_position_same_line() {
    assert_eq!(advance_position(1, 1, "abc"), (1, 4));
    assert_eq!(advance_position(3, 7, ""), (3, 7));
    assert_eq!(advance_position(1, 1, " \t "), (1, 4));
}

#[test]
fn advance_position_across_newlines() {
    assert_eq!(advance_position(1, 5, "a\nxy"), (2, 3));
    assert_eq!(advance_position(2, 4, "\n\n"), (4, 1));
    assert_eq!(advance_position(1, 1, "ab\n"), (2, 1));
}

#[test]
fn identifier_partition_on_keywords() {
    assert_eq!(
        convert_identifier_str("return"),
        LexemeKind::Keyword(String::from("return"))
    );
    assert_eq!(
        convert_identifier_str("int"),
        LexemeKind::Keyword(String::from("int"))
    );
    assert_eq!(
        convert_identifier_str("integer"),
        LexemeKind::Identifier(String::from("integer"))
    );
    assert_eq!(
        convert_identifier_str("ret"),
        LexemeKind::Identifier(String::from("ret"))
    );
}

#[test]
fn symbol_mapping() {
    assert_eq!(convert_symbol_str("{"), LexemeKind::OpenBrace);
    assert_eq!(convert_symbol_str("}"), LexemeKind::CloseBrace);
    assert_eq!(convert_symbol_str("("), LexemeKind::OpenParen);
    assert_eq!(convert_symbol_str(")"), LexemeKind::CloseParen);
    assert_eq!(convert_symbol_str(";"), LexemeKind::Semicolon);
}

#[test]
fn str_eq_agrees_with_string_equality() {
    assert!(str_eq("abc", "abc"));
    assert!(str_eq("", ""));
    assert!(!str_eq("abc", "abd"));
    assert!(!str_eq("a", "ab"));
}
