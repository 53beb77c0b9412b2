//! The token model: the tagged representation of a recognized unit of source
//! text together with its 1-indexed source position.

use vstd::prelude::*;
use crate::recognize::str_eq;

verus! {

/// The classification of a recognized unit of source text.
///
/// `Whitespace` is recognized so that the driver can advance its position
/// cursor over it, but it is discarded before output: an emitted token
/// sequence never contains it.
#[derive(Debug)]
pub enum LexemeKind {
    Whitespace(String),
    OpenBrace,
    CloseBrace,
    OpenParen,
    CloseParen,
    Semicolon,
    Keyword(String),
    Identifier(String),
    IntLiteral(i32),
}

/// Mathematical model of a `LexemeKind`: text as a sequence of characters,
/// the literal value as an unbounded integer.
pub ghost enum KindModel {
    Whitespace(Seq<char>),
    OpenBrace,
    CloseBrace,
    OpenParen,
    CloseParen,
    Semicolon,
    Keyword(Seq<char>),
    Identifier(Seq<char>),
    IntLiteral(int),
}

impl View for LexemeKind {
    type V = KindModel;

    open spec fn view(&self) -> KindModel {
        match self {
            LexemeKind::Whitespace(s) => KindModel::Whitespace(s@),
            LexemeKind::OpenBrace => KindModel::OpenBrace,
            LexemeKind::CloseBrace => KindModel::CloseBrace,
            LexemeKind::OpenParen => KindModel::OpenParen,
            LexemeKind::CloseParen => KindModel::CloseParen,
            LexemeKind::Semicolon => KindModel::Semicolon,
            LexemeKind::Keyword(s) => KindModel::Keyword(s@),
            LexemeKind::Identifier(s) => KindModel::Identifier(s@),
            LexemeKind::IntLiteral(v) => KindModel::IntLiteral(*v as int),
        }
    }
}

/// A classified, positioned unit of the source text.
///
/// `line` and `column` are 1-indexed and denote the position of the token's
/// first character in the untouched source.
#[derive(Debug)]
pub struct Lexeme {
    pub kind: LexemeKind,
    pub line: usize,
    pub column: usize,
}

/// Mathematical model of a `Lexeme`.
pub ghost struct LexemeModel {
    pub kind: KindModel,
    pub line: nat,
    pub column: nat,
}

impl View for Lexeme {
    type V = LexemeModel;

    open spec fn view(&self) -> LexemeModel {
        LexemeModel { kind: self.kind@, line: self.line as nat, column: self.column as nat }
    }
}

/// A structured lexing failure.
///
/// `UnrecognizedInput` reports the position of the first character at which
/// no recognizer matched. `IntLiteralOverflow` reports an integer literal
/// whose decimal value does not fit in a 32-bit signed integer, together
/// with the offending digit run.
#[derive(Debug)]
pub enum LexError {
    UnrecognizedInput { line: usize, column: usize },
    IntLiteralOverflow { line: usize, column: usize, text: String },
}

/// Mathematical model of a `LexError`.
pub ghost enum LexErrorModel {
    UnrecognizedInput { line: nat, column: nat },
    IntLiteralOverflow { line: nat, column: nat, text: Seq<char> },
}

impl View for LexError {
    type V = LexErrorModel;

    open spec fn view(&self) -> LexErrorModel {
        match self {
            LexError::UnrecognizedInput { line, column } => LexErrorModel::UnrecognizedInput {
                line: *line as nat,
                column: *column as nat,
            },
            LexError::IntLiteralOverflow { line, column, text } => LexErrorModel::IntLiteralOverflow {
                line: *line as nat,
                column: *column as nat,
                text: text@,
            },
        }
    }
}

impl PartialEq for LexemeKind {
    fn eq(&self, other: &Self) -> bool {
        match (self, other) {
            (LexemeKind::Whitespace(a), LexemeKind::Whitespace(b)) => str_eq(
                a.as_str(),
                b.as_str(),
            ),
            (LexemeKind::OpenBrace, LexemeKind::OpenBrace) => true,
            (LexemeKind::CloseBrace, LexemeKind::CloseBrace) => true,
            (LexemeKind::OpenParen, LexemeKind::OpenParen) => true,
            (LexemeKind::CloseParen, LexemeKind::CloseParen) => true,
            (LexemeKind::Semicolon, LexemeKind::Semicolon) => true,
            (LexemeKind::Keyword(a), LexemeKind::Keyword(b)) => str_eq(a.as_str(), b.as_str()),
            (LexemeKind::Identifier(a), LexemeKind::Identifier(b)) => str_eq(
                a.as_str(),
                b.as_str(),
            ),
            (LexemeKind::IntLiteral(a), LexemeKind::IntLiteral(b)) => *a == *b,
            _ => false,
        }
    }
}

impl vstd::std_specs::cmp::PartialEqSpecImpl for LexemeKind {
    open spec fn obeys_eq_spec() -> bool {
        true
    }

    open spec fn eq_spec(&self, other: &Self) -> bool {
        self@ == other@
    }
}

impl PartialEq for Lexeme {
    fn eq(&self, other: &Self) -> bool {
        self.kind == other.kind && self.line == other.line && self.column == other.column
    }
}

impl vstd::std_specs::cmp::PartialEqSpecImpl for Lexeme {
    open spec fn obeys_eq_spec() -> bool {
        true
    }

    open spec fn eq_spec(&self, other: &Self) -> bool {
        self@ == other@
    }
}

impl PartialEq for LexError {
    fn eq(&self, other: &Self) -> bool {
        match (self, other) {
            (
                LexError::UnrecognizedInput { line: l1, column: c1 },
                LexError::UnrecognizedInput { line: l2, column: c2 },
            ) => *l1 == *l2 && *c1 == *c2,
            (
                LexError::IntLiteralOverflow { line: l1, column: c1, text: t1 },
                LexError::IntLiteralOverflow { line: l2, column: c2, text: t2 },
            ) => *l1 == *l2 && *c1 == *c2 && str_eq(t1.as_str(), t2.as_str()),
            _ => false,
        }
    }
}

impl vstd::std_specs::cmp::PartialEqSpecImpl for LexError {
    open spec fn obeys_eq_spec() -> bool {
        true
    }

    open spec fn eq_spec(&self, other: &Self) -> bool {
        self@ == other@
    }
}

} // verus!
