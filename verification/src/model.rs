//! The mathematical model of lexing: a recursive specification that maps
//! the input text to the token sequence the driver must produce, or to the
//! structured failure it must report.

use vstd::prelude::*;
use crate::position::{column_at, line_at};
use crate::recognize::{
    decimal_value, first_match_len, int_literal_selected, lemma_first_match_le, spec_first_kind,
    whitespace_match_len,
};
use crate::token::{LexError, LexErrorModel, Lexeme, LexemeModel};

verus! {

/// The tokens of the remainder of `s` that starts at offset `k`, each
/// positioned by counting lines and columns from the start of `s`.
///
/// At each step the registry's first matching rule consumes a non-empty
/// prefix of the remainder. Whitespace is consumed but discarded; every
/// other match appends one token carrying the position of its first
/// character. An integer literal whose decimal value exceeds `i32::MAX`
/// fails with `IntLiteralOverflow`; a remainder no rule matches fails with
/// `UnrecognizedInput`. Both failures carry the position where they arise.
pub open spec fn spec_lex_from(s: Seq<char>, k: int) -> Result<Seq<LexemeModel>, LexErrorModel>
    decreases s.len() - k,
        when 0 <= k <= s.len()
{
    if k == s.len() {
        Ok(Seq::empty())
    } else {
        let rem = s.skip(k);
        let n = first_match_len(rem);
        proof {
            lemma_first_match_le(rem);
        }
        if n == 0 {
            Err(
                LexErrorModel::UnrecognizedInput {
                    line: line_at(s, k),
                    column: column_at(s, k),
                },
            )
        } else if whitespace_match_len(rem) > 0 {
            spec_lex_from(s, k + n)
        } else if int_literal_selected(rem) && decimal_value(rem.take(n as int)) > i32::MAX {
            Err(
                LexErrorModel::IntLiteralOverflow {
                    line: line_at(s, k),
                    column: column_at(s, k),
                    text: rem.take(n as int),
                },
            )
        } else {
            match spec_lex_from(s, k + n) {
                Ok(rest) => Ok(
                    seq![
                        LexemeModel {
                            kind: spec_first_kind(rem),
                            line: line_at(s, k),
                            column: column_at(s, k),
                        },
                    ] + rest,
                ),
                Err(e) => Err(e),
            }
        }
    }
}

/// The lexing of a whole input: its tokens in source order, whitespace
/// elided, positions counted from line 1, column 1; or its failure.
pub open spec fn spec_lex(s: Seq<char>) -> Result<Seq<LexemeModel>, LexErrorModel> {
    spec_lex_from(s, 0)
}

/// The model of an executable lexing result.
pub open spec fn result_model(r: Result<Vec<Lexeme>, LexError>) -> Result<
    Seq<LexemeModel>,
    LexErrorModel,
> {
    match r {
        Ok(tokens) => Ok(tokens@.map_values(|t: Lexeme| t@)),
        Err(e) => Err(e@),
    }
}

/// What the driver promises: its result models the specification lexer
/// applied to the input.
pub open spec fn lexes_to(s: Seq<char>, r: Result<Vec<Lexeme>, LexError>) -> bool {
    result_model(r) == spec_lex(s)
}

} // verus!
