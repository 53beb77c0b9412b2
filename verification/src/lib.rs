//! A lexer for a small C-like language: it converts raw source text into a
//! sequence of classified tokens positioned by line and column, or reports a
//! structured failure at the first unrecognized character.

pub mod model;
pub mod position;
pub mod props;
pub mod recognize;
pub mod token;

use vstd::prelude::*;

use crate::model::{lexes_to, spec_lex, spec_lex_from};
use crate::position::{
    advance_position, column_at, lemma_advance_from, lemma_chars_after_last_newline_le,
    lemma_newline_count_le, lemma_newline_count_zero, line_at,
};
use crate::recognize::{
    convert_identifier_str, convert_symbol_str, decimal_value, digit_char, first_match_len,
    int_literal_selected, is_digit_char, is_identifier_char, lemma_digit_run,
    lemma_identifier_tail, letter_char, parse_int_literal, scan_digits, scan_identifier_tail,
    scan_whitespace, spec_first_kind, symbol_char, whitespace_char, whitespace_match_len,
};
use crate::token::{LexError, LexErrorModel, Lexeme, LexemeKind, LexemeModel};

verus! {

/// Lexes a whole source buffer: on success, the tokens of the input in
/// source order, whitespace elided, each carrying the 1-indexed line and
/// column of its first character; on failure, `UnrecognizedInput` at the
/// first character no recognizer matches, or `IntLiteralOverflow` at a
/// digit run whose decimal value does not fit a 32-bit signed integer.
///
/// The result is exactly what the specification lexer `spec_lex` assigns
/// to the input.
pub fn lex_str(input: &str) -> (r: Result<Vec<Lexeme>, LexError>)
    ensures
        lexes_to(input@, r),
{
    let ghost s = input@;
    let n: usize = input.unicode_len();
    let mut result: Vec<Lexeme> = Vec::new();
    let mut pos: usize = 0;
    let mut line: usize = 1;
    let mut column: usize = 1;
    proof {
        match spec_lex_from(s, 0) {
            Ok(rest) => {
                assert(result@.map_values(|t: Lexeme| t@) + rest =~= rest);
            },
            Err(e) => {},
        }
    }
    while pos < n
        invariant
            pos <= n,
            n == s.len(),
            s == input@,
            pos < n ==> line as nat == line_at(s, pos as int),
            pos < n ==> column as nat == column_at(s, pos as int),
            spec_lex(s) == (match spec_lex_from(s, pos as int) {
                Ok(rest) => Ok::<Seq<LexemeModel>, LexErrorModel>(
                    result@.map_values(|t: Lexeme| t@) + rest,
                ),
                Err(e) => Err::<Seq<LexemeModel>, LexErrorModel>(e),
            }),
        decreases n - pos,
    {
        let ghost rem = s.skip(pos as int);
        proof {
            assert(rem[0] == s[pos as int]);
            lemma_newline_count_le(s.take(pos as int));
            lemma_chars_after_last_newline_le(s.take(pos as int));
        }
        let c = input.get_char(pos);
        if whitespace_char(c) {
            let end = scan_whitespace(input, pos);
            if end < n {
                let span = input.substring_char(pos, end);
                proof {
                    assert(span@ =~= s.subrange(pos as int, end as int));
                    lemma_advance_from(s, pos as int, end as int);
                }
                let next = advance_position(line, column, span);
                line = next.0;
                column = next.1;
            }
            pos = end;
        } else if letter_char(c) {
            let end = scan_identifier_tail(input, pos + 1);
            proof {
                assert(rem.skip(1) =~= s.skip(pos + 1));
                let tail = s.skip(pos + 1);
                lemma_identifier_tail(tail);
                assert forall|k: int| pos + 1 <= k < end implies is_identifier_char(s[k]) by {
                    assert(is_identifier_char(tail[k - (pos + 1)]));
                    assert(tail[k - (pos + 1)] == s[k]);
                }
                assert(forall|k: int| pos as int <= k < end ==> s[k] != '\n');
                lemma_newline_count_zero(s.subrange(pos as int, end as int));
                lemma_advance_from(s, pos as int, end as int);
            }
            let text = input.substring_char(pos, end);
            proof {
                assert(text@ =~= s.subrange(pos as int, end as int));
                assert(text@ =~= rem.take(end - pos as int));
            }
            let kind = convert_identifier_str(text);
            let ghost prev = result@;
            let lex = Lexeme { kind, line, column };
            result.push(lex);
            proof {
                lemma_emit_step(s, pos as int, end as int, prev, result@, lex);
            }
            if end < n {
                column = column + (end - pos);
            }
            pos = end;
        } else if symbol_char(c) {
            let end = pos + 1;
            proof {
                assert(forall|k: int| pos as int <= k < end ==> s[k] != '\n');
                lemma_newline_count_zero(s.subrange(pos as int, end as int));
                lemma_advance_from(s, pos as int, end as int);
            }
            let text = input.substring_char(pos, end);
            proof {
                assert(text@ =~= s.subrange(pos as int, end as int));
                assert(text@ =~= rem.take(1));
                assert(text@[0] == s[pos as int]);
            }
            let kind = convert_symbol_str(text);
            let ghost prev = result@;
            let lex = Lexeme { kind, line, column };
            result.push(lex);
            proof {
                lemma_emit_step(s, pos as int, end as int, prev, result@, lex);
            }
            if end < n {
                column = column + 1;
            }
            pos = end;
        } else if digit_char(c) {
            let end = scan_digits(input, pos);
            proof {
                lemma_digit_run(rem);
                assert forall|k: int| pos as int <= k < end implies is_digit_char(s[k]) by {
                    assert(is_digit_char(rem[k - pos]));
                    assert(rem[k - pos] == s[k]);
                }
                assert(forall|k: int| pos as int <= k < end ==> s[k] != '\n');
                lemma_newline_count_zero(s.subrange(pos as int, end as int));
                lemma_advance_from(s, pos as int, end as int);
                assert(rem.take(end - pos as int) =~= s.subrange(pos as int, end as int));
            }
            match parse_int_literal(input, pos, end) {
                Some(v) => {
                    let ghost prev = result@;
                    let lex = Lexeme { kind: LexemeKind::IntLiteral(v), line, column };
                    result.push(lex);
                    proof {
                        lemma_emit_step(s, pos as int, end as int, prev, result@, lex);
                    }
                    if end < n {
                        column = column + (end - pos);
                    }
                    pos = end;
                },
                None => {
                    let text = input.substring_char(pos, end);
                    proof {
                        assert(text@ =~= s.subrange(pos as int, end as int));
                        assert(int_literal_selected(rem));
                    }
                    return Err(LexError::IntLiteralOverflow { line, column, text: text.to_owned() });
                },
            }
        } else {
            proof {
                assert(first_match_len(rem) == 0);
            }
            return Err(LexError::UnrecognizedInput { line, column });
        }
    }
    proof {
        assert(result@.map_values(|t: Lexeme| t@) + Seq::<LexemeModel>::empty() =~= result@
            .map_values(|t: Lexeme| t@));
    }
    Ok(result)
}

/// One driver step that emits a token: consuming the span between `pos`
/// and `end` with the registry's first matching rule, and appending the
/// token built from it, preserves the driver's relation to the
/// specification lexer.
proof fn lemma_emit_step(
    s: Seq<char>,
    pos: int,
    end: int,
    prev: Seq<Lexeme>,
    cur: Seq<Lexeme>,
    lex: Lexeme,
)
    requires
        0 <= pos < end <= s.len(),
        first_match_len(s.skip(pos)) == end - pos,
        whitespace_match_len(s.skip(pos)) == 0,
        cur == prev.push(lex),
        lex@ == (LexemeModel {
            kind: spec_first_kind(s.skip(pos)),
            line: line_at(s, pos),
            column: column_at(s, pos),
        }),
        !(int_literal_selected(s.skip(pos)) && decimal_value(
            s.skip(pos).take(end - pos),
        ) > i32::MAX),
        spec_lex(s) == (match spec_lex_from(s, pos) {
            Ok(rest) => Ok::<Seq<LexemeModel>, LexErrorModel>(
                prev.map_values(|t: Lexeme| t@) + rest,
            ),
            Err(e) => Err::<Seq<LexemeModel>, LexErrorModel>(e),
        }),
    ensures
        spec_lex(s) == (match spec_lex_from(s, end) {
            Ok(rest) => Ok::<Seq<LexemeModel>, LexErrorModel>(
                cur.map_values(|t: Lexeme| t@) + rest,
            ),
            Err(e) => Err::<Seq<LexemeModel>, LexErrorModel>(e),
        }),
{
    assert(cur.map_values(|t: Lexeme| t@) =~= prev.map_values(|t: Lexeme| t@).push(lex@));
    match spec_lex_from(s, end) {
        Ok(rest) => {
            assert(prev.map_values(|t: Lexeme| t@) + (seq![lex@] + rest) =~= cur.map_values(
                |t: Lexeme| t@,
            ) + rest);
        },
        Err(e) => {},
    }
}

} // verus!
