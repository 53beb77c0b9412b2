//! Laws of the lexer, stated over the specification model and proved once
//! and for all: determinism, round-trip coverage of the input by the
//! matched spans, the keyword/identifier partition, progress on inputs of
//! recognized characters, and position correctness.

use vstd::prelude::*;
use crate::model::{lexes_to, result_model, spec_lex, spec_lex_from};
use crate::position::{column_at, line_at};
use crate::recognize::{
    decimal_value, first_match_len, identifier_match_len, int_literal_match_len,
    int_literal_selected, is_digit_char, is_identifier_char, is_keyword, is_letter_char,
    is_recognized_char, is_whitespace_char, lemma_first_match_le, lemma_identifier_tail,
    lemma_whitespace_run, whitespace_match_len,
};
use crate::token::{KindModel, LexemeModel, LexError, Lexeme};

verus! {

// ---------------------------------------------------------------------------
// Determinism
// ---------------------------------------------------------------------------

/// Determinism: the token sequence (or the failure) is a function of the
/// input text alone, so any two results that `lex_str` may return for the
/// same input have the same model.
pub proof fn lemma_lex_deterministic(
    s: Seq<char>,
    r1: Result<Vec<Lexeme>, LexError>,
    r2: Result<Vec<Lexeme>, LexError>,
)
    requires
        lexes_to(s, r1),
        lexes_to(s, r2),
    ensures
        result_model(r1) == result_model(r2),
{
}

// ---------------------------------------------------------------------------
// Round-trip coverage
// ---------------------------------------------------------------------------

/// The spans the registry consumes, in order, until the input is exhausted
/// or no rule matches: the matched spans of all tokens and all discarded
/// whitespace.
pub open spec fn consumed_spans(s: Seq<char>) -> Seq<Seq<char>>
    decreases s.len(),
{
    if s.len() == 0 || first_match_len(s) == 0 {
        Seq::empty()
    } else {
        proof {
            lemma_first_match_le(s);
        }
        seq![s.take(first_match_len(s) as int)] + consumed_spans(
            s.skip(first_match_len(s) as int),
        )
    }
}

/// The concatenation of a sequence of spans.
pub open spec fn concat_spans(spans: Seq<Seq<char>>) -> Seq<char>
    decreases spans.len(),
{
    if spans.len() == 0 {
        Seq::empty()
    } else {
        spans[0] + concat_spans(spans.skip(1))
    }
}

proof fn lemma_round_trip_from(s: Seq<char>, k: int)
    requires
        0 <= k <= s.len(),
        spec_lex_from(s, k) is Ok,
    ensures
        concat_spans(consumed_spans(s.skip(k))) == s.skip(k),
    decreases s.len() - k,
{
    let rem = s.skip(k);
    lemma_first_match_le(rem);
    if k == s.len() {
        assert(rem =~= Seq::<char>::empty());
        assert(concat_spans(consumed_spans(rem)) =~= rem);
    } else {
        let n = first_match_len(rem);
        assert(n > 0);
        assert(spec_lex_from(s, k + n) is Ok);
        lemma_round_trip_from(s, k + n);
        assert(rem.skip(n as int) =~= s.skip(k + n));
        let spans = consumed_spans(rem);
        assert(spans[0] == rem.take(n as int));
        assert(spans.skip(1) =~= consumed_spans(rem.skip(n as int)));
        assert(rem.take(n as int) + rem.skip(n as int) =~= rem);
    }
}

/// Round-trip coverage: when lexing succeeds, concatenating, in order, the
/// spans the registry matched — those of all tokens and of all discarded
/// whitespace — reconstructs the original input exactly.
pub proof fn lemma_round_trip(s: Seq<char>)
    requires
        spec_lex(s) is Ok,
    ensures
        concat_spans(consumed_spans(s)) == s,
{
    lemma_round_trip_from(s, 0);
    assert(s.skip(0) =~= s);
}

// ---------------------------------------------------------------------------
// The keyword/identifier partition
// ---------------------------------------------------------------------------

/// A span that the identifier-or-keyword rule can match: one letter, then
/// letters, digits and underscores.
pub open spec fn identifier_shaped(t: Seq<char>) -> bool {
    &&& t.len() > 0
    &&& is_letter_char(t[0])
    &&& forall|i: int| 1 <= i < t.len() ==> is_identifier_char(t[i])
}

/// The partition for one token: a keyword's text is a reserved word, an
/// identifier's is not, and both are identifier-shaped.
pub open spec fn keyword_partition_ok(m: LexemeModel) -> bool {
    match m.kind {
        KindModel::Keyword(t) => is_keyword(t) && identifier_shaped(t),
        KindModel::Identifier(t) => !is_keyword(t) && identifier_shaped(t),
        _ => true,
    }
}

proof fn lemma_identifier_span_shaped(rem: Seq<char>)
    requires
        identifier_match_len(rem) > 0,
    ensures
        identifier_shaped(rem.take(identifier_match_len(rem) as int)),
{
    let n = identifier_match_len(rem) as int;
    let t = rem.take(n);
    lemma_identifier_tail(rem.skip(1));
    assert forall|i: int| 1 <= i < t.len() implies is_identifier_char(t[i]) by {
        assert(is_identifier_char(rem.skip(1)[i - 1]));
        assert(rem.skip(1)[i - 1] == t[i]);
    }
}

proof fn lemma_partition_from(s: Seq<char>, k: int, tokens: Seq<LexemeModel>)
    requires
        0 <= k <= s.len(),
        spec_lex_from(s, k) == Ok::<Seq<LexemeModel>, crate::token::LexErrorModel>(tokens),
    ensures
        forall|t: int| 0 <= t < tokens.len() ==> #[trigger] keyword_partition_ok(tokens[t]),
    decreases s.len() - k,
{
    let rem = s.skip(k);
    lemma_first_match_le(rem);
    if k == s.len() {
    } else {
        let n = first_match_len(rem);
        assert(n > 0);
        if whitespace_match_len(rem) > 0 {
            lemma_partition_from(s, k + n, tokens);
        } else {
            match spec_lex_from(s, k + n) {
                Ok(rest) => {
                    lemma_partition_from(s, k + n, rest);
                    let tok = tokens[0];
                    if identifier_match_len(rem) > 0 {
                        lemma_identifier_span_shaped(rem);
                    }
                    assert(keyword_partition_ok(tok));
                    assert forall|t: int|
                        0 <= t < tokens.len() implies #[trigger] keyword_partition_ok(
                        tokens[t],
                    ) by {
                        if t > 0 {
                            assert(tokens[t] == rest[t - 1]);
                            assert(keyword_partition_ok(rest[t - 1]));
                        }
                    }
                },
                Err(e) => {
                    assert(false);
                },
            }
        }
    }
}

/// Partition law: in any successful lexing, every token classified as
/// Keyword carries a reserved word ("return" or "int") as its text, every
/// token classified as Identifier carries an identifier-shaped text that
/// is not a reserved word, and both carry exactly the span the identifier
/// rule matched.
pub proof fn lemma_keyword_partition(s: Seq<char>, tokens: Seq<LexemeModel>)
    requires
        spec_lex(s) == Ok::<Seq<LexemeModel>, crate::token::LexErrorModel>(tokens),
    ensures
        forall|t: int| 0 <= t < tokens.len() ==> #[trigger] keyword_partition_ok(tokens[t]),
{
    lemma_partition_from(s, 0, tokens);
}

// ---------------------------------------------------------------------------
// Progress
// ---------------------------------------------------------------------------

/// The decimal value of the digit run that starts at offset `i` of `s`
/// (zero when no digit stands there).
pub open spec fn digit_run_value_at(s: Seq<char>, i: int) -> int {
    decimal_value(s.skip(i).take(int_literal_match_len(s.skip(i)) as int))
}

/// Every digit run of `s` has a value that fits a 32-bit signed integer.
pub open spec fn digit_runs_fit(s: Seq<char>) -> bool {
    forall|i: int| 0 <= i <= s.len() ==> #[trigger] digit_run_value_at(s, i) <= i32::MAX
}

proof fn lemma_progress_from(s: Seq<char>, k: int)
    requires
        0 <= k <= s.len(),
        forall|i: int| k <= i < s.len() ==> is_recognized_char(#[trigger] s[i]),
        digit_runs_fit(s),
    ensures
        spec_lex_from(s, k) is Ok,
        (exists|i: int| k <= i < s.len() && !is_whitespace_char(#[trigger] s[i]))
            ==> (spec_lex_from(s, k) matches Ok(tokens) && tokens.len() >= 1),
    decreases s.len() - k,
{
    let rem = s.skip(k);
    lemma_first_match_le(rem);
    if k == s.len() {
    } else {
        assert(rem[0] == s[k]);
        assert(is_recognized_char(s[k]));
        let n = first_match_len(rem);
        assert(n > 0);
        assert(forall|i: int| k + n <= i < s.len() ==> is_recognized_char(#[trigger] s[i]));
        lemma_progress_from(s, k + n);
        if whitespace_match_len(rem) > 0 {
            lemma_whitespace_run(rem);
            if exists|i: int| k <= i < s.len() && !is_whitespace_char(#[trigger] s[i]) {
                let i0 = choose|i: int| k <= i < s.len() && !is_whitespace_char(#[trigger] s[i]);
                assert forall|j: int| k <= j < k + n implies is_whitespace_char(#[trigger] s[j]) by {
                    assert(is_whitespace_char(rem[j - k]));
                }
                assert(i0 >= k + n);
                assert(exists|i: int| k + n <= i < s.len() && !is_whitespace_char(#[trigger] s[i]));
            }
        } else {
            if int_literal_selected(rem) {
                assert(digit_run_value_at(s, k) <= i32::MAX);
            }
            assert(!(int_literal_selected(rem) && decimal_value(rem.take(n as int)) > i32::MAX));
            match spec_lex_from(s, k + n) {
                Ok(rest) => {},
                Err(e) => {
                    assert(false);
                },
            }
        }
    }
}

/// Progress law: a non-empty input composed solely of recognized
/// characters — whitespace, ASCII letters, the five symbols, ASCII digits
/// — lexes successfully, provided every digit run fits a 32-bit signed
/// integer; and if any of its characters is not whitespace, at least one
/// token is produced.
pub proof fn lemma_progress(s: Seq<char>)
    requires
        s.len() > 0,
        forall|i: int| 0 <= i < s.len() ==> is_recognized_char(#[trigger] s[i]),
        digit_runs_fit(s),
    ensures
        spec_lex(s) is Ok,
        (exists|i: int| 0 <= i < s.len() && !is_whitespace_char(#[trigger] s[i])) ==> (spec_lex(
            s,
        ) matches Ok(tokens) && tokens.len() >= 1),
{
    lemma_progress_from(s, 0);
}

// ---------------------------------------------------------------------------
// Position correctness
// ---------------------------------------------------------------------------

/// The token kind `m` is what the registry builds at offset `k` of `s`:
/// its span starts at that offset.
pub open spec fn token_matches_at(s: Seq<char>, k: int, m: KindModel) -> bool {
    match m {
        KindModel::Whitespace(t) => false,
        KindModel::Keyword(t) => identifier_match_len(s.skip(k)) > 0 && t == s.skip(k).take(
            identifier_match_len(s.skip(k)) as int,
        ),
        KindModel::Identifier(t) => identifier_match_len(s.skip(k)) > 0 && t == s.skip(k).take(
            identifier_match_len(s.skip(k)) as int,
        ),
        KindModel::OpenBrace => 0 <= k < s.len() && s[k] == '{',
        KindModel::CloseBrace => 0 <= k < s.len() && s[k] == '}',
        KindModel::OpenParen => 0 <= k < s.len() && s[k] == '(',
        KindModel::CloseParen => 0 <= k < s.len() && s[k] == ')',
        KindModel::Semicolon => 0 <= k < s.len() && s[k] == ';',
        KindModel::IntLiteral(v) => int_literal_match_len(s.skip(k)) > 0 && v == decimal_value(
            s.skip(k).take(int_literal_match_len(s.skip(k)) as int),
        ),
    }
}

/// One token is positioned correctly: some offset of the input starts its
/// matched span, and the token's line and column are the position of that
/// offset, counted from line 1, column 1, with lines separated by newline
/// and columns reset to 1 immediately after each newline.
pub open spec fn positioned_at_first_char(s: Seq<char>, m: LexemeModel) -> bool {
    exists|k: int|
        0 <= k < s.len() && m.line == line_at(s, k) && m.column == column_at(s, k)
            && token_matches_at(s, k, m.kind)
}

proof fn lemma_positions_from(s: Seq<char>, k: int, tokens: Seq<LexemeModel>)
    requires
        0 <= k <= s.len(),
        spec_lex_from(s, k) == Ok::<Seq<LexemeModel>, crate::token::LexErrorModel>(tokens),
    ensures
        forall|t: int| 0 <= t < tokens.len() ==> #[trigger] positioned_at_first_char(s, tokens[t]),
    decreases s.len() - k,
{
    let rem = s.skip(k);
    lemma_first_match_le(rem);
    if k == s.len() {
    } else {
        let n = first_match_len(rem);
        assert(n > 0);
        if whitespace_match_len(rem) > 0 {
            lemma_positions_from(s, k + n, tokens);
        } else {
            match spec_lex_from(s, k + n) {
                Ok(rest) => {
                    lemma_positions_from(s, k + n, rest);
                    let tok = tokens[0];
                    assert(rem[0] == s[k]);
                    assert(token_matches_at(s, k, tok.kind));
                    assert(positioned_at_first_char(s, tok));
                    assert forall|t: int|
                        0 <= t < tokens.len() implies #[trigger] positioned_at_first_char(
                        s,
                        tokens[t],
                    ) by {
                        if t > 0 {
                            assert(tokens[t] == rest[t - 1]);
                            assert(positioned_at_first_char(s, rest[t - 1]));
                        }
                    }
                },
                Err(e) => {
                    assert(false);
                },
            }
        }
    }
}

/// Position correctness: in any successful lexing, every token's line and
/// column equal the position of the first character of its matched span,
/// counting from line 1, column 1.
pub proof fn lemma_position_correctness(s: Seq<char>, tokens: Seq<LexemeModel>)
    requires
        spec_lex(s) == Ok::<Seq<LexemeModel>, crate::token::LexErrorModel>(tokens),
    ensures
        forall|t: int| 0 <= t < tokens.len() ==> #[trigger] positioned_at_first_char(s, tokens[t]),
{
    lemma_positions_from(s, 0, tokens);
}

} // verus!
