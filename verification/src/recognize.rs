//! The pattern registry: four anchored recognizers tried in a fixed
//! priority order — whitespace, identifier-or-keyword, symbol, integer
//! literal — each matching a non-empty prefix of the unconsumed remainder.

use vstd::prelude::*;
use crate::token::{KindModel, LexemeKind};

verus! {

// ---------------------------------------------------------------------------
// Character classes
// ---------------------------------------------------------------------------

/// Whitespace: space, tab, newline, carriage return, form feed.
pub open spec fn is_whitespace_char(c: char) -> bool {
    c == ' ' || c == '\t' || c == '\n' || c == '\r' || c == '\u{c}'
}

/// An ASCII letter, which may open an identifier.
pub open spec fn is_letter_char(c: char) -> bool {
    ('a' <= c && c <= 'z') || ('A' <= c && c <= 'Z')
}

/// An ASCII decimal digit.
pub open spec fn is_digit_char(c: char) -> bool {
    '0' <= c && c <= '9'
}

/// A character that may continue an identifier: letter, digit or underscore.
pub open spec fn is_identifier_char(c: char) -> bool {
    is_letter_char(c) || is_digit_char(c) || c == '_'
}

/// One of the five punctuation symbols of the language.
pub open spec fn is_symbol_char(c: char) -> bool {
    c == '{' || c == '}' || c == '(' || c == ')' || c == ';'
}

/// A character that some recognizer can consume at the start of a match.
pub open spec fn is_recognized_char(c: char) -> bool {
    is_whitespace_char(c) || is_letter_char(c) || is_symbol_char(c) || is_digit_char(c)
}

pub(crate) fn whitespace_char(c: char) -> (r: bool)
    ensures
        r == is_whitespace_char(c),
{
    c == ' ' || c == '\t' || c == '\n' || c == '\r' || c == '\u{c}'
}

pub(crate) fn letter_char(c: char) -> (r: bool)
    ensures
        r == is_letter_char(c),
{
    ('a' <= c && c <= 'z') || ('A' <= c && c <= 'Z')
}

pub(crate) fn digit_char(c: char) -> (r: bool)
    ensures
        r == is_digit_char(c),
{
    '0' <= c && c <= '9'
}

pub(crate) fn identifier_char(c: char) -> (r: bool)
    ensures
        r == is_identifier_char(c),
{
    letter_char(c) || digit_char(c) || c == '_'
}

pub(crate) fn symbol_char(c: char) -> (r: bool)
    ensures
        r == is_symbol_char(c),
{
    c == '{' || c == '}' || c == '(' || c == ')' || c == ';'
}

// ---------------------------------------------------------------------------
// Anchored match lengths
// ---------------------------------------------------------------------------

/// The length of the longest prefix of `s` whose characters all satisfy `p`.
pub open spec fn run_len(s: Seq<char>, p: spec_fn(char) -> bool) -> nat
    decreases s.len(),
{
    if s.len() > 0 && p(s[0]) {
        1 + run_len(s.skip(1), p)
    } else {
        0
    }
}

/// What the whitespace rule matches: one or more whitespace characters.
pub open spec fn whitespace_match_len(s: Seq<char>) -> nat {
    run_len(s, |c: char| is_whitespace_char(c))
}

/// The longest run of identifier characters at the start of `s`.
pub open spec fn identifier_tail_len(s: Seq<char>) -> nat {
    run_len(s, |c: char| is_identifier_char(c))
}

/// What the identifier-or-keyword rule matches: one ASCII letter followed
/// by any run of letters, digits and underscores.
pub open spec fn identifier_match_len(s: Seq<char>) -> nat {
    if s.len() > 0 && is_letter_char(s[0]) {
        1 + identifier_tail_len(s.skip(1))
    } else {
        0
    }
}

/// What the symbol rule matches: exactly one punctuation symbol.
pub open spec fn symbol_match_len(s: Seq<char>) -> nat {
    if s.len() > 0 && is_symbol_char(s[0]) {
        1
    } else {
        0
    }
}

/// What the integer-literal rule matches: one or more ASCII digits.
pub open spec fn int_literal_match_len(s: Seq<char>) -> nat {
    run_len(s, |c: char| is_digit_char(c))
}

/// The length matched by the first rule, in priority order, that matches a
/// non-empty prefix of `s`; zero when no rule matches.
pub open spec fn first_match_len(s: Seq<char>) -> nat {
    if whitespace_match_len(s) > 0 {
        whitespace_match_len(s)
    } else if identifier_match_len(s) > 0 {
        identifier_match_len(s)
    } else if symbol_match_len(s) > 0 {
        symbol_match_len(s)
    } else {
        int_literal_match_len(s)
    }
}

pub proof fn lemma_run_len_le(s: Seq<char>, p: spec_fn(char) -> bool)
    ensures
        run_len(s, p) <= s.len(),
    decreases s.len(),
{
    if s.len() > 0 && p(s[0]) {
        lemma_run_len_le(s.skip(1), p);
    }
}

/// The run length is exactly the boundary: every character before it
/// satisfies `p`, and the character at it (if any) does not.
pub proof fn lemma_run_len_chars(s: Seq<char>, p: spec_fn(char) -> bool)
    ensures
        run_len(s, p) <= s.len(),
        forall|i: int| 0 <= i < run_len(s, p) ==> p(s[i]),
        run_len(s, p) < s.len() ==> !p(s[run_len(s, p) as int]),
    decreases s.len(),
{
    lemma_run_len_le(s, p);
    if s.len() > 0 && p(s[0]) {
        lemma_run_len_chars(s.skip(1), p);
        assert(forall|i: int| 1 <= i < run_len(s, p) ==> p(s.skip(1)[i - 1]) && s[i] == s.skip(
            1,
        )[i - 1]);
    }
}

/// Any boundary with the run property is the run length: `p` holds up to
/// `n` and fails at `n`, so the longest `p`-prefix has length `n` exactly.
pub proof fn lemma_run_len_is(s: Seq<char>, p: spec_fn(char) -> bool, n: int)
    requires
        0 <= n <= s.len(),
        forall|i: int| 0 <= i < n ==> p(s[i]),
        n < s.len() ==> !p(s[n]),
    ensures
        run_len(s, p) == n,
    decreases s.len(),
{
    if n == 0 {
    } else {
        assert(p(s[0]));
        assert(forall|i: int| 0 <= i < n - 1 ==> s.skip(1)[i] == s[i + 1] && p(s[i + 1]));
        if n - 1 < s.skip(1).len() {
            assert(s.skip(1)[n - 1] == s[n]);
        }
        lemma_run_len_is(s.skip(1), p, n - 1);
    }
}

/// No rule matches more than the whole remainder.
pub proof fn lemma_first_match_le(s: Seq<char>)
    ensures
        first_match_len(s) <= s.len(),
{
    lemma_run_len_le(s, |c: char| is_whitespace_char(c));
    lemma_run_len_le(s, |c: char| is_digit_char(c));
    if s.len() > 0 {
        lemma_run_len_le(s.skip(1), |c: char| is_identifier_char(c));
    }
}

// ---------------------------------------------------------------------------
// The keyword set and the transformers
// ---------------------------------------------------------------------------

/// The reserved words of the language.
pub open spec fn is_keyword(t: Seq<char>) -> bool {
    t == "return"@ || t == "int"@
}

/// The identifier-or-keyword transformer: reclassify an identifier-shaped
/// span as a keyword exactly when its text is a reserved word.
pub open spec fn spec_identifier_kind(t: Seq<char>) -> KindModel {
    if is_keyword(t) {
        KindModel::Keyword(t)
    } else {
        KindModel::Identifier(t)
    }
}

/// The symbol transformer: the one-to-one mapping from a punctuation
/// character to its token kind.
pub open spec fn spec_symbol_kind(c: char) -> KindModel {
    if c == '{' {
        KindModel::OpenBrace
    } else if c == '}' {
        KindModel::CloseBrace
    } else if c == '(' {
        KindModel::OpenParen
    } else if c == ')' {
        KindModel::CloseParen
    } else {
        KindModel::Semicolon
    }
}

/// Character-by-character string equality, proved against sequence
/// equality of the two views.
pub fn str_eq(a: &str, b: &str) -> (r: bool)
    ensures
        r == (a@ == b@),
{
    let an: usize = a.unicode_len();
    let bn: usize = b.unicode_len();
    if an != bn {
        return false;
    }
    let mut i: usize = 0;
    while i < an
        invariant
            0 <= i <= an,
            an == a@.len(),
            an == b@.len(),
            forall|j: int| 0 <= j < i ==> a@[j] == b@[j],
        decreases an - i,
    {
        if a.get_char(i) != b.get_char(i) {
            return false;
        }
        i = i + 1;
    }
    proof {
        assert(a@ =~= b@);
    }
    true
}

/// Builds the token kind for a span matched by the identifier-or-keyword
/// rule: `Keyword` exactly when the span is a reserved word, `Identifier`
/// otherwise.
pub fn convert_identifier_str(identifier: &str) -> (k: LexemeKind)
    ensures
        k@ == spec_identifier_kind(identifier@),
{
    if str_eq(identifier, "return") || str_eq(identifier, "int") {
        LexemeKind::Keyword(identifier.to_owned())
    } else {
        LexemeKind::Identifier(identifier.to_owned())
    }
}

/// Builds the token kind for a span matched by the symbol rule.
pub fn convert_symbol_str(symbol: &str) -> (k: LexemeKind)
    requires
        symbol@.len() == 1,
        is_symbol_char(symbol@[0]),
    ensures
        k@ == spec_symbol_kind(symbol@[0]),
{
    let c = symbol.get_char(0);
    if c == '{' {
        LexemeKind::OpenBrace
    } else if c == '}' {
        LexemeKind::CloseBrace
    } else if c == '(' {
        LexemeKind::OpenParen
    } else if c == ')' {
        LexemeKind::CloseParen
    } else {
        LexemeKind::Semicolon
    }
}

// ---------------------------------------------------------------------------
// Per-rule characterizations
// ---------------------------------------------------------------------------

pub proof fn lemma_whitespace_run(s: Seq<char>)
    ensures
        whitespace_match_len(s) <= s.len(),
        forall|i: int| 0 <= i < whitespace_match_len(s) ==> is_whitespace_char(s[i]),
        whitespace_match_len(s) < s.len() ==> !is_whitespace_char(
            s[whitespace_match_len(s) as int],
        ),
{
    lemma_run_len_chars(s, |c: char| is_whitespace_char(c));
}

pub proof fn lemma_whitespace_run_is(s: Seq<char>, n: int)
    requires
        0 <= n <= s.len(),
        forall|i: int| 0 <= i < n ==> is_whitespace_char(s[i]),
        n < s.len() ==> !is_whitespace_char(s[n]),
    ensures
        whitespace_match_len(s) == n,
{
    lemma_run_len_is(s, |c: char| is_whitespace_char(c), n);
}

pub proof fn lemma_identifier_tail(s: Seq<char>)
    ensures
        identifier_tail_len(s) <= s.len(),
        forall|i: int| 0 <= i < identifier_tail_len(s) ==> is_identifier_char(s[i]),
        identifier_tail_len(s) < s.len() ==> !is_identifier_char(
            s[identifier_tail_len(s) as int],
        ),
{
    lemma_run_len_chars(s, |c: char| is_identifier_char(c));
}

pub proof fn lemma_identifier_tail_is(s: Seq<char>, n: int)
    requires
        0 <= n <= s.len(),
        forall|i: int| 0 <= i < n ==> is_identifier_char(s[i]),
        n < s.len() ==> !is_identifier_char(s[n]),
    ensures
        identifier_tail_len(s) == n,
{
    lemma_run_len_is(s, |c: char| is_identifier_char(c), n);
}

pub proof fn lemma_digit_run(s: Seq<char>)
    ensures
        int_literal_match_len(s) <= s.len(),
        forall|i: int| 0 <= i < int_literal_match_len(s) ==> is_digit_char(s[i]),
        int_literal_match_len(s) < s.len() ==> !is_digit_char(s[int_literal_match_len(s) as int]),
{
    lemma_run_len_chars(s, |c: char| is_digit_char(c));
}

pub proof fn lemma_digit_run_is(s: Seq<char>, n: int)
    requires
        0 <= n <= s.len(),
        forall|i: int| 0 <= i < n ==> is_digit_char(s[i]),
        n < s.len() ==> !is_digit_char(s[n]),
    ensures
        int_literal_match_len(s) == n,
{
    lemma_run_len_is(s, |c: char| is_digit_char(c), n);
}

// ---------------------------------------------------------------------------
// Scanners: maximal anchored runs, found by walking the input
// ---------------------------------------------------------------------------

/// Walks from `start` over whitespace characters and returns the index of
/// the first character that is not whitespace (or the end of the input).
pub(crate) fn scan_whitespace(input: &str, start: usize) -> (end: usize)
    requires
        start <= input@.len(),
    ensures
        start <= end <= input@.len(),
        end - start == whitespace_match_len(input@.skip(start as int)),
{
    let ghost s = input@;
    let n: usize = input.unicode_len();
    let mut i: usize = start;
    loop
        invariant
            start <= i <= n,
            n == s.len(),
            s == input@,
            forall|j: int| start <= j < i ==> is_whitespace_char(s[j]),
        ensures
            start <= i <= n,
            forall|j: int| start <= j < i ==> is_whitespace_char(s[j]),
            i == n || !is_whitespace_char(s[i as int]),
        decreases n - i,
    {
        if i == n {
            break;
        }
        let c = input.get_char(i);
        if !whitespace_char(c) {
            break;
        }
        i = i + 1;
    }
    proof {
        let sub = s.skip(start as int);
        assert(forall|k: int| 0 <= k < sub.len() ==> sub[k] == s[start + k]);
        lemma_whitespace_run_is(sub, i - start);
    }
    i
}

/// Walks from `start` over identifier characters (letters, digits,
/// underscores) and returns the index of the first character past the run.
pub(crate) fn scan_identifier_tail(input: &str, start: usize) -> (end: usize)
    requires
        start <= input@.len(),
    ensures
        start <= end <= input@.len(),
        end - start == identifier_tail_len(input@.skip(start as int)),
{
    let ghost s = input@;
    let n: usize = input.unicode_len();
    let mut i: usize = start;
    loop
        invariant
            start <= i <= n,
            n == s.len(),
            s == input@,
            forall|j: int| start <= j < i ==> is_identifier_char(s[j]),
        ensures
            start <= i <= n,
            forall|j: int| start <= j < i ==> is_identifier_char(s[j]),
            i == n || !is_identifier_char(s[i as int]),
        decreases n - i,
    {
        if i == n {
            break;
        }
        let c = input.get_char(i);
        if !identifier_char(c) {
            break;
        }
        i = i + 1;
    }
    proof {
        let sub = s.skip(start as int);
        assert(forall|k: int| 0 <= k < sub.len() ==> sub[k] == s[start + k]);
        lemma_identifier_tail_is(sub, i - start);
    }
    i
}

/// Walks from `start` over ASCII digits and returns the index of the first
/// character past the digit run.
pub(crate) fn scan_digits(input: &str, start: usize) -> (end: usize)
    requires
        start <= input@.len(),
    ensures
        start <= end <= input@.len(),
        end - start == int_literal_match_len(input@.skip(start as int)),
{
    let ghost s = input@;
    let n: usize = input.unicode_len();
    let mut i: usize = start;
    loop
        invariant
            start <= i <= n,
            n == s.len(),
            s == input@,
            forall|j: int| start <= j < i ==> is_digit_char(s[j]),
        ensures
            start <= i <= n,
            forall|j: int| start <= j < i ==> is_digit_char(s[j]),
            i == n || !is_digit_char(s[i as int]),
        decreases n - i,
    {
        if i == n {
            break;
        }
        let c = input.get_char(i);
        if !digit_char(c) {
            break;
        }
        i = i + 1;
    }
    proof {
        let sub = s.skip(start as int);
        assert(forall|k: int| 0 <= k < sub.len() ==> sub[k] == s[start + k]);
        lemma_digit_run_is(sub, i - start);
    }
    i
}

// ---------------------------------------------------------------------------
// The integer-literal transformer
// ---------------------------------------------------------------------------

/// The numeric value of one decimal digit.
pub open spec fn digit_value(c: char) -> int {
    (c as u32) as int - ('0' as u32) as int
}

/// The decimal value of a digit run.
pub open spec fn decimal_value(s: Seq<char>) -> int
    decreases s.len(),
{
    if s.len() == 0 {
        0
    } else {
        10 * decimal_value(s.drop_last()) + digit_value(s.last())
    }
}

pub proof fn lemma_decimal_value_nonneg(s: Seq<char>)
    requires
        forall|i: int| 0 <= i < s.len() ==> is_digit_char(s[i]),
    ensures
        decimal_value(s) >= 0,
    decreases s.len(),
{
    if s.len() > 0 {
        lemma_decimal_value_nonneg(s.drop_last());
    }
}

/// A digit run is worth at least as much as any of its prefixes.
pub proof fn lemma_decimal_value_take_le(s: Seq<char>, j: int)
    requires
        forall|i: int| 0 <= i < s.len() ==> is_digit_char(s[i]),
        0 <= j <= s.len(),
    ensures
        decimal_value(s.take(j)) <= decimal_value(s),
    decreases s.len(),
{
    if j == s.len() {
        assert(s.take(j) =~= s);
    } else {
        lemma_decimal_value_nonneg(s.drop_last());
        assert(s.take(j) =~= s.drop_last().take(j));
        lemma_decimal_value_take_le(s.drop_last(), j);
    }
}

/// Parses the digit run `input[start..end]` as a 32-bit signed integer,
/// reporting overflow instead of a value when the run's decimal value does
/// not fit.
pub(crate) fn parse_int_literal(input: &str, start: usize, end: usize) -> (r: Option<i32>)
    requires
        start <= end <= input@.len(),
        forall|k: int| start <= k < end ==> is_digit_char(input@[k]),
    ensures
        ({
            let t = input@.subrange(start as int, end as int);
            match r {
                Some(v) => decimal_value(t) <= i32::MAX && v as int == decimal_value(t),
                None => decimal_value(t) > i32::MAX,
            }
        }),
{
    let ghost s = input@;
    let ghost t = s.subrange(start as int, end as int);
    let mut acc: i32 = 0;
    let mut i: usize = start;
    while i < end
        invariant
            start <= i <= end <= s.len(),
            s == input@,
            t == s.subrange(start as int, end as int),
            forall|k: int| start <= k < end ==> is_digit_char(s[k]),
            0 <= acc,
            acc as int == decimal_value(s.subrange(start as int, i as int)),
        decreases end - i,
    {
        let c = input.get_char(i);
        assert(is_digit_char(c));
        let d: i32 = (c as u32 - '0' as u32) as i32;
        proof {
            assert(s.subrange(start as int, i + 1).drop_last() =~= s.subrange(
                start as int,
                i as int,
            ));
            assert(s.subrange(start as int, i + 1).last() == s[i as int]);
        }
        if acc > (i32::MAX - d) / 10 {
            proof {
                assert(10 * (acc as int) + d > i32::MAX);
                assert(decimal_value(s.subrange(start as int, i + 1)) > i32::MAX);
                assert(t.take(i + 1 - start) =~= s.subrange(start as int, i + 1));
                lemma_decimal_value_take_le(t, i + 1 - start);
            }
            return None;
        }
        acc = acc * 10 + d;
        i = i + 1;
    }
    proof {
        assert(t =~= s.subrange(start as int, end as int));
    }
    Some(acc)
}

// ---------------------------------------------------------------------------
// The registry: first match in priority order
// ---------------------------------------------------------------------------

/// The token kind built by the first matching rule, assuming one matches.
pub open spec fn spec_first_kind(s: Seq<char>) -> KindModel {
    if whitespace_match_len(s) > 0 {
        KindModel::Whitespace(s.take(whitespace_match_len(s) as int))
    } else if identifier_match_len(s) > 0 {
        spec_identifier_kind(s.take(identifier_match_len(s) as int))
    } else if symbol_match_len(s) > 0 {
        spec_symbol_kind(s[0])
    } else {
        KindModel::IntLiteral(decimal_value(s.take(int_literal_match_len(s) as int)))
    }
}

/// Whether the rule selected by priority order is the integer-literal rule.
pub open spec fn int_literal_selected(s: Seq<char>) -> bool {
    whitespace_match_len(s) == 0 && identifier_match_len(s) == 0 && symbol_match_len(s) == 0
        && int_literal_match_len(s) > 0
}

/// Applies the registry to the unconsumed remainder: tries each recognizer
/// in priority order and returns the first success as (new remainder,
/// matched text, token kind), or `None` when no recognizer matches.
///
/// An integer literal whose decimal value exceeds `i32::MAX` is excluded
/// here; the lexing driver reports such a literal as a structured error.
pub fn get_next_token(current_input: &str) -> (r: Option<(String, String, LexemeKind)>)
    requires
        int_literal_selected(current_input@) ==> decimal_value(
            current_input@.take(int_literal_match_len(current_input@) as int),
        ) <= i32::MAX,
    ensures
        ({
            let s = current_input@;
            match r {
                None => first_match_len(s) == 0,
                Some(t) => {
                    let n = first_match_len(s);
                    &&& n > 0
                    &&& t.0@ == s.skip(n as int)
                    &&& t.1@ == s.take(n as int)
                    &&& t.2@ == spec_first_kind(s)
                },
            }
        }),
{
    let ghost s = current_input@;
    let n: usize = current_input.unicode_len();
    if n == 0 {
        return None;
    }
    let c = current_input.get_char(0);
    if whitespace_char(c) {
        let end = scan_whitespace(current_input, 0);
        proof {
            assert(s.skip(0) =~= s);
        }
        let text = current_input.substring_char(0, end);
        proof {
            assert(text@ =~= s.take(end as int));
        }
        let rest = current_input.substring_char(end, n);
        proof {
            assert(rest@ =~= s.skip(end as int));
        }
        Some((rest.to_owned(), text.to_owned(), LexemeKind::Whitespace(text.to_owned())))
    } else if letter_char(c) {
        let end = scan_identifier_tail(current_input, 1);
        proof {
            assert(whitespace_match_len(s) == 0);
            assert(identifier_match_len(s) == end);
        }
        let text = current_input.substring_char(0, end);
        proof {
            assert(text@ =~= s.take(end as int));
        }
        let kind = convert_identifier_str(text);
        let rest = current_input.substring_char(end, n);
        proof {
            assert(rest@ =~= s.skip(end as int));
        }
        Some((rest.to_owned(), text.to_owned(), kind))
    } else if symbol_char(c) {
        proof {
            assert(whitespace_match_len(s) == 0);
            assert(identifier_match_len(s) == 0);
        }
        let text = current_input.substring_char(0, 1);
        proof {
            assert(text@ =~= s.take(1));
        }
        let kind = convert_symbol_str(text);
        let rest = current_input.substring_char(1, n);
        proof {
            assert(rest@ =~= s.skip(1));
        }
        Some((rest.to_owned(), text.to_owned(), kind))
    } else if digit_char(c) {
        let end = scan_digits(current_input, 0);
        proof {
            assert(s.skip(0) =~= s);
            assert(whitespace_match_len(s) == 0);
            assert(identifier_match_len(s) == 0);
            assert(symbol_match_len(s) == 0);
            lemma_digit_run(s);
        }
        let text = current_input.substring_char(0, end);
        proof {
            assert(text@ =~= s.take(end as int));
            assert(s.subrange(0, end as int) =~= s.take(end as int));
        }
        match parse_int_literal(current_input, 0, end) {
            Some(v) => {
                let rest = current_input.substring_char(end, n);
                proof {
                    assert(rest@ =~= s.skip(end as int));
                }
                Some((rest.to_owned(), text.to_owned(), LexemeKind::IntLiteral(v)))
            },
            None => unreached(),
        }
    } else {
        proof {
            assert(whitespace_match_len(s) == 0);
            assert(identifier_match_len(s) == 0);
            assert(symbol_match_len(s) == 0);
            assert(int_literal_match_len(s) == 0);
        }
        None
    }
}

} // verus!
