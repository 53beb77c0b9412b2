//! The position tracker: pure arithmetic that advances a 1-indexed
//! (line, column) cursor over a consumed span of source text.

use vstd::prelude::*;

verus! {

/// How many newline characters a span contains.
pub open spec fn newline_count(s: Seq<char>) -> nat
    decreases s.len(),
{
    if s.len() == 0 {
        0
    } else {
        newline_count(s.drop_last()) + if s.last() == '\n' { 1nat } else { 0nat }
    }
}

/// How many characters follow the last newline of a span (the whole span
/// when it contains no newline).
pub open spec fn chars_after_last_newline(s: Seq<char>) -> nat
    decreases s.len(),
{
    if s.len() == 0 {
        0
    } else if s.last() == '\n' {
        0
    } else {
        1 + chars_after_last_newline(s.drop_last())
    }
}

/// The tracker rule for the line: advance by one per newline consumed.
pub open spec fn next_line(line: nat, consumed: Seq<char>) -> nat {
    line + newline_count(consumed)
}

/// The tracker rule for the column: if the consumed span contains no
/// newline, advance by its length; otherwise reset to column 1 and advance
/// past the characters that follow the span's last newline.
pub open spec fn next_column(column: nat, consumed: Seq<char>) -> nat {
    if newline_count(consumed) == 0 {
        column + consumed.len()
    } else {
        1 + chars_after_last_newline(consumed)
    }
}

/// The line of the character at offset `k` of `s`, counting from line 1:
/// one more than the number of newlines strictly before it.
pub open spec fn line_at(s: Seq<char>, k: int) -> nat {
    1 + newline_count(s.take(k))
}

/// The column of the character at offset `k` of `s`, counting from column 1
/// and resetting to 1 immediately after each newline: one more than the
/// number of characters between the last newline before offset `k` and
/// offset `k` itself.
pub open spec fn column_at(s: Seq<char>, k: int) -> nat {
    1 + chars_after_last_newline(s.take(k))
}

pub proof fn lemma_newline_count_le(s: Seq<char>)
    ensures
        newline_count(s) <= s.len(),
    decreases s.len(),
{
    if s.len() > 0 {
        lemma_newline_count_le(s.drop_last());
    }
}

pub proof fn lemma_chars_after_last_newline_le(s: Seq<char>)
    ensures
        chars_after_last_newline(s) <= s.len(),
    decreases s.len(),
{
    if s.len() > 0 && s.last() != '\n' {
        lemma_chars_after_last_newline_le(s.drop_last());
    }
}

/// A span without newlines has a zero newline count.
pub proof fn lemma_newline_count_zero(s: Seq<char>)
    requires
        forall|i: int| 0 <= i < s.len() ==> s[i] != '\n',
    ensures
        newline_count(s) == 0,
    decreases s.len(),
{
    if s.len() > 0 {
        lemma_newline_count_zero(s.drop_last());
    }
}

pub proof fn lemma_newline_count_push(s: Seq<char>, c: char)
    ensures
        newline_count(s.push(c)) == newline_count(s) + if c == '\n' { 1nat } else { 0nat },
        chars_after_last_newline(s.push(c)) == if c == '\n' {
            0nat
        } else {
            chars_after_last_newline(s) + 1
        },
{
    assert(s.push(c).drop_last() =~= s);
}

pub proof fn lemma_newline_count_concat(p: Seq<char>, q: Seq<char>)
    ensures
        newline_count(p + q) == newline_count(p) + newline_count(q),
    decreases q.len(),
{
    if q.len() == 0 {
        assert(p + q =~= p);
    } else {
        assert((p + q).drop_last() =~= p + q.drop_last());
        lemma_newline_count_concat(p, q.drop_last());
    }
}

pub proof fn lemma_chars_after_last_newline_concat(p: Seq<char>, q: Seq<char>)
    ensures
        chars_after_last_newline(p + q) == if newline_count(q) == 0 {
            chars_after_last_newline(p) + q.len()
        } else {
            chars_after_last_newline(q)
        },
    decreases q.len(),
{
    lemma_newline_count_concat(p, q);
    if q.len() == 0 {
        assert(p + q =~= p);
    } else {
        assert((p + q).drop_last() =~= p + q.drop_last());
        lemma_chars_after_last_newline_concat(p, q.drop_last());
    }
}

/// The tracker agrees with counting from the origin: starting from the
/// position of offset `pos` and advancing over the span between `pos` and
/// `end` lands exactly on the position of offset `end`.
pub proof fn lemma_advance_from(s: Seq<char>, pos: int, end: int)
    requires
        0 <= pos <= end <= s.len(),
    ensures
        next_line(line_at(s, pos), s.subrange(pos, end)) == line_at(s, end),
        next_column(column_at(s, pos), s.subrange(pos, end)) == column_at(s, end),
{
    let p = s.take(pos);
    let q = s.subrange(pos, end);
    assert(s.take(end) =~= p + q);
    lemma_newline_count_concat(p, q);
    lemma_chars_after_last_newline_concat(p, q);
}

/// Advances a 1-indexed (line, column) cursor over a consumed span: the
/// line grows by the number of newlines in the span; the column grows by
/// the span's length if the span has no newline, and otherwise restarts at
/// 1 plus the number of characters after the span's last newline.
pub fn advance_position(line: usize, column: usize, consumed: &str) -> (r: (usize, usize))
    requires
        line + consumed@.len() <= usize::MAX,
        column + consumed@.len() <= usize::MAX,
        consumed@.len() < usize::MAX,
    ensures
        r.0 == next_line(line as nat, consumed@),
        r.1 == next_column(column as nat, consumed@),
{
    let ghost s = consumed@;
    let n: usize = consumed.unicode_len();
    let mut cur_line: usize = line;
    let mut cur_column: usize = column;
    let mut i: usize = 0;
    while i < n
        invariant
            0 <= i <= n,
            n == s.len(),
            s == consumed@,
            line + s.len() <= usize::MAX,
            column + s.len() <= usize::MAX,
            s.len() < usize::MAX,
            cur_line == next_line(line as nat, s.take(i as int)),
            cur_column == next_column(column as nat, s.take(i as int)),
        decreases n - i,
    {
        let c = consumed.get_char(i);
        proof {
            assert(s.take(i as int).push(s[i as int]) =~= s.take(i + 1));
            lemma_newline_count_push(s.take(i as int), s[i as int]);
            lemma_newline_count_le(s.take(i as int));
            lemma_chars_after_last_newline_le(s.take(i as int));
        }
        if c == '\n' {
            cur_line = cur_line + 1;
            cur_column = 1;
        } else {
            cur_column = cur_column + 1;
        }
        i = i + 1;
    }
    proof {
        assert(s.take(n as int) =~= s);
    }
    (cur_line, cur_column)
}

} // verus!
