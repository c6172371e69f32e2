//! Cutting text at separators and reading decimal numbers.

use vstd::prelude::*;
use vstd::string::*;

verus! {

/// The pieces of `s` between occurrences of `sep`, in order.  Text without a
/// separator is one piece; `k` separators give `k + 1` pieces, empty ones
/// included.
pub open spec fn split_text(s: Seq<char>, sep: char) -> Seq<Seq<char>>
    decreases s.len(),
{
    if s.len() == 0 {
        seq![Seq::empty()]
    } else {
        let before = split_text(s.drop_last(), sep);
        if s.last() == sep {
            before.push(Seq::empty())
        } else {
            before.update(before.len() - 1, before.last().push(s.last()))
        }
    }
}

/// The texts of a sequence of string slices.
pub open spec fn texts(parts: Seq<&str>) -> Seq<Seq<char>> {
    Seq::new(parts.len(), |i: int| parts[i]@)
}

/// There is always at least one piece.
pub proof fn lemma_split_text_nonempty(s: Seq<char>, sep: char)
    ensures
        split_text(s, sep).len() >= 1,
    decreases s.len(),
{
    if s.len() > 0 {
        lemma_split_text_nonempty(s.drop_last(), sep);
    }
}

/// Text without a separator is a single piece.
pub proof fn lemma_split_text_plain(s: Seq<char>, sep: char)
    requires
        !s.contains(sep),
    ensures
        split_text(s, sep) == seq![s],
    decreases s.len(),
{
    if s.len() == 0 {
        assert(split_text(s, sep) =~~= seq![s]);
    } else {
        assert(s.drop_last().push(s.last()) =~= s);
        assert(s.last() == s[s.len() - 1]);
        assert forall|i: int| 0 <= i < s.drop_last().len() implies s.drop_last()[i] != sep by {
            assert(s.drop_last()[i] == s[i]);
        }
        lemma_split_text_plain(s.drop_last(), sep);
        assert(split_text(s, sep) =~~= seq![s]);
    }
}

/// The pieces of two texts joined by a separator are the pieces of the first
/// followed by the pieces of the second.
pub proof fn lemma_split_text_joined(left: Seq<char>, right: Seq<char>, sep: char)
    ensures
        split_text(left + seq![sep] + right, sep) == split_text(left, sep) + split_text(
            right,
            sep,
        ),
    decreases right.len(),
{
    let whole = left + seq![sep] + right;
    lemma_split_text_nonempty(left, sep);
    if right.len() == 0 {
        assert(whole.drop_last() =~= left);
        assert(split_text(whole, sep) =~~= split_text(left, sep) + split_text(right, sep));
    } else {
        assert(whole.drop_last() =~= left + seq![sep] + right.drop_last());
        assert(whole.last() == right.last());
        lemma_split_text_joined(left, right.drop_last(), sep);
        lemma_split_text_nonempty(right.drop_last(), sep);
        assert(split_text(whole, sep) =~~= split_text(left, sep) + split_text(right, sep));
    }
}

/// Cuts `s` at every occurrence of `sep`.
pub fn split<'a>(s: &'a str, sep: char) -> (parts: Vec<&'a str>)
    ensures
        texts(parts@) == split_text(s@, sep),
{
    let len = s.unicode_len();
    let mut parts: Vec<&'a str> = Vec::new();
    let mut start: usize = 0;
    let mut i: usize = 0;
    while i < len
        invariant
            len == s@.len(),
            start <= i <= len,
            split_text(s@.take(i as int), sep) =~~= texts(parts@).push(
                s@.subrange(start as int, i as int),
            ),
        decreases len - i,
    {
        let c = s.get_char(i);
        proof {
            let head = s@.take(i + 1);
            assert(head.drop_last() =~= s@.take(i as int));
            assert(head.last() == c);
            lemma_split_text_nonempty(s@.take(i as int), sep);
        }
        if c == sep {
            let piece = s.substring_char(start, i);
            let ghost before = parts@;
            parts.push(piece);
            start = i + 1;
            proof {
                assert(texts(parts@) =~~= texts(before).push(piece@));
                assert(s@.subrange(start as int, start as int) =~= Seq::<char>::empty());
            }
        } else {
            proof {
                let pieces = texts(parts@).push(s@.subrange(start as int, i as int));
                assert(s@.subrange(start as int, i as int).push(c) =~= s@.subrange(
                    start as int,
                    i + 1,
                ));
                assert(pieces.update(pieces.len() - 1, pieces.last().push(c)) =~~= texts(
                    parts@,
                ).push(s@.subrange(start as int, i + 1)));
            }
        }
        i += 1;
    }
    let piece = s.substring_char(start, len);
    let ghost before = parts@;
    parts.push(piece);
    proof {
        assert(s@.take(len as int) =~= s@);
        assert(texts(parts@) =~~= texts(before).push(piece@));
    }
    parts
}

/// Whether `c` occurs in `s`.
pub fn contains_char(s: &str, c: char) -> (found: bool)
    ensures
        found == s@.contains(c),
{
    let len = s.unicode_len();
    let mut i: usize = 0;
    while i < len
        invariant
            len == s@.len(),
            i <= len,
            forall|j: int| 0 <= j < i ==> s@[j] != c,
        decreases len - i,
    {
        if s.get_char(i) == c {
            return true;
        }
        i += 1;
    }
    false
}

/// Whether `s` is the one character `c`.
pub fn is_char(s: &str, c: char) -> (same: bool)
    ensures
        same == (s@ == seq![c]),
{
    if s.unicode_len() == 1 {
        let same = s.get_char(0) == c;
        proof {
            if same {
                assert(s@ =~= seq![c]);
            } else {
                assert(seq![c][0] == c);
            }
        }
        same
    } else {
        proof {
            assert(seq![c].len() == 1);
        }
        false
    }
}

/// Whether `c` is a decimal digit.
pub open spec fn is_digit(c: char) -> bool {
    '0' <= c <= '9'
}

/// The number that a text of decimal digits writes.
pub open spec fn digits_value(s: Seq<char>) -> nat
    decreases s.len(),
{
    if s.len() == 0 {
        0
    } else {
        (digits_value(s.drop_last()) * 10 + (s.last() as int - '0' as int)) as nat
    }
}

/// Every character of `s` is a decimal digit.
pub open spec fn all_digits(s: Seq<char>) -> bool {
    forall|i: int| 0 <= i < s.len() ==> is_digit(#[trigger] s[i])
}

/// `s` without a leading plus sign.
pub open spec fn unsigned_part(s: Seq<char>) -> Seq<char> {
    if s.len() > 0 && s[0] == '+' {
        s.drop_first()
    } else {
        s
    }
}

/// The number that `s` writes: one or more decimal digits, after an optional
/// plus sign, whose value fits a `usize`.  Any other text writes no number.
pub open spec fn number_text(s: Seq<char>) -> Option<nat> {
    let digits = unsigned_part(s);
    if digits.len() > 0 && all_digits(digits) && digits_value(digits) <= usize::MAX {
        Some(digits_value(digits))
    } else {
        None
    }
}

/// A text of digits is worth at least as much as each of its prefixes.
pub proof fn lemma_digits_value_grows(s: Seq<char>, k: int)
    requires
        all_digits(s),
        0 <= k <= s.len(),
    ensures
        digits_value(s.take(k)) <= digits_value(s),
    decreases s.len(),
{
    if k == s.len() {
        assert(s.take(k) =~= s);
    } else {
        assert(s.drop_last().take(k) =~= s.take(k));
        lemma_digits_value_grows(s.drop_last(), k);
    }
}

/// Reads `s` as a decimal number.
pub fn parse_number(s: &str) -> (r: Option<usize>)
    ensures
        match number_text(s@) {
            Some(v) => r == Some(v as usize),
            None => r is None,
        },
{
    let len = s.unicode_len();
    let first: usize = if len > 0 && s.get_char(0) == '+' {
        1
    } else {
        0
    };
    if first == len {
        return None;
    }
    let ghost digits = unsigned_part(s@);
    assert(digits =~= s@.subrange(first as int, len as int));
    let mut value: usize = 0;
    let mut i: usize = first;
    while i < len
        invariant
            len == s@.len(),
            first <= i <= len,
            digits == s@.subrange(first as int, len as int),
            digits == unsigned_part(s@),
            all_digits(digits.take(i - first)),
            value == digits_value(digits.take(i - first)),
        decreases len - i,
    {
        let c = s.get_char(i);
        let ghost seen = digits.take(i - first + 1);
        proof {
            assert(seen.drop_last() =~= digits.take(i - first));
            assert(seen.last() == c);
        }
        if c < '0' || c > '9' {
            proof {
                assert(!is_digit(digits[i - first]));
            }
            return None;
        }
        let d: usize = (c as u32 - '0' as u32) as usize;
        if value > (usize::MAX - d) / 10 {
            proof {
                if all_digits(digits) {
                    lemma_digits_value_grows(digits, i - first + 1);
                }
            }
            return None;
        }
        value = value * 10 + d;
        i += 1;
    }
    proof {
        assert(digits.take(len - first) =~= digits);
    }
    Some(value)
}

} // verus!
