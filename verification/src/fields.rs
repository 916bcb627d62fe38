//! Whitespace, words and numbers in text.

use vstd::prelude::*;
use vstd::slice::slice_subrange;
use crate::text::{from_chars, to_chars};
use crate::views::lemma_push_deep_view;

verus! {

/// The character is whitespace: one of the code points that Unicode lists
/// as white space.
pub open spec fn is_space(c: char) -> bool {
    let n = c as u32;
    (0x09 <= n <= 0x0D) || n == 0x20 || n == 0x85 || n == 0xA0 || n == 0x1680 || (0x2000 <= n
        <= 0x200A) || n == 0x2028 || n == 0x2029 || n == 0x202F || n == 0x205F || n == 0x3000
}

/// How many characters at the start of `s` are whitespace, where `spaces`
/// is set, or are not, where it is not.
pub open spec fn run(s: Seq<char>, spaces: bool) -> nat
    decreases s.len(),
{
    if s.len() > 0 && is_space(s[0]) == spaces {
        1 + run(s.skip(1), spaces)
    } else {
        0
    }
}

/// How many characters at the end of `s` are whitespace.
pub open spec fn trailing(s: Seq<char>) -> nat
    decreases s.len(),
{
    if s.len() > 0 && is_space(s.last()) {
        1 + trailing(s.drop_last())
    } else {
        0
    }
}

/// `s` without the whitespace at its end.
pub open spec fn trimmed_end(s: Seq<char>) -> Seq<char> {
    s.take(s.len() - trailing(s))
}

/// `s` without the whitespace at its start and at its end.
pub open spec fn trimmed(s: Seq<char>) -> Seq<char> {
    trimmed_end(s.skip(run(s, true) as int))
}

/// A run never passes the end.
proof fn lemma_run_bound(s: Seq<char>, spaces: bool)
    ensures
        run(s, spaces) <= s.len(),
    decreases s.len(),
{
    if s.len() > 0 && is_space(s[0]) == spaces {
        lemma_run_bound(s.skip(1), spaces);
    }
}

proof fn lemma_run_at(s: Seq<char>, i: int, j: int, spaces: bool)
    requires
        0 <= i <= j <= s.len(),
        forall|k: int| i <= k < j ==> is_space(s[k]) == spaces,
        j == s.len() || is_space(s[j]) != spaces,
    ensures
        run(s.skip(i), spaces) == j - i,
    decreases j - i,
{
    let rest = s.skip(i);
    if i < j {
        assert(rest[0] == s[i]);
        assert(rest.skip(1) =~= s.skip(i + 1));
        lemma_run_at(s, i + 1, j, spaces);
    } else if j < s.len() {
        assert(rest[0] == s[j]);
    }
}

proof fn lemma_trailing_at(s: Seq<char>, i: int, j: int)
    requires
        0 <= i <= j <= s.len(),
        forall|k: int| i <= k < j ==> is_space(s[k]),
        i == 0 || !is_space(s[i - 1]),
    ensures
        trailing(s.take(j)) == j - i,
    decreases j - i,
{
    let front = s.take(j);
    if i < j {
        assert(front.last() == s[j - 1]);
        assert(front.drop_last() =~= s.take(j - 1));
        lemma_trailing_at(s, i, j - 1);
    } else if i > 0 {
        assert(front.last() == s[i - 1]);
    }
}

/// Whether the character is whitespace.
pub fn is_whitespace(c: char) -> (yes: bool)
    ensures
        yes == is_space(c),
{
    let n: u32 = c as u32;
    (0x09 <= n && n <= 0x0D) || n == 0x20 || n == 0x85 || n == 0xA0 || n == 0x1680 || (0x2000 <= n
        && n <= 0x200A) || n == 0x2028 || n == 0x2029 || n == 0x202F || n == 0x205F || n == 0x3000
}

/// The index at which the run that starts at `from` ends.
fn run_end(chars: &[char], from: usize, spaces: bool) -> (end: usize)
    requires
        from <= chars@.len(),
    ensures
        from <= end <= chars@.len(),
        end - from == run(chars@.skip(from as int), spaces),
{
    let mut end: usize = from;
    while end < chars.len() && is_whitespace(chars[end]) == spaces
        invariant
            from <= end <= chars@.len(),
            forall|k: int| from <= k < end ==> is_space(chars@[k]) == spaces,
        decreases chars@.len() - end,
    {
        end += 1;
    }
    proof {
        lemma_run_at(chars@, from as int, end as int, spaces);
    }
    end
}

/// The index at which the whitespace at the end of the first `to`
/// characters begins.
fn trailing_start(chars: &[char], to: usize) -> (start: usize)
    requires
        to <= chars@.len(),
    ensures
        start <= to,
        to - start == trailing(chars@.take(to as int)),
{
    let mut start: usize = to;
    while start > 0 && is_whitespace(chars[start - 1])
        invariant
            start <= to <= chars@.len(),
            forall|k: int| start <= k < to ==> is_space(chars@[k]),
        decreases start,
    {
        start -= 1;
    }
    proof {
        lemma_trailing_at(chars@, start as int, to as int);
    }
    start
}

/// The text without the whitespace at its end.
pub fn trim_end(text: &str) -> (out: String)
    ensures
        out@ == trimmed_end(text@),
{
    let chars = to_chars(text);
    assert(chars@.take(chars@.len() as int) =~= chars@);
    let end = trailing_start(chars.as_slice(), chars.len());
    let kept = slice_subrange(chars.as_slice(), 0, end);
    assert(kept@ =~= chars@.take(end as int));
    from_chars(kept)
}

/// The text without the whitespace at its start and at its end.
pub fn trim(text: &str) -> (out: String)
    ensures
        out@ == trimmed(text@),
{
    let chars = to_chars(text);
    assert(chars@.skip(0) =~= chars@);
    let start = run_end(chars.as_slice(), 0, true);
    let rest = slice_subrange(chars.as_slice(), start, chars.len());
    assert(rest@ =~= chars@.skip(start as int));
    assert(rest@.take(rest@.len() as int) =~= rest@);
    let end = trailing_start(rest, rest.len());
    let kept = slice_subrange(rest, 0, end);
    assert(kept@ =~= rest@.take(end as int));
    from_chars(kept)
}

/// Where a run ends before the end of the text, the next character does not
/// belong to it.
proof fn lemma_run_stops(s: Seq<char>, spaces: bool)
    ensures
        run(s, spaces) < s.len() ==> is_space(s[run(s, spaces) as int]) != spaces,
    decreases s.len(),
{
    if s.len() > 0 && is_space(s[0]) == spaces {
        lemma_run_stops(s.skip(1), spaces);
        lemma_run_bound(s.skip(1), spaces);
    }
}

/// The words of a text: its longest stretches without whitespace, in order.
pub open spec fn words(s: Seq<char>) -> Seq<Seq<char>>
    decreases s.len(),
    via words_decreases
{
    let rest = s.skip(run(s, true) as int);
    if rest.len() == 0 {
        Seq::empty()
    } else {
        let end = run(rest, false);
        seq![rest.take(end as int)] + words(rest.skip(end as int))
    }
}

#[via_fn]
proof fn words_decreases(s: Seq<char>) {
    let start = run(s, true);
    lemma_run_bound(s, true);
    lemma_run_stops(s, true);
    let rest = s.skip(start as int);
    if rest.len() > 0 {
        lemma_run_bound(rest, false);
        assert(rest[0] == s[start as int]);
    }
}

/// The character is a decimal digit.
pub open spec fn is_digit(c: char) -> bool {
    '0' <= c <= '9'
}

/// The value of a decimal digit.
pub open spec fn digit_value(c: char) -> nat {
    if is_digit(c) {
        (c as u32 - 48) as nat
    } else {
        0
    }
}

/// The number that a string of decimal digits writes.
pub open spec fn digits_value(s: Seq<char>) -> nat
    decreases s.len(),
{
    if s.len() == 0 {
        0
    } else {
        digits_value(s.drop_last()) * 10 + digit_value(s.last())
    }
}

/// Every character is a decimal digit.
pub open spec fn all_digits(s: Seq<char>) -> bool {
    forall|i: int| 0 <= i < s.len() ==> is_digit(#[trigger] s[i])
}

/// A text without the plus sign it may begin with.
pub open spec fn unsigned(s: Seq<char>) -> Seq<char> {
    if s.len() > 0 && s[0] == '+' {
        s.skip(1)
    } else {
        s
    }
}

/// The number a text writes, where it writes one that fits in 32 bits: an
/// optional plus sign and then one or more decimal digits, nothing else.
pub open spec fn number(s: Seq<char>) -> Option<nat> {
    let digits = unsigned(s);
    if digits.len() > 0 && all_digits(digits) && digits_value(digits) <= u32::MAX {
        Some(digits_value(digits))
    } else {
        None
    }
}

/// More digits never write a smaller number.
proof fn lemma_value_grows(s: Seq<char>, k: int)
    requires
        0 <= k <= s.len(),
    ensures
        digits_value(s.take(k)) <= digits_value(s),
    decreases s.len(),
{
    if k < s.len() {
        assert(s.drop_last().take(k) =~= s.take(k));
        lemma_value_grows(s.drop_last(), k);
    } else {
        assert(s.take(k) =~= s);
    }
}

/// The words of a text: see `words`.
pub fn words_of(text: &str) -> (out: Vec<String>)
    ensures
        out.deep_view() == words(text@),
{
    let chars = to_chars(text);
    let mut out: Vec<String> = Vec::new();
    let mut i: usize = 0;
    assert(chars@.skip(0) =~= chars@);
    assert(out.deep_view() =~= Seq::<Seq<char>>::empty());
    assert(Seq::<Seq<char>>::empty() + words(chars@) =~= words(chars@));
    while i < chars.len()
        invariant
            i <= chars@.len(),
            chars@ == text@,
            out.deep_view() + words(chars@.skip(i as int)) == words(chars@),
        decreases chars@.len() - i,
    {
        let ghost here = chars@.skip(i as int);
        let start = run_end(chars.as_slice(), i, true);
        let ghost rest = here.skip(start - i);
        assert(rest =~= chars@.skip(start as int));
        if start == chars.len() {
            assert(words(here) =~= Seq::<Seq<char>>::empty());
            i = start;
        } else {
            let end = run_end(chars.as_slice(), start, false);
            proof {
                lemma_run_stops(here, true);
                assert(rest[0] == here[start - i]);
                assert(end > start);
            }
            let word = from_chars(slice_subrange(chars.as_slice(), start, end));
            let ghost before = out;
            out.push(word);
            proof {
                lemma_push_deep_view(before, out, word);
                assert(word@ =~= rest.take(end - start));
                assert(rest.skip(end - start) =~= chars@.skip(end as int));
                assert(words(here) == seq![rest.take(end - start)] + words(chars@.skip(end as int)));
                assert(out.deep_view() + words(chars@.skip(end as int)) =~= before.deep_view()
                    + words(here));
            }
            i = end;
        }
    }
    assert(chars@.skip(i as int).len() == 0);
    assert(words(chars@.skip(i as int)) =~= Seq::<Seq<char>>::empty());
    assert(out.deep_view() + Seq::<Seq<char>>::empty() =~= out.deep_view());
    out
}

/// Reads a number: see `number`.
pub fn parse_u32(text: &str) -> (out: Option<u32>)
    ensures
        out == match number(text@) {
            Some(n) => Some(n as u32),
            None => None,
        },
{
    let chars = to_chars(text);
    let start: usize = if chars.len() > 0 && chars[0] == '+' {
        1
    } else {
        0
    };
    let ghost digits = unsigned(chars@);
    assert(digits =~= chars@.skip(start as int));
    if start == chars.len() {
        return None;
    }
    let mut value: u64 = 0;
    let mut i: usize = start;
    assert(digits.take(0) =~= Seq::<char>::empty());
    while i < chars.len()
        invariant
            start <= i <= chars@.len(),
            chars@ == text@,
            digits == chars@.skip(start as int),
            digits == unsigned(text@),
            forall|k: int| 0 <= k < i - start ==> is_digit(#[trigger] digits[k]),
            value == digits_value(digits.take(i - start)),
            value <= u32::MAX,
        decreases chars@.len() - i,
    {
        let c = chars[i];
        assert(digits[i - start] == c);
        if !('0' <= c && c <= '9') {
            assert(!is_digit(digits[i - start]));
            return None;
        }
        let digit: u64 = (c as u32 - 48) as u64;
        let next: u64 = value * 10 + digit;
        proof {
            assert(digits.take(i + 1 - start).drop_last() =~= digits.take(i - start));
            assert(digits.take(i + 1 - start).last() == c);
            assert(next == digits_value(digits.take(i + 1 - start)));
        }
        if next > 0xFFFF_FFFF {
            proof {
                lemma_value_grows(digits, i + 1 - start);
            }
            return None;
        }
        value = next;
        i += 1;
    }
    assert(digits.take(i - start) =~= digits);
    Some(value as u32)
}

/// How many characters come before the first line feed of `s`: all of them
/// where it holds none.
pub open spec fn first_newline(s: Seq<char>) -> nat
    decreases s.len(),
{
    if s.len() == 0 {
        0
    } else if s[0] == '\n' {
        0
    } else {
        1 + first_newline(s.skip(1))
    }
}

/// A line without the carriage return it may end with.
pub open spec fn without_cr(line: Seq<char>) -> Seq<char> {
    if line.len() > 0 && line.last() == '\r' {
        line.drop_last()
    } else {
        line
    }
}

/// The lines of a text. A line ends at a line feed; a carriage return just
/// before it goes with it. What follows the last line feed is a line too,
/// unless it is empty.
pub open spec fn lines_of(s: Seq<char>) -> Seq<Seq<char>>
    decreases s.len(),
{
    if s.len() == 0 {
        Seq::empty()
    } else {
        let end = first_newline(s);
        if end >= s.len() {
            seq![s]
        } else {
            seq![without_cr(s.take(end as int))] + lines_of(s.skip(end as int + 1))
        }
    }
}

proof fn lemma_first_newline_at(s: Seq<char>, i: int, j: int)
    requires
        0 <= i <= j <= s.len(),
        forall|k: int| i <= k < j ==> s[k] != '\n',
        j == s.len() || s[j] == '\n',
    ensures
        first_newline(s.skip(i)) == j - i,
    decreases j - i,
{
    let rest = s.skip(i);
    if i < j {
        assert(rest[0] == s[i]);
        assert(rest.skip(1) =~= s.skip(i + 1));
        lemma_first_newline_at(s, i + 1, j);
    } else if j < s.len() {
        assert(rest[0] == s[j]);
    }
}

/// The lines of a text: see `lines_of`.
pub fn lines(text: &str) -> (out: Vec<String>)
    ensures
        out.deep_view() == lines_of(text@),
{
    let chars = to_chars(text);
    let mut out: Vec<String> = Vec::new();
    let mut i: usize = 0;
    assert(chars@.skip(0) =~= chars@);
    assert(out.deep_view() =~= Seq::<Seq<char>>::empty());
    assert(Seq::<Seq<char>>::empty() + lines_of(chars@) =~= lines_of(chars@));
    while i < chars.len()
        invariant
            i <= chars.len(),
            chars@ == text@,
            out.deep_view() + lines_of(chars@.skip(i as int)) == lines_of(chars@),
        decreases chars.len() - i,
    {
        let mut j: usize = i;
        while j < chars.len() && chars[j] != '\n'
            invariant
                i <= j <= chars.len(),
                forall|k: int| i <= k < j ==> chars@[k] != '\n',
            decreases chars.len() - j,
        {
            j += 1;
        }
        let ghost rest = chars@.skip(i as int);
        proof {
            lemma_first_newline_at(chars@, i as int, j as int);
        }
        let ghost before = out;
        if j == chars.len() {
            let line = from_chars(slice_subrange(chars.as_slice(), i, j));
            assert(line@ =~= rest);
            out.push(line);
            proof {
                lemma_push_deep_view(before, out, line);
                assert(chars@.skip(j as int) =~= Seq::<char>::empty());
                assert(out.deep_view() + lines_of(chars@.skip(j as int)) =~= before.deep_view()
                    + lines_of(rest));
            }
            i = j;
        } else {
            let end: usize = if j > i && chars[j - 1] == '\r' {
                j - 1
            } else {
                j
            };
            let line = from_chars(slice_subrange(chars.as_slice(), i, end));
            assert(rest.take(j - i) =~= chars@.subrange(i as int, j as int));
            assert(line@ =~= without_cr(rest.take(j - i)));
            out.push(line);
            proof {
                lemma_push_deep_view(before, out, line);
                assert(rest.skip(j - i + 1) =~= chars@.skip(j + 1));
                assert(out.deep_view() + lines_of(chars@.skip(j + 1)) =~= before.deep_view()
                    + lines_of(rest));
            }
            i = j + 1;
        }
    }
    assert(chars@.skip(i as int) =~= Seq::<char>::empty());
    assert(out.deep_view() + Seq::<Seq<char>>::empty() =~= out.deep_view());
    out
}

} // verus!
