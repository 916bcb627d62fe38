//! Character-level string primitives: searching, replacing and rendering.
//!
//! Every function here is stated over the character sequence of its
//! arguments, so a match never splits a character.

use vstd::prelude::*;
use vstd::slice::slice_subrange;
use vstd::string::StringExecFns;

verus! {

broadcast use vstd::string::group_string_axioms;

/// `needle` occurs in `hay` starting at index `at`.
pub open spec fn occurs_at(hay: Seq<char>, needle: Seq<char>, at: int) -> bool {
    &&& 0 <= at
    &&& at + needle.len() <= hay.len()
    &&& hay.subrange(at, at + needle.len()) == needle
}

/// `needle` occurs somewhere in `hay`.
pub open spec fn contains(hay: Seq<char>, needle: Seq<char>) -> bool {
    exists|at: int| occurs_at(hay, needle, at)
}

/// `hay` begins with `prefix`.
pub open spec fn starts_with(hay: Seq<char>, prefix: Seq<char>) -> bool {
    occurs_at(hay, prefix, 0)
}

/// `hay` ends with `suffix`.
pub open spec fn ends_with(hay: Seq<char>, suffix: Seq<char>) -> bool {
    occurs_at(hay, suffix, hay.len() - suffix.len())
}

/// `hay` with every occurrence of `old` replaced by `new`, scanning from the
/// left and never letting two matches overlap. An empty `old` matches
/// nowhere.
pub open spec fn replaced(hay: Seq<char>, old: Seq<char>, new: Seq<char>) -> Seq<char>
    decreases hay.len(),
{
    if old.len() == 0 || hay.len() < old.len() {
        hay
    } else if occurs_at(hay, old, 0) {
        new + replaced(hay.skip(old.len() as int), old, new)
    } else {
        seq![hay[0]] + replaced(hay.skip(1), old, new)
    }
}

/// The lowercase form that `str::to_lowercase` gives a string: a function of
/// the characters alone, fixed by the Unicode tables.
pub uninterp spec fn lowercase_of(s: Seq<char>) -> Seq<char>;

/// `str::to_lowercase` returns the lowercase equivalent of the string as a
/// new `String`; the result depends on the characters only.
pub assume_specification[ str::to_lowercase ](s: &str) -> (lower: String)
    ensures
        lower@ == lowercase_of(s@),
;

/// `String::push` appends the given character to the end of the string.
pub assume_specification[ String::push ](s: &mut String, c: char)
    ensures
        final(s)@ == old(s)@.push(c),
;

/// The characters of a string slice, in order.
pub fn to_chars(s: &str) -> (chars: Vec<char>)
    ensures
        chars@ == s@,
{
    let mut chars: Vec<char> = Vec::new();
    for c in it: s.chars()
        invariant
            it.seq() == s@,
            chars@ == it.seq().take(it.index()),
    {
        chars.push(c);
    }
    chars
}

/// The string made of the given characters, in order.
pub fn from_chars(chars: &[char]) -> (s: String)
    ensures
        s@ == chars@,
{
    let mut s = String::new();
    let mut i: usize = 0;
    while i < chars.len()
        invariant
            i <= chars.len(),
            s@ == chars@.take(i as int),
        decreases chars.len() - i,
    {
        s.push(chars[i]);
        i += 1;
    }
    s
}

/// Whether `needle` occurs in `hay` at index `at`.
pub fn matches_at(hay: &[char], needle: &[char], at: usize) -> (found: bool)
    ensures
        found == occurs_at(hay@, needle@, at as int),
{
    if needle.len() > hay.len() || at > hay.len() - needle.len() {
        return false;
    }
    let mut k: usize = 0;
    while k < needle.len()
        invariant
            k <= needle.len(),
            at + needle.len() <= hay.len(),
            forall|j: int| 0 <= j < k ==> hay@[at + j] == needle@[j],
        decreases needle.len() - k,
    {
        if hay[at + k] != needle[k] {
            assert(hay@.subrange(at as int, at + needle@.len())[k as int] == hay@[at + k]);
            return false;
        }
        k += 1;
    }
    assert(hay@.subrange(at as int, at + needle@.len()) =~= needle@);
    true
}

/// The first index at or after `from` where `needle` occurs in `hay`.
pub fn find_from(hay: &[char], needle: &[char], from: usize) -> (found: Option<usize>)
    ensures
        match found {
            Some(at) => from <= at && occurs_at(hay@, needle@, at as int) && forall|j: int|
                from <= j < at ==> !occurs_at(hay@, needle@, j),
            None => forall|j: int| from <= j ==> !occurs_at(hay@, needle@, j),
        },
{
    if needle.len() > hay.len() {
        return None;
    }
    let last: usize = hay.len() - needle.len();
    let mut at: usize = from;
    while at < last
        invariant
            from <= at,
            last == hay.len() - needle.len(),
            forall|j: int| from <= j < at ==> !occurs_at(hay@, needle@, j),
        decreases last - at,
    {
        if matches_at(hay, needle, at) {
            return Some(at);
        }
        at += 1;
    }
    if at == last && matches_at(hay, needle, at) {
        Some(at)
    } else {
        None
    }
}

/// Whether `needle` occurs in `hay`, on character slices.
pub fn contains_chars(hay: &[char], needle: &[char]) -> (found: bool)
    ensures
        found == contains(hay@, needle@),
{
    match find_from(hay, needle, 0) {
        Some(at) => {
            assert(occurs_at(hay@, needle@, at as int));
            true
        },
        None => false,
    }
}

/// Whether `hay` ends with `suffix`, on character slices.
pub fn ends_with_chars(hay: &[char], suffix: &[char]) -> (found: bool)
    ensures
        found == ends_with(hay@, suffix@),
{
    if suffix.len() > hay.len() {
        false
    } else {
        matches_at(hay, suffix, hay.len() - suffix.len())
    }
}

/// Replaces every occurrence of `old` in `hay` by `new`, leftmost first and
/// without overlap.
pub fn replace_chars(hay: &[char], old: &[char], new: &[char]) -> (out: Vec<char>)
    ensures
        out@ == replaced(hay@, old@, new@),
{
    let mut out: Vec<char> = Vec::new();
    if old.len() == 0 {
        out.extend_from_slice(hay);
        assert(out@ =~= hay@);
        return out;
    }
    let mut i: usize = 0;
    assert(hay@.skip(0) =~= hay@);
    while i < hay.len()
        invariant
            i <= hay.len(),
            old@.len() > 0,
            out@ + replaced(hay@.skip(i as int), old@, new@) == replaced(hay@, old@, new@),
        decreases hay.len() - i,
    {
        let ghost rest = hay@.skip(i as int);
        if matches_at(hay, old, i) {
            assert(rest.subrange(0, old@.len() as int) =~= hay@.subrange(
                i as int,
                i + old@.len(),
            ));
            assert(rest.skip(old@.len() as int) =~= hay@.skip(i + old@.len()));
            let ghost before = out@;
            out.extend_from_slice(new);
            assert(out@ + replaced(hay@.skip(i + old@.len()), old@, new@) =~= before + (new@
                + replaced(rest.skip(old@.len() as int), old@, new@)));
            i += old.len();
        } else {
            assert(rest.len() >= old@.len() ==> rest.subrange(0, old@.len() as int)
                =~= hay@.subrange(i as int, i + old@.len()));
            assert(rest.skip(1) =~= hay@.skip(i + 1));
            assert(rest.len() < old@.len() ==> replaced(rest.skip(1), old@, new@) == rest.skip(1));
            assert(rest =~= seq![rest[0]] + rest.skip(1));
            let ghost before = out@;
            out.push(hay[i]);
            assert(out@ + replaced(hay@.skip(i + 1), old@, new@) =~= before + (seq![rest[0]]
                + replaced(rest.skip(1), old@, new@)));
            i += 1;
        }
    }
    assert(hay@.skip(i as int) =~= Seq::<char>::empty());
    assert(out@ + Seq::<char>::empty() =~= out@);
    out
}

/// Whether `needle` occurs in `hay`.
pub fn contains_str(hay: &str, needle: &str) -> (found: bool)
    ensures
        found == contains(hay@, needle@),
{
    let hay_chars = to_chars(hay);
    let needle_chars = to_chars(needle);
    contains_chars(hay_chars.as_slice(), needle_chars.as_slice())
}

/// Whether `hay` begins with `prefix`.
pub fn starts_with_str(hay: &str, prefix: &str) -> (found: bool)
    ensures
        found == starts_with(hay@, prefix@),
{
    let hay_chars = to_chars(hay);
    let prefix_chars = to_chars(prefix);
    matches_at(hay_chars.as_slice(), prefix_chars.as_slice(), 0)
}

/// Whether `hay` ends with `suffix`.
pub fn ends_with_str(hay: &str, suffix: &str) -> (found: bool)
    ensures
        found == ends_with(hay@, suffix@),
{
    let hay_chars = to_chars(hay);
    let suffix_chars = to_chars(suffix);
    ends_with_chars(hay_chars.as_slice(), suffix_chars.as_slice())
}

/// Replaces every occurrence of `old` in `text` by `new`: first match
/// through last, left to right, without overlap. An empty `old` matches
/// nowhere and leaves the text as it is.
pub fn replace_all(text: &str, old: &str, new: &str) -> (out: String)
    ensures
        out@ == replaced(text@, old@, new@),
{
    let text_chars = to_chars(text);
    let old_chars = to_chars(old);
    let new_chars = to_chars(new);
    let out = replace_chars(text_chars.as_slice(), old_chars.as_slice(), new_chars.as_slice());
    from_chars(out.as_slice())
}

/// The lowercase form of a string.
pub fn lowercase(s: &str) -> (lower: String)
    ensures
        lower@ == lowercase_of(s@),
{
    s.to_lowercase()
}

/// The parts in order, with `sep` between each two neighbours.
pub open spec fn joined(parts: Seq<Seq<char>>, sep: Seq<char>) -> Seq<char>
    decreases parts.len(),
{
    if parts.len() == 0 {
        Seq::empty()
    } else if parts.len() == 1 {
        parts[0]
    } else {
        joined(parts.drop_last(), sep) + sep + parts.last()
    }
}

/// The character of a decimal digit.
pub open spec fn digit_char(d: nat) -> char
    recommends
        d < 10,
{
    (48 + d) as char
}

/// The decimal numeral of `n`, without leading zeros.
pub open spec fn decimal(n: nat) -> Seq<char>
    decreases n,
{
    if n < 10 {
        seq![digit_char(n)]
    } else {
        decimal(n / 10).push(digit_char(n % 10))
    }
}

/// `c` repeated `n` times.
pub open spec fn repeated(c: char, n: nat) -> Seq<char> {
    Seq::new(n, |i: int| c)
}

/// Whether two string slices hold the same characters.
pub fn same_text(a: &str, b: &str) -> (same: bool)
    ensures
        same == (a@ == b@),
{
    let a_chars = to_chars(a);
    let b_chars = to_chars(b);
    if a_chars.len() != b_chars.len() {
        return false;
    }
    let found = matches_at(a_chars.as_slice(), b_chars.as_slice(), 0);
    assert(a@.subrange(0, a@.len() as int) =~= a@);
    found
}

/// Whether the character `c` occurs in `s`.
pub fn contains_char(s: &str, c: char) -> (found: bool)
    ensures
        found == s@.contains(c),
{
    let chars = to_chars(s);
    let mut i: usize = 0;
    while i < chars.len()
        invariant
            i <= chars.len(),
            chars@ == s@,
            forall|j: int| 0 <= j < i ==> s@[j] != c,
        decreases chars.len() - i,
    {
        if chars[i] == c {
            return true;
        }
        i += 1;
    }
    false
}

/// Joins the parts with `sep` between each two neighbours.
pub fn join(parts: &Vec<String>, sep: &str) -> (out: String)
    ensures
        out@ == joined(parts.deep_view(), sep@),
{
    let mut out = String::new();
    let mut i: usize = 0;
    while i < parts.len()
        invariant
            i <= parts.len(),
            out@ == joined(parts.deep_view().take(i as int), sep@),
        decreases parts.len() - i,
    {
        let ghost before = parts.deep_view().take(i as int);
        let ghost after = parts.deep_view().take(i + 1);
        assert(after.drop_last() =~= before);
        assert(after.last() == parts[i as int]@);
        if i > 0 {
            out.append(sep);
        }
        out.append(parts[i].as_str());
        assert(out@ =~= joined(after, sep@));
        i += 1;
    }
    assert(parts.deep_view().take(i as int) =~= parts.deep_view());
    out
}

/// The decimal numeral of `n`.
pub fn decimal_string(n: u64) -> (out: String)
    ensures
        out@ == decimal(n as nat),
    decreases n,
{
    let digit: u8 = (n % 10) as u8;
    let c: char = (48u8 + digit) as char;
    if n < 10 {
        let mut out = String::new();
        out.push(c);
        assert(out@ =~= seq![digit_char(n as nat)]);
        out
    } else {
        let mut out = decimal_string(n / 10);
        out.push(c);
        out
    }
}

/// A string of `n` copies of `c`.
pub fn repeat_char(c: char, n: usize) -> (out: String)
    ensures
        out@ == repeated(c, n as nat),
{
    let mut out = String::new();
    let mut i: usize = 0;
    while i < n
        invariant
            i <= n,
            out@ == repeated(c, i as nat),
        decreases n - i,
    {
        out.push(c);
        assert(out@ =~= repeated(c, (i + 1) as nat));
        i += 1;
    }
    out
}

/// The index of the last `c` in `s`, or -1 where there is none.
pub open spec fn last_index_of(s: Seq<char>, c: char) -> int
    decreases s.len(),
{
    if s.len() == 0 {
        -1
    } else if s.last() == c {
        s.len() - 1
    } else {
        last_index_of(s.drop_last(), c)
    }
}

/// What comes after index `n` holds no `c`, so the last `c` is where it is
/// among the first `n` characters.
proof fn lemma_last_index_of_prefix(s: Seq<char>, c: char, n: int)
    requires
        0 <= n <= s.len(),
        forall|j: int| n <= j < s.len() ==> s[j] != c,
    ensures
        last_index_of(s, c) == last_index_of(s.take(n), c),
    decreases s.len() - n,
{
    if n < s.len() {
        assert(s.drop_last().take(n) =~= s.take(n));
        lemma_last_index_of_prefix(s.drop_last(), c, n);
    } else {
        assert(s.take(n) =~= s);
    }
}

/// The index of the last `c` among the characters.
pub fn rfind_char(chars: &[char], c: char) -> (found: Option<usize>)
    ensures
        match found {
            Some(at) => at == last_index_of(chars@, c) && at < chars@.len() && chars@[at as int] == c,
            None => last_index_of(chars@, c) == -1,
        },
{
    let mut n: usize = chars.len();
    while n > 0 && chars[n - 1] != c
        invariant
            n <= chars.len(),
            forall|j: int| n <= j < chars.len() ==> chars@[j] != c,
        decreases n,
    {
        n -= 1;
    }
    proof {
        lemma_last_index_of_prefix(chars@, c, n as int);
        if n > 0 {
            assert(chars@.take(n as int).last() == chars@[n - 1]);
        }
    }
    if n == 0 {
        None
    } else {
        Some(n - 1)
    }
}

/// The span reads as `old` where case does not count: both have the same
/// lowercase form.
pub open spec fn folds_to(span: Seq<char>, old: Seq<char>) -> bool {
    lowercase_of(span) == lowercase_of(old)
}

/// The length of the shortest span at the start of `s`, of `from`
/// characters or more, that reads as `old` where case does not count.
pub open spec fn shortest_span(s: Seq<char>, old: Seq<char>, from: nat) -> Option<nat>
    decreases s.len() + 1 - from,
{
    if from > s.len() {
        None
    } else if folds_to(s.take(from as int), old) {
        Some(from)
    } else {
        shortest_span(s, old, from + 1)
    }
}

/// Some span of `s` that is not empty reads as `old` where case does not
/// count.
pub open spec fn contains_folding(s: Seq<char>, old: Seq<char>) -> bool {
    exists|i: int, k: int|
        0 <= i && 1 <= k && i + k <= s.len() && folds_to(#[trigger] s.subrange(i, i + k), old)
}

/// `s` with every span that reads as `old`, where case does not count,
/// replaced by `new`: leftmost span first, the shortest one that begins
/// there, and never two that overlap. Every character outside those spans
/// stays as it is.
pub open spec fn replaced_folding(s: Seq<char>, old: Seq<char>, new: Seq<char>) -> Seq<char>
    decreases s.len(),
    via replaced_folding_decreases
{
    if s.len() == 0 {
        s
    } else {
        match shortest_span(s, old, 1) {
            Some(k) => new + replaced_folding(s.skip(k as int), old, new),
            None => seq![s[0]] + replaced_folding(s.skip(1), old, new),
        }
    }
}

#[via_fn]
proof fn replaced_folding_decreases(s: Seq<char>, old: Seq<char>, new: Seq<char>) {
    lemma_shortest_span(s, old, 1);
}

/// What `shortest_span` finds is a span from `from` characters on that
/// reads as `old`, and no shorter one does; where it finds none, there is
/// none.
proof fn lemma_shortest_span(s: Seq<char>, old: Seq<char>, from: nat)
    ensures
        match shortest_span(s, old, from) {
            Some(k) => from <= k <= s.len() && folds_to(s.take(k as int), old) && forall|j: int|
                from <= j < k ==> !folds_to(#[trigger] s.take(j), old),
            None => forall|j: int| from <= j <= s.len() ==> !folds_to(#[trigger] s.take(j), old),
        },
    decreases s.len() + 1 - from,
{
    if from <= s.len() && !folds_to(s.take(from as int), old) {
        lemma_shortest_span(s, old, from + 1);
    }
}

/// The length of the shortest span at index `at` that reads as `old`
/// where case does not count; `lowered` is the lowercase form of `old`.
fn span_at(chars: &[char], at: usize, lowered: &String, Ghost(old): Ghost<Seq<char>>) -> (found:
    Option<usize>)
    requires
        at <= chars@.len(),
        lowered@ == lowercase_of(old),
    ensures
        match found {
            Some(k) => shortest_span(chars@.skip(at as int), old, 1) == Some(k as nat) && 1 <= k
                && at + k <= chars@.len(),
            None => shortest_span(chars@.skip(at as int), old, 1) is None,
        },
{
    let ghost rest = chars@.skip(at as int);
    let total: usize = chars.len();
    let limit: usize = total - at;
    let mut k: usize = 0;
    while k < limit
        invariant
            k <= limit,
            at + limit == total,
            total == chars@.len(),
            rest == chars@.skip(at as int),
            lowered@ == lowercase_of(old),
            shortest_span(rest, old, 1) == shortest_span(rest, old, (k + 1) as nat),
        decreases limit - k,
    {
        k += 1;
        let span = from_chars(slice_subrange(chars, at, at + k));
        assert(span@ =~= rest.take(k as int));
        let folded = lowercase(span.as_str());
        if folded == *lowered {
            return Some(k);
        }
    }
    None
}

/// Whether some span of the text reads as `old` where case does not count:
/// see `contains_folding`.
pub fn contains_ignoring_case(text: &str, old: &str) -> (found: bool)
    ensures
        found == contains_folding(text@, old@),
{
    let chars = to_chars(text);
    let lowered = lowercase(old);
    let mut i: usize = 0;
    while i < chars.len()
        invariant
            i <= chars@.len(),
            chars@ == text@,
            lowered@ == lowercase_of(old@),
            forall|j: int, k: int|
                0 <= j < i && 1 <= k && j + k <= chars@.len() ==> !folds_to(
                    #[trigger] chars@.subrange(j, j + k),
                    old@,
                ),
        decreases chars@.len() - i,
    {
        let ghost rest = chars@.skip(i as int);
        proof {
            lemma_shortest_span(rest, old@, 1);
        }
        match span_at(chars.as_slice(), i, &lowered, Ghost(old@)) {
            Some(k) => {
                assert(rest.take(k as int) =~= chars@.subrange(i as int, i + k));
                return true;
            },
            None => {
                assert forall|k: int| 1 <= k && i + k <= chars@.len() implies !folds_to(
                    #[trigger] chars@.subrange(i as int, i + k),
                    old@,
                ) by {
                    assert(rest.take(k) =~= chars@.subrange(i as int, i + k));
                }
            },
        }
        i += 1;
    }
    false
}

/// Replaces every span of the text that reads as `old`, where case does not
/// count, by `new`: see `replaced_folding`.
pub fn replace_ignoring_case(text: &str, old: &str, new: &str) -> (out: String)
    ensures
        out@ == replaced_folding(text@, old@, new@),
{
    let chars = to_chars(text);
    let new_chars = to_chars(new);
    let lowered = lowercase(old);
    let mut out: Vec<char> = Vec::new();
    let mut i: usize = 0;
    assert(chars@.skip(0) =~= chars@);
    while i < chars.len()
        invariant
            i <= chars@.len(),
            chars@ == text@,
            new_chars@ == new@,
            lowered@ == lowercase_of(old@),
            out@ + replaced_folding(chars@.skip(i as int), old@, new@) == replaced_folding(
                chars@,
                old@,
                new@,
            ),
        decreases chars@.len() - i,
    {
        let ghost rest = chars@.skip(i as int);
        let ghost before = out@;
        match span_at(chars.as_slice(), i, &lowered, Ghost(old@)) {
            Some(k) => {
                assert(rest.skip(k as int) =~= chars@.skip(i + k));
                out.extend_from_slice(new_chars.as_slice());
                assert(out@ + replaced_folding(chars@.skip(i + k), old@, new@) =~= before + (new@
                    + replaced_folding(rest.skip(k as int), old@, new@)));
                i += k;
            },
            None => {
                assert(rest.skip(1) =~= chars@.skip(i + 1));
                out.push(chars[i]);
                assert(out@ + replaced_folding(chars@.skip(i + 1), old@, new@) =~= before + (
                seq![rest[0]] + replaced_folding(rest.skip(1), old@, new@)));
                i += 1;
            },
        }
    }
    assert(chars@.skip(i as int) =~= Seq::<char>::empty());
    assert(out@ + Seq::<char>::empty() =~= out@);
    from_chars(out.as_slice())
}

/// The last `k` characters of `a` are the first `k` characters of `b`.
pub open spec fn overlaps(a: Seq<char>, b: Seq<char>, k: int) -> bool {
    1 <= k <= a.len() && k <= b.len() && a.skip(a.len() - k) == b.take(k)
}

/// The two strings keep apart: neither holds the other, and neither ends
/// the way the other begins. Then no `old` can form where a `new` has been
/// put in.
pub open spec fn apart(old: Seq<char>, new: Seq<char>) -> bool {
    &&& !contains(new, old)
    &&& !contains(old, new)
    &&& forall|k: int| !overlaps(old, new, k)
    &&& forall|k: int| !overlaps(new, old, k)
}

/// Whether `a` ends the way `b` begins, over some length.
fn ends_as_begins(a: &[char], b: &[char]) -> (yes: bool)
    ensures
        yes == exists|k: int| overlaps(a@, b@, k),
{
    let limit = if a.len() < b.len() {
        a.len()
    } else {
        b.len()
    };
    let mut k: usize = 0;
    while k < limit
        invariant
            k <= limit,
            limit <= a@.len(),
            limit <= b@.len(),
            forall|j: int| 1 <= j <= k ==> !overlaps(a@, b@, j),
        decreases limit - k,
    {
        k += 1;
        let head = slice_subrange(b, 0, k);
        assert(head@ =~= b@.take(k as int));
        assert(a@.subrange(a@.len() - k, a@.len() - k + head@.len()) =~= a@.skip(a@.len() - k));
        if matches_at(a, head, a.len() - k) {
            assert(overlaps(a@, b@, k as int));
            return true;
        }
    }
    false
}

/// Whether the two strings keep apart: see `apart`.
pub fn keep_apart(old: &str, new: &str) -> (yes: bool)
    ensures
        yes == apart(old@, new@),
{
    let old_chars = to_chars(old);
    let new_chars = to_chars(new);
    !contains_chars(new_chars.as_slice(), old_chars.as_slice()) && !contains_chars(
        old_chars.as_slice(),
        new_chars.as_slice(),
    ) && !ends_as_begins(old_chars.as_slice(), new_chars.as_slice()) && !ends_as_begins(
        new_chars.as_slice(),
        old_chars.as_slice(),
    )
}

/// What has been put out before the rest of the text is replaced holds no
/// `old`, and none forms across the seam.
proof fn lemma_replaced_after(pre: Seq<char>, s: Seq<char>, old: Seq<char>, new: Seq<char>)
    requires
        old.len() > 0,
        new.len() > 0,
        apart(old, new),
        forall|q: int| 0 <= q < pre.len() ==> !occurs_at(pre + s, old, q),
    ensures
        !contains(pre + replaced(s, old, new), old),
    decreases s.len(),
{
    let m = old.len() as int;
    let n = new.len() as int;
    let done = pre + replaced(s, old, new);
    if s.len() < old.len() {
        assert forall|q: int| !occurs_at(done, old, q) by {
            if occurs_at(done, old, q) {
                assert(q >= pre.len());
            }
        }
    } else if occurs_at(s, old, 0) {
        let rest = s.skip(m);
        let tail = replaced(rest, old, new);
        let start = pre.len() as int;
        assert(done == pre + (new + tail));
        lemma_replaced_after(Seq::empty(), rest, old, new);
        assert(Seq::<char>::empty() + tail =~= tail);
        assert forall|q: int| !occurs_at(done, old, q) by {
            if occurs_at(done, old, q) {
                let window = done.subrange(q, q + m);
                assert(window == old);
                if q + m <= start {
                    assert((pre + s).subrange(q, q + m) =~= window);
                    assert(occurs_at(pre + s, old, q));
                } else if q < start && q + m < start + n {
                    // It begins before the new text and ends within it.
                    let k = q + m - start;
                    assert(old.skip(m - k) =~= new.take(k)) by {
                        assert forall|i: int| 0 <= i < k implies old.skip(m - k)[i] == new.take(k)[i] by {
                            assert(window[m - k + i] == done[start + i]);
                        }
                    }
                    assert(overlaps(old, new, k));
                } else if q < start {
                    // It begins before the new text and reaches past it.
                    let at = start - q;
                    assert(old.subrange(at, at + n) =~= new) by {
                        assert forall|i: int| 0 <= i < n implies old.subrange(at, at + n)[i]
                            == new[i] by {
                            assert(window[at + i] == done[start + i]);
                        }
                    }
                    assert(occurs_at(old, new, at));
                } else if q < start + n && q + m <= start + n {
                    // It lies within the new text.
                    let at = q - start;
                    assert(new.subrange(at, at + m) =~= old) by {
                        assert forall|i: int| 0 <= i < m implies new.subrange(at, at + m)[i]
                            == old[i] by {
                            assert(window[i] == done[q + i]);
                        }
                    }
                    assert(occurs_at(new, old, at));
                } else if q < start + n {
                    // It begins within the new text and reaches past it.
                    let k = start + n - q;
                    assert(new.skip(n - k) =~= old.take(k)) by {
                        assert forall|i: int| 0 <= i < k implies new.skip(n - k)[i] == old.take(k)[i] by {
                            assert(window[i] == done[q + i]);
                        }
                    }
                    assert(overlaps(new, old, k));
                } else {
                    let at = q - start - n;
                    assert(tail.subrange(at, at + m) =~= window);
                    assert(occurs_at(tail, old, at));
                }
            }
        }
    } else {
        let head = pre.push(s[0]);
        let rest = s.skip(1);
        assert(head + rest =~= pre + s);
        assert forall|q: int| 0 <= q < head.len() implies !occurs_at(head + rest, old, q) by {
            if q == pre.len() && occurs_at(pre + s, old, q) {
                assert((pre + s).subrange(q, q + m) =~= s.subrange(0, m));
            }
        }
        lemma_replaced_after(head, rest, old, new);
        assert(head + replaced(rest, old, new) =~= done);
    }
}

/// Where the old and the new string keep apart, nothing is left to replace
/// after a replacement: the result holds no `old`.
pub proof fn lemma_replaced_holds_no_old(s: Seq<char>, old: Seq<char>, new: Seq<char>)
    requires
        old.len() > 0,
        new.len() > 0,
        apart(old, new),
    ensures
        !contains(replaced(s, old, new), old),
{
    lemma_replaced_after(Seq::empty(), s, old, new);
    assert(Seq::<char>::empty() + replaced(s, old, new) =~= replaced(s, old, new));
}

/// A text that does not hold `old` is left as it is.
pub proof fn lemma_replaced_without_old(s: Seq<char>, old: Seq<char>, new: Seq<char>)
    requires
        !contains(s, old),
    ensures
        replaced(s, old, new) == s,
    decreases s.len(),
{
    if old.len() == 0 || s.len() < old.len() {
    } else {
        assert(!occurs_at(s, old, 0));
        let rest = s.skip(1);
        assert forall|q: int| !occurs_at(rest, old, q) by {
            if occurs_at(rest, old, q) {
                assert(s.subrange(q + 1, q + 1 + old.len()) =~= rest.subrange(q, q + old.len()));
                assert(occurs_at(s, old, q + 1));
            }
        }
        lemma_replaced_without_old(rest, old, new);
        assert(seq![s[0]] + rest =~= s);
    }
}

/// Replacing twice is replacing once, where the old and the new string
/// keep apart.
pub proof fn lemma_replacing_twice(s: Seq<char>, old: Seq<char>, new: Seq<char>)
    requires
        old.len() > 0,
        new.len() > 0,
        apart(old, new),
    ensures
        replaced(replaced(s, old, new), old, new) == replaced(s, old, new),
{
    lemma_replaced_holds_no_old(s, old, new);
    lemma_replaced_without_old(replaced(s, old, new), old, new);
}

} // verus!
