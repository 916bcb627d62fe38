//! Matching file names against include and exclude patterns.
//!
//! A pattern is a regular expression where the run asks for that, and
//! otherwise a small glob: `.*` for names that begin with a dot, one `*`
//! between a prefix and a suffix, or else a text that the name must hold.

use vstd::prelude::*;
use vstd::slice::slice_subrange;
use crate::text::{
    contains, contains_chars, ends_with, ends_with_chars, last_index_of, lowercase, lowercase_of,
    matches_at, starts_with, to_chars,
};
use crate::views::{lemma_filter_empty, lemma_filter_push};

verus! {

broadcast use vstd::string::group_string_axioms;

/// What matching `text` against the regular expression `pattern` gives:
/// whether some part of the text matches, or nothing where the pattern is
/// not a valid expression. It depends on the two texts alone.
pub uninterp spec fn regex_match(pattern: Seq<char>, text: Seq<char>) -> Option<bool>;

/// `regex::Regex::new` compiles a pattern and fails on one that is not a
/// valid expression; `Regex::is_match` says whether the expression matches
/// anywhere in the text. Together they are a function of pattern and text.
#[verifier::external_body]
pub(crate) fn regex_is_match(pattern: &str, text: &str) -> (outcome: Option<bool>)
    ensures
        outcome == regex_match(pattern@, text@),
{
    match regex::Regex::new(pattern) {
        Ok(compiled) => Some(compiled.is_match(text)),
        Err(_) => None,
    }
}

/// The predicate "is a star".
pub open spec fn is_star() -> spec_fn(char) -> bool {
    |c: char| c == '*'
}

/// How many stars the pattern holds.
pub open spec fn star_count(pattern: Seq<char>) -> nat {
    pattern.filter(is_star()).len()
}

/// Whether a name matches a pattern read as a glob. The pattern `.*`
/// matches the names that begin with a dot. A pattern with exactly one star
/// matches the names that begin with what stands before the star and end
/// with what stands after it. Any other pattern matches the names that hold
/// it.
pub open spec fn glob_matches(name: Seq<char>, pattern: Seq<char>) -> bool {
    if pattern == seq!['.', '*'] {
        starts_with(name, seq!['.'])
    } else if star_count(pattern) == 1 {
        let star = last_index_of(pattern, '*');
        starts_with(name, pattern.take(star)) && ends_with(name, pattern.skip(star + 1))
    } else {
        contains(name, pattern)
    }
}

/// What is decided once the regular expression has been tried: a match
/// where it matched, and none where it did not or was not valid.
pub open spec fn regex_verdict(outcome: Option<bool>) -> bool {
    outcome == Some(true)
}

/// Whether a name matches a pattern. Where case is ignored, both are taken
/// in lower case. As a regular expression the pattern is tried on the name;
/// one that is not valid matches nothing.
pub open spec fn pattern_matches(
    name: Seq<char>,
    pattern: Seq<char>,
    ignore_case: bool,
    use_regex: bool,
) -> bool {
    let p = if ignore_case {
        lowercase_of(pattern)
    } else {
        pattern
    };
    let n = if ignore_case {
        lowercase_of(name)
    } else {
        name
    };
    if use_regex {
        regex_verdict(regex_match(p, n))
    } else {
        glob_matches(n, p)
    }
}

/// Some pattern of the list matches the name.
pub open spec fn any_matches(
    name: Seq<char>,
    patterns: Seq<Seq<char>>,
    ignore_case: bool,
    use_regex: bool,
) -> bool {
    exists|i: int|
        0 <= i < patterns.len() && pattern_matches(name, #[trigger] patterns[i], ignore_case, use_regex)
}

/// Whether a name passes the filters: it matches an include pattern where
/// there are any, and no exclude pattern.
pub open spec fn passes_filters(
    name: Seq<char>,
    includes: Seq<Seq<char>>,
    excludes: Seq<Seq<char>>,
    ignore_case: bool,
    use_regex: bool,
) -> bool {
    (includes.len() == 0 || any_matches(name, includes, ignore_case, use_regex)) && !any_matches(
        name,
        excludes,
        ignore_case,
        use_regex,
    )
}

/// The name begins with a dot.
pub open spec fn is_hidden(name: Seq<char>) -> bool {
    name.len() > 0 && name[0] == '.'
}

/// Some include pattern asks for dotfiles: it is `.*` or holds a star.
pub open spec fn includes_hidden(includes: Seq<Seq<char>>) -> bool {
    exists|i: int| 0 <= i < includes.len() && (#[trigger] includes[i]).contains('*')
}

proof fn lemma_single_star(pattern: Seq<char>, n: int, at: int)
    requires
        0 <= at < n <= pattern.len(),
        pattern[at] == '*',
        forall|j: int| 0 <= j < n && j != at ==> pattern[j] != '*',
    ensures
        star_count(pattern.take(n)) == 1,
        last_index_of(pattern.take(n), '*') == at,
    decreases n,
{
    let prefix = pattern.take(n);
    assert(prefix.drop_last() =~= pattern.take(n - 1));
    assert(pattern.take(n - 1).push(pattern[n - 1]) =~= prefix);
    lemma_filter_push(pattern.take(n - 1), pattern[n - 1], is_star());
    if n - 1 == at {
        lemma_no_star(pattern, n - 1);
    } else {
        lemma_single_star(pattern, n - 1, at);
    }
}

proof fn lemma_no_star(pattern: Seq<char>, n: int)
    requires
        0 <= n <= pattern.len(),
        forall|j: int| 0 <= j < n ==> pattern[j] != '*',
    ensures
        star_count(pattern.take(n)) == 0,
    decreases n,
{
    if n == 0 {
        assert(pattern.take(0) =~= Seq::empty());
        lemma_filter_empty(is_star());
    } else {
        assert(pattern.take(n - 1).push(pattern[n - 1]) =~= pattern.take(n));
        lemma_filter_push(pattern.take(n - 1), pattern[n - 1], is_star());
        lemma_no_star(pattern, n - 1);
    }
}

/// The index of the pattern's star, where it holds exactly one.
fn single_star(pattern: &[char]) -> (found: Option<usize>)
    ensures
        match found {
            Some(at) => star_count(pattern@) == 1 && at == last_index_of(pattern@, '*') && at
                < pattern@.len(),
            None => star_count(pattern@) != 1,
        },
{
    let mut first: Option<usize> = None;
    let mut i: usize = 0;
    proof {
        assert(pattern@.take(0) =~= Seq::empty());
        lemma_filter_empty(is_star());
    }
    while i < pattern.len()
        invariant
            i <= pattern.len(),
            match first {
                Some(at) => at < i && pattern@[at as int] == '*' && forall|j: int|
                    0 <= j < i && j != at ==> pattern@[j] != '*',
                None => forall|j: int| 0 <= j < i ==> pattern@[j] != '*',
            },
        decreases pattern.len() - i,
    {
        if pattern[i] == '*' {
            match first {
                Some(at) => {
                    proof {
                        lemma_single_star(pattern@, i as int, at as int);
                        let rest = pattern@.skip(i as int);
                        assert(pattern@ =~= pattern@.take(i as int) + rest);
                        Seq::filter_distributes_over_add(pattern@.take(i as int), rest, is_star());
                        assert(rest[0] == '*');
                        rest.lemma_filter_contains(is_star(), 0);
                        assert(rest.filter(is_star()).len() > 0);
                    }
                    return None;
                },
                None => {
                    first = Some(i);
                },
            }
        }
        i += 1;
    }
    proof {
        assert(pattern@.take(i as int) =~= pattern@);
        match first {
            Some(at) => {
                lemma_single_star(pattern@, i as int, at as int);
            },
            None => {
                lemma_no_star(pattern@, i as int);
            },
        }
    }
    first
}

/// Whether a name matches a pattern read as a glob: see `glob_matches`.
pub fn matches_glob(name: &str, pattern: &str) -> (yes: bool)
    ensures
        yes == glob_matches(name@, pattern@),
{
    let name_chars = to_chars(name);
    let pattern_chars = to_chars(pattern);
    let name_slice = name_chars.as_slice();
    let pattern_slice = pattern_chars.as_slice();
    if pattern_chars.len() == 2 && pattern_chars[0] == '.' && pattern_chars[1] == '*' {
        assert(pattern@ =~= seq!['.', '*']);
        let dot: Vec<char> = vec!['.'];
        assert(dot@ =~= seq!['.']);
        return matches_at(name_slice, dot.as_slice(), 0);
    }
    assert(pattern@ != seq!['.', '*']) by {
        if pattern@ == seq!['.', '*'] {
            assert(seq!['.', '*'].len() == 2);
            assert(seq!['.', '*'][0] == '.');
            assert(seq!['.', '*'][1] == '*');
        }
    }
    match single_star(pattern_slice) {
        Some(star) => {
            let prefix = slice_subrange(pattern_slice, 0, star);
            let suffix = slice_subrange(pattern_slice, star + 1, pattern_chars.len());
            assert(prefix@ =~= pattern@.take(star as int));
            assert(suffix@ =~= pattern@.skip(star + 1));
            matches_at(name_slice, prefix, 0) && ends_with_chars(name_slice, suffix)
        },
        None => contains_chars(name_slice, pattern_slice),
    }
}

/// What is decided once the regular expression has been tried: see
/// `regex_verdict`.
pub fn decide_regex(outcome: Option<bool>) -> (yes: bool)
    ensures
        yes == regex_verdict(outcome),
{
    match outcome {
        Some(matched) => matched,
        None => false,
    }
}

/// Whether a name matches a pattern: see `pattern_matches`.
pub fn matches_pattern(name: &str, pattern: &str, ignore_case: bool, use_regex: bool) -> (yes: bool)
    ensures
        yes == pattern_matches(name@, pattern@, ignore_case, use_regex),
{
    if ignore_case {
        let lower_pattern = lowercase(pattern);
        let lower_name = lowercase(name);
        if use_regex {
            decide_regex(regex_is_match(lower_pattern.as_str(), lower_name.as_str()))
        } else {
            matches_glob(lower_name.as_str(), lower_pattern.as_str())
        }
    } else {
        if use_regex {
            decide_regex(regex_is_match(pattern, name))
        } else {
            matches_glob(name, pattern)
        }
    }
}

/// Whether some pattern of the list matches the name.
pub fn matches_any(name: &str, patterns: &Vec<String>, ignore_case: bool, use_regex: bool) -> (yes:
    bool)
    ensures
        yes == any_matches(name@, patterns.deep_view(), ignore_case, use_regex),
{
    let mut i: usize = 0;
    while i < patterns.len()
        invariant
            i <= patterns.len(),
            forall|j: int|
                0 <= j < i ==> !pattern_matches(
                    name@,
                    #[trigger] patterns.deep_view()[j],
                    ignore_case,
                    use_regex,
                ),
        decreases patterns.len() - i,
    {
        assert(patterns.deep_view()[i as int] == patterns[i as int]@);
        if matches_pattern(name, patterns[i].as_str(), ignore_case, use_regex) {
            return true;
        }
        i += 1;
    }
    false
}

/// Whether a name passes the include and exclude filters: see
/// `passes_filters`.
pub fn matches_filters(
    name: &str,
    includes: &Vec<String>,
    excludes: &Vec<String>,
    ignore_case: bool,
    use_regex: bool,
) -> (yes: bool)
    ensures
        yes == passes_filters(
            name@,
            includes.deep_view(),
            excludes.deep_view(),
            ignore_case,
            use_regex,
        ),
{
    if includes.len() > 0 && !matches_any(name, includes, ignore_case, use_regex) {
        return false;
    }
    !matches_any(name, excludes, ignore_case, use_regex)
}

/// Whether the name begins with a dot.
pub fn name_is_hidden(name: &str) -> (yes: bool)
    ensures
        yes == is_hidden(name@),
{
    let chars = to_chars(name);
    chars.len() > 0 && chars[0] == '.'
}

/// Whether some include pattern asks for dotfiles.
pub fn asks_for_hidden(includes: &Vec<String>) -> (yes: bool)
    ensures
        yes == includes_hidden(includes.deep_view()),
{
    let mut i: usize = 0;
    while i < includes.len()
        invariant
            i <= includes.len(),
            forall|j: int| 0 <= j < i ==> !(#[trigger] includes.deep_view()[j]).contains('*'),
        decreases includes.len() - i,
    {
        assert(includes.deep_view()[i as int] == includes[i as int]@);
        if crate::text::contains_char(includes[i].as_str(), '*') {
            return true;
        }
        i += 1;
    }
    false
}

} // verus!
