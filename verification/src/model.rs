//! The data of one run: what is planned, how the run is configured and what
//! it counted.

use vstd::prelude::*;
use vstd::slice::slice_subrange;
use crate::text::{contains_char, matches_at, starts_with, to_chars};

verus! {

broadcast use vstd::string::group_string_axioms;

/// Whether a planned entry is a file or a directory.
#[derive(Debug, Clone, Copy, PartialEq, Eq, Hash, Structural)]
pub enum ItemType {
    File,
    Directory,
}

/// A character that separates the segments of a path.
pub open spec fn is_separator(c: char) -> bool {
    c == '/' || c == '\\'
}

/// A segment of the path begins at index `i`: a character that is no
/// separator, at the start or behind a separator.
pub open spec fn segment_begins(path: Seq<char>, i: int) -> bool {
    0 <= i < path.len() && !is_separator(path[i]) && (i == 0 || is_separator(path[i - 1]))
}

/// How many segments begin among the first `n` characters of the path.
pub open spec fn segments_among(path: Seq<char>, n: int) -> nat
    decreases n,
{
    if n <= 0 {
        0
    } else if segment_begins(path, n - 1) {
        segments_among(path, n - 1) + 1
    } else {
        segments_among(path, n - 1)
    }
}

/// How many segments the path has.
pub open spec fn segment_count(path: Seq<char>) -> nat {
    segments_among(path, path.len() as int)
}

/// The depth of a path below a root: how many segments it has behind the
/// root, where it begins with the root, and else how many it has in all.
pub open spec fn depth_below(root: Seq<char>, path: Seq<char>) -> nat {
    if starts_with(path, root) {
        segment_count(path.skip(root.len() as int))
    } else {
        segment_count(path)
    }
}

/// `inner` lies below `outer`: it is `outer`, a separator and at least one
/// more segment.
pub open spec fn lies_below(inner: Seq<char>, outer: Seq<char>) -> bool {
    &&& inner.len() > outer.len()
    &&& inner.take(outer.len() as int) == outer
    &&& is_separator(inner[outer.len() as int])
    &&& exists|j: int| outer.len() < j < inner.len() && !is_separator(#[trigger] inner[j])
}

/// The count of segments grows with the part of the path that is looked at.
proof fn lemma_segments_grow(path: Seq<char>, a: int, b: int)
    requires
        a <= b,
    ensures
        segments_among(path, a) <= segments_among(path, b),
    decreases b - a,
{
    if a < b {
        lemma_segments_grow(path, a, b - 1);
    }
}

/// Paths that agree on their first `n` characters have the same segments
/// there.
proof fn lemma_segments_of_prefix(one: Seq<char>, other: Seq<char>, n: int)
    requires
        0 <= n <= one.len(),
        n <= other.len(),
        forall|k: int| 0 <= k < n ==> one[k] == other[k],
    ensures
        segments_among(one, n) == segments_among(other, n),
    decreases n,
{
    if n > 0 {
        lemma_segments_of_prefix(one, other, n - 1);
    }
}

/// Behind a separator, before or at a character that is none, a segment
/// begins.
proof fn lemma_segment_begins_behind(path: Seq<char>, from: int, j: int) -> (at: int)
    requires
        0 <= from < j < path.len(),
        is_separator(path[from]),
        !is_separator(path[j]),
    ensures
        from < at <= j,
        segment_begins(path, at),
    decreases j - from,
{
    if is_separator(path[j - 1]) {
        j
    } else {
        lemma_segment_begins_behind(path, from, j - 1)
    }
}

/// What lies below a path is deeper than the path, for every root that both
/// begin with.
pub proof fn lemma_below_is_deeper(root: Seq<char>, outer: Seq<char>, inner: Seq<char>)
    requires
        starts_with(outer, root),
        lies_below(inner, outer),
    ensures
        depth_below(root, inner) > depth_below(root, outer),
{
    let r = root.len() as int;
    assert(outer.subrange(0, r) == root);
    assert(inner.subrange(0, r) =~= root) by {
        assert forall|k: int| 0 <= k < r implies inner[k] == root[k] by {
            assert(inner.take(outer.len() as int)[k] == outer[k]);
            assert(outer.subrange(0, r)[k] == outer[k]);
        }
    }
    assert(starts_with(inner, root));
    let o = outer.skip(r);
    let i = inner.skip(r);
    let j = choose|j: int| outer.len() < j < inner.len() && !is_separator(#[trigger] inner[j]);
    assert forall|k: int| 0 <= k < o.len() implies i[k] == o[k] by {
        assert(inner.take(outer.len() as int)[k + r] == outer[k + r]);
    }
    lemma_segments_of_prefix(i, o, o.len() as int);
    let at = lemma_segment_begins_behind(i, o.len() as int, j - r);
    lemma_segments_grow(i, o.len() as int, at);
    lemma_segments_grow(i, at + 1, i.len() as int);
}

/// The depth of a path below a root: see `depth_below`.
pub fn calculate_depth(path: &str, root: &str) -> (depth: usize)
    ensures
        depth == depth_below(root@, path@),
{
    let path_chars = to_chars(path);
    let root_chars = to_chars(root);
    let from: usize = if matches_at(path_chars.as_slice(), root_chars.as_slice(), 0) {
        root_chars.len()
    } else {
        0
    };
    let rest = slice_subrange(path_chars.as_slice(), from, path_chars.len());
    assert(rest@ =~= path@.skip(from as int));
    assert(path@.skip(0) =~= path@);
    let mut depth: usize = 0;
    let mut i: usize = 0;
    while i < rest.len()
        invariant
            i <= rest@.len(),
            depth == segments_among(rest@, i as int),
            depth <= i,
        decreases rest@.len() - i,
    {
        let c = rest[i];
        let here = !(c == '/' || c == '\\');
        let behind = i == 0 || rest[i - 1] == '/' || rest[i - 1] == '\\';
        if here && behind {
            depth += 1;
        }
        i += 1;
    }
    depth
}

/// Some character of `s` separates path segments.
pub open spec fn has_separator(s: Seq<char>) -> bool {
    s.contains('/') || s.contains('\\')
}

/// What is wrong with a pair of old and new string, if anything: the first
/// rule broken, as the message reported for it.
pub open spec fn string_violation(old_string: Seq<char>, new_string: Seq<char>) -> Option<
    Seq<char>,
> {
    if old_string.len() == 0 {
        Some("Old string cannot be empty"@)
    } else if new_string.len() == 0 {
        Some("New string cannot be empty"@)
    } else if has_separator(new_string) {
        Some("New string cannot contain path separators (/ or \\)"@)
    } else {
        None
    }
}

/// Checks a pair of old and new string: neither may be empty, and the new
/// one must stay within one path segment.
pub fn check_strings(old_string: &str, new_string: &str) -> (outcome: Result<(), String>)
    ensures
        match string_violation(old_string@, new_string@) {
            None => outcome is Ok,
            Some(message) => outcome is Err && outcome->Err_0@ == message,
        },
{
    if old_string.is_empty() {
        return Err("Old string cannot be empty".to_owned());
    }
    if new_string.is_empty() {
        return Err("New string cannot be empty".to_owned());
    }
    if contains_char(new_string, '/') || contains_char(new_string, '\\') {
        return Err("New string cannot contain path separators (/ or \\)".to_owned());
    }
    Ok(())
}

/// One planned rename.
#[derive(Debug)]
pub struct RenameItem {
    /// The path as it is on disk now.
    pub original_path: String,
    /// The path after the final segment has been rewritten.
    pub new_path: String,
    pub item_type: ItemType,
    /// Distance from the traversal root; it only orders the execution.
    pub depth: usize,
}

/// A planned rename as plain values.
pub ghost struct RenameItemView {
    pub original_path: Seq<char>,
    pub new_path: Seq<char>,
    pub item_type: ItemType,
    pub depth: nat,
}

impl View for RenameItem {
    type V = RenameItemView;

    open spec fn view(&self) -> RenameItemView {
        RenameItemView {
            original_path: self.original_path@,
            new_path: self.new_path@,
            item_type: self.item_type,
            depth: self.depth as nat,
        }
    }
}

impl DeepView for RenameItem {
    type V = RenameItemView;

    open spec fn deep_view(&self) -> RenameItemView {
        self@
    }
}

impl RenameItemView {
    /// The rename changes nothing.
    pub open spec fn is_noop(self) -> bool {
        self.new_path == self.original_path
    }

    /// Only the final segment differs: both paths share the directory part
    /// `parent`, followed by `name` before and `new_name` after.
    pub open spec fn renames_segment(
        self,
        parent: Seq<char>,
        name: Seq<char>,
        new_name: Seq<char>,
    ) -> bool {
        &&& self.original_path == parent + name
        &&& self.new_path == parent + new_name
    }
}

impl Clone for RenameItem {
    fn clone(&self) -> (copy: Self)
        ensures
            copy == *self,
    {
        RenameItem {
            original_path: self.original_path.clone(),
            new_path: self.new_path.clone(),
            item_type: self.item_type,
            depth: self.depth,
        }
    }
}

impl RenameItem {
    /// Whether source and target are the same path, so that nothing is to
    /// be moved.
    pub fn is_noop(&self) -> (noop: bool)
        ensures
            noop == self@.is_noop(),
    {
        self.original_path == self.new_path
    }
}

/// How one run is configured. The strings obey the rules of
/// `string_violation`; see `wf`.
#[derive(Debug)]
pub struct RenameConfig {
    pub root_dir: String,
    pub old_string: String,
    pub new_string: String,
    pub dry_run: bool,
    pub force: bool,
    pub verbose: bool,
    pub follow_symlinks: bool,
    pub backup: bool,
}

impl RenameConfig {
    /// The old string is not empty, and the new string is neither empty nor
    /// holds a path separator.
    pub open spec fn wf(&self) -> bool {
        string_violation(self.old_string@, self.new_string@) is None
    }

    /// A configuration for the given root and strings, with every flag off.
    /// Fails with the rule's message where the strings break a rule.
    pub fn new(root_dir: String, old_string: String, new_string: String) -> (outcome: Result<
        Self,
        String,
    >)
        ensures
            match string_violation(old_string@, new_string@) {
                None => outcome matches Ok(config) && config.wf() && config.root_dir@ == root_dir@
                    && config.old_string@ == old_string@ && config.new_string@ == new_string@
                    && !config.dry_run && !config.force && !config.verbose
                    && !config.follow_symlinks && !config.backup,
                Some(message) => outcome is Err && outcome->Err_0@ == message,
            },
    {
        match check_strings(old_string.as_str(), new_string.as_str()) {
            Err(message) => Err(message),
            Ok(()) => Ok(
                RenameConfig {
                    root_dir,
                    old_string,
                    new_string,
                    dry_run: false,
                    force: false,
                    verbose: false,
                    follow_symlinks: false,
                    backup: false,
                },
            ),
        }
    }

    /// The same configuration with the dry-run flag set as given.
    pub fn with_dry_run(self, dry_run: bool) -> (config: Self)
        ensures
            config == (RenameConfig { dry_run, ..self }),
    {
        RenameConfig { dry_run, ..self }
    }

    /// The same configuration with the force flag set as given.
    pub fn with_force(self, force: bool) -> (config: Self)
        ensures
            config == (RenameConfig { force, ..self }),
    {
        RenameConfig { force, ..self }
    }

    /// The same configuration with the verbose flag set as given.
    pub fn with_verbose(self, verbose: bool) -> (config: Self)
        ensures
            config == (RenameConfig { verbose, ..self }),
    {
        RenameConfig { verbose, ..self }
    }

    /// The same configuration with symlink following set as given.
    pub fn with_follow_symlinks(self, follow_symlinks: bool) -> (config: Self)
        ensures
            config == (RenameConfig { follow_symlinks, ..self }),
    {
        RenameConfig { follow_symlinks, ..self }
    }

    /// The same configuration with the backup flag set as given.
    pub fn with_backup(self, backup: bool) -> (config: Self)
        ensures
            config == (RenameConfig { backup, ..self }),
    {
        RenameConfig { backup, ..self }
    }
}

/// The counters of one run.
#[derive(Debug)]
pub struct RenameStats {
    pub files_with_content_changes: usize,
    pub files_renamed: usize,
    pub directories_renamed: usize,
    /// The messages of the failures that did not stop the run.
    pub errors: Vec<String>,
}

impl Default for RenameStats {
    fn default() -> (stats: Self)
        ensures
            stats.files_with_content_changes == 0,
            stats.files_renamed == 0,
            stats.directories_renamed == 0,
            stats.errors@.len() == 0,
    {
        RenameStats {
            files_with_content_changes: 0,
            files_renamed: 0,
            directories_renamed: 0,
            errors: Vec::new(),
        }
    }
}

impl RenameStats {
    /// The number of planned changes: content rewrites and renames.
    pub open spec fn total(&self) -> nat {
        (self.files_with_content_changes + self.files_renamed + self.directories_renamed) as nat
    }

    /// The number of planned changes: content rewrites and renames.
    pub fn total_changes(&self) -> (total: usize)
        requires
            self.total() <= usize::MAX,
        ensures
            total == self.total(),
    {
        self.files_with_content_changes + self.files_renamed + self.directories_renamed
    }

    /// Adds the message of a failure that did not stop the run.
    pub fn record_error(&mut self, message: String)
        ensures
            final(self).errors@ == old(self).errors@.push(message),
            final(self).files_with_content_changes == old(self).files_with_content_changes,
            final(self).files_renamed == old(self).files_renamed,
            final(self).directories_renamed == old(self).directories_renamed,
    {
        self.errors.push(message);
    }
}

} // verus!
