//! The text side of version bumping: the configuration, the version string
//! and the block that is kept in a hook script.

use vstd::prelude::*;
use vstd::string::StringExecFns;
use vstd::slice::slice_subrange;
use crate::fields::{
    lines, lines_of, number, parse_u32, trim, trim_end, trimmed, trimmed_end, words, words_of,
};
use crate::text::same_text;
use crate::text::{
    contains, contains_str, decimal, decimal_string, from_chars, join, joined, to_chars,
};
use crate::views::lemma_push_deep_view;

verus! {

broadcast use vstd::string::group_string_axioms;

/// How version bumping is configured.
#[derive(Debug)]
pub struct VerbumpConfig {
    pub version: u32,
    pub enabled: bool,
    pub version_file: String,
}

impl Default for VerbumpConfig {
    /// Bumping is on, and the version goes to `version.txt`.
    fn default() -> (config: Self)
        ensures
            config.version == 1,
            config.enabled,
            config.version_file@ == "version.txt"@,
    {
        VerbumpConfig { version: 1, enabled: true, version_file: "version.txt".to_owned() }
    }
}

/// A version and the parts it is made of.
#[derive(Debug)]
pub struct VersionInfo {
    /// The latest tag.
    pub major_version: String,
    /// The number of commits since that tag.
    pub minor_version: u32,
    /// The number of lines changed over the whole history.
    pub patch_version: u32,
    pub full_version: String,
}

/// A tag without the `v` it may begin with.
pub open spec fn without_v(tag: Seq<char>) -> Seq<char> {
    if tag.len() > 0 && tag[0] == 'v' {
        tag.skip(1)
    } else {
        tag
    }
}

/// The full version: the tag without its `v`, the commits and the changes,
/// with dots between.
pub open spec fn full_version_of(major: Seq<char>, minor: nat, patch: nat) -> Seq<char> {
    without_v(major) + "."@ + decimal(minor) + "."@ + decimal(patch)
}

impl VersionInfo {
    /// The version made of the given parts.
    pub fn calculate(major_version: String, minor_version: u32, patch_version: u32) -> (info: Self)
        ensures
            info.major_version@ == major_version@,
            info.minor_version == minor_version,
            info.patch_version == patch_version,
            info.full_version@ == full_version_of(
                major_version@,
                minor_version as nat,
                patch_version as nat,
            ),
    {
        let chars = to_chars(major_version.as_str());
        let mut full_version = if chars.len() > 0 && chars[0] == 'v' {
            let rest = slice_subrange(chars.as_slice(), 1, chars.len());
            assert(rest@ =~= chars@.skip(1));
            from_chars(rest)
        } else {
            from_chars(chars.as_slice())
        };
        full_version.append(".");
        full_version.append(decimal_string(minor_version as u64).as_str());
        full_version.append(".");
        full_version.append(decimal_string(patch_version as u64).as_str());
        VersionInfo { major_version, minor_version, patch_version, full_version }
    }

    /// What the version file holds: the full version and a line feed.
    pub fn file_content(&self) -> (content: String)
        ensures
            content@ == self.full_version@ + "\n"@,
    {
        let mut content = self.full_version.clone();
        content.append("\n");
        content
    }
}

/// The tag that stands in where the repository has none.
pub open spec fn default_tag() -> Seq<char> {
    "v0"@
}

/// The commits that are counted for a tag: all that lead to the head where
/// the repository has no tag, and otherwise those since the tag.
pub open spec fn range_of(tag: Seq<char>) -> Seq<char> {
    if tag == default_tag() {
        "HEAD"@
    } else {
        tag + "..HEAD"@
    }
}

/// The commits that are counted for a tag: see `range_of`.
pub fn commit_range(tag: &str) -> (range: String)
    ensures
        range@ == range_of(tag@),
{
    if same_text(tag, "v0") {
        "HEAD".to_owned()
    } else {
        let mut range = tag.to_owned();
        range.append("..HEAD");
        range
    }
}

/// The line opens the block.
pub open spec fn opens_block(line: Seq<char>) -> bool {
    contains(line, "=== VERBUMP BLOCK START ==="@)
}

/// The line closes the block.
pub open spec fn closes_block(line: Seq<char>) -> bool {
    contains(line, "=== VERBUMP BLOCK END ==="@)
}

/// After the first `n` lines a block is open.
pub open spec fn in_block_after(lines: Seq<Seq<char>>, n: int) -> bool
    decreases n,
{
    if n <= 0 {
        false
    } else if opens_block(lines[n - 1]) {
        true
    } else if closes_block(lines[n - 1]) {
        false
    } else {
        in_block_after(lines, n - 1)
    }
}

/// Those of the first `n` lines that stay: the lines outside every block
/// that neither open nor close one.
pub open spec fn kept_lines(lines: Seq<Seq<char>>, n: int) -> Seq<Seq<char>>
    decreases n,
{
    if n <= 0 {
        Seq::empty()
    } else {
        let line = lines[n - 1];
        let before = kept_lines(lines, n - 1);
        if opens_block(line) || closes_block(line) || in_block_after(lines, n - 1) {
            before
        } else {
            before.push(line)
        }
    }
}

/// A script without its block: the lines that stay, joined by line feeds,
/// and a line feed at the end where the script had one and anything stays.
pub open spec fn without_block(content: Seq<char>) -> Seq<char> {
    let lines = lines_of(content);
    let body = joined(kept_lines(lines, lines.len() as int), "\n"@);
    if content.len() > 0 && content.last() == '\n' && body.len() > 0 {
        body + "\n"@
    } else {
        body
    }
}

/// Whether a script holds the block.
pub fn has_verbump_block(content: &str) -> (yes: bool)
    ensures
        yes == opens_block(content@),
{
    contains_str(content, "=== VERBUMP BLOCK START ===")
}

/// Takes the block out of a script: see `without_block`.
pub fn remove_verbump_block(content: &str) -> (output: String)
    ensures
        output@ == without_block(content@),
{
    let all = lines(content);
    let mut kept: Vec<String> = Vec::new();
    let mut in_block = false;
    let mut i: usize = 0;
    let ghost spec_lines = lines_of(content@);
    assert(kept.deep_view() =~= Seq::<Seq<char>>::empty());
    while i < all.len()
        invariant
            i <= all.len(),
            all.deep_view() == spec_lines,
            in_block == in_block_after(spec_lines, i as int),
            kept.deep_view() == kept_lines(spec_lines, i as int),
        decreases all.len() - i,
    {
        assert(spec_lines[i as int] == all[i as int]@);
        let line = all[i].as_str();
        if contains_str(line, "=== VERBUMP BLOCK START ===") {
            in_block = true;
        } else if contains_str(line, "=== VERBUMP BLOCK END ===") {
            in_block = false;
        } else if !in_block {
            let ghost before = kept;
            let copy = all[i].clone();
            kept.push(copy);
            proof {
                lemma_push_deep_view(before, kept, copy);
            }
        }
        i += 1;
    }
    let mut output = join(&kept, "\n");
    let chars = to_chars(content);
    let ends_with_newline = chars.len() > 0 && chars[chars.len() - 1] == '\n';
    if ends_with_newline && !output.as_str().is_empty() {
        output.append("\n");
    }
    output
}

/// The lines changed that one line of a change log reports: the additions
/// plus the deletions where its first two words are both numbers, and
/// nothing otherwise.
pub open spec fn line_changes(line: Seq<char>) -> nat {
    let parts = words(line);
    if parts.len() >= 2 {
        match (number(parts[0]), number(parts[1])) {
            (Some(additions), Some(deletions)) => additions + deletions,
            _ => 0,
        }
    } else {
        0
    }
}

/// The lines changed that the first `n` lines of a change log report.
pub open spec fn changes_in(log_lines: Seq<Seq<char>>, n: int) -> nat
    decreases n,
{
    if n <= 0 {
        0
    } else {
        changes_in(log_lines, n - 1) + line_changes(log_lines[n - 1])
    }
}

/// The lines changed that a change log reports, at most `u32::MAX`.
pub open spec fn total_changes_of(log: Seq<char>) -> nat {
    let all = changes_in(lines_of(log), lines_of(log).len() as int);
    if all > u32::MAX {
        u32::MAX as nat
    } else {
        all
    }
}

/// Counts the lines changed that a change log reports, one entry a line
/// with additions and deletions first: see `total_changes_of`.
pub fn count_changes(log: &str) -> (total: u32)
    ensures
        total == total_changes_of(log@),
{
    let all = lines(log);
    let ghost log_lines = lines_of(log@);
    let mut total: u32 = 0;
    let mut i: usize = 0;
    while i < all.len()
        invariant
            i <= all.len(),
            all.deep_view() == log_lines,
            total == if changes_in(log_lines, i as int) > u32::MAX {
                u32::MAX as nat
            } else {
                changes_in(log_lines, i as int)
            },
        decreases all.len() - i,
    {
        assert(log_lines[i as int] == all[i as int]@);
        let parts = words_of(all[i].as_str());
        if parts.len() >= 2 {
            assert(parts.deep_view()[0] == parts[0]@);
            assert(parts.deep_view()[1] == parts[1]@);
            match (parse_u32(parts[0].as_str()), parse_u32(parts[1].as_str())) {
                (Some(additions), Some(deletions)) => {
                    let sum: u64 = total as u64 + additions as u64 + deletions as u64;
                    total = if sum > 0xFFFF_FFFF {
                        0xFFFF_FFFF
                    } else {
                        sum as u32
                    };
                },
                _ => {},
            }
        }
        i += 1;
    }
    total
}

/// Reads the count that a command printed: the number that its output
/// writes once the whitespace around it is gone, if it writes one.
pub fn parse_commit_count(output: &str) -> (count: Option<u32>)
    ensures
        count == match number(trimmed(output@)) {
            Some(n) => Some(n as u32),
            None => None,
        },
{
    let text = trim(output);
    parse_u32(text.as_str())
}

/// The block that runs the program at `exe` from a hook script.
pub open spec fn hook_block(exe: Seq<char>) -> Seq<char> {
    "#!/bin/bash\n# === VERBUMP BLOCK START ===\n# DO NOT EDIT THIS BLOCK MANUALLY\n# Use 'verbump uninstall' to remove this hook\n"@
        + exe + " update --force\n# === VERBUMP BLOCK END ===\n"@
}

/// A hook script with the block put in: the block alone where there was no
/// script or nothing but a block and whitespace in it, and otherwise what
/// the script held besides a block, a line feed and the block.
pub open spec fn with_block(existing: Option<Seq<char>>, exe: Seq<char>) -> Seq<char> {
    match existing {
        None => hook_block(exe),
        Some(content) => {
            let cleaned = without_block(content);
            if trimmed(cleaned).len() == 0 {
                hook_block(exe)
            } else {
                trimmed_end(cleaned) + "\n"@ + hook_block(exe)
            }
        },
    }
}

/// The hook script to write when the block is put in: see `with_block`.
pub fn install_block(existing: Option<&str>, exe: &str) -> (script: String)
    ensures
        script@ == with_block(
            match existing {
                Some(content) => Some(content@),
                None => None,
            },
            exe@,
        ),
{
    let mut block =
        "#!/bin/bash\n# === VERBUMP BLOCK START ===\n# DO NOT EDIT THIS BLOCK MANUALLY\n# Use 'verbump uninstall' to remove this hook\n".to_owned();
    block.append(exe);
    block.append(" update --force\n# === VERBUMP BLOCK END ===\n");
    match existing {
        None => block,
        Some(content) => {
            let cleaned = remove_verbump_block(content);
            if trim(cleaned.as_str()).as_str().is_empty() {
                block
            } else {
                let mut script = trim_end(cleaned.as_str());
                script.append("\n");
                script.append(block.as_str());
                script
            }
        },
    }
}

/// What becomes of a hook script when the block is taken out.
#[derive(Debug)]
pub enum HookRemoval {
    /// The script holds no block: it is left as it is.
    NotInstalled,
    /// Nothing but the block was in it: the file goes.
    RemoveFile,
    /// The script is written anew with this content.
    Rewrite(String),
}

/// What is left says nothing: it is empty or only names the shell.
pub open spec fn is_empty_hook(cleaned: Seq<char>) -> bool {
    trimmed(cleaned).len() == 0 || trimmed(cleaned) == "#!/bin/bash"@
}

/// Decides what becomes of a hook script when the block is taken out: a
/// script without a block is left alone, one that held nothing else is
/// removed, and any other is written anew without the block.
pub fn uninstall_block(existing: &str) -> (removal: HookRemoval)
    ensures
        match removal {
            HookRemoval::NotInstalled => !opens_block(existing@),
            HookRemoval::RemoveFile => opens_block(existing@) && is_empty_hook(
                without_block(existing@),
            ),
            HookRemoval::Rewrite(content) => opens_block(existing@) && !is_empty_hook(
                without_block(existing@),
            ) && content@ == without_block(existing@),
        },
{
    if !has_verbump_block(existing) {
        return HookRemoval::NotInstalled;
    }
    let cleaned = remove_verbump_block(existing);
    let rest = trim(cleaned.as_str());
    if rest.as_str().is_empty() || same_text(rest.as_str(), "#!/bin/bash") {
        HookRemoval::RemoveFile
    } else {
        HookRemoval::Rewrite(cleaned)
    }
}

} // verus!
