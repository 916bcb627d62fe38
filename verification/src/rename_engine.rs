//! The decisions of a run: which entries are visited, which files need
//! their content rewritten, which entries are renamed and to what.
//!
//! The engine never touches the file system. Whoever walks the tree hands
//! it what was found, as plain values, and carries out what it plans.

use vstd::prelude::*;
use vstd::string::StringExecFns;
use vstd::slice::slice_subrange;
use vstd::utf8::{decode_utf8, valid_utf8};
use crate::binary_detector::{lemma_early_nul_is_binary, BinaryDetector};
use crate::collision_detector::{blocking, blocking_collisions, Collision};
use crate::rename_order::{
    lemma_deeper_directories_first, lemma_ordered_is_sorted, ordered, sort_for_execution,
};
use crate::views::{lemma_filter_empty, lemma_filter_push, lemma_push_deep_view};
use crate::cli::{Args, Mode, OutputFormat, ProgressMode, RootStatus};
use crate::model::{
    calculate_depth, depth_below, lemma_below_is_deeper, lies_below, ItemType, RenameConfig,
    RenameItem, RenameItemView, RenameStats,
};
use crate::pattern::{
    asks_for_hidden, includes_hidden, is_hidden, matches_filters, name_is_hidden, passes_filters,
};
use crate::text::{
    apart, contains, contains_folding, contains_ignoring_case, contains_str, decimal,
    decimal_string, ends_with, ends_with_chars, from_chars, lemma_replaced_holds_no_old,
    lowercase, lowercase_of, replace_all, replace_ignoring_case, replaced, replaced_folding,
    starts_with, to_chars,
};

verus! {

broadcast use vstd::string::group_string_axioms;

/// What kind of thing a visited entry is, links followed.
#[derive(Debug, Clone, Copy, PartialEq, Eq, Structural)]
pub enum EntryKind {
    File,
    Directory,
    /// Neither: a broken link, a socket and the like.
    Other,
}

/// One entry of the tree as the walk found it.
#[derive(Debug)]
pub struct WalkEntry {
    /// The full path of the entry.
    pub path: String,
    /// The final segment of the path, or nothing where it has none that is
    /// valid text.
    pub file_name: Option<String>,
    pub kind: EntryKind,
    /// The distance from the root of the walk.
    pub depth: usize,
}

impl WalkEntry {
    /// The name of the entry, empty where it has none.
    pub open spec fn name(&self) -> Seq<char> {
        match self.file_name {
            Some(name) => name@,
            None => Seq::empty(),
        }
    }
}

/// What the machine and the terminal say, as far as a run depends on it.
#[derive(Debug, Clone, Copy)]
pub struct Environment {
    pub root: RootStatus,
    /// How many threads the machine offers, where it says.
    pub available_parallelism: Option<usize>,
    pub stdout_is_terminal: bool,
}

/// What is planned for one entry.
#[derive(Debug)]
pub struct EntryPlan {
    /// The file's content is to be rewritten.
    pub content_change: bool,
    /// The entry is to be renamed.
    pub rename: Option<RenameItem>,
}

/// The plan for one entry as plain values.
pub ghost struct EntryPlanView {
    pub content_change: bool,
    pub rename: Option<RenameItemView>,
}

impl View for EntryPlan {
    type V = EntryPlanView;

    open spec fn view(&self) -> EntryPlanView {
        EntryPlanView {
            content_change: self.content_change,
            rename: match self.rename {
                Some(item) => Some(item@),
                None => None,
            },
        }
    }
}

/// `core::str::from_utf8` turns bytes into a string slice: it succeeds
/// exactly on valid UTF-8 and then gives the text that the bytes encode.
#[verifier::external_body]
fn decode<'a>(bytes: &'a [u8]) -> (text: Option<&'a str>)
    ensures
        text is Some <==> valid_utf8(bytes@),
        text matches Some(s) ==> s@ == decode_utf8(bytes@),
{
    core::str::from_utf8(bytes).ok()
}

/// The engine of one run.
#[derive(Debug)]
pub struct RenameEngine {
    pub config: RenameConfig,
    pub mode: Mode,
    pub detector: BinaryDetector,
    /// Whether progress is drawn: only for people, and only where asked for.
    pub show_progress: bool,
    pub thread_count: usize,
    pub output_format: OutputFormat,
    /// The greatest depth to descend to, where there is a bound.
    pub max_depth: Option<usize>,
    pub include_patterns: Vec<String>,
    pub exclude_patterns: Vec<String>,
    pub ignore_case: bool,
    pub use_regex: bool,
}

impl RenameEngine {
    /// The engine's invariant: its strings obey the rules.
    pub open spec fn wf(&self) -> bool {
        self.config.wf()
    }

    /// The entry is the root of the walk.
    pub open spec fn is_root(&self, entry: &WalkEntry) -> bool {
        entry.path@ == self.config.root_dir@
    }

    /// The entry lies no deeper than the walk goes.
    pub open spec fn within_depth(&self, entry: &WalkEntry) -> bool {
        match self.max_depth {
            Some(limit) => entry.depth <= limit,
            None => true,
        }
    }

    /// Whether the walk takes the entry, and descends into it where it is a
    /// directory. The root is always taken. A hidden entry is taken only
    /// where an include pattern asks for dotfiles, and any entry only where
    /// it lies within the depth of the walk and its name passes the include
    /// and exclude filters.
    pub open spec fn admits(&self, entry: &WalkEntry) -> bool {
        self.is_root(entry) || (self.within_depth(entry) && (is_hidden(entry.name())
            ==> includes_hidden(self.include_patterns.deep_view())) && self.passes(entry))
    }

    /// The entry's name passes the include and exclude filters.
    pub open spec fn passes(&self, entry: &WalkEntry) -> bool {
        passes_filters(
            entry.name(),
            self.include_patterns.deep_view(),
            self.exclude_patterns.deep_view(),
            self.ignore_case,
            self.use_regex,
        )
    }

    /// The text that contents are searched for: the old string, in lower
    /// case where case is ignored.
    pub open spec fn search_text(&self) -> Seq<char> {
        if self.ignore_case {
            lowercase_of(self.config.old_string@)
        } else {
            self.config.old_string@
        }
    }

    /// The content of the entry is looked at: it is a file below the root
    /// that passes the filters, and the mode works on files and contents.
    pub open spec fn wants_content(&self, entry: &WalkEntry) -> bool {
        !self.is_root(entry) && self.passes(entry) && self.mode.handles_content()
            && self.mode.handles_files() && entry.kind is File
    }

    /// A file with this name and these bytes needs its content rewritten:
    /// it is text, its bytes are valid UTF-8, and the text holds what is
    /// searched for.
    pub open spec fn needs_rewrite(&self, name: Seq<char>, data: Seq<u8>) -> bool {
        !self.detector.binary(name, data) && valid_utf8(data) && contains(
            decode_utf8(data),
            self.search_text(),
        )
    }

    /// The name holds the old string; where case is ignored, some span of
    /// it reads as the old string.
    pub open spec fn name_matches(&self, name: Seq<char>) -> bool {
        if self.ignore_case {
            contains_folding(name, self.config.old_string@)
        } else {
            contains(name, self.config.old_string@)
        }
    }

    /// The name after the old string has been replaced by the new one,
    /// leftmost match first and without overlap. Where case is ignored the
    /// spans that read as the old string are replaced. Every character
    /// outside a match stays as it is.
    pub open spec fn renamed(&self, name: Seq<char>) -> Seq<char> {
        if self.ignore_case {
            replaced_folding(name, self.config.old_string@, self.config.new_string@)
        } else {
            replaced(name, self.config.old_string@, self.config.new_string@)
        }
    }

    /// The entry has a name, and its path ends with it.
    pub open spec fn well_named(entry: &WalkEntry) -> bool {
        entry.file_name is Some && ends_with(entry.path@, entry.name())
    }

    /// The message for an entry without a usable name.
    pub open spec fn invalid_name_message(entry: &WalkEntry) -> Seq<char> {
        "Invalid file name: "@ + entry.path@
    }

    /// The rename planned for an entry. An entry without a usable name is
    /// an error. An entry whose name does not hold the old string is not
    /// renamed, nor is one of a kind that the mode leaves alone. Any other
    /// is renamed within its directory; what is not a file counts as a
    /// directory. The depth of the rename is that of the path below the
    /// root.
    pub open spec fn planned_rename(&self, entry: &WalkEntry) -> Result<
        Option<RenameItemView>,
        Seq<char>,
    > {
        if !Self::well_named(entry) {
            Err(Self::invalid_name_message(entry))
        } else if !self.name_matches(entry.name()) {
            Ok(None)
        } else if entry.kind is File && !self.mode.handles_files() {
            Ok(None)
        } else if !(entry.kind is File) && !self.mode.handles_dirs() {
            Ok(None)
        } else {
            Ok(
                Some(
                    RenameItemView {
                        original_path: entry.path@,
                        new_path: entry.path@.take(entry.path@.len() - entry.name().len())
                            + self.renamed(entry.name()),
                        item_type: if entry.kind is File {
                            ItemType::File
                        } else {
                            ItemType::Directory
                        },
                        depth: depth_below(self.config.root_dir@, entry.path@),
                    },
                ),
            )
        }
    }

    /// What is planned for an entry, given the bytes of its content where
    /// they were read. Nothing is planned for the root, nor for an entry
    /// that the filters reject.
    pub open spec fn planned(&self, entry: &WalkEntry, data: Option<Seq<u8>>) -> Result<
        EntryPlanView,
        Seq<char>,
    > {
        if self.is_root(entry) || !self.passes(entry) {
            Ok(EntryPlanView { content_change: false, rename: None })
        } else {
            let content_change = self.wants_content(entry) && data is Some && self.needs_rewrite(
                entry.name(),
                data->0,
            );
            if self.mode.handles_names() {
                match self.planned_rename(entry) {
                    Ok(rename) => Ok(EntryPlanView { content_change, rename }),
                    Err(message) => Err(message),
                }
            } else {
                Ok(EntryPlanView { content_change, rename: None })
            }
        }
    }
}

impl RenameEngine {
    /// The engine for the given arguments in the given environment. It is
    /// made exactly when the arguments break no rule; otherwise the message
    /// of the first broken rule comes back.
    pub fn new(args: Args, env: Environment) -> (outcome: Result<Self, String>)
        ensures
            match args.violation(env.root) {
                Some(message) => outcome is Err && outcome->Err_0@ == message,
                None => outcome matches Ok(engine) && engine.wf() && engine.config.root_dir@
                    == args.root_dir@ && engine.config.old_string@ == args.old_string@
                    && engine.config.new_string@ == args.new_string@ && engine.config.dry_run
                    == args.dry_run && engine.config.force == args.force && engine.config.verbose
                    == args.verbose && engine.config.follow_symlinks == args.follow_symlinks
                    && engine.config.backup == args.backup && engine.mode == args.mode()
                    && engine.output_format == args.format && engine.ignore_case
                    == args.ignore_case && engine.use_regex == args.use_regex
                    && engine.include_patterns == args.include_patterns
                    && engine.exclude_patterns == args.exclude_patterns && engine.detector
                    == BinaryDetector::standard() && engine.max_depth == (
                if args.max_depth > 0 {
                    Some(args.max_depth)
                } else {
                    None
                }) && engine.show_progress == (args.format is Human && (args.progress is Always || (
                args.progress is Auto && env.stdout_is_terminal))) && engine.thread_count == (
                if args.threads != 0 {
                    args.threads
                } else {
                    match env.available_parallelism {
                        Some(n) => n,
                        None => crate::cli::DEFAULT_THREADS,
                    }
                }),
            },
    {
        match args.validate(env.root) {
            Err(message) => {
                return Err(message);
            },
            Ok(()) => {},
        }
        let mode = args.get_mode();
        let thread_count = args.get_thread_count(env.available_parallelism);
        let wanted = match args.progress {
            ProgressMode::Always => true,
            ProgressMode::Never => false,
            ProgressMode::Auto => env.stdout_is_terminal,
        };
        let show_progress = wanted && args.format == OutputFormat::Human;
        let max_depth = if args.max_depth > 0 {
            Some(args.max_depth)
        } else {
            None
        };
        let config = RenameConfig {
            root_dir: args.root_dir,
            old_string: args.old_string,
            new_string: args.new_string,
            dry_run: args.dry_run,
            force: args.force,
            verbose: args.verbose,
            follow_symlinks: args.follow_symlinks,
            backup: args.backup,
        };
        Ok(
            RenameEngine {
                config,
                mode,
                detector: BinaryDetector::default(),
                show_progress,
                thread_count,
                output_format: args.format,
                max_depth,
                include_patterns: args.include_patterns,
                exclude_patterns: args.exclude_patterns,
                ignore_case: args.ignore_case,
                use_regex: args.use_regex,
            },
        )
    }

    /// The name of an entry, empty where it has none.
    fn name_of<'a>(entry: &'a WalkEntry) -> (name: &'a str)
        ensures
            name@ == entry.name(),
    {
        match &entry.file_name {
            Some(name) => name.as_str(),
            None => {
                let empty: &'static str = "";
                proof {
                    reveal_strlit("");
                }
                assert(empty@ =~= Seq::<char>::empty());
                empty
            },
        }
    }

    /// Whether the walk takes the entry and descends into it: see `admits`.
    pub fn should_process_entry(&self, entry: &WalkEntry) -> (yes: bool)
        ensures
            yes == self.admits(entry),
    {
        if entry.path == self.config.root_dir {
            return true;
        }
        let within_depth = match self.max_depth {
            Some(limit) => entry.depth <= limit,
            None => true,
        };
        let name = Self::name_of(entry);
        if !within_depth || (name_is_hidden(name) && !asks_for_hidden(&self.include_patterns)) {
            return false;
        }
        self.matches_patterns(entry)
    }

    /// Whether a name matches one pattern under the engine's rules for case
    /// and regular expressions.
    pub fn path_matches_pattern(&self, file_name: &str, pattern: &str) -> (yes: bool)
        ensures
            yes == crate::pattern::pattern_matches(
                file_name@,
                pattern@,
                self.ignore_case,
                self.use_regex,
            ),
    {
        crate::pattern::matches_pattern(file_name, pattern, self.ignore_case, self.use_regex)
    }

    /// Whether the entry's name passes the include and exclude filters.
    pub fn matches_patterns(&self, entry: &WalkEntry) -> (yes: bool)
        ensures
            yes == self.passes(entry),
    {
        matches_filters(
            Self::name_of(entry),
            &self.include_patterns,
            &self.exclude_patterns,
            self.ignore_case,
            self.use_regex,
        )
    }

    /// Whether the content of the entry is to be read and looked at.
    pub fn should_read_content(&self, entry: &WalkEntry) -> (yes: bool)
        ensures
            yes == self.wants_content(entry),
    {
        !(entry.path == self.config.root_dir) && self.mode.should_process_content()
            && self.mode.should_process_files() && entry.kind == EntryKind::File
            && self.matches_patterns(entry)
    }

    /// Whether a file with this name and these bytes needs its content
    /// rewritten: see `needs_rewrite`. A binary file never does.
    pub fn file_needs_content_replacement(&self, file_name: &str, data: &[u8]) -> (yes: bool)
        ensures
            yes == self.needs_rewrite(file_name@, data@),
            yes ==> !self.detector.binary(file_name@, data@),
    {
        if !self.detector.is_text_file(file_name, data) {
            return false;
        }
        match decode(data) {
            None => false,
            Some(text) => {
                if self.ignore_case {
                    let search = lowercase(self.config.old_string.as_str());
                    contains_str(text, search.as_str())
                } else {
                    contains_str(text, self.config.old_string.as_str())
                }
            },
        }
    }

    /// The rename planned for an entry: see `planned_rename`.
    pub fn create_rename_item(&self, entry: &WalkEntry) -> (outcome: Result<
        Option<RenameItem>,
        String,
    >)
        ensures
            match self.planned_rename(entry) {
                Err(message) => outcome is Err && outcome->Err_0@ == message,
                Ok(None) => outcome == Ok::<Option<RenameItem>, String>(None),
                Ok(Some(item)) => outcome matches Ok(Some(found)) && found@ == item,
            },
    {
        let path_chars = to_chars(entry.path.as_str());
        let name: &str = match &entry.file_name {
            Some(name) => name.as_str(),
            None => {
                let mut message = "Invalid file name: ".to_owned();
                message.append(entry.path.as_str());
                return Err(message);
            },
        };
        let name_chars = to_chars(name);
        if !ends_with_chars(path_chars.as_slice(), name_chars.as_slice()) {
            let mut message = "Invalid file name: ".to_owned();
            message.append(entry.path.as_str());
            return Err(message);
        }
        let new_name = if self.ignore_case {
            if !contains_ignoring_case(name, self.config.old_string.as_str()) {
                return Ok(None);
            }
            replace_ignoring_case(
                name,
                self.config.old_string.as_str(),
                self.config.new_string.as_str(),
            )
        } else {
            if !contains_str(name, self.config.old_string.as_str()) {
                return Ok(None);
            }
            replace_all(name, self.config.old_string.as_str(), self.config.new_string.as_str())
        };
        let item_type = if entry.kind == EntryKind::File {
            if !self.mode.should_process_files() {
                return Ok(None);
            }
            ItemType::File
        } else {
            if !self.mode.should_process_dirs() {
                return Ok(None);
            }
            ItemType::Directory
        };
        let parent = slice_subrange(path_chars.as_slice(), 0, path_chars.len() - name_chars.len());
        let mut new_path = from_chars(parent);
        new_path.append(new_name.as_str());
        Ok(
            Some(
                RenameItem {
                    original_path: entry.path.clone(),
                    new_path,
                    item_type,
                    depth: calculate_depth(entry.path.as_str(), self.config.root_dir.as_str()),
                },
            ),
        )
    }

    /// What is planned for an entry, given the bytes of its content where
    /// they were read: see `planned`.
    pub fn classify_entry(&self, entry: &WalkEntry, data: Option<&[u8]>) -> (outcome: Result<
        EntryPlan,
        String,
    >)
        ensures
            match self.planned(
                entry,
                match data {
                    Some(bytes) => Some(bytes@),
                    None => None,
                },
            ) {
                Err(message) => outcome is Err && outcome->Err_0@ == message,
                Ok(plan) => outcome matches Ok(found) && found@ == plan,
            },
    {
        if entry.path == self.config.root_dir || !self.matches_patterns(entry) {
            return Ok(EntryPlan { content_change: false, rename: None });
        }
        let content_change = match data {
            Some(bytes) => self.should_read_content(entry) && self.file_needs_content_replacement(
                Self::name_of(entry),
                bytes,
            ),
            None => false,
        };
        if self.mode.should_process_names() {
            match self.create_rename_item(entry) {
                Ok(rename) => Ok(EntryPlan { content_change, rename }),
                Err(message) => Err(message),
            }
        } else {
            Ok(EntryPlan { content_change, rename: None })
        }
    }
}

/// An entry together with the bytes of its content, where they were read.
#[derive(Debug)]
pub struct ScannedEntry {
    pub entry: WalkEntry,
    pub data: Option<Vec<u8>>,
}

impl ScannedEntry {
    /// The bytes that were read, as plain values.
    pub open spec fn bytes(&self) -> Option<Seq<u8>> {
        match self.data {
            Some(data) => Some(data@),
            None => None,
        }
    }
}

/// What a run plans to do.
#[derive(Debug)]
pub struct Discovery {
    /// The paths of the files whose content is to be rewritten, in the
    /// order they were found.
    pub content_files: Vec<String>,
    /// The renames, in the order they are to be carried out.
    pub rename_items: Vec<RenameItem>,
}

/// The entry at `j` is one that the walk does not take, and every entry
/// after it and before `i` lies deeper: at `i` the walk has not yet left
/// what lies below it.
pub open spec fn below(engine: &RenameEngine, scanned: Seq<ScannedEntry>, j: int, i: int) -> bool {
    &&& 0 <= j < i
    &&& !engine.admits(&scanned[j].entry)
    &&& forall|m: int| j < m < i ==> scanned[m].entry.depth > scanned[j].entry.depth
}

/// The entry at `k` is pruned: it lies below an entry that the walk does
/// not take. The entries are in the order of a walk that lists a
/// directory before what is in it.
pub open spec fn pruned(engine: &RenameEngine, scanned: Seq<ScannedEntry>, k: int) -> bool {
    exists|j: int| #[trigger]
        below(engine, scanned, j, k) && scanned[k].entry.depth > scanned[j].entry.depth
}

/// The walk visits the entry at `k`: it takes the entry, and has taken
/// every directory above it.
pub open spec fn visited(engine: &RenameEngine, scanned: Seq<ScannedEntry>, k: int) -> bool {
    engine.admits(&scanned[k].entry) && !pruned(engine, scanned, k)
}

/// What is found among the first `n` entries: the paths of the files to
/// rewrite and the renames, both in the order of the entries, or the
/// message of the first visited entry that cannot be planned. Entries that
/// the walk does not visit count for nothing.
pub open spec fn found(engine: &RenameEngine, scanned: Seq<ScannedEntry>, n: int) -> Result<
    (Seq<Seq<char>>, Seq<RenameItemView>),
    Seq<char>,
>
    decreases n,
{
    if n <= 0 {
        Ok((Seq::empty(), Seq::empty()))
    } else if !visited(engine, scanned, n - 1) {
        found(engine, scanned, n - 1)
    } else {
        match found(engine, scanned, n - 1) {
            Err(message) => Err(message),
            Ok((files, renames)) => match engine.planned(
                &scanned[n - 1].entry,
                scanned[n - 1].bytes(),
            ) {
                Err(message) => Err(message),
                Ok(plan) => Ok(
                    (
                        if plan.content_change {
                            files.push(scanned[n - 1].entry.path@)
                        } else {
                            files
                        },
                        match plan.rename {
                            Some(item) => renames.push(item),
                            None => renames,
                        },
                    ),
                ),
            },
        }
    }
}

/// The predicate "renames a file".
pub open spec fn renames_file() -> spec_fn(RenameItemView) -> bool {
    |item: RenameItemView| item.item_type == ItemType::File
}

/// The predicate "renames a directory".
pub open spec fn renames_directory() -> spec_fn(RenameItemView) -> bool {
    |item: RenameItemView| item.item_type == ItemType::Directory
}

/// The predicate "moves something".
pub open spec fn moves() -> spec_fn(RenameItemView) -> bool {
    |item: RenameItemView| !item.is_noop()
}

/// The message of a run stopped by conflicts.
pub open spec fn collision_message(blocking: nat) -> Seq<char> {
    "Cannot proceed due to "@ + decimal(blocking) + " naming collision(s)"@
}

/// What is to be done with the content of one file.
#[derive(Debug)]
pub enum ContentAction {
    /// The old string does not occur: the file is left as it is.
    Unchanged,
    /// The file is to be written anew with this content; where `backup` is
    /// set, the content it had is kept in a file beside it first.
    Rewrite { content: String, backup: bool },
    /// The bytes are not valid text: the file is left as it is, and the
    /// failure is reported for this file alone.
    NotText,
}

impl RenameEngine {
    /// Plans a run from what a walk of the tree lists, a directory before
    /// what is in it: which files are rewritten and which entries are
    /// renamed, the renames in execution order. An entry that the walk does
    /// not take is left out with all that lies below it. Fails with the
    /// message of the first visited entry that cannot be planned.
    pub fn discover_items(&self, scanned: &Vec<ScannedEntry>) -> (outcome: Result<Discovery, String>)
        ensures
            match found(self, scanned@, scanned@.len() as int) {
                Err(message) => outcome is Err && outcome->Err_0@ == message,
                Ok((files, renames)) => outcome matches Ok(discovery)
                    && discovery.content_files.deep_view() == files
                    && discovery.rename_items.deep_view() == ordered(renames),
            },
    {
        let mut content_files: Vec<String> = Vec::new();
        let mut rename_items: Vec<RenameItem> = Vec::new();
        // The depth of the entry whose subtree is being left out, if any.
        let mut skip_below: Option<usize> = None;
        let mut i: usize = 0;
        assert(content_files.deep_view() =~= Seq::<Seq<char>>::empty());
        assert(rename_items.deep_view() =~= Seq::<RenameItemView>::empty());
        while i < scanned.len()
            invariant
                i <= scanned.len(),
                found(self, scanned@, i as int) == Ok::<
                    (Seq<Seq<char>>, Seq<RenameItemView>),
                    Seq<char>,
                >((content_files.deep_view(), rename_items.deep_view())),
                skip_below matches Some(depth) ==> exists|j: int| #[trigger]
                    below(self, scanned@, j, i as int) && scanned@[j].entry.depth == depth,
                forall|j: int| #[trigger]
                    below(self, scanned@, j, i as int) ==> skip_below is Some
                        && scanned@[j].entry.depth >= skip_below->0,
            decreases scanned.len() - i,
        {
            let item = &scanned[i];
            let inside = match skip_below {
                Some(depth) => item.entry.depth > depth,
                None => false,
            };
            if inside {
                proof {
                    let j = choose|j: int| #[trigger]
                        below(self, scanned@, j, i as int) && scanned@[j].entry.depth
                            == skip_below->0;
                    assert(below(self, scanned@, j, i as int) && scanned@[i as int].entry.depth
                        > scanned@[j].entry.depth);
                    assert(pruned(self, scanned@, i as int));
                    assert(below(self, scanned@, j, i + 1));
                    assert forall|k: int| #[trigger]
                        below(self, scanned@, k, i + 1) implies scanned@[k].entry.depth
                        >= skip_below->0 by {
                        if k < i {
                            assert(below(self, scanned@, k, i as int));
                        }
                    }
                }
            } else {
                proof {
                    assert(!pruned(self, scanned@, i as int));
                    assert forall|k: int| k < i implies !#[trigger] below(self, scanned@, k, i + 1) by {
                        if below(self, scanned@, k, i + 1) {
                            assert(below(self, scanned@, k, i as int));
                            assert(scanned@[i as int].entry.depth > scanned@[k].entry.depth);
                        }
                    }
                }
                if !self.should_process_entry(&item.entry) {
                    skip_below = Some(item.entry.depth);
                    assert(below(self, scanned@, i as int, i + 1));
                } else {
                    skip_below = None;
                    let data: Option<&[u8]> = match &item.data {
                        Some(bytes) => Some(bytes.as_slice()),
                        None => None,
                    };
                    match self.classify_entry(&item.entry, data) {
                        Err(message) => {
                            assert(found(self, scanned@, i + 1) is Err);
                            proof {
                                lemma_found_error_stays(self, scanned@, i + 1, scanned@.len() as int);
                            }
                            return Err(message);
                        },
                        Ok(plan) => {
                            if plan.content_change {
                                let ghost before = content_files;
                                let path = item.entry.path.clone();
                                content_files.push(path);
                                proof {
                                    lemma_push_deep_view(before, content_files, path);
                                }
                            }
                            match plan.rename {
                                Some(rename) => {
                                    let ghost before = rename_items;
                                    let ghost pushed = rename;
                                    rename_items.push(rename);
                                    proof {
                                        lemma_push_deep_view(before, rename_items, pushed);
                                    }
                                },
                                None => {},
                            }
                        },
                    }
                }
            }
            i += 1;
        }
        let sorted = sort_for_execution(rename_items);
        Ok(Discovery { content_files, rename_items: sorted })
    }

    /// Decides whether conflicts stop the run: it goes on exactly when none
    /// of them is blocking, and otherwise fails with a message that counts
    /// the blocking ones. No-ops never stop it.
    pub fn check_collisions(&self, collisions: &[Collision]) -> (outcome: Result<(), String>)
        ensures
            match outcome {
                Ok(()) => collisions.deep_view().filter(blocking()).len() == 0,
                Err(message) => collisions.deep_view().filter(blocking()).len() > 0 && message@
                    == collision_message(collisions.deep_view().filter(blocking()).len()),
            },
    {
        let serious = blocking_collisions(collisions);
        if serious.len() == 0 {
            Ok(())
        } else {
            let mut message = "Cannot proceed due to ".to_owned();
            message.append(decimal_string(serious.len() as u64).as_str());
            message.append(" naming collision(s)");
            Err(message)
        }
    }

    /// The counters of a planned run: how many files are rewritten, how
    /// many files and how many directories are renamed.
    pub fn summarize(content_files: &[String], rename_items: &[RenameItem]) -> (stats: RenameStats)
        ensures
            stats.files_with_content_changes == content_files@.len(),
            stats.files_renamed == rename_items.deep_view().filter(renames_file()).len(),
            stats.directories_renamed == rename_items.deep_view().filter(renames_directory()).len(),
            stats.files_renamed + stats.directories_renamed == rename_items@.len(),
            stats.errors@.len() == 0,
    {
        let mut files: usize = 0;
        let mut directories: usize = 0;
        let mut i: usize = 0;
        let ghost all = rename_items.deep_view();
        proof {
            lemma_filter_empty(renames_file());
            lemma_filter_empty(renames_directory());
            assert(all.take(0) =~= Seq::empty());
        }
        while i < rename_items.len()
            invariant
                i <= rename_items.len(),
                all == rename_items.deep_view(),
                files == all.take(i as int).filter(renames_file()).len(),
                directories == all.take(i as int).filter(renames_directory()).len(),
                files + directories == i,
            decreases rename_items.len() - i,
        {
            proof {
                assert(all[i as int] == rename_items[i as int]@);
                assert(all.take(i + 1) =~= all.take(i as int).push(all[i as int]));
                lemma_filter_push(all.take(i as int), all[i as int], renames_file());
                lemma_filter_push(all.take(i as int), all[i as int], renames_directory());
            }
            match rename_items[i].item_type {
                ItemType::File => {
                    files += 1;
                },
                ItemType::Directory => {
                    directories += 1;
                },
            }
            i += 1;
        }
        assert(all.take(i as int) =~= all);
        RenameStats {
            files_with_content_changes: content_files.len(),
            files_renamed: files,
            directories_renamed: directories,
            errors: Vec::new(),
        }
    }

    /// Whether the user is asked before anything is changed: not in a dry
    /// run, not where the run is forced, and never where the output is for
    /// scripts.
    pub fn needs_confirmation(&self) -> (yes: bool)
        ensures
            yes == (!self.config.force && !self.config.dry_run && !(self.output_format is Json)),
    {
        !self.config.force && !self.config.dry_run && !(self.output_format == OutputFormat::Json)
    }

    /// Whether contents are rewritten by several workers at once.
    pub fn rewrites_in_parallel(&self) -> (yes: bool)
        ensures
            yes == (self.thread_count > 1),
    {
        self.thread_count > 1
    }

    /// What is to be done with the content of one file, given its bytes:
    /// every occurrence of the old string gives way to the new one, and the
    /// file is written only where there was one.
    pub fn replace_content(&self, data: &[u8]) -> (action: ContentAction)
        ensures
            match action {
                ContentAction::NotText => !valid_utf8(data@),
                ContentAction::Unchanged => valid_utf8(data@) && !contains(
                    decode_utf8(data@),
                    self.config.old_string@,
                ),
                ContentAction::Rewrite { content, backup } => valid_utf8(data@) && contains(
                    decode_utf8(data@),
                    self.config.old_string@,
                ) && content@ == replaced(
                    decode_utf8(data@),
                    self.config.old_string@,
                    self.config.new_string@,
                ) && backup == self.config.backup,
            },
    {
        match decode(data) {
            None => ContentAction::NotText,
            Some(text) => {
                if contains_str(text, self.config.old_string.as_str()) {
                    ContentAction::Rewrite {
                        content: replace_all(
                            text,
                            self.config.old_string.as_str(),
                            self.config.new_string.as_str(),
                        ),
                        backup: self.config.backup,
                    }
                } else {
                    ContentAction::Unchanged
                }
            },
        }
    }

    /// Where the content of a file is kept before the file is rewritten: in
    /// a file beside it, named like it with `.bak` at the end.
    pub fn backup_path(path: &str) -> (backup: String)
        ensures
            backup@ == path@ + ".bak"@,
    {
        let mut backup = path.to_owned();
        backup.append(".bak");
        backup
    }

    /// The renames that move something, in order: those whose source and
    /// target differ.
    pub fn pending_renames(rename_items: &[RenameItem]) -> (pending: Vec<RenameItem>)
        ensures
            pending.deep_view() == rename_items.deep_view().filter(moves()),
    {
        let mut pending: Vec<RenameItem> = Vec::new();
        let mut i: usize = 0;
        let ghost all = rename_items.deep_view();
        proof {
            lemma_filter_empty(moves());
            assert(all.take(0) =~= Seq::empty());
            assert(pending.deep_view() =~= Seq::empty());
        }
        while i < rename_items.len()
            invariant
                i <= rename_items.len(),
                all == rename_items.deep_view(),
                pending.deep_view() == all.take(i as int).filter(moves()),
            decreases rename_items.len() - i,
        {
            proof {
                assert(all[i as int] == rename_items[i as int]@);
                assert(all.take(i + 1) =~= all.take(i as int).push(all[i as int]));
                lemma_filter_push(all.take(i as int), all[i as int], moves());
            }
            if !rename_items[i].is_noop() {
                let item = rename_items[i].clone();
                let ghost before = pending;
                let ghost pushed = item;
                pending.push(item);
                proof {
                    lemma_push_deep_view(before, pending, pushed);
                }
            }
            i += 1;
        }
        assert(all.take(i as int) =~= all);
        pending
    }
}

/// Once an entry cannot be planned, nothing later mends it.
proof fn lemma_found_error_stays(engine: &RenameEngine, scanned: Seq<ScannedEntry>, k: int, n: int)
    requires
        0 <= k <= n,
        found(engine, scanned, k) is Err,
    ensures
        found(engine, scanned, n) == found(engine, scanned, k),
    decreases n - k,
{
    if k < n {
        lemma_found_error_stays(engine, scanned, k, n - 1);
    }
}

/// A second run plans nothing for what a first run has rewritten, where
/// case counts and the old and the new string keep apart: an entry whose
/// name is a renamed name, and whose content, where it is text, is a
/// rewritten text, holds the old string no more.
pub proof fn lemma_second_run_plans_nothing(
    engine: RenameEngine,
    entry: WalkEntry,
    data: Option<Seq<u8>>,
    name_before: Seq<char>,
    text_before: Seq<char>,
)
    requires
        engine.wf(),
        !engine.ignore_case,
        apart(engine.config.old_string@, engine.config.new_string@),
        RenameEngine::well_named(&entry),
        entry.name() == engine.renamed(name_before),
        data matches Some(bytes) ==> (valid_utf8(bytes) ==> decode_utf8(bytes) == replaced(
            text_before,
            engine.config.old_string@,
            engine.config.new_string@,
        )),
    ensures
        engine.planned(&entry, data) == Ok::<EntryPlanView, Seq<char>>(
            EntryPlanView { content_change: false, rename: None },
        ),
{
    lemma_replaced_holds_no_old(name_before, engine.config.old_string@, engine.config.new_string@);
    lemma_replaced_holds_no_old(text_before, engine.config.old_string@, engine.config.new_string@);
    lemma_untouched_entry_plans_nothing(engine, entry, data);
}

/// Nothing is planned for an entry that holds the old string neither in its
/// name nor in its content.
pub proof fn lemma_untouched_entry_plans_nothing(
    engine: RenameEngine,
    entry: WalkEntry,
    data: Option<Seq<u8>>,
)
    requires
        RenameEngine::well_named(&entry),
        !engine.name_matches(entry.name()),
        data matches Some(bytes) ==> !engine.needs_rewrite(entry.name(), bytes),
    ensures
        engine.planned(&entry, data) == Ok::<EntryPlanView, Seq<char>>(
            EntryPlanView { content_change: false, rename: None },
        ),
{
}

/// Those of the first `n` entries that the walk visits, in order.
pub open spec fn kept(engine: &RenameEngine, scanned: Seq<ScannedEntry>, n: int) -> Seq<
    ScannedEntry,
>
    decreases n,
{
    if n <= 0 {
        Seq::empty()
    } else if visited(engine, scanned, n - 1) {
        kept(engine, scanned, n - 1).push(scanned[n - 1])
    } else {
        kept(engine, scanned, n - 1)
    }
}

/// What is kept are entries that the walk takes.
proof fn lemma_kept_are_taken(engine: &RenameEngine, scanned: Seq<ScannedEntry>, n: int)
    requires
        0 <= n <= scanned.len(),
    ensures
        forall|k: int|
            0 <= k < kept(engine, scanned, n).len() ==> engine.admits(
                &(#[trigger] kept(engine, scanned, n)[k]).entry,
            ),
    decreases n,
{
    if n > 0 {
        lemma_kept_are_taken(engine, scanned, n - 1);
    }
}

/// What is found among the first `n` entries depends on those entries
/// alone.
proof fn lemma_found_among_first(
    engine: &RenameEngine,
    one: Seq<ScannedEntry>,
    other: Seq<ScannedEntry>,
    n: int,
)
    requires
        0 <= n <= one.len(),
        n <= other.len(),
        forall|k: int| 0 <= k < n ==> one[k] == other[k],
    ensures
        found(engine, one, n) == found(engine, other, n),
    decreases n,
{
    if n > 0 {
        lemma_found_among_first(engine, one, other, n - 1);
        let k = n - 1;
        assert forall|j: int| below(engine, one, j, k) == below(engine, other, j, k) by {}
        assert(pruned(engine, one, k) == pruned(engine, other, k)) by {
            if pruned(engine, one, k) {
                let j = choose|j: int| #[trigger]
                    below(engine, one, j, k) && one[k].entry.depth > one[j].entry.depth;
                assert(below(engine, other, j, k));
            }
            if pruned(engine, other, k) {
                let j = choose|j: int| #[trigger]
                    below(engine, other, j, k) && other[k].entry.depth > other[j].entry.depth;
                assert(below(engine, one, j, k));
            }
        }
    }
}

/// Leaving out beforehand what the walk would not visit changes nothing:
/// the entries that are kept give the same plan as the whole list.
pub proof fn lemma_leaving_out_changes_nothing(
    engine: &RenameEngine,
    scanned: Seq<ScannedEntry>,
    n: int,
)
    requires
        0 <= n <= scanned.len(),
    ensures
        found(engine, kept(engine, scanned, n), kept(engine, scanned, n).len() as int) == found(
            engine,
            scanned,
            n,
        ),
    decreases n,
{
    if n > 0 {
        lemma_leaving_out_changes_nothing(engine, scanned, n - 1);
        if visited(engine, scanned, n - 1) {
            let before = kept(engine, scanned, n - 1);
            let all = kept(engine, scanned, n);
            let last = before.len() as int;
            lemma_kept_are_taken(engine, scanned, n);
            assert(!pruned(engine, all, last)) by {
                if pruned(engine, all, last) {
                    let j = choose|j: int| #[trigger]
                        below(engine, all, j, last) && all[last].entry.depth
                            > all[j].entry.depth;
                    assert(engine.admits(&all[j].entry));
                }
            }
            assert(all[last] == scanned[n - 1]);
            assert(visited(engine, all, last));
            lemma_found_among_first(engine, all, before, last);
        }
    }
}

/// Where nothing is planned for any single entry that a walk visits, the
/// walk as a whole plans nothing: no file to rewrite and nothing to rename.
pub proof fn lemma_nothing_to_find(engine: &RenameEngine, scanned: Seq<ScannedEntry>, n: int)
    requires
        0 <= n <= scanned.len(),
        forall|k: int|
            0 <= k < n && visited(engine, scanned, k) ==> engine.planned(
                &(#[trigger] scanned[k]).entry,
                scanned[k].bytes(),
            ) == Ok::<EntryPlanView, Seq<char>>(
                EntryPlanView { content_change: false, rename: None },
            ),
    ensures
        found(engine, scanned, n) == Ok::<(Seq<Seq<char>>, Seq<RenameItemView>), Seq<char>>(
            (Seq::empty(), Seq::empty()),
        ),
    decreases n,
{
    if n > 0 {
        lemma_nothing_to_find(engine, scanned, n - 1);
        if visited(engine, scanned, n - 1) {
            assert(engine.planned(&scanned[n - 1].entry, scanned[n - 1].bytes()) is Ok);
        }
    }
}

impl RenameEngine {
    /// The text is what a replacement of the old string by the new one
    /// gives for some text.
    pub open spec fn is_rewritten(&self, text: Seq<char>) -> bool {
        exists|before: Seq<char>| #[trigger]
            replaced(before, self.config.old_string@, self.config.new_string@) == text
    }

    /// The entry is as a run leaves it. Its name is a renamed name, unless
    /// the mode leaves the names of its kind alone. Its content, where it
    /// was read and is text that the mode works on, is a rewritten text.
    pub open spec fn left_by_a_run(&self, entry: &WalkEntry, data: Option<Seq<u8>>) -> bool {
        self.is_root(entry) || {
            &&& Self::well_named(entry)
            &&& {
                ||| self.is_rewritten(entry.name())
                ||| !self.mode.handles_names()
                ||| (entry.kind is File && !self.mode.handles_files())
                ||| (!(entry.kind is File) && !self.mode.handles_dirs())
            }
            &&& data matches Some(bytes) ==> {
                ||| !self.wants_content(entry)
                ||| self.detector.binary(entry.name(), bytes)
                ||| !valid_utf8(bytes)
                ||| self.is_rewritten(decode_utf8(bytes))
            }
        }
    }
}

/// A second run over a tree plans nothing, where case counts and the old
/// and the new string keep apart: where every entry that the walk visits is
/// as the first run left it, no file is to be rewritten and nothing is to
/// be renamed.
pub proof fn lemma_second_walk_finds_nothing(engine: &RenameEngine, scanned: Seq<ScannedEntry>)
    requires
        engine.wf(),
        !engine.ignore_case,
        apart(engine.config.old_string@, engine.config.new_string@),
        forall|k: int|
            0 <= k < scanned.len() && visited(engine, scanned, k) ==> engine.left_by_a_run(
                &(#[trigger] scanned[k]).entry,
                scanned[k].bytes(),
            ),
    ensures
        found(engine, scanned, scanned.len() as int) == Ok::<
            (Seq<Seq<char>>, Seq<RenameItemView>),
            Seq<char>,
        >((Seq::empty(), Seq::empty())),
{
    let old = engine.config.old_string@;
    let new = engine.config.new_string@;
    assert forall|k: int| 0 <= k < scanned.len() && visited(engine, scanned, k) implies engine.planned(
        &(#[trigger] scanned[k]).entry,
        scanned[k].bytes(),
    ) == Ok::<EntryPlanView, Seq<char>>(EntryPlanView { content_change: false, rename: None }) by {
        let entry = &scanned[k].entry;
        let data = scanned[k].bytes();
        assert(engine.left_by_a_run(entry, data));
        if !engine.is_root(entry) {
            if engine.is_rewritten(entry.name()) {
                let before = choose|before: Seq<char>| #[trigger]
                    replaced(before, old, new) == entry.name();
                lemma_replaced_holds_no_old(before, old, new);
            }
            match data {
                Some(bytes) => {
                    if valid_utf8(bytes) && engine.is_rewritten(decode_utf8(bytes)) {
                        let before = choose|before: Seq<char>| #[trigger]
                            replaced(before, old, new) == decode_utf8(bytes);
                        lemma_replaced_holds_no_old(before, old, new);
                    }
                },
                None => {},
            }
        }
    }
    lemma_nothing_to_find(engine, scanned, scanned.len() as int);
}

/// Every rename that a walk finds has the depth of its path below the
/// root.
proof fn lemma_found_depths(engine: &RenameEngine, scanned: Seq<ScannedEntry>, n: int)
    requires
        0 <= n <= scanned.len(),
        found(engine, scanned, n) is Ok,
    ensures
        forall|k: int|
            0 <= k < found(engine, scanned, n)->Ok_0.1.len() ==> (#[trigger] found(
                engine,
                scanned,
                n,
            )->Ok_0.1[k]).depth == depth_below(
                engine.config.root_dir@,
                found(engine, scanned, n)->Ok_0.1[k].original_path,
            ),
    decreases n,
{
    if n > 0 {
        if found(engine, scanned, n - 1) is Ok {
            lemma_found_depths(engine, scanned, n - 1);
        }
    }
}

/// Of two directories that a walk plans to rename, one lying below the
/// other, the inner one comes first in the order of execution: it is
/// renamed before the directory that holds it moves.
pub proof fn lemma_nested_directory_first(
    engine: &RenameEngine,
    scanned: Seq<ScannedEntry>,
    i: int,
    j: int,
)
    requires
        found(engine, scanned, scanned.len() as int) is Ok,
        0 <= i < ordered(found(engine, scanned, scanned.len() as int)->Ok_0.1).len(),
        0 <= j < ordered(found(engine, scanned, scanned.len() as int)->Ok_0.1).len(),
        ({
            let items = ordered(found(engine, scanned, scanned.len() as int)->Ok_0.1);
            &&& items[i].item_type == ItemType::Directory
            &&& items[j].item_type == ItemType::Directory
            &&& starts_with(items[j].original_path, engine.config.root_dir@)
            &&& lies_below(items[i].original_path, items[j].original_path)
        }),
    ensures
        i < j,
{
    broadcast use vstd::seq_lib::group_to_multiset_ensures;

    let renames = found(engine, scanned, scanned.len() as int)->Ok_0.1;
    let items = ordered(renames);
    let root = engine.config.root_dir@;
    lemma_found_depths(engine, scanned, scanned.len() as int);
    lemma_ordered_is_sorted(renames);
    assert forall|k: int| 0 <= k < items.len() implies (#[trigger] items[k]).depth == depth_below(
        root,
        items[k].original_path,
    ) by {
        assert(items.to_multiset().count(items[k]) > 0);
        assert(renames.to_multiset().count(items[k]) > 0);
        let at = choose|at: int| 0 <= at < renames.len() && renames[at] == items[k];
        assert(renames[at].depth == depth_below(root, renames[at].original_path));
    }
    lemma_below_is_deeper(root, items[j].original_path, items[i].original_path);
    lemma_deeper_directories_first(renames, i, j);
}

/// A file with a NUL byte in the part that the detector looks at is never
/// chosen for rewriting, whatever else it holds.
pub proof fn lemma_early_nul_is_never_rewritten(
    engine: RenameEngine,
    name: Seq<char>,
    data: Seq<u8>,
    at: int,
)
    requires
        0 <= at < data.len(),
        at < engine.detector.max_sample_size,
        data[at] == 0u8,
    ensures
        !engine.needs_rewrite(name, data),
{
    lemma_early_nul_is_binary(engine.detector, name, data, at);
}

/// A planned rename stays within its directory: the new path is the old one
/// with the final segment rewritten, and it is the same path exactly when
/// the name did not change.
pub proof fn lemma_rename_keeps_directory(engine: RenameEngine, entry: WalkEntry)
    requires
        engine.planned_rename(&entry) matches Ok(Some(_)),
    ensures
        ({
            let item = engine.planned_rename(&entry)->Ok_0->0;
            let parent = entry.path@.take(entry.path@.len() - entry.name().len());
            &&& item.renames_segment(parent, entry.name(), engine.renamed(entry.name()))
            &&& item.is_noop() <==> engine.renamed(entry.name()) == entry.name()
        }),
{
    let item = engine.planned_rename(&entry)->Ok_0->0;
    let name = entry.name();
    let cut = entry.path@.len() - name.len();
    let parent = entry.path@.take(cut);
    assert(entry.path@.subrange(cut, cut + name.len()) == name);
    assert(entry.path@ =~= parent + name);
    let new_name = engine.renamed(name);
    if item.is_noop() {
        assert((parent + new_name).skip(cut) =~= new_name);
        assert((parent + name).skip(cut) =~= name);
    }
}

} // verus!
