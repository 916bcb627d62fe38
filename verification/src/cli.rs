//! The invocation surface: the arguments of a run and the rules they obey.

use vstd::prelude::*;
use vstd::string::StringExecFns;
use crate::model::{check_strings, string_violation};

verus! {

broadcast use vstd::string::group_string_axioms;

/// How results are written out.
#[derive(Debug, Clone, Copy, PartialEq, Eq, Structural)]
pub enum OutputFormat {
    /// For people, with colours.
    Human,
    /// For scripts.
    Json,
    /// Plain text.
    Plain,
}

/// When progress is shown.
#[derive(Debug, Clone, Copy, PartialEq, Eq, Structural)]
pub enum ProgressMode {
    /// Where the output is a terminal.
    Auto,
    Never,
    Always,
}

/// What a run works on.
#[derive(Debug, Clone, Copy, PartialEq, Eq, Structural)]
pub enum Mode {
    /// Files and directories, names and contents.
    Full,
    /// Files only.
    FilesOnly,
    /// Directories only.
    DirsOnly,
    /// Names only: contents are left alone.
    NamesOnly,
    /// Contents only: nothing is renamed.
    ContentOnly,
}

impl Mode {
    /// Files are worked on.
    pub open spec fn handles_files(self) -> bool {
        !(self is DirsOnly)
    }

    /// Directories are worked on.
    pub open spec fn handles_dirs(self) -> bool {
        self is Full || self is DirsOnly || self is NamesOnly
    }

    /// Contents are rewritten.
    pub open spec fn handles_content(self) -> bool {
        !(self is NamesOnly)
    }

    /// Names are rewritten.
    pub open spec fn handles_names(self) -> bool {
        !(self is ContentOnly)
    }

    /// Whether files are worked on.
    pub fn should_process_files(&self) -> (yes: bool)
        ensures
            yes == self.handles_files(),
    {
        match self {
            Mode::DirsOnly => false,
            _ => true,
        }
    }

    /// Whether directories are worked on.
    pub fn should_process_dirs(&self) -> (yes: bool)
        ensures
            yes == self.handles_dirs(),
    {
        match self {
            Mode::Full | Mode::DirsOnly | Mode::NamesOnly => true,
            _ => false,
        }
    }

    /// Whether contents are rewritten.
    pub fn should_process_content(&self) -> (yes: bool)
        ensures
            yes == self.handles_content(),
    {
        match self {
            Mode::NamesOnly => false,
            _ => true,
        }
    }

    /// Whether anything is renamed.
    pub fn should_process_names(&self) -> (yes: bool)
        ensures
            yes == self.handles_names(),
    {
        match self {
            Mode::ContentOnly => false,
            _ => true,
        }
    }
}

/// What the file system says of the root path.
#[derive(Debug, Clone, Copy, PartialEq, Eq, Structural)]
pub enum RootStatus {
    /// Nothing exists at the path.
    Missing,
    /// Something exists there that is not a directory.
    NotADirectory,
    Directory,
}

/// The most threads and the greatest depth that may be asked for.
pub const MAX_THREADS: usize = 1000;

pub const MAX_DEPTH: usize = 1000;

/// The threads used where the machine does not say how many it has.
pub const DEFAULT_THREADS: usize = 4;

/// The arguments of one run.
#[derive(Debug, Clone)]
pub struct Args {
    pub root_dir: String,
    pub old_string: String,
    pub new_string: String,
    pub dry_run: bool,
    pub force: bool,
    pub verbose: bool,
    pub follow_symlinks: bool,
    pub backup: bool,
    pub files_only: bool,
    pub dirs_only: bool,
    pub names_only: bool,
    pub content_only: bool,
    /// The greatest depth to descend to; 0 for no bound.
    pub max_depth: usize,
    pub exclude_patterns: Vec<String>,
    pub include_patterns: Vec<String>,
    pub format: OutputFormat,
    /// The number of threads; 0 to use as many as the machine offers.
    pub threads: usize,
    pub progress: ProgressMode,
    pub ignore_case: bool,
    pub use_regex: bool,
}

impl Args {
    /// How many of the four mode flags are set.
    pub open spec fn mode_flags(&self) -> nat {
        (if self.files_only { 1nat } else { 0nat }) + (if self.dirs_only { 1nat } else { 0nat })
            + (if self.names_only { 1nat } else { 0nat }) + (if self.content_only { 1nat } else { 0nat })
    }

    /// The mode that the flags select: the one flag that is set alone, and
    /// the full mode otherwise.
    pub open spec fn mode(&self) -> Mode {
        if self.files_only && !self.dirs_only && !self.names_only && !self.content_only {
            Mode::FilesOnly
        } else if !self.files_only && self.dirs_only && !self.names_only && !self.content_only {
            Mode::DirsOnly
        } else if !self.files_only && !self.dirs_only && self.names_only && !self.content_only {
            Mode::NamesOnly
        } else if !self.files_only && !self.dirs_only && !self.names_only && self.content_only {
            Mode::ContentOnly
        } else {
            Mode::Full
        }
    }

    /// What is wrong with the arguments, if anything: the first rule broken,
    /// as the message reported for it. The rules, in order: at most one mode
    /// flag; the root exists and is a directory; the strings obey
    /// `string_violation`; threads and depth stay within their bounds.
    pub open spec fn violation(&self, root: RootStatus) -> Option<Seq<char>> {
        if self.mode_flags() > 1 {
            Some(
                "Cannot specify more than one mode flag (--files-only, --dirs-only, --names-only, --content-only)"@,
            )
        } else if root is Missing {
            Some("Root directory does not exist: "@ + self.root_dir@)
        } else if root is NotADirectory {
            Some("Root path is not a directory: "@ + self.root_dir@)
        } else if string_violation(self.old_string@, self.new_string@) is Some {
            string_violation(self.old_string@, self.new_string@)
        } else if self.threads > MAX_THREADS {
            Some("Thread count cannot exceed 1000"@)
        } else if self.max_depth > MAX_DEPTH {
            Some("Max depth cannot exceed 1000"@)
        } else {
            None
        }
    }

    /// The mode that the flags select.
    pub fn get_mode(&self) -> (mode: Mode)
        ensures
            mode == self.mode(),
    {
        match (self.files_only, self.dirs_only, self.names_only, self.content_only) {
            (true, false, false, false) => Mode::FilesOnly,
            (false, true, false, false) => Mode::DirsOnly,
            (false, false, true, false) => Mode::NamesOnly,
            (false, false, false, true) => Mode::ContentOnly,
            _ => Mode::Full,
        }
    }

    /// Checks the arguments against what the file system says of the root.
    /// Succeeds exactly when no rule is broken, and fails with the message of
    /// the first broken rule otherwise.
    pub fn validate(&self, root: RootStatus) -> (outcome: Result<(), String>)
        ensures
            match self.violation(root) {
                None => outcome is Ok,
                Some(message) => outcome is Err && outcome->Err_0@ == message,
            },
    {
        let mut active: u8 = 0;
        if self.files_only {
            active += 1;
        }
        if self.dirs_only {
            active += 1;
        }
        if self.names_only {
            active += 1;
        }
        if self.content_only {
            active += 1;
        }
        if active > 1 {
            return Err(
                "Cannot specify more than one mode flag (--files-only, --dirs-only, --names-only, --content-only)".to_owned(),
            );
        }
        match root {
            RootStatus::Missing => {
                let mut message = "Root directory does not exist: ".to_owned();
                message.append(self.root_dir.as_str());
                return Err(message);
            },
            RootStatus::NotADirectory => {
                let mut message = "Root path is not a directory: ".to_owned();
                message.append(self.root_dir.as_str());
                return Err(message);
            },
            RootStatus::Directory => {},
        }
        match check_strings(self.old_string.as_str(), self.new_string.as_str()) {
            Err(message) => {
                return Err(message);
            },
            Ok(()) => {},
        }
        if self.threads > MAX_THREADS {
            return Err("Thread count cannot exceed 1000".to_owned());
        }
        if self.max_depth > MAX_DEPTH {
            return Err("Max depth cannot exceed 1000".to_owned());
        }
        Ok(())
    }

    /// Whether files are worked on.
    pub fn should_process_files(&self) -> (yes: bool)
        ensures
            yes == !self.dirs_only,
    {
        !self.dirs_only
    }

    /// Whether directories are worked on.
    pub fn should_process_dirs(&self) -> (yes: bool)
        ensures
            yes == !self.files_only,
    {
        !self.files_only
    }

    /// Whether contents are rewritten.
    pub fn should_process_content(&self) -> (yes: bool)
        ensures
            yes == !self.names_only,
    {
        !self.names_only
    }

    /// Whether anything is renamed.
    pub fn should_process_names(&self) -> (yes: bool)
        ensures
            yes == !self.content_only,
    {
        !self.content_only
    }

    /// The number of threads to use: the number asked for, or, where none
    /// was asked for, what the machine offers, or 4 where it does not say.
    pub fn get_thread_count(&self, available: Option<usize>) -> (count: usize)
        ensures
            count == if self.threads != 0 {
                self.threads
            } else {
                match available {
                    Some(n) => n,
                    None => DEFAULT_THREADS,
                }
            },
    {
        if self.threads == 0 {
            match available {
                Some(n) => n,
                None => DEFAULT_THREADS,
            }
        } else {
            self.threads
        }
    }
}

} // verus!
