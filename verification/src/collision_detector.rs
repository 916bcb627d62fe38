//! Pre-flight detection of naming conflicts among planned renames and the
//! paths that already exist.
//!
//! The detector works on a snapshot: the renames it was given and the
//! existing paths it was told of, each with its kind. It never looks at the
//! file system, so one snapshot always yields the same list.

use vstd::prelude::*;
use vstd::string::StringExecFns;
use crate::model::{ItemType, RenameItem, RenameItemView};
use crate::views::{
    lemma_filter_empty, lemma_filter_push, lemma_push_deep_view, lemma_slice_deep_view,
};
use crate::text::{
    decimal, decimal_string, join, joined, lowercase, lowercase_of, repeat_char, repeated,
};

verus! {

broadcast use vstd::string::group_string_axioms;

/// The kinds of conflict.
#[derive(Debug, Clone, Copy, PartialEq, Eq, Hash, Structural)]
pub enum CollisionType {
    /// Two or more sources are to be renamed to one target.
    MultipleSourcesSameTarget,
    /// The target exists already and is not itself renamed away.
    TargetAlreadyExists,
    /// Source and target are the same path: nothing to do, and no obstacle.
    SourceEqualsTarget,
    /// Two targets differ by letter case only, where case does not count.
    CaseOnlyDifference,
    /// A directory would take the place of an existing file.
    DirectoryToFile,
    /// A file would take the place of an existing directory.
    FileToDirectory,
}

/// One detected conflict.
#[derive(Debug)]
pub struct Collision {
    pub collision_type: CollisionType,
    pub target_path: String,
    pub source_paths: Vec<String>,
    pub description: String,
}

/// A conflict as plain values.
pub ghost struct CollisionView {
    pub collision_type: CollisionType,
    pub target_path: Seq<char>,
    pub source_paths: Seq<Seq<char>>,
    pub description: Seq<char>,
}

impl View for Collision {
    type V = CollisionView;

    open spec fn view(&self) -> CollisionView {
        CollisionView {
            collision_type: self.collision_type,
            target_path: self.target_path@,
            source_paths: self.source_paths.deep_view(),
            description: self.description@,
        }
    }
}

impl DeepView for Collision {
    type V = CollisionView;

    open spec fn deep_view(&self) -> CollisionView {
        self@
    }
}

/// The sources that share one target, in the order they were added.
pub ghost struct GroupView {
    pub target: Seq<char>,
    pub sources: Seq<Seq<char>>,
}

/// A path known to exist, with its kind.
pub ghost struct ExistingView {
    pub path: Seq<char>,
    pub kind: ItemType,
}

/// What a detector holds.
pub ghost struct DetectorView {
    /// The planned renames, grouped by target in order of first mention.
    pub groups: Seq<GroupView>,
    /// The snapshot of existing paths.
    pub existing: Seq<ExistingView>,
    /// Whether paths that differ by case only name the same entry.
    pub case_insensitive: bool,
    /// The result of the latest detection.
    pub collisions: Seq<CollisionView>,
}

/// Some group has this target.
pub open spec fn has_target(groups: Seq<GroupView>, target: Seq<char>) -> bool {
    exists|i: int| 0 <= i < groups.len() && (#[trigger] groups[i]).target == target
}

/// The rename `source -> target` is among the groups.
pub open spec fn has_rename(groups: Seq<GroupView>, source: Seq<char>, target: Seq<char>) -> bool {
    exists|i: int|
        0 <= i < groups.len() && (#[trigger] groups[i]).target == target
            && groups[i].sources.contains(source)
}

/// `path` is the source of some planned rename.
pub open spec fn is_source(groups: Seq<GroupView>, path: Seq<char>) -> bool {
    exists|i: int| 0 <= i < groups.len() && (#[trigger] groups[i]).sources.contains(path)
}

/// `path` is in the snapshot of existing paths.
pub open spec fn is_recorded(existing: Seq<ExistingView>, path: Seq<char>) -> bool {
    exists|i: int| 0 <= i < existing.len() && (#[trigger] existing[i]).path == path
}

/// `path` is in the snapshot, as a directory.
pub open spec fn is_recorded_directory(existing: Seq<ExistingView>, path: Seq<char>) -> bool {
    exists|i: int|
        0 <= i < existing.len() && (#[trigger] existing[i]).path == path && existing[i].kind
            == ItemType::Directory
}

/// The index of a group with this target, where there is one.
pub open spec fn target_position(groups: Seq<GroupView>, target: Seq<char>) -> int {
    choose|i: int| 0 <= i < groups.len() && (#[trigger] groups[i]).target == target
}

/// The groups after the rename `source -> target` has been recorded: the
/// source joins the group of its target, or opens a new group at the end. A
/// rename that is there already changes nothing.
pub open spec fn added(groups: Seq<GroupView>, source: Seq<char>, target: Seq<char>) -> Seq<
    GroupView,
> {
    if !has_target(groups, target) {
        groups.push(GroupView { target, sources: seq![source] })
    } else {
        let i = target_position(groups, target);
        if groups[i].sources.contains(source) {
            groups
        } else {
            groups.update(i, GroupView { target, sources: groups[i].sources.push(source) })
        }
    }
}

/// The groups after the first `n` of the items have been recorded in order.
pub open spec fn added_all(groups: Seq<GroupView>, items: Seq<RenameItemView>, n: int) -> Seq<
    GroupView,
>
    decreases n,
{
    if n <= 0 {
        groups
    } else {
        added(added_all(groups, items, n - 1), items[n - 1].original_path, items[n - 1].new_path)
    }
}

/// The snapshot after `path` has been recorded with its kind; a path that is
/// there already keeps the kind it has.
pub open spec fn recorded(existing: Seq<ExistingView>, path: Seq<char>, kind: ItemType) -> Seq<
    ExistingView,
> {
    if is_recorded(existing, path) {
        existing
    } else {
        existing.push(ExistingView { path, kind })
    }
}

/// The snapshot after the first `n` of the paths found have been recorded,
/// in order.
pub open spec fn recorded_all(existing: Seq<ExistingView>, found: Seq<ExistingView>, n: int) -> Seq<
    ExistingView,
>
    decreases n,
{
    if n <= 0 {
        existing
    } else {
        recorded(recorded_all(existing, found, n - 1), found[n - 1].path, found[n - 1].kind)
    }
}

/// No target has two groups, no group is empty and no source is listed twice
/// for one target.
pub open spec fn groups_wf(groups: Seq<GroupView>) -> bool {
    &&& forall|i: int| 0 <= i < groups.len() ==> (#[trigger] groups[i]).sources.len() > 0
    &&& forall|i: int| 0 <= i < groups.len() ==> (#[trigger] groups[i]).sources.no_duplicates()
    &&& forall|i: int, j: int|
        0 <= i < j < groups.len() ==> (#[trigger] groups[i]).target != (#[trigger] groups[j]).target
}

/// No path is recorded twice.
pub open spec fn existing_wf(existing: Seq<ExistingView>) -> bool {
    forall|i: int, j: int|
        0 <= i < j < existing.len() ==> (#[trigger] existing[i]).path != (
        #[trigger] existing[j]).path
}

pub open spec fn multiple_description(g: GroupView) -> Seq<char> {
    "Multiple files/directories trying to rename to the same target: "@ + g.target
        + " (sources: "@ + joined(g.sources, ", "@) + ")"@
}

pub open spec fn noop_description(target: Seq<char>) -> Seq<char> {
    "Source and target are identical: "@ + target
}

pub open spec fn existing_description(target: Seq<char>) -> Seq<char> {
    "Target path already exists: "@ + target
}

pub open spec fn case_description(target: Seq<char>) -> Seq<char> {
    "Case-only difference detected on case-insensitive filesystem: "@ + target
}

/// The conflict reported for a group, with the given kind and text.
pub open spec fn collision_of(ty: CollisionType, g: GroupView, description: Seq<char>)
    -> CollisionView {
    CollisionView {
        collision_type: ty,
        target_path: g.target,
        source_paths: g.sources,
        description,
    }
}

/// The kind of conflict between a group and the existing entry at its
/// target: by the kinds of the target and of the group's first source.
pub open spec fn existing_collision_type(existing: Seq<ExistingView>, g: GroupView)
    -> CollisionType {
    let target_is_dir = is_recorded_directory(existing, g.target);
    let source_is_dir = is_recorded_directory(existing, g.sources[0]);
    if target_is_dir && !source_is_dir {
        CollisionType::FileToDirectory
    } else if !target_is_dir && source_is_dir {
        CollisionType::DirectoryToFile
    } else {
        CollisionType::TargetAlreadyExists
    }
}

/// The group's only source is its target.
pub open spec fn is_noop_group(g: GroupView) -> bool {
    g.sources.len() == 1 && g.sources[0] == g.target
}

/// The group's target exists and is not the source of any rename.
pub open spec fn hits_existing(groups: Seq<GroupView>, existing: Seq<ExistingView>, g: GroupView)
    -> bool {
    is_recorded(existing, g.target) && !is_source(groups, g.target)
}

/// Another group's target differs from that of group `k` by case at most.
pub open spec fn case_clash(groups: Seq<GroupView>, k: int) -> bool {
    exists|j: int|
        0 <= j < groups.len() && j != k && lowercase_of((#[trigger] groups[j]).target)
            == lowercase_of(groups[k].target)
}

/// First pass over the first `n` groups: targets with several sources.
pub open spec fn multiple_pass(groups: Seq<GroupView>, n: int) -> Seq<CollisionView>
    decreases n,
{
    if n <= 0 {
        Seq::empty()
    } else {
        let g = groups[n - 1];
        let before = multiple_pass(groups, n - 1);
        if g.sources.len() > 1 {
            before.push(
                collision_of(CollisionType::MultipleSourcesSameTarget, g, multiple_description(g)),
            )
        } else {
            before
        }
    }
}

/// Second pass over the first `n` groups: no-ops, and targets that exist.
pub open spec fn target_pass(groups: Seq<GroupView>, existing: Seq<ExistingView>, n: int) -> Seq<
    CollisionView,
>
    decreases n,
{
    if n <= 0 {
        Seq::empty()
    } else {
        let g = groups[n - 1];
        let before = target_pass(groups, existing, n - 1);
        if is_noop_group(g) {
            before.push(
                collision_of(CollisionType::SourceEqualsTarget, g, noop_description(g.target)),
            )
        } else if hits_existing(groups, existing, g) {
            before.push(
                collision_of(
                    existing_collision_type(existing, g),
                    g,
                    existing_description(g.target),
                ),
            )
        } else {
            before
        }
    }
}

/// Third pass over the first `n` groups: targets that differ by case only.
pub open spec fn case_pass(groups: Seq<GroupView>, n: int) -> Seq<CollisionView>
    decreases n,
{
    if n <= 0 {
        Seq::empty()
    } else {
        let g = groups[n - 1];
        let before = case_pass(groups, n - 1);
        if case_clash(groups, n - 1) {
            before.push(
                collision_of(CollisionType::CaseOnlyDifference, g, case_description(g.target)),
            )
        } else {
            before
        }
    }
}

/// Every conflict of a snapshot: the three passes one after the other, the
/// third only where case does not count.
pub open spec fn detected(groups: Seq<GroupView>, existing: Seq<ExistingView>, case_insensitive: bool)
    -> Seq<CollisionView> {
    multiple_pass(groups, groups.len() as int) + target_pass(
        groups,
        existing,
        groups.len() as int,
    ) + if case_insensitive {
        case_pass(groups, groups.len() as int)
    } else {
        Seq::empty()
    }
}

/// A conflict that stops the run: every kind but the no-op.
pub open spec fn is_blocking(c: CollisionView) -> bool {
    c.collision_type != CollisionType::SourceEqualsTarget
}

/// The predicate "stops the run".
pub open spec fn blocking() -> spec_fn(CollisionView) -> bool {
    |c: CollisionView| is_blocking(c)
}

/// The predicate "is of kind `ty`".
pub open spec fn has_type(ty: CollisionType) -> spec_fn(CollisionView) -> bool {
    |c: CollisionView| c.collision_type == ty
}

/// The predicate "reports several sources for the target `target`".
pub open spec fn reports_multiple(target: Seq<char>) -> spec_fn(CollisionView) -> bool {
    |c: CollisionView|
        c.collision_type == CollisionType::MultipleSourcesSameTarget && c.target_path == target
}

/// How many of the conflicts are of kind `ty`.
pub open spec fn count_of_type(collisions: Seq<CollisionView>, ty: CollisionType) -> nat {
    collisions.filter(has_type(ty)).len()
}

/// The line of the report's summary for one kind: empty where the kind
/// does not occur.
pub open spec fn summary_line(ty: CollisionType, count: nat) -> Seq<char> {
    if count == 0 {
        Seq::empty()
    } else {
        "  "@ + ty.name_spec() + ": "@ + decimal(count) + " issue(s)\n"@
    }
}

/// The report's summary: one line for each kind that occurs.
pub open spec fn summary_text(collisions: Seq<CollisionView>) -> Seq<char> {
    summary_line(
        CollisionType::MultipleSourcesSameTarget,
        count_of_type(collisions, CollisionType::MultipleSourcesSameTarget),
    ) + summary_line(
        CollisionType::TargetAlreadyExists,
        count_of_type(collisions, CollisionType::TargetAlreadyExists),
    ) + summary_line(
        CollisionType::SourceEqualsTarget,
        count_of_type(collisions, CollisionType::SourceEqualsTarget),
    ) + summary_line(
        CollisionType::CaseOnlyDifference,
        count_of_type(collisions, CollisionType::CaseOnlyDifference),
    ) + summary_line(
        CollisionType::DirectoryToFile,
        count_of_type(collisions, CollisionType::DirectoryToFile),
    ) + summary_line(
        CollisionType::FileToDirectory,
        count_of_type(collisions, CollisionType::FileToDirectory),
    )
}

/// One indented line for each of the first `n` sources.
pub open spec fn sources_text(sources: Seq<Seq<char>>, n: int) -> Seq<char>
    decreases n,
{
    if n <= 0 {
        Seq::empty()
    } else {
        sources_text(sources, n - 1) + ("     - "@ + sources[n - 1] + "\n"@)
    }
}

/// The report's lines on the sources of one conflict.
pub open spec fn source_lines(sources: Seq<Seq<char>>) -> Seq<char> {
    if sources.len() == 1 {
        "   Source: "@ + sources[0] + "\n"@
    } else {
        "   Sources:\n"@ + sources_text(sources, sources.len() as int)
    }
}

/// The report's entry for the conflict with the given number.
pub open spec fn entry_text(number: nat, c: CollisionView) -> Seq<char> {
    decimal(number) + ". "@ + c.description + "\n"@ + "   Type: "@ + c.collision_type.name_spec()
        + "\n"@ + "   Target: "@ + c.target_path + "\n"@ + source_lines(c.source_paths) + "\n"@
}

/// The report's entries for the first `n` conflicts, numbered from 1.
pub open spec fn entries_text(collisions: Seq<CollisionView>, n: int) -> Seq<char>
    decreases n,
{
    if n <= 0 {
        Seq::empty()
    } else {
        entries_text(collisions, n - 1) + entry_text(n as nat, collisions[n - 1])
    }
}

/// The full report on a list of conflicts.
pub open spec fn report_text(collisions: Seq<CollisionView>) -> Seq<char> {
    if collisions.len() == 0 {
        "No collisions detected."@
    } else {
        "Collision Report ("@ + decimal(collisions.len()) + " issues found):\n"@ + repeated(
            '=',
            50,
        ) + "\n"@ + summary_text(collisions) + "\n"@ + entries_text(
            collisions,
            collisions.len() as int,
        )
    }
}

/// The sources recorded for one target.
struct TargetGroup {
    target: String,
    sources: Vec<String>,
}

impl View for TargetGroup {
    type V = GroupView;

    closed spec fn view(&self) -> GroupView {
        GroupView { target: self.target@, sources: self.sources.deep_view() }
    }
}

impl DeepView for TargetGroup {
    type V = GroupView;

    closed spec fn deep_view(&self) -> GroupView {
        self@
    }
}

/// An existing path with its kind.
#[derive(Debug)]
pub struct ExistingPath {
    pub path: String,
    pub kind: ItemType,
}

impl View for ExistingPath {
    type V = ExistingView;

    open spec fn view(&self) -> ExistingView {
        ExistingView { path: self.path@, kind: self.kind }
    }
}

impl DeepView for ExistingPath {
    type V = ExistingView;

    open spec fn deep_view(&self) -> ExistingView {
        self@
    }
}

/// Collects planned renames and existing paths, and reports their conflicts.
pub struct CollisionDetector {
    target_paths: Vec<TargetGroup>,
    existing_paths: Vec<ExistingPath>,
    collisions: Vec<Collision>,
    case_insensitive: bool,
}

impl View for CollisionDetector {
    type V = DetectorView;

    closed spec fn view(&self) -> DetectorView {
        DetectorView {
            groups: self.target_paths.deep_view(),
            existing: self.existing_paths.deep_view(),
            case_insensitive: self.case_insensitive,
            collisions: self.collisions.deep_view(),
        }
    }
}

fn copy_strings(items: &Vec<String>) -> (out: Vec<String>)
    ensures
        out.deep_view() == items.deep_view(),
{
    let mut out: Vec<String> = Vec::new();
    let mut i: usize = 0;
    while i < items.len()
        invariant
            i <= items.len(),
            out@.len() == i,
            forall|j: int| 0 <= j < i ==> (#[trigger] out@[j])@ == items@[j]@,
        decreases items.len() - i,
    {
        out.push(items[i].clone());
        i += 1;
    }
    assert(out.deep_view() =~= items.deep_view());
    out
}

impl Clone for Collision {
    fn clone(&self) -> (copy: Self)
        ensures
            copy@ == self@,
    {
        Collision {
            collision_type: self.collision_type,
            target_path: self.target_path.clone(),
            source_paths: copy_strings(&self.source_paths),
            description: self.description.clone(),
        }
    }
}

impl CollisionType {
    /// The name of the kind, as written in reports.
    pub open spec fn name_spec(self) -> Seq<char> {
        match self {
            CollisionType::MultipleSourcesSameTarget => "MultipleSourcesSameTarget"@,
            CollisionType::TargetAlreadyExists => "TargetAlreadyExists"@,
            CollisionType::SourceEqualsTarget => "SourceEqualsTarget"@,
            CollisionType::CaseOnlyDifference => "CaseOnlyDifference"@,
            CollisionType::DirectoryToFile => "DirectoryToFile"@,
            CollisionType::FileToDirectory => "FileToDirectory"@,
        }
    }

    /// The name of the kind, as written in reports.
    pub fn name(&self) -> (name: &'static str)
        ensures
            name@ == self.name_spec(),
    {
        match self {
            CollisionType::MultipleSourcesSameTarget => "MultipleSourcesSameTarget",
            CollisionType::TargetAlreadyExists => "TargetAlreadyExists",
            CollisionType::SourceEqualsTarget => "SourceEqualsTarget",
            CollisionType::CaseOnlyDifference => "CaseOnlyDifference",
            CollisionType::DirectoryToFile => "DirectoryToFile",
            CollisionType::FileToDirectory => "FileToDirectory",
        }
    }
}

impl CollisionDetector {
    /// The detector's invariant: see `groups_wf` and `existing_wf`.
    pub open spec fn wf(&self) -> bool {
        groups_wf(self@.groups) && existing_wf(self@.existing)
    }

    /// A detector with nothing recorded, for a file system on which case
    /// counts.
    pub fn new() -> (detector: Self)
        ensures
            detector.wf(),
            detector@.groups.len() == 0,
            detector@.existing.len() == 0,
            detector@.collisions.len() == 0,
            !detector@.case_insensitive,
    {
        CollisionDetector {
            target_paths: Vec::new(),
            existing_paths: Vec::new(),
            collisions: Vec::new(),
            case_insensitive: false,
        }
    }

    /// Says whether paths that differ by case only name the same entry, as
    /// on file systems that ignore case.
    pub fn set_case_insensitive(&mut self, case_insensitive: bool)
        ensures
            final(self)@ == (DetectorView { case_insensitive, ..old(self)@ }),
    {
        self.case_insensitive = case_insensitive;
    }

    /// The index of the group with this target.
    fn find_target(&self, target: &String) -> (found: Option<usize>)
        ensures
            match found {
                Some(i) => i < self@.groups.len() && self@.groups[i as int].target == target@,
                None => !has_target(self@.groups, target@),
            },
    {
        let mut i: usize = 0;
        while i < self.target_paths.len()
            invariant
                i <= self.target_paths.len(),
                forall|j: int| 0 <= j < i ==> (#[trigger] self@.groups[j]).target != target@,
            decreases self.target_paths.len() - i,
        {
            if self.target_paths[i].target == *target {
                return Some(i);
            }
            i += 1;
        }
        None
    }

    /// Records the rename of `source` to `target`. A rename that is already
    /// recorded is not recorded twice.
    pub fn add_rename(&mut self, source: String, target: String)
        requires
            old(self).wf(),
        ensures
            final(self).wf(),
            final(self)@.existing == old(self)@.existing,
            final(self)@.collisions == old(self)@.collisions,
            final(self)@.case_insensitive == old(self)@.case_insensitive,
            final(self)@.groups == added(old(self)@.groups, source@, target@),
    {
        match self.find_target(&target) {
            Some(i) => {
                let ghost groups = self@.groups;
                let mut k: usize = 0;
                while k < self.target_paths[i].sources.len()
                    invariant
                        i < self.target_paths.len(),
                        k <= self.target_paths[i as int].sources.len(),
                        *self == *old(self),
                        self.wf(),
                        self@.groups == groups,
                        groups[i as int].target == target@,
                        forall|j: int|
                            0 <= j < k ==> (#[trigger] self.target_paths[i as int].sources[j])@
                                != source@,
                    decreases self.target_paths[i as int].sources.len() - k,
                {
                    if self.target_paths[i].sources[k] == source {
                        assert(groups[i as int].sources[k as int] == source@);
                        assert(has_target(groups, target@));
                        assert(target_position(groups, target@) == i);
                        return ;
                    }
                    k += 1;
                }
                assert(!groups[i as int].sources.contains(source@)) by {
                    assert forall|j: int| 0 <= j < groups[i as int].sources.len() implies groups[i as int].sources[j]
                        != source@ by {
                        assert(groups[i as int].sources[j] == self.target_paths[i as int].sources[j]@);
                    }
                }
                assert(has_target(groups, target@));
                assert(target_position(groups, target@) == i);
                self.target_paths[i].sources.push(source);
                assert(self@.groups =~= groups.update(
                    i as int,
                    GroupView { target: target@, sources: groups[i as int].sources.push(source@) },
                )) by {
                    assert(self.target_paths[i as int].sources.deep_view() =~= groups[i as int].sources.push(
                        source@,
                    ));
                }
                assert(groups_wf(self@.groups)) by {
                    let after = self@.groups;
                    assert forall|a: int| 0 <= a < after.len() implies (#[trigger] after[a]).sources.no_duplicates() by {
                        if a == i {
                            assert(groups[a].sources.no_duplicates());
                        } else {
                            assert(after[a] == groups[a]);
                        }
                    }
                    assert forall|a: int, b: int| 0 <= a < b < after.len() implies (#[trigger] after[a]).target
                        != (#[trigger] after[b]).target by {
                        assert(after[a].target == groups[a].target);
                        assert(after[b].target == groups[b].target);
                    }
                    assert forall|a: int| 0 <= a < after.len() implies (#[trigger] after[a]).sources.len()
                        > 0 by {
                        assert(after[a].sources.len() >= groups[a].sources.len());
                    }
                }
            },
            None => {
                let ghost groups = self@.groups;
                let mut sources: Vec<String> = Vec::new();
                sources.push(source);
                assert(sources.deep_view() =~= seq![source@]);
                self.target_paths.push(TargetGroup { target, sources });
                assert(self@.groups =~= groups.push(
                    GroupView { target: target@, sources: seq![source@] },
                ));
                assert(groups_wf(self@.groups)) by {
                    let after = self@.groups;
                    assert forall|a: int, b: int| 0 <= a < b < after.len() implies (#[trigger] after[a]).target
                        != (#[trigger] after[b]).target by {
                        assert(after[a] == groups[a]);
                        if b < groups.len() {
                            assert(after[b] == groups[b]);
                        }
                    }
                    assert forall|a: int| 0 <= a < after.len() implies (#[trigger] after[a]).sources.len()
                        > 0 && after[a].sources.no_duplicates() by {
                        if a < groups.len() {
                            assert(after[a] == groups[a]);
                        }
                    }
                }
            },
        }
    }
}

/// The text `prefix` followed by `rest`.
fn prefixed(prefix: &str, rest: &String) -> (out: String)
    ensures
        out@ == prefix@ + rest@,
{
    let mut out = prefix.to_owned();
    out.append(rest.as_str());
    out
}

impl CollisionDetector {
    /// Records each of the planned renames, in order.
    pub fn add_renames(&mut self, items: &[RenameItem])
        requires
            old(self).wf(),
        ensures
            final(self).wf(),
            final(self)@.existing == old(self)@.existing,
            final(self)@.collisions == old(self)@.collisions,
            final(self)@.case_insensitive == old(self)@.case_insensitive,
            final(self)@.groups == added_all(
                old(self)@.groups,
                items.deep_view(),
                items.len() as int,
            ),
    {
        let mut i: usize = 0;
        while i < items.len()
            invariant
                i <= items.len(),
                self.wf(),
                self@.existing == old(self)@.existing,
                self@.collisions == old(self)@.collisions,
                self@.case_insensitive == old(self)@.case_insensitive,
                self@.groups == added_all(old(self)@.groups, items.deep_view(), i as int),
            decreases items.len() - i,
        {
            assert(items.deep_view()[i as int] == items[i as int]@);
            self.add_rename(items[i].original_path.clone(), items[i].new_path.clone());
            i += 1;
        }
    }

    /// Records what a scan of the tree has found: each path with its kind,
    /// in order.
    pub fn scan_existing_paths(&mut self, found: &[ExistingPath])
        requires
            old(self).wf(),
        ensures
            final(self).wf(),
            final(self)@.groups == old(self)@.groups,
            final(self)@.collisions == old(self)@.collisions,
            final(self)@.case_insensitive == old(self)@.case_insensitive,
            final(self)@.existing == recorded_all(
                old(self)@.existing,
                found.deep_view(),
                found.len() as int,
            ),
    {
        let mut i: usize = 0;
        while i < found.len()
            invariant
                i <= found.len(),
                self.wf(),
                self@.groups == old(self)@.groups,
                self@.collisions == old(self)@.collisions,
                self@.case_insensitive == old(self)@.case_insensitive,
                self@.existing == recorded_all(old(self)@.existing, found.deep_view(), i as int),
            decreases found.len() - i,
        {
            assert(found.deep_view()[i as int] == found[i as int]@);
            self.add_existing_path(found[i].path.as_str(), found[i].kind);
            i += 1;
        }
    }

    /// The index at which `path` is recorded as existing.
    fn find_existing(&self, path: &str) -> (found: Option<usize>)
        ensures
            match found {
                Some(i) => i < self@.existing.len() && self@.existing[i as int].path == path@,
                None => !is_recorded(self@.existing, path@),
            },
    {
        let wanted = path.to_owned();
        let mut i: usize = 0;
        while i < self.existing_paths.len()
            invariant
                i <= self.existing_paths.len(),
                wanted@ == path@,
                forall|j: int| 0 <= j < i ==> (#[trigger] self@.existing[j]).path != path@,
            decreases self.existing_paths.len() - i,
        {
            if self.existing_paths[i].path == wanted {
                return Some(i);
            }
            i += 1;
        }
        None
    }

    /// Records that `path` exists, as a file or as a directory. A path that
    /// is recorded already keeps the kind it has.
    pub fn add_existing_path(&mut self, path: &str, kind: ItemType)
        requires
            old(self).wf(),
        ensures
            final(self).wf(),
            final(self)@.groups == old(self)@.groups,
            final(self)@.collisions == old(self)@.collisions,
            final(self)@.case_insensitive == old(self)@.case_insensitive,
            final(self)@.existing == recorded(old(self)@.existing, path@, kind),
    {
        match self.find_existing(path) {
            Some(_) => {
                assert(is_recorded(self@.existing, path@));
            },
            None => {
                let ghost before = self.existing_paths;
                let entry = ExistingPath { path: path.to_owned(), kind };
                let ghost added_entry = entry;
                self.existing_paths.push(entry);
                proof {
                    lemma_push_deep_view(before, self.existing_paths, added_entry);
                }
            },
        }
    }

    /// Whether `path` is the source of a recorded rename.
    fn is_source_path(&self, path: &String) -> (found: bool)
        ensures
            found == is_source(self@.groups, path@),
    {
        let mut i: usize = 0;
        while i < self.target_paths.len()
            invariant
                i <= self.target_paths.len(),
                forall|j: int|
                    0 <= j < i ==> !(#[trigger] self@.groups[j]).sources.contains(path@),
            decreases self.target_paths.len() - i,
        {
            let mut k: usize = 0;
            while k < self.target_paths[i].sources.len()
                invariant
                    i < self.target_paths.len(),
                    k <= self.target_paths[i as int].sources.len(),
                    forall|j: int|
                        0 <= j < k ==> (#[trigger] self@.groups[i as int].sources[j]) != path@,
                decreases self.target_paths[i as int].sources.len() - k,
            {
                if self.target_paths[i].sources[k] == *path {
                    assert(self@.groups[i as int].sources[k as int] == path@);
                    return true;
                }
                k += 1;
            }
            i += 1;
        }
        false
    }

    /// Whether `path` is recorded as an existing directory.
    fn is_existing_directory(&self, path: &String) -> (found: bool)
        requires
            self.wf(),
        ensures
            found == is_recorded_directory(self@.existing, path@),
    {
        match self.find_existing(path.as_str()) {
            Some(i) => {
                assert(self@.existing[i as int].kind == self.existing_paths[i as int].kind);
                self.existing_paths[i].kind == ItemType::Directory
            },
            None => false,
        }
    }

    /// The conflict of the given kind and text for the group at `i`.
    fn collision_at(&self, i: usize, ty: CollisionType, description: String) -> (c: Collision)
        requires
            i < self@.groups.len(),
        ensures
            c@ == collision_of(ty, self@.groups[i as int], description@),
    {
        Collision {
            collision_type: ty,
            target_path: self.target_paths[i].target.clone(),
            source_paths: copy_strings(&self.target_paths[i].sources),
            description,
        }
    }

    /// The text of the conflict of several sources for the group at `i`.
    fn describe_multiple(&self, i: usize) -> (out: String)
        requires
            i < self@.groups.len(),
        ensures
            out@ == multiple_description(self@.groups[i as int]),
    {
        let mut out = prefixed(
            "Multiple files/directories trying to rename to the same target: ",
            &self.target_paths[i].target,
        );
        out.append(" (sources: ");
        let sources = join(&self.target_paths[i].sources, ", ");
        out.append(sources.as_str());
        out.append(")");
        out
    }

    /// The kind of conflict between the group at `i` and the existing entry
    /// at its target.
    fn existing_type_at(&self, i: usize) -> (ty: CollisionType)
        requires
            self.wf(),
            i < self@.groups.len(),
        ensures
            ty == existing_collision_type(self@.existing, self@.groups[i as int]),
    {
        proof {
            assert(self@.groups[i as int].sources.len() > 0);
        }
        let target_is_dir = self.is_existing_directory(&self.target_paths[i].target);
        let source_is_dir = self.is_existing_directory(&self.target_paths[i].sources[0]);
        assert(self@.groups[i as int].sources[0] == self.target_paths[i as int].sources[0]@);
        if target_is_dir && !source_is_dir {
            CollisionType::FileToDirectory
        } else if !target_is_dir && source_is_dir {
            CollisionType::DirectoryToFile
        } else {
            CollisionType::TargetAlreadyExists
        }
    }

    /// Appends the first pass to `out`.
    fn detect_multiple(&self, out: &mut Vec<Collision>)
        requires
            self.wf(),
        ensures
            final(out).deep_view() == old(out).deep_view() + multiple_pass(
                self@.groups,
                self@.groups.len() as int,
            ),
    {
        let mut i: usize = 0;
        assert(old(out).deep_view() + multiple_pass(self@.groups, 0) =~= old(out).deep_view());
        while i < self.target_paths.len()
            invariant
                i <= self.target_paths.len(),
                out.deep_view() == old(out).deep_view() + multiple_pass(self@.groups, i as int),
            decreases self.target_paths.len() - i,
        {
            assert(self@.groups[i as int].sources.len() == self.target_paths[i as int].sources.len());
            if self.target_paths[i].sources.len() > 1 {
                let description = self.describe_multiple(i);
                let c = self.collision_at(i, CollisionType::MultipleSourcesSameTarget, description);
                let ghost before = *out;
                let ghost pushed = c;
                out.push(c);
                proof {
                    lemma_push_deep_view(before, *out, pushed);
                    assert(out.deep_view() =~= old(out).deep_view() + multiple_pass(
                        self@.groups,
                        i + 1,
                    ));
                }
            }
            i += 1;
        }
    }

    /// Appends the second pass to `out`.
    fn detect_targets(&self, out: &mut Vec<Collision>)
        requires
            self.wf(),
        ensures
            final(out).deep_view() == old(out).deep_view() + target_pass(
                self@.groups,
                self@.existing,
                self@.groups.len() as int,
            ),
    {
        let mut i: usize = 0;
        assert(old(out).deep_view() + target_pass(self@.groups, self@.existing, 0) =~= old(
            out,
        ).deep_view());
        while i < self.target_paths.len()
            invariant
                i <= self.target_paths.len(),
                self.wf(),
                out.deep_view() == old(out).deep_view() + target_pass(
                    self@.groups,
                    self@.existing,
                    i as int,
                ),
            decreases self.target_paths.len() - i,
        {
            let ghost g = self@.groups[i as int];
            assert(g.sources.len() == self.target_paths[i as int].sources.len());
            assert(g.sources.len() > 0);
            assert(g.sources[0] == self.target_paths[i as int].sources[0]@);
            assert(g.target == self.target_paths[i as int].target@);
            let noop = self.target_paths[i].sources.len() == 1 && self.target_paths[i].sources[0]
                == self.target_paths[i].target;
            assert(noop == is_noop_group(g));
            if noop {
                let description = prefixed(
                    "Source and target are identical: ",
                    &self.target_paths[i].target,
                );
                let c = self.collision_at(i, CollisionType::SourceEqualsTarget, description);
                let ghost before = *out;
                let ghost pushed = c;
                out.push(c);
                proof {
                    lemma_push_deep_view(before, *out, pushed);
                    assert(out.deep_view() =~= old(out).deep_view() + target_pass(
                        self@.groups,
                        self@.existing,
                        i + 1,
                    ));
                }
            } else {
                let exists = self.find_existing(self.target_paths[i].target.as_str()).is_some();
                assert(exists == is_recorded(self@.existing, g.target));
                if exists && !self.is_source_path(&self.target_paths[i].target) {
                    let ty = self.existing_type_at(i);
                    let description = prefixed(
                        "Target path already exists: ",
                        &self.target_paths[i].target,
                    );
                    let c = self.collision_at(i, ty, description);
                    let ghost before = *out;
                    let ghost pushed = c;
                    out.push(c);
                    proof {
                        lemma_push_deep_view(before, *out, pushed);
                        assert(out.deep_view() =~= old(out).deep_view() + target_pass(
                            self@.groups,
                            self@.existing,
                            i + 1,
                        ));
                    }
                }
            }
            i += 1;
        }
    }

    /// The lowercase form of every target, in the order of the groups.
    fn lowercase_targets(&self) -> (lower: Vec<String>)
        ensures
            lower@.len() == self@.groups.len(),
            forall|j: int|
                0 <= j < lower@.len() ==> (#[trigger] lower@[j])@ == lowercase_of(
                    self@.groups[j].target,
                ),
    {
        let mut lower: Vec<String> = Vec::new();
        let mut i: usize = 0;
        while i < self.target_paths.len()
            invariant
                i <= self.target_paths.len(),
                lower@.len() == i,
                forall|j: int|
                    0 <= j < i ==> (#[trigger] lower@[j])@ == lowercase_of(self@.groups[j].target),
            decreases self.target_paths.len() - i,
        {
            assert(self@.groups[i as int].target == self.target_paths[i as int].target@);
            lower.push(lowercase(self.target_paths[i].target.as_str()));
            i += 1;
        }
        lower
    }

    /// Appends the third pass to `out`.
    fn detect_case_collisions(&self, out: &mut Vec<Collision>)
        requires
            self.wf(),
        ensures
            final(out).deep_view() == old(out).deep_view() + case_pass(
                self@.groups,
                self@.groups.len() as int,
            ),
    {
        let lower = self.lowercase_targets();
        let mut k: usize = 0;
        assert(old(out).deep_view() + case_pass(self@.groups, 0) =~= old(out).deep_view());
        while k < self.target_paths.len()
            invariant
                k <= self.target_paths.len(),
                lower@.len() == self@.groups.len(),
                self@.groups.len() == self.target_paths.len(),
                forall|j: int|
                    0 <= j < lower@.len() ==> (#[trigger] lower@[j])@ == lowercase_of(
                        self@.groups[j].target,
                    ),
                out.deep_view() == old(out).deep_view() + case_pass(self@.groups, k as int),
            decreases self.target_paths.len() - k,
        {
            let mut clash = false;
            let mut j: usize = 0;
            while j < lower.len() && !clash
                invariant
                    j <= lower@.len(),
                    k < lower@.len(),
                    lower@.len() == self@.groups.len(),
                    forall|a: int|
                        0 <= a < lower@.len() ==> (#[trigger] lower@[a])@ == lowercase_of(
                            self@.groups[a].target,
                        ),
                    clash ==> case_clash(self@.groups, k as int),
                    !clash ==> forall|a: int|
                        0 <= a < j && a != k ==> lowercase_of((#[trigger] self@.groups[a]).target)
                            != lowercase_of(self@.groups[k as int].target),
                decreases lower@.len() - j + if clash { 0int } else { 1int },
            {
                if j != k && lower[j] == lower[k] {
                    assert(lower@[j as int]@ == lowercase_of(self@.groups[j as int].target));
                    assert(lower@[k as int]@ == lowercase_of(self@.groups[k as int].target));
                    clash = true;
                } else {
                    assert(j != k ==> lower@[j as int]@ != lower@[k as int]@);
                    j += 1;
                }
            }
            assert(clash == case_clash(self@.groups, k as int));
            if clash {
                let description = prefixed(
                    "Case-only difference detected on case-insensitive filesystem: ",
                    &self.target_paths[k].target,
                );
                let c = self.collision_at(k, CollisionType::CaseOnlyDifference, description);
                let ghost before = *out;
                let ghost pushed = c;
                out.push(c);
                proof {
                    lemma_push_deep_view(before, *out, pushed);
                    assert(out.deep_view() =~= old(out).deep_view() + case_pass(
                        self@.groups,
                        k + 1,
                    ));
                }
            }
            k += 1;
        }
    }

    /// Finds every conflict of what has been recorded, keeps the list and
    /// returns a copy of it. Nothing is looked up on disk, and the recorded
    /// renames and paths stay as they are.
    pub fn detect_collisions(&mut self) -> (collisions: Vec<Collision>)
        requires
            old(self).wf(),
        ensures
            final(self).wf(),
            final(self)@.groups == old(self)@.groups,
            final(self)@.existing == old(self)@.existing,
            final(self)@.case_insensitive == old(self)@.case_insensitive,
            final(self)@.collisions == detected(
                old(self)@.groups,
                old(self)@.existing,
                old(self)@.case_insensitive,
            ),
            collisions.deep_view() == final(self)@.collisions,
    {
        let mut found: Vec<Collision> = Vec::new();
        assert(found.deep_view() =~= Seq::<CollisionView>::empty());
        self.detect_multiple(&mut found);
        self.detect_targets(&mut found);
        if self.case_insensitive {
            self.detect_case_collisions(&mut found);
        }
        assert(found.deep_view() =~= detected(
            self@.groups,
            self@.existing,
            self@.case_insensitive,
        ));
        let copy = copy_collisions(&found);
        self.collisions = found;
        copy
    }

    /// The conflicts found by the latest detection.
    pub fn get_collisions(&self) -> (collisions: &[Collision])
        ensures
            collisions.deep_view() == self@.collisions,
    {
        let collisions = self.collisions.as_slice();
        proof {
            lemma_slice_deep_view(collisions, self.collisions);
        }
        collisions
    }

    /// Whether the latest detection found any conflict.
    pub fn has_collisions(&self) -> (any: bool)
        ensures
            any == (self@.collisions.len() > 0),
    {
        self.collisions.len() > 0
    }

    /// The number of conflicts found by the latest detection.
    pub fn collision_count(&self) -> (count: usize)
        ensures
            count == self@.collisions.len(),
    {
        self.collisions.len()
    }

    /// The number of targets for which a rename is recorded.
    pub fn target_count(&self) -> (count: usize)
        ensures
            count == self@.groups.len(),
    {
        self.target_paths.len()
    }

    /// The number of paths recorded as existing.
    pub fn existing_count(&self) -> (count: usize)
        ensures
            count == self@.existing.len(),
    {
        self.existing_paths.len()
    }

    /// Forgets every rename, every existing path and every conflict.
    pub fn clear(&mut self)
        ensures
            final(self).wf(),
            final(self)@.groups.len() == 0,
            final(self)@.existing.len() == 0,
            final(self)@.collisions.len() == 0,
            final(self)@.case_insensitive == old(self)@.case_insensitive,
    {
        self.target_paths.clear();
        self.existing_paths.clear();
        self.collisions.clear();
    }
}

fn copy_collisions(items: &Vec<Collision>) -> (out: Vec<Collision>)
    ensures
        out.deep_view() == items.deep_view(),
{
    let mut out: Vec<Collision> = Vec::new();
    let mut i: usize = 0;
    while i < items.len()
        invariant
            i <= items.len(),
            out@.len() == i,
            forall|j: int| 0 <= j < i ==> (#[trigger] out@[j])@ == items@[j]@,
        decreases items.len() - i,
    {
        out.push(items[i].clone());
        i += 1;
    }
    assert(out.deep_view() =~= items.deep_view());
    out
}

/// How often each kind of conflict occurs in a list.
#[derive(Debug, Clone, Copy, PartialEq, Eq, Structural)]
pub struct CollisionSummary {
    pub multiple_sources_same_target: usize,
    pub target_already_exists: usize,
    pub source_equals_target: usize,
    pub case_only_difference: usize,
    pub directory_to_file: usize,
    pub file_to_directory: usize,
}

impl CollisionSummary {
    /// The count kept for one kind.
    pub open spec fn count(self, ty: CollisionType) -> nat {
        match ty {
            CollisionType::MultipleSourcesSameTarget => self.multiple_sources_same_target as nat,
            CollisionType::TargetAlreadyExists => self.target_already_exists as nat,
            CollisionType::SourceEqualsTarget => self.source_equals_target as nat,
            CollisionType::CaseOnlyDifference => self.case_only_difference as nat,
            CollisionType::DirectoryToFile => self.directory_to_file as nat,
            CollisionType::FileToDirectory => self.file_to_directory as nat,
        }
    }

    /// The summary counts exactly the conflicts of the list.
    pub open spec fn summarizes(self, collisions: Seq<CollisionView>) -> bool {
        forall|ty: CollisionType| self.count(ty) == #[trigger] count_of_type(collisions, ty)
    }

    /// The number of kinds that occur.
    pub open spec fn kinds(self) -> nat {
        (if self.multiple_sources_same_target > 0 { 1nat } else { 0nat })
        + (if self.target_already_exists > 0 { 1nat } else { 0nat })
        + (if self.source_equals_target > 0 { 1nat } else { 0nat })
        + (if self.case_only_difference > 0 { 1nat } else { 0nat })
        + (if self.directory_to_file > 0 { 1nat } else { 0nat })
        + (if self.file_to_directory > 0 { 1nat } else { 0nat })
    }

    fn count_of(&self, ty: &CollisionType) -> (count: usize)
        ensures
            count == self.count(*ty),
    {
        match ty {
            CollisionType::MultipleSourcesSameTarget => self.multiple_sources_same_target,
            CollisionType::TargetAlreadyExists => self.target_already_exists,
            CollisionType::SourceEqualsTarget => self.source_equals_target,
            CollisionType::CaseOnlyDifference => self.case_only_difference,
            CollisionType::DirectoryToFile => self.directory_to_file,
            CollisionType::FileToDirectory => self.file_to_directory,
        }
    }

    /// The number of conflicts of one kind, or nothing where the kind does
    /// not occur.
    pub fn get(&self, ty: &CollisionType) -> (count: Option<usize>)
        ensures
            count == if self.count(*ty) == 0 {
                None
            } else {
                Some(self.count(*ty) as usize)
            },
    {
        let n = self.count_of(ty);
        if n == 0 {
            None
        } else {
            Some(n)
        }
    }

    /// The number of kinds that occur.
    pub fn len(&self) -> (kinds: usize)
        ensures
            kinds == self.kinds(),
    {
        let mut kinds: usize = 0;
        if self.multiple_sources_same_target > 0 {
            kinds += 1;
        }
        if self.target_already_exists > 0 {
            kinds += 1;
        }
        if self.source_equals_target > 0 {
            kinds += 1;
        }
        if self.case_only_difference > 0 {
            kinds += 1;
        }
        if self.directory_to_file > 0 {
            kinds += 1;
        }
        if self.file_to_directory > 0 {
            kinds += 1;
        }
        kinds
    }
}

/// The conflicts that stop a run: all but the no-ops, in order.
pub fn blocking_collisions(collisions: &[Collision]) -> (kept: Vec<Collision>)
    ensures
        kept.deep_view() == collisions.deep_view().filter(blocking()),
{
    let mut kept: Vec<Collision> = Vec::new();
    let mut i: usize = 0;
    proof {
        lemma_filter_empty(blocking());
        assert(collisions.deep_view().take(0) =~= Seq::empty());
        assert(kept.deep_view() =~= Seq::empty());
    }
    while i < collisions.len()
        invariant
            i <= collisions.len(),
            kept.deep_view() == collisions.deep_view().take(i as int).filter(blocking()),
        decreases collisions.len() - i,
    {
        proof {
            lemma_filter_push(collisions.deep_view().take(i as int), collisions[i as int]@, blocking());
            assert(collisions.deep_view().take(i + 1) =~= collisions.deep_view().take(
                i as int,
            ).push(collisions[i as int]@));
        }
        if collisions[i].collision_type != CollisionType::SourceEqualsTarget {
            let c = collisions[i].clone();
            let ghost before = kept;
            let ghost pushed = c;
            kept.push(c);
            proof {
                lemma_push_deep_view(before, kept, pushed);
            }
        }
        i += 1;
    }
    assert(collisions.deep_view().take(i as int) =~= collisions.deep_view());
    kept
}

/// The report's lines on the sources of one conflict.
fn render_sources(sources: &Vec<String>) -> (out: String)
    ensures
        out@ == source_lines(sources.deep_view()),
{
    if sources.len() == 1 {
        let mut out = prefixed("   Source: ", &sources[0]);
        out.append("\n");
        out
    } else {
        let mut lines = String::new();
        let mut i: usize = 0;
        while i < sources.len()
            invariant
                i <= sources.len(),
                lines@ == sources_text(sources.deep_view(), i as int),
            decreases sources.len() - i,
        {
            let mut line = prefixed("     - ", &sources[i]);
            line.append("\n");
            assert(sources.deep_view()[i as int] == sources[i as int]@);
            lines.append(line.as_str());
            i += 1;
        }
        let mut out = "   Sources:\n".to_owned();
        out.append(lines.as_str());
        out
    }
}

/// The report's entry for one conflict.
fn render_entry(number: usize, c: &Collision) -> (out: String)
    ensures
        out@ == entry_text(number as nat, c@),
{
    let mut out = decimal_string(number as u64);
    out.append(". ");
    out.append(c.description.as_str());
    out.append("\n");
    out.append("   Type: ");
    out.append(c.collision_type.name());
    out.append("\n");
    out.append("   Target: ");
    out.append(c.target_path.as_str());
    out.append("\n");
    let sources = render_sources(&c.source_paths);
    out.append(sources.as_str());
    out.append("\n");
    out
}

/// The line of the summary for one kind.
fn render_summary_line(ty: CollisionType, count: usize) -> (out: String)
    ensures
        out@ == summary_line(ty, count as nat),
{
    if count == 0 {
        String::new()
    } else {
        let mut out = "  ".to_owned();
        out.append(ty.name());
        out.append(": ");
        let digits = decimal_string(count as u64);
        out.append(digits.as_str());
        out.append(" issue(s)\n");
        out
    }
}

impl CollisionDetector {
    /// The conflicts of one kind among those found by the latest detection,
    /// in order.
    pub fn get_collisions_by_type(&self, collision_type: CollisionType) -> (found: Vec<&Collision>)
        ensures
            found.deep_view() == self@.collisions.filter(has_type(collision_type)),
    {
        let mut found: Vec<&Collision> = Vec::new();
        let mut i: usize = 0;
        let ghost all = self@.collisions;
        let ghost pred = has_type(collision_type);
        proof {
            lemma_filter_empty(pred);
            assert(all.take(0) =~= Seq::empty());
            assert(found.deep_view() =~= Seq::empty());
        }
        while i < self.collisions.len()
            invariant
                i <= self.collisions.len(),
                all == self@.collisions,
                pred == has_type(collision_type),
                found.deep_view() == all.take(i as int).filter(pred),
            decreases self.collisions.len() - i,
        {
            proof {
                lemma_filter_push(all.take(i as int), self.collisions[i as int]@, pred);
                assert(all.take(i + 1) =~= all.take(i as int).push(self.collisions[i as int]@));
            }
            if self.collisions[i].collision_type == collision_type {
                let ghost before = found;
                found.push(&self.collisions[i]);
                proof {
                    lemma_push_deep_view(before, found, &self.collisions[i as int]);
                }
            }
            i += 1;
        }
        assert(all.take(i as int) =~= all);
        found
    }

    /// How often each kind occurs among the conflicts found by the latest
    /// detection.
    pub fn get_collision_summary(&self) -> (summary: CollisionSummary)
        ensures
            summary.summarizes(self@.collisions),
    {
        let mut summary = CollisionSummary {
            multiple_sources_same_target: 0,
            target_already_exists: 0,
            source_equals_target: 0,
            case_only_difference: 0,
            directory_to_file: 0,
            file_to_directory: 0,
        };
        let mut i: usize = 0;
        let ghost all = self@.collisions;
        proof {
            assert(all.take(0) =~= Seq::empty());
            assert forall|ty: CollisionType| summary.count(ty) == #[trigger] count_of_type(
                all.take(0),
                ty,
            ) by {
                lemma_filter_empty(has_type(ty));
            }
        }
        while i < self.collisions.len()
            invariant
                i <= self.collisions.len(),
                all == self@.collisions,
                summary.summarizes(all.take(i as int)),
            decreases self.collisions.len() - i,
        {
            let ghost before = summary;
            let ghost c = self.collisions[i as int]@;
            proof {
                assert(all.take(i + 1) =~= all.take(i as int).push(c));
                assert forall|ty: CollisionType| #[trigger]
                    count_of_type(all.take(i + 1), ty) == count_of_type(all.take(i as int), ty) + (
                    if c.collision_type == ty {
                        1nat
                    } else {
                        0nat
                    }) by {
                    lemma_filter_push(all.take(i as int), c, has_type(ty));
                }
                all.take(i + 1).lemma_filter_len(has_type(c.collision_type));
                assert(before.count(c.collision_type) == count_of_type(
                    all.take(i as int),
                    c.collision_type,
                ));
                assert(count_of_type(all.take(i + 1), c.collision_type) <= i + 1);
            }
            match self.collisions[i].collision_type {
                CollisionType::MultipleSourcesSameTarget => {
                    summary.multiple_sources_same_target += 1;
                },
                CollisionType::TargetAlreadyExists => {
                    summary.target_already_exists += 1;
                },
                CollisionType::SourceEqualsTarget => {
                    summary.source_equals_target += 1;
                },
                CollisionType::CaseOnlyDifference => {
                    summary.case_only_difference += 1;
                },
                CollisionType::DirectoryToFile => {
                    summary.directory_to_file += 1;
                },
                CollisionType::FileToDirectory => {
                    summary.file_to_directory += 1;
                },
            }
            proof {
                assert forall|ty: CollisionType| summary.count(ty) == #[trigger] count_of_type(
                    all.take(i + 1),
                    ty,
                ) by {
                    assert(before.count(ty) == count_of_type(all.take(i as int), ty));
                }
            }
            i += 1;
        }
        assert(all.take(i as int) =~= all);
        summary
    }

    /// A report on the conflicts found by the latest detection: a headline,
    /// a count for each kind that occurs, and an entry for each conflict.
    pub fn generate_report(&self) -> (report: String)
        ensures
            report@ == report_text(self@.collisions),
    {
        if self.collisions.len() == 0 {
            return "No collisions detected.".to_owned();
        }
        let ghost all = self@.collisions;
        let summary = self.get_collision_summary();
        let mut lines = render_summary_line(
            CollisionType::MultipleSourcesSameTarget,
            summary.multiple_sources_same_target,
        );
        lines.append(
            render_summary_line(
                CollisionType::TargetAlreadyExists,
                summary.target_already_exists,
            ).as_str(),
        );
        lines.append(
            render_summary_line(
                CollisionType::SourceEqualsTarget,
                summary.source_equals_target,
            ).as_str(),
        );
        lines.append(
            render_summary_line(
                CollisionType::CaseOnlyDifference,
                summary.case_only_difference,
            ).as_str(),
        );
        lines.append(
            render_summary_line(CollisionType::DirectoryToFile, summary.directory_to_file).as_str(),
        );
        lines.append(
            render_summary_line(CollisionType::FileToDirectory, summary.file_to_directory).as_str(),
        );
        proof {
            assert(summary.count(CollisionType::MultipleSourcesSameTarget) == count_of_type(
                all,
                CollisionType::MultipleSourcesSameTarget,
            ));
            assert(summary.count(CollisionType::TargetAlreadyExists) == count_of_type(
                all,
                CollisionType::TargetAlreadyExists,
            ));
            assert(summary.count(CollisionType::SourceEqualsTarget) == count_of_type(
                all,
                CollisionType::SourceEqualsTarget,
            ));
            assert(summary.count(CollisionType::CaseOnlyDifference) == count_of_type(
                all,
                CollisionType::CaseOnlyDifference,
            ));
            assert(summary.count(CollisionType::DirectoryToFile) == count_of_type(
                all,
                CollisionType::DirectoryToFile,
            ));
            assert(summary.count(CollisionType::FileToDirectory) == count_of_type(
                all,
                CollisionType::FileToDirectory,
            ));
        }
        assert(lines@ == summary_text(all));
        let mut entries = String::new();
        let mut i: usize = 0;
        while i < self.collisions.len()
            invariant
                i <= self.collisions.len(),
                all == self@.collisions,
                entries@ == entries_text(all, i as int),
            decreases self.collisions.len() - i,
        {
            let entry = render_entry(i + 1, &self.collisions[i]);
            assert(all[i as int] == self.collisions[i as int]@);
            entries.append(entry.as_str());
            i += 1;
        }
        let mut report = "Collision Report (".to_owned();
        report.append(decimal_string(self.collisions.len() as u64).as_str());
        report.append(" issues found):\n");
        report.append(repeat_char('=', 50).as_str());
        report.append("\n");
        report.append(lines.as_str());
        report.append("\n");
        report.append(entries.as_str());
        report
    }
}

/// Recording a rename keeps the groups well formed.
pub proof fn lemma_added_keeps_wf(groups: Seq<GroupView>, source: Seq<char>, target: Seq<char>)
    requires
        groups_wf(groups),
    ensures
        groups_wf(added(groups, source, target)),
{
    let after = added(groups, source, target);
    if has_target(groups, target) {
        let i = target_position(groups, target);
        if !groups[i].sources.contains(source) {
            assert forall|a: int| 0 <= a < after.len() implies (#[trigger] after[a]).sources.len() > 0
                && after[a].sources.no_duplicates() by {
                if a != i {
                    assert(after[a] == groups[a]);
                } else {
                    assert(groups[i].sources.no_duplicates());
                }
            }
            assert forall|a: int, b: int| 0 <= a < b < after.len() implies (#[trigger] after[a]).target
                != (#[trigger] after[b]).target by {
                assert(after[a].target == groups[a].target);
                assert(after[b].target == groups[b].target);
            }
        }
    } else {
        assert forall|a: int| 0 <= a < after.len() implies (#[trigger] after[a]).sources.len() > 0
            && after[a].sources.no_duplicates() by {
            if a < groups.len() {
                assert(after[a] == groups[a]);
            }
        }
        assert forall|a: int, b: int| 0 <= a < b < after.len() implies (#[trigger] after[a]).target
            != (#[trigger] after[b]).target by {
            assert(after[a] == groups[a]);
            if b < groups.len() {
                assert(after[b] == groups[b]);
            }
        }
    }
}

/// After a rename has been recorded, the recorded renames are those that
/// were there before and the new one: nothing is lost and nothing else
/// appears.
pub proof fn lemma_added_renames(
    groups: Seq<GroupView>,
    source: Seq<char>,
    target: Seq<char>,
    other_source: Seq<char>,
    other_target: Seq<char>,
)
    requires
        groups_wf(groups),
    ensures
        has_rename(added(groups, source, target), other_source, other_target) <==> (has_rename(
            groups,
            other_source,
            other_target,
        ) || (other_source == source && other_target == target)),
{
    let after = added(groups, source, target);
    if has_target(groups, target) {
        let i = target_position(groups, target);
        if groups[i].sources.contains(source) {
            assert(has_rename(groups, source, target));
        } else {
            let grown = groups[i].sources.push(source);
            assert(after[i].sources == grown);
            assert(grown[grown.len() - 1] == source);
            if has_rename(groups, other_source, other_target) {
                let a = choose|a: int|
                    0 <= a < groups.len() && (#[trigger] groups[a]).target == other_target
                        && groups[a].sources.contains(other_source);
                if a == i {
                    let k = choose|k: int|
                        0 <= k < groups[a].sources.len() && groups[a].sources[k] == other_source;
                    assert(grown[k] == other_source);
                } else {
                    assert(after[a] == groups[a]);
                }
                assert(after[a].target == other_target && after[a].sources.contains(other_source));
            }
            if other_source == source && other_target == target {
                assert(after[i].target == target && after[i].sources.contains(source));
            }
            if has_rename(after, other_source, other_target) {
                let a = choose|a: int|
                    0 <= a < after.len() && (#[trigger] after[a]).target == other_target
                        && after[a].sources.contains(other_source);
                if a == i {
                    let k = choose|k: int|
                        0 <= k < grown.len() && grown[k] == other_source;
                    if k < groups[i].sources.len() {
                        assert(groups[i].sources[k] == other_source);
                        assert(groups[i].target == other_target && groups[i].sources.contains(
                            other_source,
                        ));
                    }
                } else {
                    assert(after[a] == groups[a]);
                    assert(groups[a].target == other_target && groups[a].sources.contains(
                        other_source,
                    ));
                }
            }
        }
    } else {
        let last = groups.len() as int;
        assert(after[last].sources[0] == source);
        if has_rename(groups, other_source, other_target) {
            let a = choose|a: int|
                0 <= a < groups.len() && (#[trigger] groups[a]).target == other_target
                    && groups[a].sources.contains(other_source);
            assert(after[a] == groups[a]);
            assert(after[a].target == other_target && after[a].sources.contains(other_source));
        }
        if other_source == source && other_target == target {
            assert(after[last].target == target && after[last].sources.contains(source));
        }
        if has_rename(after, other_source, other_target) {
            let a = choose|a: int|
                0 <= a < after.len() && (#[trigger] after[a]).target == other_target
                    && after[a].sources.contains(other_source);
            if a < last {
                assert(after[a] == groups[a]);
                assert(groups[a].target == other_target && groups[a].sources.contains(
                    other_source,
                ));
            }
        }
    }
}

/// Among the first `n` groups, the first pass reports several sources for
/// `target` once if the group of that target is among them, and not at all
/// otherwise.
proof fn lemma_multiple_pass_hits(groups: Seq<GroupView>, n: int, target: Seq<char>, i: int)
    requires
        groups_wf(groups),
        0 <= i < groups.len(),
        groups[i].target == target,
        groups[i].sources.len() > 1,
        0 <= n <= groups.len(),
    ensures
        multiple_pass(groups, n).filter(reports_multiple(target)) == if i < n {
            seq![
                collision_of(
                    CollisionType::MultipleSourcesSameTarget,
                    groups[i],
                    multiple_description(groups[i]),
                ),
            ]
        } else {
            Seq::empty()
        },
    decreases n,
{
    let pred = reports_multiple(target);
    if n == 0 {
        lemma_filter_empty(pred);
    } else {
        lemma_multiple_pass_hits(groups, n - 1, target, i);
        let g = groups[n - 1];
        let c = collision_of(CollisionType::MultipleSourcesSameTarget, g, multiple_description(g));
        lemma_filter_push(multiple_pass(groups, n - 1), c, pred);
        if n - 1 != i {
            assert(g.target != target);
        } else {
            assert(multiple_pass(groups, n).filter(pred) =~= seq![c]);
        }
    }
}

/// The second pass never reports several sources for a target.
proof fn lemma_target_pass_no_hits(
    groups: Seq<GroupView>,
    existing: Seq<ExistingView>,
    n: int,
    target: Seq<char>,
)
    requires
        0 <= n <= groups.len(),
    ensures
        target_pass(groups, existing, n).filter(reports_multiple(target)) == Seq::<
            CollisionView,
        >::empty(),
    decreases n,
{
    let pred = reports_multiple(target);
    if n == 0 {
        lemma_filter_empty(pred);
    } else {
        lemma_target_pass_no_hits(groups, existing, n - 1, target);
        let g = groups[n - 1];
        let before = target_pass(groups, existing, n - 1);
        lemma_filter_push(
            before,
            collision_of(CollisionType::SourceEqualsTarget, g, noop_description(g.target)),
            pred,
        );
        lemma_filter_push(
            before,
            collision_of(existing_collision_type(existing, g), g, existing_description(g.target)),
            pred,
        );
    }
}

/// The third pass never reports several sources for a target.
proof fn lemma_case_pass_no_hits(groups: Seq<GroupView>, n: int, target: Seq<char>)
    requires
        0 <= n <= groups.len(),
    ensures
        case_pass(groups, n).filter(reports_multiple(target)) == Seq::<CollisionView>::empty(),
    decreases n,
{
    let pred = reports_multiple(target);
    if n == 0 {
        lemma_filter_empty(pred);
    } else {
        lemma_case_pass_no_hits(groups, n - 1, target);
        let g = groups[n - 1];
        lemma_filter_push(
            case_pass(groups, n - 1),
            collision_of(CollisionType::CaseOnlyDifference, g, case_description(g.target)),
            pred,
        );
    }
}

/// Where two different sources are to be renamed to one target, the
/// detection reports several sources for that target exactly once, and the
/// report names both sources. Such a report stops the run.
pub proof fn lemma_shared_target_reported_once(
    groups: Seq<GroupView>,
    existing: Seq<ExistingView>,
    case_insensitive: bool,
    first: Seq<char>,
    second: Seq<char>,
    target: Seq<char>,
)
    requires
        groups_wf(groups),
        has_rename(groups, first, target),
        has_rename(groups, second, target),
        first != second,
    ensures
        ({
            let hits = detected(groups, existing, case_insensitive).filter(
                reports_multiple(target),
            );
            &&& hits.len() == 1
            &&& hits[0].source_paths.contains(first)
            &&& hits[0].source_paths.contains(second)
            &&& is_blocking(hits[0])
        }),
{
    let i = choose|i: int|
        0 <= i < groups.len() && (#[trigger] groups[i]).target == target
            && groups[i].sources.contains(first);
    let j = choose|j: int|
        0 <= j < groups.len() && (#[trigger] groups[j]).target == target
            && groups[j].sources.contains(second);
    assert(i == j);
    let a = choose|a: int| 0 <= a < groups[i].sources.len() && groups[i].sources[a] == first;
    let b = choose|b: int| 0 <= b < groups[i].sources.len() && groups[i].sources[b] == second;
    assert(a != b);
    let n = groups.len() as int;
    let pred = reports_multiple(target);
    lemma_multiple_pass_hits(groups, n, target, i);
    lemma_target_pass_no_hits(groups, existing, n, target);
    lemma_case_pass_no_hits(groups, n, target);
    lemma_filter_empty(pred);
    let first_pass = multiple_pass(groups, n);
    let second_pass = target_pass(groups, existing, n);
    let third_pass = if case_insensitive {
        case_pass(groups, n)
    } else {
        Seq::empty()
    };
    Seq::filter_distributes_over_add(first_pass, second_pass, pred);
    Seq::filter_distributes_over_add(first_pass + second_pass, third_pass, pred);
    let hits = detected(groups, existing, case_insensitive).filter(pred);
    assert(hits =~= first_pass.filter(pred));
}

} // verus!
