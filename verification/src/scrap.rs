//! Small renderings for the scrap folder: sizes, ages and names that do not
//! clash.

use vstd::prelude::*;
use vstd::string::StringExecFns;
use crate::fields::{lines, lines_of, trim, trimmed};
use crate::pattern::{is_hidden, name_is_hidden, regex_is_match, regex_match};
use crate::text::{decimal, decimal_string, digit_char, same_text, to_chars};
use crate::views::lemma_push_deep_view;

verus! {

broadcast use vstd::string::group_string_axioms;

/// The unit a size is shown in: 0 for bytes, then KB, MB, GB and TB, each
/// 1024 of the one before. Nothing is shown in a unit above TB.
pub open spec fn unit_index(bytes: nat) -> nat {
    if bytes < 0x400 {
        0
    } else if bytes < 0x10_0000 {
        1
    } else if bytes < 0x4000_0000 {
        2
    } else if bytes < 0x100_0000_0000 {
        3
    } else {
        4
    }
}

/// How many bytes make one of the unit.
pub open spec fn unit_bytes(unit: nat) -> nat {
    if unit == 0 {
        1
    } else if unit == 1 {
        0x400
    } else if unit == 2 {
        0x10_0000
    } else if unit == 3 {
        0x4000_0000
    } else {
        0x100_0000_0000
    }
}

/// The name of the unit.
pub open spec fn unit_name(unit: nat) -> Seq<char> {
    if unit == 0 {
        "B"@
    } else if unit == 1 {
        "KB"@
    } else if unit == 2 {
        "MB"@
    } else if unit == 3 {
        "GB"@
    } else {
        "TB"@
    }
}

/// `n / d` rounded to the nearest whole number, a half going to the even
/// neighbour.
pub open spec fn rounded_half_even(n: nat, d: nat) -> nat
    recommends
        d > 0,
{
    let q = n / d;
    let r = n % d;
    if 2 * r > d || (2 * r == d && q % 2 == 1) {
        q + 1
    } else {
        q
    }
}

/// A size for people: whole bytes below 1024, and otherwise the size in its
/// unit with one decimal.
pub open spec fn size_text(bytes: nat) -> Seq<char> {
    let unit = unit_index(bytes);
    if unit == 0 {
        decimal(bytes) + " "@ + unit_name(unit)
    } else {
        let tenths = rounded_half_even(bytes * 10, unit_bytes(unit));
        decimal(tenths / 10) + "."@ + seq![digit_char(tenths % 10)] + " "@ + unit_name(unit)
    }
}

/// An age for people, from whole minutes: in days from one day on, else in
/// hours from one hour on, else in minutes from one minute on.
pub open spec fn age_text(minutes: int) -> Seq<char> {
    if minutes >= 1440 {
        decimal((minutes / 1440) as nat) + " days ago"@
    } else if minutes >= 60 {
        decimal((minutes / 60) as nat) + " hours ago"@
    } else if minutes >= 1 {
        decimal(minutes as nat) + " mins ago"@
    } else {
        "just now"@
    }
}

/// The name tried for the `counter`-th time when a name is taken: the stem,
/// an underscore and the counter, then the extension where there is one.
pub open spec fn numbered_name(stem: Seq<char>, extension: Option<Seq<char>>, counter: nat) -> Seq<
    char,
> {
    match extension {
        Some(ext) => stem + "_"@ + decimal(counter) + "."@ + ext,
        None => stem + "_"@ + decimal(counter),
    }
}

/// How often a free name is looked for before giving up.
pub const MAX_NAME_ATTEMPTS: u32 = 10000;

/// Renders a size for people: see `size_text`.
pub fn format_size(bytes: u64) -> (text: String)
    ensures
        text@ == size_text(bytes as nat),
{
    let unit: u8 = if bytes < 0x400 {
        0
    } else if bytes < 0x10_0000 {
        1
    } else if bytes < 0x4000_0000 {
        2
    } else if bytes < 0x100_0000_0000 {
        3
    } else {
        4
    };
    if unit == 0 {
        let mut text = decimal_string(bytes);
        text.append(" ");
        text.append("B");
        return text;
    }
    let per_unit: u128 = if unit == 1 {
        0x400
    } else if unit == 2 {
        0x10_0000
    } else if unit == 3 {
        0x4000_0000
    } else {
        0x100_0000_0000
    };
    let name: &'static str = if unit == 1 {
        "KB"
    } else if unit == 2 {
        "MB"
    } else if unit == 3 {
        "GB"
    } else {
        "TB"
    };
    let scaled: u128 = (bytes as u128) * 10;
    let q: u128 = scaled / per_unit;
    let r: u128 = scaled % per_unit;
    let tenths: u128 = if 2 * r > per_unit || (2 * r == per_unit && q % 2 == 1) {
        q + 1
    } else {
        q
    };
    assert(tenths == rounded_half_even((bytes * 10) as nat, unit_bytes(unit as nat)));
    assert(tenths / 10 <= u64::MAX) by {
        assert(q <= scaled / 0x400);
    }
    let whole: u64 = (tenths / 10) as u64;
    let digit: u8 = (tenths % 10) as u8;
    let mut text = decimal_string(whole);
    text.append(".");
    text.push((48u8 + digit) as char);
    text.append(" ");
    text.append(name);
    assert(text@ =~= size_text(bytes as nat));
    text
}

/// Renders an age for people, from whole minutes: see `age_text`.
pub fn format_duration(minutes: i64) -> (text: String)
    ensures
        text@ == age_text(minutes as int),
{
    if minutes >= 1440 {
        let mut text = decimal_string((minutes / 1440) as u64);
        text.append(" days ago");
        text
    } else if minutes >= 60 {
        let mut text = decimal_string((minutes / 60) as u64);
        text.append(" hours ago");
        text
    } else if minutes >= 1 {
        let mut text = decimal_string(minutes as u64);
        text.append(" mins ago");
        text
    } else {
        "just now".to_owned()
    }
}

/// The name to try for the `counter`-th time: see `numbered_name`.
pub fn candidate_name(stem: &str, extension: Option<&str>, counter: u32) -> (name: String)
    ensures
        name@ == numbered_name(
            stem@,
            match extension {
                Some(ext) => Some(ext@),
                None => None,
            },
            counter as nat,
        ),
{
    let mut name = stem.to_owned();
    name.append("_");
    name.append(decimal_string(counter as u64).as_str());
    match extension {
        Some(ext) => {
            name.append(".");
            name.append(ext);
        },
        None => {},
    }
    name
}

/// The first number from `from` up to the last attempt whose name is not
/// taken, if there is one.
pub open spec fn first_free(
    stem: Seq<char>,
    extension: Option<Seq<char>>,
    taken: Seq<Seq<char>>,
    from: nat,
) -> Option<nat>
    decreases MAX_NAME_ATTEMPTS + 1 - from,
{
    if from > MAX_NAME_ATTEMPTS {
        None
    } else if !taken.contains(numbered_name(stem, extension, from)) {
        Some(from)
    } else {
        first_free(stem, extension, taken, from + 1)
    }
}

/// Whether `name` is among the names taken.
fn is_taken(taken: &[String], name: &String) -> (found: bool)
    ensures
        found == taken.deep_view().contains(name@),
{
    let mut i: usize = 0;
    while i < taken.len()
        invariant
            i <= taken.len(),
            forall|j: int| 0 <= j < i ==> (#[trigger] taken.deep_view()[j]) != name@,
        decreases taken.len() - i,
    {
        assert(taken.deep_view()[i as int] == taken[i as int]@);
        if taken[i] == *name {
            return true;
        }
        i += 1;
    }
    false
}

/// Finds a name that is not taken: the stem with the first number from 1 on
/// whose name is free, followed by the extension where there is one. Gives
/// up after the last attempt.
pub fn find_unique_name(stem: &str, extension: Option<&str>, taken: &[String]) -> (outcome: Result<
    String,
    String,
>)
    ensures
        match first_free(
            stem@,
            match extension {
                Some(ext) => Some(ext@),
                None => None,
            },
            taken.deep_view(),
            1,
        ) {
            Some(counter) => outcome is Ok && outcome->Ok_0@ == numbered_name(
                stem@,
                match extension {
                    Some(ext) => Some(ext@),
                    None => None,
                },
                counter,
            ),
            None => outcome is Err && outcome->Err_0@
                == "Could not find unique name after 10000 attempts"@,
        },
{
    let ghost ext = match extension {
        Some(ext) => Some(ext@),
        None => None,
    };
    let mut counter: u32 = 1;
    loop
        invariant
            1 <= counter <= MAX_NAME_ATTEMPTS,
            ext == match extension {
                Some(ext) => Some(ext@),
                None => None,
            },
            first_free(stem@, ext, taken.deep_view(), 1) == first_free(
                stem@,
                ext,
                taken.deep_view(),
                counter as nat,
            ),
        decreases MAX_NAME_ATTEMPTS - counter,
    {
        let name = candidate_name(stem, extension, counter);
        if !is_taken(taken, &name) {
            return Ok(name);
        }
        if !may_try_again(counter) {
            assert(first_free(stem@, ext, taken.deep_view(), (counter + 1) as nat) is None);
            return Err("Could not find unique name after 10000 attempts".to_owned());
        }
        counter += 1;
    }
}

/// Whether another name may be tried after `counter` attempts.
pub fn may_try_again(counter: u32) -> (yes: bool)
    ensures
        yes == (counter < MAX_NAME_ATTEMPTS),
{
    counter < MAX_NAME_ATTEMPTS
}

/// The line of an ignore file names the scrap folder.
pub open spec fn names_scrap(line: Seq<char>) -> bool {
    trimmed(line) == ".scrap/"@ || trimmed(line) == ".scrap"@
}

/// One of the lines names the scrap folder.
pub open spec fn lists_scrap(file_lines: Seq<Seq<char>>) -> bool {
    exists|i: int| 0 <= i < file_lines.len() && names_scrap(#[trigger] file_lines[i])
}

/// What is to be added at the end of an ignore file so that it names the
/// scrap folder: nothing where a line names it already, and otherwise a
/// line for it, after a line feed where the file does not end with one.
pub open spec fn ignore_addition(content: Seq<char>) -> Option<Seq<char>> {
    if lists_scrap(lines_of(content)) {
        None
    } else if content.len() > 0 && content.last() != '\n' {
        Some("\n.scrap/\n"@)
    } else {
        Some(".scrap/\n"@)
    }
}

/// What is to be added at the end of an ignore file: see `ignore_addition`.
pub fn gitignore_entry(content: &str) -> (addition: Option<String>)
    ensures
        match ignore_addition(content@) {
            Some(text) => addition matches Some(added) && added@ == text,
            None => addition is None,
        },
{
    let all = lines(content);
    let ghost file_lines = lines_of(content@);
    let mut i: usize = 0;
    while i < all.len()
        invariant
            i <= all.len(),
            all.deep_view() == file_lines,
            file_lines == lines_of(content@),
            forall|k: int| 0 <= k < i ==> !names_scrap(#[trigger] file_lines[k]),
        decreases all.len() - i,
    {
        assert(file_lines[i as int] == all[i as int]@);
        let line = trim(all[i].as_str());
        if same_text(line.as_str(), ".scrap/") || same_text(line.as_str(), ".scrap") {
            assert(names_scrap(file_lines[i as int]));
            return None;
        }
        i += 1;
    }
    let chars = to_chars(content);
    if chars.len() > 0 && chars[chars.len() - 1] != '\n' {
        Some("\n.scrap/\n".to_owned())
    } else {
        Some(".scrap/\n".to_owned())
    }
}

/// What a listing is sorted by.
#[derive(Debug, Clone, Copy, PartialEq, Eq, Structural)]
pub enum SortKey {
    Name,
    Date,
    Size,
}

/// The message for a word that names no sort key.
pub open spec fn invalid_sort_message(word: Seq<char>) -> Seq<char> {
    "Invalid sort option: "@ + word
}

/// The sort key that a word names: `name`, `date` or `size`.
pub open spec fn sort_key_of(word: Seq<char>) -> Option<SortKey> {
    if word == "name"@ {
        Some(SortKey::Name)
    } else if word == "date"@ {
        Some(SortKey::Date)
    } else if word == "size"@ {
        Some(SortKey::Size)
    } else {
        None
    }
}

/// Reads a sort key: see `sort_key_of`. Any other word is refused with a
/// message that names it.
pub fn parse_sort_key(word: &str) -> (outcome: Result<SortKey, String>)
    ensures
        match sort_key_of(word@) {
            Some(key) => outcome == Ok::<SortKey, String>(key),
            None => outcome is Err && outcome->Err_0@ == invalid_sort_message(word@),
        },
{
    if same_text(word, "name") {
        Ok(SortKey::Name)
    } else if same_text(word, "date") {
        Ok(SortKey::Date)
    } else if same_text(word, "size") {
        Ok(SortKey::Size)
    } else {
        let mut message = "Invalid sort option: ".to_owned();
        message.append(word);
        Err(message)
    }
}

/// A point in time: whole seconds since the epoch and the nanoseconds
/// into the second.
#[derive(Debug, Clone, Copy, PartialEq, Eq, Structural)]
pub struct Moment {
    pub seconds: i64,
    pub nanos: u32,
}

impl Moment {
    /// The moment in nanoseconds since the epoch.
    pub open spec fn total_nanos(self) -> int {
        self.seconds * 1_000_000_000 + self.nanos
    }

    /// Whether the moment lies more than `days` days before `now`.
    pub fn is_older_than(&self, now: &Moment, days: u64) -> (yes: bool)
        ensures
            yes == (self.total_nanos() < now.total_nanos() - days * 86_400_000_000_000),
    {
        let mine: i128 = (self.seconds as i128) * 1_000_000_000 + (self.nanos as i128);
        let theirs: i128 = (now.seconds as i128) * 1_000_000_000 + (now.nanos as i128);
        let span: i128 = (days as i128) * 86_400_000_000_000;
        mine < theirs - span
    }

    /// Whether the moment lies before `other`.
    pub fn is_before(&self, other: &Moment) -> (yes: bool)
        ensures
            yes == (self.total_nanos() < other.total_nanos()),
    {
        let mine: i128 = (self.seconds as i128) * 1_000_000_000 + (self.nanos as i128);
        let theirs: i128 = (other.seconds as i128) * 1_000_000_000 + (other.nanos as i128);
        mine < theirs
    }
}

/// What is on record for one item in the scrap folder.
#[derive(Debug)]
pub struct ScrapEntry {
    /// Where the item was before it went to the scrap folder.
    pub original_path: String,
    pub scrapped_at: Moment,
    /// The name it has in the scrap folder.
    pub scrapped_name: String,
}

/// An entry as plain values.
pub ghost struct ScrapEntryView {
    pub original_path: Seq<char>,
    pub scrapped_at: Moment,
    pub scrapped_name: Seq<char>,
}

impl View for ScrapEntry {
    type V = ScrapEntryView;

    open spec fn view(&self) -> ScrapEntryView {
        ScrapEntryView {
            original_path: self.original_path@,
            scrapped_at: self.scrapped_at,
            scrapped_name: self.scrapped_name@,
        }
    }
}

impl Clone for ScrapEntry {
    fn clone(&self) -> (copy: Self)
        ensures
            copy@ == self@,
    {
        ScrapEntry {
            original_path: self.original_path.clone(),
            scrapped_at: self.scrapped_at,
            scrapped_name: self.scrapped_name.clone(),
        }
    }
}

/// A name in the record together with its entry.
#[derive(Debug)]
struct Slot {
    name: String,
    entry: ScrapEntry,
}

/// A slot as plain values.
pub ghost struct SlotView {
    pub name: Seq<char>,
    pub entry: ScrapEntryView,
}

impl View for Slot {
    type V = SlotView;

    closed spec fn view(&self) -> SlotView {
        SlotView { name: self.name@, entry: self.entry@ }
    }
}

impl DeepView for Slot {
    type V = SlotView;

    closed spec fn deep_view(&self) -> SlotView {
        self@
    }
}

/// The record that a list of slots stands for: each name with its entry.
pub open spec fn record_of(slots: Seq<SlotView>) -> Map<Seq<char>, ScrapEntryView>
    decreases slots.len(),
{
    if slots.len() == 0 {
        Map::empty()
    } else {
        record_of(slots.drop_last()).insert(slots.last().name, slots.last().entry)
    }
}

/// No name has two slots.
pub open spec fn distinct_names(slots: Seq<SlotView>) -> bool {
    forall|i: int, j: int|
        0 <= i < j < slots.len() ==> (#[trigger] slots[i]).name != (#[trigger] slots[j]).name
}

/// The names on record are those of the slots.
proof fn lemma_record_names(slots: Seq<SlotView>, name: Seq<char>)
    ensures
        record_of(slots).dom().contains(name) <==> exists|i: int|
            0 <= i < slots.len() && (#[trigger] slots[i]).name == name,
    decreases slots.len(),
{
    if slots.len() > 0 {
        let front = slots.drop_last();
        lemma_record_names(front, name);
        if record_of(slots).dom().contains(name) {
            if slots.last().name == name {
                assert(slots[slots.len() - 1].name == name);
            } else {
                let i = choose|i: int| 0 <= i < front.len() && (#[trigger] front[i]).name == name;
                assert(slots[i].name == name);
            }
        }
        if exists|i: int| 0 <= i < slots.len() && (#[trigger] slots[i]).name == name {
            let i = choose|i: int| 0 <= i < slots.len() && (#[trigger] slots[i]).name == name;
            if i < front.len() {
                assert(front[i].name == name);
            }
        }
    }
}

/// Each slot's entry is on record under its name.
proof fn lemma_record_at(slots: Seq<SlotView>, i: int)
    requires
        distinct_names(slots),
        0 <= i < slots.len(),
    ensures
        record_of(slots).dom().contains(slots[i].name),
        record_of(slots)[slots[i].name] == slots[i].entry,
    decreases slots.len(),
{
    let front = slots.drop_last();
    if i < slots.len() - 1 {
        assert(front[i] == slots[i]);
        lemma_record_at(front, i);
        assert(slots[i].name != slots[slots.len() - 1].name);
    }
}

/// A record has as many names as it has slots.
proof fn lemma_record_len(slots: Seq<SlotView>)
    requires
        distinct_names(slots),
    ensures
        record_of(slots).dom().finite(),
        record_of(slots).dom().len() == slots.len(),
    decreases slots.len(),
{
    if slots.len() > 0 {
        let front = slots.drop_last();
        lemma_record_len(front);
        lemma_record_names(front, slots.last().name);
        if record_of(front).dom().contains(slots.last().name) {
            let i = choose|i: int|
                0 <= i < front.len() && (#[trigger] front[i]).name == slots.last().name;
            assert(slots[i].name == slots[slots.len() - 1].name);
        }
    }
}

/// Putting another entry into the slot of a name puts it on record under
/// that name.
proof fn lemma_record_update(slots: Seq<SlotView>, i: int, slot: SlotView)
    requires
        distinct_names(slots),
        0 <= i < slots.len(),
        slot.name == slots[i].name,
    ensures
        distinct_names(slots.update(i, slot)),
        record_of(slots.update(i, slot)) == record_of(slots).insert(slot.name, slot.entry),
    decreases slots.len(),
{
    let after = slots.update(i, slot);
    let front = slots.drop_last();
    if i == slots.len() - 1 {
        assert(after.drop_last() =~= front);
        assert(record_of(after) =~= record_of(slots).insert(slot.name, slot.entry));
    } else {
        assert(front[i] == slots[i]);
        lemma_record_update(front, i, slot);
        assert(after.drop_last() =~= front.update(i, slot));
        assert(slots[i].name != slots[slots.len() - 1].name);
        assert(record_of(after) =~= record_of(slots).insert(slot.name, slot.entry));
    }
}

/// Taking a slot away takes its name off the record.
proof fn lemma_record_remove(slots: Seq<SlotView>, i: int)
    requires
        distinct_names(slots),
        0 <= i < slots.len(),
    ensures
        distinct_names(slots.remove(i)),
        record_of(slots.remove(i)) == record_of(slots).remove(slots[i].name),
    decreases slots.len(),
{
    let after = slots.remove(i);
    let front = slots.drop_last();
    if i == slots.len() - 1 {
        assert(after =~= front);
        lemma_record_names(front, slots[i].name);
        if record_of(front).dom().contains(slots[i].name) {
            let k = choose|k: int| 0 <= k < front.len() && (#[trigger] front[k]).name == slots[i].name;
            assert(slots[k].name == slots[i].name);
        }
        assert(record_of(after) =~= record_of(slots).remove(slots[i].name));
    } else {
        assert(front[i] == slots[i]);
        lemma_record_remove(front, i);
        assert(after.drop_last() =~= front.remove(i));
        assert(after.last() == slots.last());
        assert(slots[i].name != slots[slots.len() - 1].name);
        assert(record_of(after) =~= record_of(slots).remove(slots[i].name));
    }
}

/// The record of the scrap folder: what was put into it, under the names
/// the items have there. A name has at most one entry.
#[derive(Debug)]
pub struct ScrapMetadata {
    version: u32,
    slots: Vec<Slot>,
}

impl View for ScrapMetadata {
    type V = Map<Seq<char>, ScrapEntryView>;

    closed spec fn view(&self) -> Map<Seq<char>, ScrapEntryView> {
        record_of(self.slots.deep_view())
    }
}

impl ScrapMetadata {
    /// The record's invariant: no name has two entries.
    pub closed spec fn wf(&self) -> bool {
        distinct_names(self.slots.deep_view())
    }

    /// The version of the record's format.
    pub closed spec fn format_version(&self) -> u32 {
        self.version
    }

    /// The entry is on record, and none on record is later.
    pub open spec fn is_latest(&self, entry: ScrapEntryView) -> bool {
        &&& exists|name: Seq<char>| self@.dom().contains(name) && #[trigger] self@[name] == entry
        &&& forall|name: Seq<char>|
            self@.dom().contains(name) ==> (#[trigger] self@[name]).scrapped_at.total_nanos()
                <= entry.scrapped_at.total_nanos()
    }

    /// An empty record.
    pub fn new() -> (record: Self)
        ensures
            record.wf(),
            record.format_version() == 1,
            record@ == Map::<Seq<char>, ScrapEntryView>::empty(),
    {
        let record = ScrapMetadata { version: 1, slots: Vec::new() };
        assert(record.slots.deep_view() =~= Seq::<SlotView>::empty());
        record
    }

    /// The version of the record's format.
    pub fn version(&self) -> (version: u32)
        ensures
            version == self.format_version(),
    {
        self.version
    }

    /// Sets the version of the record's format.
    pub fn set_version(&mut self, version: u32)
        ensures
            final(self).wf() == old(self).wf(),
            final(self).format_version() == version,
            final(self)@ == old(self)@,
    {
        self.version = version;
    }

    /// The slot of a name.
    fn find(&self, name: &str) -> (found: Option<usize>)
        ensures
            match found {
                Some(i) => i < self.slots.len() && self.slots.deep_view()[i as int].name == name@,
                None => forall|k: int|
                    0 <= k < self.slots.len() ==> (#[trigger] self.slots.deep_view()[k]).name != name@,
            },
    {
        let mut i: usize = 0;
        while i < self.slots.len()
            invariant
                i <= self.slots.len(),
                forall|k: int| 0 <= k < i ==> (#[trigger] self.slots.deep_view()[k]).name != name@,
            decreases self.slots.len() - i,
        {
            assert(self.slots.deep_view()[i as int] == self.slots[i as int]@);
            if same_text(self.slots[i].name.as_str(), name) {
                return Some(i);
            }
            i += 1;
        }
        None
    }

    /// Puts an entry on record under a name; an entry that was there under
    /// that name gives way.
    pub fn insert(&mut self, name: String, entry: ScrapEntry)
        requires
            old(self).wf(),
        ensures
            final(self).wf(),
            final(self).format_version() == old(self).format_version(),
            final(self)@ == old(self)@.insert(name@, entry@),
    {
        let ghost before = self.slots.deep_view();
        let ghost slot = SlotView { name: name@, entry: entry@ };
        match self.find(name.as_str()) {
            Some(i) => {
                proof {
                    lemma_record_update(before, i as int, slot);
                }
                self.slots.set(i, Slot { name, entry });
                assert(self.slots.deep_view() =~= before.update(i as int, slot));
            },
            None => {
                self.slots.push(Slot { name, entry });
                assert(self.slots.deep_view() =~= before.push(slot));
                assert(before.push(slot).drop_last() =~= before);
            },
        }
    }

    /// Puts an item on record: under the name it has in the scrap folder,
    /// with the path it came from and the moment it was put there.
    pub fn add_entry(&mut self, scrapped_name: &str, original_path: String, now: Moment)
        requires
            old(self).wf(),
        ensures
            final(self).wf(),
            final(self).format_version() == old(self).format_version(),
            final(self)@ == old(self)@.insert(
                scrapped_name@,
                ScrapEntryView {
                    original_path: original_path@,
                    scrapped_at: now,
                    scrapped_name: scrapped_name@,
                },
            ),
    {
        let entry = ScrapEntry {
            original_path,
            scrapped_at: now,
            scrapped_name: scrapped_name.to_owned(),
        };
        self.insert(scrapped_name.to_owned(), entry);
    }

    /// Takes a name off the record and hands back what was on record for
    /// it.
    pub fn remove_entry(&mut self, scrapped_name: &str) -> (removed: Option<ScrapEntry>)
        requires
            old(self).wf(),
        ensures
            final(self).wf(),
            final(self).format_version() == old(self).format_version(),
            final(self)@ == old(self)@.remove(scrapped_name@),
            match removed {
                Some(entry) => old(self)@.dom().contains(scrapped_name@) && entry@ == old(
                    self,
                )@[scrapped_name@],
                None => !old(self)@.dom().contains(scrapped_name@),
            },
    {
        let ghost before = self.slots.deep_view();
        proof {
            lemma_record_names(before, scrapped_name@);
        }
        match self.find(scrapped_name) {
            Some(i) => {
                proof {
                    lemma_record_at(before, i as int);
                    lemma_record_remove(before, i as int);
                }
                assert(before[i as int] == self.slots[i as int]@);
                let slot = self.slots.remove(i);
                assert(self.slots.deep_view() =~= before.remove(i as int));
                Some(slot.entry)
            },
            None => {
                assert(record_of(before).remove(scrapped_name@) =~= record_of(before));
                None
            },
        }
    }

    /// What is on record for a name.
    pub fn get_entry(&self, scrapped_name: &str) -> (found: Option<&ScrapEntry>)
        requires
            self.wf(),
        ensures
            match found {
                Some(entry) => self@.dom().contains(scrapped_name@) && entry@
                    == self@[scrapped_name@],
                None => !self@.dom().contains(scrapped_name@),
            },
    {
        proof {
            lemma_record_names(self.slots.deep_view(), scrapped_name@);
        }
        match self.find(scrapped_name) {
            Some(i) => {
                proof {
                    lemma_record_at(self.slots.deep_view(), i as int);
                }
                assert(self.slots.deep_view()[i as int] == self.slots[i as int]@);
                Some(&self.slots[i].entry)
            },
            None => None,
        }
    }

    /// How many names are on record.
    pub fn len(&self) -> (count: usize)
        requires
            self.wf(),
        ensures
            self@.dom().finite(),
            count == self@.dom().len(),
    {
        proof {
            lemma_record_len(self.slots.deep_view());
        }
        self.slots.len()
    }

    /// Whether nothing is on record.
    pub fn is_empty(&self) -> (empty: bool)
        requires
            self.wf(),
        ensures
            empty == (self@ == Map::<Seq<char>, ScrapEntryView>::empty()),
    {
        proof {
            let slots = self.slots.deep_view();
            if slots.len() > 0 {
                lemma_record_at(slots, 0);
            } else {
                assert(self@ =~= Map::<Seq<char>, ScrapEntryView>::empty());
            }
        }
        self.slots.len() == 0
    }

    /// The names on record, each once.
    pub fn names(&self) -> (names: Vec<String>)
        requires
            self.wf(),
        ensures
            names.deep_view().no_duplicates(),
            forall|name: Seq<char>|
                names.deep_view().contains(name) <==> self@.dom().contains(name),
    {
        let mut names: Vec<String> = Vec::new();
        let mut i: usize = 0;
        let ghost slots = self.slots.deep_view();
        assert(names.deep_view() =~= Seq::<Seq<char>>::empty());
        while i < self.slots.len()
            invariant
                i <= self.slots.len(),
                slots == self.slots.deep_view(),
                names.deep_view().len() == i,
                forall|k: int| 0 <= k < i ==> (#[trigger] names.deep_view()[k]) == slots[k].name,
            decreases self.slots.len() - i,
        {
            assert(slots[i as int] == self.slots[i as int]@);
            let ghost before = names;
            let name = self.slots[i].name.clone();
            names.push(name);
            proof {
                lemma_push_deep_view(before, names, name);
            }
            i += 1;
        }
        proof {
            let listed = names.deep_view();
            assert forall|a: int, b: int| 0 <= a < listed.len() && 0 <= b < listed.len() && a
                != b implies listed[a] != listed[b] by {
                if a < b {
                    assert(slots[a].name != slots[b].name);
                } else {
                    assert(slots[b].name != slots[a].name);
                }
            }
            assert forall|name: Seq<char>| listed.contains(name) <==> self@.dom().contains(
                name,
            ) by {
                lemma_record_names(slots, name);
                if listed.contains(name) {
                    let k = choose|k: int| 0 <= k < listed.len() && listed[k] == name;
                    assert(slots[k].name == name);
                }
                if self@.dom().contains(name) {
                    let k = choose|k: int| 0 <= k < slots.len() && (#[trigger] slots[k]).name == name;
                    assert(listed[k] == name);
                }
            }
        }
        names
    }

    /// The entry that was put on record last, by its moment: one of them
    /// where several share the latest moment, none where nothing is on
    /// record.
    pub fn latest(&self) -> (found: Option<&ScrapEntry>)
        requires
            self.wf(),
        ensures
            match found {
                Some(entry) => self.is_latest(entry@),
                None => self@ == Map::<Seq<char>, ScrapEntryView>::empty(),
            },
    {
        let ghost slots = self.slots.deep_view();
        if self.slots.len() == 0 {
            assert(self@ =~= Map::<Seq<char>, ScrapEntryView>::empty());
            return None;
        }
        let mut at: usize = 0;
        let mut i: usize = 1;
        while i < self.slots.len()
            invariant
                at < i <= self.slots.len(),
                slots == self.slots.deep_view(),
                forall|k: int|
                    0 <= k < i ==> (#[trigger] slots[k]).entry.scrapped_at.total_nanos()
                        <= slots[at as int].entry.scrapped_at.total_nanos(),
            decreases self.slots.len() - i,
        {
            assert(slots[i as int] == self.slots[i as int]@);
            assert(slots[at as int] == self.slots[at as int]@);
            if self.slots[at].entry.scrapped_at.is_before(&self.slots[i].entry.scrapped_at) {
                at = i;
            }
            i += 1;
        }
        proof {
            let entry = slots[at as int].entry;
            lemma_record_at(slots, at as int);
            assert(self@.dom().contains(slots[at as int].name) && self@[slots[at as int].name]
                == entry);
            assert forall|name: Seq<char>| self@.dom().contains(name) implies (
            #[trigger] self@[name]).scrapped_at.total_nanos() <= entry.scrapped_at.total_nanos() by {
                lemma_record_names(slots, name);
                let k = choose|k: int| 0 <= k < slots.len() && (#[trigger] slots[k]).name == name;
                lemma_record_at(slots, k);
            }
            assert(slots[at as int] == self.slots[at as int]@);
        }
        Some(&self.slots[at].entry)
    }
}

/// Where an item taken out of the scrap folder goes.
#[derive(Debug)]
pub enum RestoreTarget {
    /// Into this directory, under its own name.
    Into(String),
    /// To exactly this path.
    To(String),
    /// Into the current directory, under its own name.
    CurrentDirectory,
}

/// A place that the user named for a restored item.
#[derive(Debug)]
pub struct CustomTarget {
    pub path: String,
    /// The path is that of a directory that exists.
    pub is_dir: bool,
}

/// Chooses where a restored item goes: the place the user named, as a
/// directory to put it in or as its new path; else the path it was
/// scrapped from, where that is on record; else the current directory.
pub fn restore_target(custom: Option<CustomTarget>, recorded: Option<String>) -> (target:
    RestoreTarget)
    ensures
        match custom {
            Some(place) => if place.is_dir {
                target matches RestoreTarget::Into(path) && path@ == place.path@
            } else {
                target matches RestoreTarget::To(path) && path@ == place.path@
            },
            None => match recorded {
                Some(source) => target matches RestoreTarget::To(path) && path@ == source@,
                None => target is CurrentDirectory,
            },
        },
{
    match custom {
        Some(place) => {
            if place.is_dir {
                RestoreTarget::Into(place.path)
            } else {
                RestoreTarget::To(place.path)
            }
        },
        None => match recorded {
            Some(source) => RestoreTarget::To(source),
            None => RestoreTarget::CurrentDirectory,
        },
    }
}

/// The message for a destination that is taken.
pub open spec fn taken_message(destination: Seq<char>) -> Seq<char> {
    "Destination '"@ + destination + "' already exists. Use --force to overwrite."@
}

/// Whether an item may be restored to a destination: always where the
/// destination is free or the restore is forced.
pub fn check_destination(destination: &str, exists: bool, force: bool) -> (outcome: Result<
    (),
    String,
>)
    ensures
        outcome is Err <==> exists && !force,
        outcome matches Err(message) ==> message@ == taken_message(destination@),
{
    if exists && !force {
        let mut message = "Destination '".to_owned();
        message.append(destination);
        message.append("' already exists. Use --force to overwrite.");
        Err(message)
    } else {
        Ok(())
    }
}

/// Whether an entry of the scrap folder goes into an archive of it: every
/// entry that is not hidden, and the record of the folder.
pub fn goes_into_archive(name: &str) -> (yes: bool)
    ensures
        yes == (!is_hidden(name@) || name@ == ".metadata.json"@),
{
    !name_is_hidden(name) || same_text(name, ".metadata.json")
}

/// How an entry of the scrap folder matched a search.
#[derive(Debug, Clone, Copy, PartialEq, Eq, Structural)]
pub enum SearchHit {
    FileName,
    Content,
}

/// The message for a search pattern that is no valid expression.
pub open spec fn invalid_pattern_message(pattern: Seq<char>) -> Seq<char> {
    "Invalid regex pattern: "@ + pattern
}

/// What a search finds in one entry, given what matching its name gave
/// and, where its content was looked at, what matching that gave. A
/// pattern that is no valid expression is an error. A hidden entry is
/// never found. The name is tried first, the content only where the name
/// does not match.
pub open spec fn search_result(
    pattern: Seq<char>,
    hidden: bool,
    name_verdict: Option<bool>,
    content_verdict: Option<Option<bool>>,
) -> Result<Option<SearchHit>, Seq<char>> {
    match name_verdict {
        None => Err(invalid_pattern_message(pattern)),
        Some(matched) => if hidden {
            Ok(None)
        } else if matched {
            Ok(Some(SearchHit::FileName))
        } else if content_verdict == Some(Some(true)) {
            Ok(Some(SearchHit::Content))
        } else {
            Ok(None)
        },
    }
}

/// Decides what a search finds in one entry once the pattern has been
/// tried: see `search_result`.
pub fn decide_search(
    pattern: &str,
    hidden: bool,
    name_verdict: Option<bool>,
    content_verdict: Option<Option<bool>>,
) -> (outcome: Result<Option<SearchHit>, String>)
    ensures
        match search_result(pattern@, hidden, name_verdict, content_verdict) {
            Err(message) => outcome is Err && outcome->Err_0@ == message,
            Ok(hit) => outcome == Ok::<Option<SearchHit>, String>(hit),
        },
{
    match name_verdict {
        None => {
            let mut message = "Invalid regex pattern: ".to_owned();
            message.append(pattern);
            Err(message)
        },
        Some(matched) => {
            if hidden {
                Ok(None)
            } else if matched {
                Ok(Some(SearchHit::FileName))
            } else {
                match content_verdict {
                    Some(Some(true)) => Ok(Some(SearchHit::Content)),
                    _ => Ok(None),
                }
            }
        },
    }
}

/// Searches one entry of the scrap folder for a regular expression: its
/// name, and its content where that is given.
pub fn search_entry(pattern: &str, file_name: &str, content: Option<&str>) -> (outcome: Result<
    Option<SearchHit>,
    String,
>)
    ensures
        match search_result(
            pattern@,
            is_hidden(file_name@),
            regex_match(pattern@, file_name@),
            match content {
                Some(text) => Some(regex_match(pattern@, text@)),
                None => None,
            },
        ) {
            Err(message) => outcome is Err && outcome->Err_0@ == message,
            Ok(hit) => outcome == Ok::<Option<SearchHit>, String>(hit),
        },
{
    let name_verdict = regex_is_match(pattern, file_name);
    let content_verdict = match content {
        Some(text) => Some(regex_is_match(pattern, text)),
        None => None,
    };
    decide_search(pattern, name_is_hidden(file_name), name_verdict, content_verdict)
}

} // verus!
