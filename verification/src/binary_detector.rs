//! Telling binary files from text: by the extension of the name, by the
//! first bytes of the content, by a NUL byte anywhere in the sample and,
//! where the first bytes gave no answer, by how many bytes look out of
//! place.

use vstd::prelude::*;
use vstd::slice::slice_subrange;
use crate::text::{
    from_chars, last_index_of, lowercase, lowercase_of, rfind_char, same_text, to_chars,
};
use crate::views::{lemma_filter_empty, lemma_filter_push};

verus! {

broadcast use vstd::string::group_string_axioms;

/// What the first bytes of a file look like.
#[derive(Debug, Clone, Copy, PartialEq, Eq, Structural)]
pub enum ContentKind {
    Binary,
    Utf8,
    Utf8Bom,
    Utf16Le,
    Utf16Be,
    Utf32Le,
    Utf32Be,
}

/// Why a file counts as binary.
#[derive(Debug, Clone, Copy, PartialEq, Eq, Structural)]
pub enum BinaryReason {
    /// The name ends in a known binary extension.
    Extension,
    /// The first bytes look binary.
    ContentInspection,
    /// The sample holds a NUL byte.
    NullBytes,
    /// Too many bytes of the sample are neither printable nor the start of
    /// a character: `non_printable` out of `total`.
    NonPrintableRatio { non_printable: usize, total: usize },
}

/// How many leading bytes are searched for a NUL byte when sniffing.
pub const SNIFF_SCAN_SIZE: usize = 1024;

/// `buffer` begins with the bytes of `mark`.
pub open spec fn begins_with(buffer: Seq<u8>, mark: Seq<u8>) -> bool {
    mark.len() <= buffer.len() && buffer.take(mark.len() as int) == mark
}

/// The text encoding that a byte order mark at the start of `buffer`
/// announces, if there is one. The marks of UTF-32 come before those of
/// UTF-16, which are their prefixes.
pub open spec fn byte_order_mark(buffer: Seq<u8>) -> Option<ContentKind> {
    if begins_with(buffer, seq![0xEFu8, 0xBBu8, 0xBFu8]) {
        Some(ContentKind::Utf8Bom)
    } else if begins_with(buffer, seq![0x00u8, 0x00u8, 0xFEu8, 0xFFu8]) {
        Some(ContentKind::Utf32Be)
    } else if begins_with(buffer, seq![0xFFu8, 0xFEu8, 0x00u8, 0x00u8]) {
        Some(ContentKind::Utf32Le)
    } else if begins_with(buffer, seq![0xFEu8, 0xFFu8]) {
        Some(ContentKind::Utf16Be)
    } else if begins_with(buffer, seq![0xFFu8, 0xFEu8]) {
        Some(ContentKind::Utf16Le)
    } else {
        None
    }
}

/// One of the first `SNIFF_SCAN_SIZE` bytes of `buffer` is NUL.
pub open spec fn has_early_nul(buffer: Seq<u8>) -> bool {
    exists|i: int| 0 <= i < buffer.len() && i < SNIFF_SCAN_SIZE && #[trigger] buffer[i] == 0u8
}

/// `buffer` begins like a PDF or a PNG file.
pub open spec fn has_magic_number(buffer: Seq<u8>) -> bool {
    begins_with(buffer, seq![0x25u8, 0x50u8, 0x44u8, 0x46u8]) || begins_with(
        buffer,
        seq![0x89u8, 0x50u8, 0x4Eu8, 0x47u8],
    )
}

/// What the first bytes of a file look like: the encoding of a byte order
/// mark where there is one; else binary where a NUL byte comes early or the
/// file begins like a PDF or a PNG; else UTF-8.
pub open spec fn sniffed(buffer: Seq<u8>) -> ContentKind {
    match byte_order_mark(buffer) {
        Some(kind) => kind,
        None => if has_early_nul(buffer) || has_magic_number(buffer) {
            ContentKind::Binary
        } else {
            ContentKind::Utf8
        },
    }
}

/// `content_inspector::inspect` guesses the kind of content from a buffer:
/// it answers with the encoding of a byte order mark at the start, else
/// with binary if one of the first 1024 bytes is NUL or the buffer starts
/// with the magic number of PDF or PNG, else with UTF-8.
#[verifier::external_body]
fn sniff(buffer: &[u8]) -> (kind: ContentKind)
    ensures
        kind == sniffed(buffer@),
{
    match content_inspector::inspect(buffer) {
        content_inspector::ContentType::BINARY => ContentKind::Binary,
        content_inspector::ContentType::UTF_8 => ContentKind::Utf8,
        content_inspector::ContentType::UTF_8_BOM => ContentKind::Utf8Bom,
        content_inspector::ContentType::UTF_16LE => ContentKind::Utf16Le,
        content_inspector::ContentType::UTF_16BE => ContentKind::Utf16Be,
        content_inspector::ContentType::UTF_32LE => ContentKind::Utf32Le,
        content_inspector::ContentType::UTF_32BE => ContentKind::Utf32Be,
    }
}

/// A byte of printable ASCII, or a tab, a line feed or a carriage return.
pub open spec fn printable_ascii(byte: u8) -> bool {
    (0x20 <= byte <= 0x7E) || byte == 0x09 || byte == 0x0A || byte == 0x0D
}

/// A byte that can begin a UTF-8 sequence.
pub open spec fn valid_utf8_start(byte: u8) -> bool {
    byte < 0x80 || (0xC0 <= byte < 0xF8)
}

/// The predicate "neither printable nor the start of a character".
pub open spec fn out_of_place() -> spec_fn(u8) -> bool {
    |byte: u8| !printable_ascii(byte) && !valid_utf8_start(byte)
}

/// How many bytes of the sample are out of place.
pub open spec fn out_of_place_count(sample: Seq<u8>) -> nat {
    sample.filter(out_of_place()).len()
}

/// The share of bytes out of place is above `percent` in a hundred.
pub open spec fn above_threshold(sample: Seq<u8>, percent: nat) -> bool {
    out_of_place_count(sample) * 100 > percent * sample.len()
}

/// The verdict of the statistics alone: an empty sample is text; a sample
/// with a NUL byte is binary; any other is binary where too many of its
/// bytes are out of place.
pub open spec fn statistically_binary(sample: Seq<u8>, percent: nat) -> bool {
    sample.len() > 0 && (sample.contains(0u8) || above_threshold(sample, percent))
}

/// The verdict of the three checks in turn. A known binary extension makes
/// a file binary, and so does sniffing that says binary. A NUL byte in the
/// sample makes it binary whatever the sniffing said. The share of bytes
/// out of place decides only where the sniffing gave no answer.
pub open spec fn verdict(
    extension_binary: bool,
    sniffed: Option<ContentKind>,
    sample: Seq<u8>,
    percent: nat,
) -> bool {
    extension_binary || sniffed == Some(ContentKind::Binary) || sample.contains(0u8) || (sniffed
        is None && above_threshold(sample, percent))
}

/// The check that made the verdict binary, if it is: the first of them in
/// the order of `verdict`.
pub open spec fn reason_for(
    extension_binary: bool,
    sniffed: Option<ContentKind>,
    sample: Seq<u8>,
    percent: nat,
) -> Option<BinaryReason> {
    if extension_binary {
        Some(BinaryReason::Extension)
    } else if sniffed == Some(ContentKind::Binary) {
        Some(BinaryReason::ContentInspection)
    } else if sample.contains(0u8) {
        Some(BinaryReason::NullBytes)
    } else if sniffed is None && above_threshold(sample, percent) {
        Some(
            BinaryReason::NonPrintableRatio {
                non_printable: out_of_place_count(sample) as usize,
                total: sample.len() as usize,
            },
        )
    } else {
        None
    }
}

/// The extension of a file name: what follows its last dot. A name without
/// a dot has none, nor has one whose only dot comes first, nor has `..`.
pub open spec fn extension_of(file_name: Seq<char>) -> Option<Seq<char>> {
    let dot = last_index_of(file_name, '.');
    if dot <= 0 || file_name == seq!['.', '.'] {
        None
    } else {
        Some(file_name.skip(dot + 1))
    }
}

pub open spec fn executable_extensions() -> Seq<Seq<char>> {
    seq!["exe"@, "dll"@, "so"@, "dylib"@, "app"@, "deb"@, "rpm"@, "msi"@, "dmg"@]
}

pub open spec fn archive_extensions() -> Seq<Seq<char>> {
    seq!["zip"@, "tar"@, "gz"@, "bz2"@, "xz"@, "7z"@, "rar"@, "cab"@]
}

pub open spec fn image_extensions() -> Seq<Seq<char>> {
    seq![
        "jpg"@,
        "jpeg"@,
        "png"@,
        "gif"@,
        "bmp"@,
        "tiff"@,
        "tif"@,
        "webp"@,
        "svg"@,
        "ico"@,
        "cur"@,
    ]
}

pub open spec fn video_extensions() -> Seq<Seq<char>> {
    seq!["mp4"@, "avi"@, "mkv"@, "mov"@, "wmv"@, "flv"@, "webm"@, "m4v"@, "3gp"@]
}

pub open spec fn audio_extensions() -> Seq<Seq<char>> {
    seq!["mp3"@, "wav"@, "flac"@, "aac"@, "ogg"@, "m4a"@, "wma"@]
}

pub open spec fn document_extensions() -> Seq<Seq<char>> {
    seq!["pdf"@, "doc"@, "docx"@, "xls"@, "xlsx"@, "ppt"@, "pptx"@, "odt"@, "ods"@, "odp"@]
}

pub open spec fn database_extensions() -> Seq<Seq<char>> {
    seq!["db"@, "sqlite"@, "sqlite3"@, "mdb"@, "accdb"@]
}

pub open spec fn object_extensions() -> Seq<Seq<char>> {
    seq!["o"@, "obj"@, "lib"@, "a"@, "pdb"@, "class"@, "jar"@, "war"@, "ear"@]
}

pub open spec fn image_file_extensions() -> Seq<Seq<char>> {
    seq!["bin"@, "dat"@, "pak"@, "wad"@, "iso"@, "img"@, "vdi"@, "vmdk"@, "qcow2"@]
}

/// The table of known binary extensions, in lower case: executables,
/// archives, images, video, audio, documents, databases, object and class
/// files, and raw data and disk images.
pub open spec fn binary_extensions() -> Seq<Seq<char>> {
    executable_extensions() + archive_extensions() + image_extensions() + video_extensions()
        + audio_extensions() + document_extensions() + database_extensions()
        + object_extensions() + image_file_extensions()
}

/// The name has an extension whose lowercase form is in the table.
pub open spec fn has_binary_extension(file_name: Seq<char>) -> bool {
    match extension_of(file_name) {
        Some(extension) => binary_extensions().contains(lowercase_of(extension)),
        None => false,
    }
}

/// Whether a byte is printable ASCII, a tab, a line feed or a carriage
/// return.
pub fn is_printable_ascii(byte: u8) -> (yes: bool)
    ensures
        yes == printable_ascii(byte),
{
    (0x20 <= byte && byte <= 0x7E) || byte == 0x09 || byte == 0x0A || byte == 0x0D
}

/// Whether a byte can begin a UTF-8 sequence.
pub fn is_valid_utf8_start(byte: u8) -> (yes: bool)
    ensures
        yes == valid_utf8_start(byte),
{
    byte < 0x80 || (byte >= 0xC0 && byte < 0xF8)
}

/// The extension of a file name, if it has one.
pub fn extension(file_name: &str) -> (found: Option<String>)
    ensures
        match extension_of(file_name@) {
            Some(ext) => found matches Some(e) && e@ == ext,
            None => found is None,
        },
{
    let chars = to_chars(file_name);
    let len = chars.len();
    let n: usize = match rfind_char(chars.as_slice(), '.') {
        Some(dot) => {
            assert(dot < len);
            dot + 1
        },
        None => 0,
    };
    if n <= 1 {
        return None;
    }
    if chars.len() == 2 && chars[0] == '.' {
        assert(chars@ =~= seq!['.', '.']);
        return None;
    }
    assert(chars@ != seq!['.', '.']) by {
        if chars@ == seq!['.', '.'] {
            assert(seq!['.', '.'].len() == 2);
            assert(seq!['.', '.'][0] == '.');
        }
    }
    let tail = slice_subrange(chars.as_slice(), n, chars.len());
    assert(tail@ =~= chars@.skip(n as int));
    Some(from_chars(tail))
}

/// Whether `wanted` is among the entries of `table`.
fn listed(table: &Vec<&'static str>, wanted: &str) -> (found: bool)
    ensures
        found == table.deep_view().contains(wanted@),
{
    let mut i: usize = 0;
    while i < table.len()
        invariant
            i <= table.len(),
            forall|j: int| 0 <= j < i ==> (#[trigger] table.deep_view()[j]) != wanted@,
        decreases table.len() - i,
    {
        assert(table.deep_view()[i as int] == table[i as int]@);
        if same_text(table[i], wanted) {
            return true;
        }
        i += 1;
    }
    false
}

/// The table of known binary extensions.
fn binary_extension_table() -> (table: Vec<&'static str>)
    ensures
        table.deep_view() == binary_extensions(),
{
    let table = vec![
        "exe", "dll", "so", "dylib", "app", "deb", "rpm", "msi", "dmg",
        "zip", "tar", "gz", "bz2", "xz", "7z", "rar", "cab",
        "jpg", "jpeg", "png", "gif", "bmp", "tiff", "tif", "webp", "svg", "ico", "cur",
        "mp4", "avi", "mkv", "mov", "wmv", "flv", "webm", "m4v", "3gp",
        "mp3", "wav", "flac", "aac", "ogg", "m4a", "wma",
        "pdf", "doc", "docx", "xls", "xlsx", "ppt", "pptx", "odt", "ods", "odp",
        "db", "sqlite", "sqlite3", "mdb", "accdb",
        "o", "obj", "lib", "a", "pdb", "class", "jar", "war", "ear",
        "bin", "dat", "pak", "wad", "iso", "img", "vdi", "vmdk", "qcow2",
    ];
    assert(table.deep_view() =~= binary_extensions());
    table
}

/// Whether an extension, written in lower case, is a known binary
/// extension.
pub fn is_binary_extension(extension: &str) -> (yes: bool)
    ensures
        yes == binary_extensions().contains(extension@),
{
    let table = binary_extension_table();
    listed(&table, extension)
}

/// Decides between binary and text.
#[derive(Debug, Clone, Copy, PartialEq, Eq, Structural)]
pub struct BinaryDetector {
    /// How many bytes from the start of a file are looked at.
    pub max_sample_size: usize,
    /// The share of bytes out of place, in a hundred, above which a sample
    /// counts as binary.
    pub binary_threshold_percent: usize,
}

impl Default for BinaryDetector {
    /// A detector that looks at 8 KiB and draws the line at 30 in a hundred.
    fn default() -> (detector: Self)
        ensures
            detector == BinaryDetector::standard(),
    {
        BinaryDetector { max_sample_size: 8192, binary_threshold_percent: 30 }
    }
}

impl BinaryDetector {
    /// The detector that is used where nothing else is asked for: it looks
    /// at 8 KiB and draws the line at 30 in a hundred.
    pub open spec fn standard() -> BinaryDetector {
        BinaryDetector { max_sample_size: 8192, binary_threshold_percent: 30 }
    }

    /// The part of the data that the detector looks at: its first
    /// `max_sample_size` bytes.
    pub open spec fn sample_of(&self, data: Seq<u8>) -> Seq<u8> {
        if data.len() <= self.max_sample_size {
            data
        } else {
            data.take(self.max_sample_size as int)
        }
    }

    /// Whether a file with this name and this data is binary.
    pub open spec fn binary(&self, file_name: Seq<char>, data: Seq<u8>) -> bool {
        verdict(
            has_binary_extension(file_name),
            Some(sniffed(self.sample_of(data))),
            self.sample_of(data),
            self.binary_threshold_percent as nat,
        )
    }

    /// A detector with the given sample size and threshold.
    pub fn new(max_sample_size: usize, binary_threshold_percent: usize) -> (detector: Self)
        ensures
            detector.max_sample_size == max_sample_size,
            detector.binary_threshold_percent == binary_threshold_percent,
    {
        BinaryDetector { max_sample_size, binary_threshold_percent }
    }

    /// The first `max_sample_size` bytes of the data.
    pub fn sample<'a>(&self, data: &'a [u8]) -> (sample: &'a [u8])
        ensures
            sample@ == self.sample_of(data@),
    {
        if data.len() <= self.max_sample_size {
            data
        } else {
            slice_subrange(data, 0, self.max_sample_size)
        }
    }

    /// Whether the name ends in a known binary extension, whatever the case
    /// of its letters.
    pub fn is_binary_by_extension(&self, file_name: &str) -> (yes: bool)
        ensures
            yes == has_binary_extension(file_name@),
    {
        match extension(file_name) {
            Some(ext) => {
                let lower = lowercase(ext.as_str());
                is_binary_extension(lower.as_str())
            },
            None => false,
        }
    }

    /// How many bytes of the sample are out of place.
    fn count_out_of_place(sample: &[u8]) -> (count: usize)
        ensures
            count == out_of_place_count(sample@),
    {
        let mut count: usize = 0;
        let mut i: usize = 0;
        proof {
            lemma_filter_empty(out_of_place());
            assert(sample@.take(0) =~= Seq::empty());
        }
        while i < sample.len()
            invariant
                i <= sample.len(),
                count <= i,
                count == out_of_place_count(sample@.take(i as int)),
            decreases sample.len() - i,
        {
            proof {
                lemma_filter_push(sample@.take(i as int), sample@[i as int], out_of_place());
                assert(sample@.take(i + 1) =~= sample@.take(i as int).push(sample@[i as int]));
            }
            if !is_printable_ascii(sample[i]) && !is_valid_utf8_start(sample[i]) {
                count += 1;
            }
            i += 1;
        }
        assert(sample@.take(i as int) =~= sample@);
        count
    }

    /// Whether the sample holds a NUL byte.
    fn has_nul(sample: &[u8]) -> (found: bool)
        ensures
            found == sample@.contains(0u8),
    {
        let mut i: usize = 0;
        while i < sample.len()
            invariant
                i <= sample.len(),
                forall|j: int| 0 <= j < i ==> sample@[j] != 0u8,
            decreases sample.len() - i,
        {
            if sample[i] == 0 {
                return true;
            }
            i += 1;
        }
        false
    }

    /// Whether more than the threshold's share of the sample is out of
    /// place, given the count of such bytes.
    fn is_above_threshold(&self, count: usize, total: usize) -> (above: bool)
        ensures
            above == (count * 100 > self.binary_threshold_percent * total),
    {
        let percent = self.binary_threshold_percent;
        assert(percent * total <= 0xFFFF_FFFF_FFFF_FFFF * 0xFFFF_FFFF_FFFF_FFFF) by (nonlinear_arith)
            requires
                0 <= percent <= 0xFFFF_FFFF_FFFF_FFFF,
                0 <= total <= 0xFFFF_FFFF_FFFF_FFFF,
        ;
        let left: u128 = (count as u128) * 100;
        let right: u128 = (percent as u128) * (total as u128);
        left > right
    }

    /// The verdict of the statistics on a sample: see
    /// `statistically_binary`.
    pub fn is_binary_by_content_analysis(&self, sample: &[u8]) -> (yes: bool)
        ensures
            yes == statistically_binary(sample@, self.binary_threshold_percent as nat),
    {
        if sample.len() == 0 {
            return false;
        }
        if Self::has_nul(sample) {
            return true;
        }
        let count = Self::count_out_of_place(sample);
        self.is_above_threshold(count, sample.len())
    }

    /// The verdict of the three checks, given what the first two found:
    /// see `verdict`.
    pub fn decide(&self, extension_binary: bool, sniffed: Option<ContentKind>, sample: &[u8]) -> (yes:
        bool)
        ensures
            yes == verdict(
                extension_binary,
                sniffed,
                sample@,
                self.binary_threshold_percent as nat,
            ),
    {
        if extension_binary {
            return true;
        }
        match sniffed {
            Some(ContentKind::Binary) => true,
            Some(_) => Self::has_nul(sample),
            None => self.is_binary_by_content_analysis(sample),
        }
    }

    /// The check that makes the verdict binary, given what the first two
    /// found: there is one exactly when `decide` says binary.
    pub fn explain(&self, extension_binary: bool, sniffed: Option<ContentKind>, sample: &[u8]) -> (reason:
        Option<BinaryReason>)
        ensures
            reason == reason_for(
                extension_binary,
                sniffed,
                sample@,
                self.binary_threshold_percent as nat,
            ),
            reason is Some <==> verdict(
                extension_binary,
                sniffed,
                sample@,
                self.binary_threshold_percent as nat,
            ),
    {
        if extension_binary {
            return Some(BinaryReason::Extension);
        }
        match sniffed {
            Some(ContentKind::Binary) => Some(BinaryReason::ContentInspection),
            Some(_) => {
                if Self::has_nul(sample) {
                    Some(BinaryReason::NullBytes)
                } else {
                    None
                }
            },
            None => {
                if Self::has_nul(sample) {
                    return Some(BinaryReason::NullBytes);
                }
                let count = Self::count_out_of_place(sample);
                if self.is_above_threshold(count, sample.len()) {
                    Some(BinaryReason::NonPrintableRatio { non_printable: count, total: sample.len() })
                } else {
                    None
                }
            },
        }
    }

    /// Whether a file is binary, by its name and the data at its start.
    pub fn is_binary(&self, file_name: &str, data: &[u8]) -> (yes: bool)
        ensures
            yes == self.binary(file_name@, data@),
    {
        let sample = self.sample(data);
        let extension_binary = self.is_binary_by_extension(file_name);
        if extension_binary {
            return true;
        }
        let kind = sniff(sample);
        self.decide(false, Some(kind), sample)
    }

    /// Whether a file is text, and so open to content substitution.
    pub fn is_text_file(&self, file_name: &str, data: &[u8]) -> (yes: bool)
        ensures
            yes == !self.binary(file_name@, data@),
    {
        !self.is_binary(file_name, data)
    }

    /// Why a file is binary: the check that says so, and nothing where the
    /// file is text.
    pub fn get_binary_reason(&self, file_name: &str, data: &[u8]) -> (reason: Option<BinaryReason>)
        ensures
            reason == reason_for(
                has_binary_extension(file_name@),
                Some(sniffed(self.sample_of(data@))),
                self.sample_of(data@),
                self.binary_threshold_percent as nat,
            ),
            reason is Some <==> self.binary(file_name@, data@),
    {
        let sample = self.sample(data);
        let extension_binary = self.is_binary_by_extension(file_name);
        if extension_binary {
            return Some(BinaryReason::Extension);
        }
        let kind = sniff(sample);
        self.explain(false, Some(kind), sample)
    }
}

impl BinaryReason {
    /// The reason in words, without figures.
    pub open spec fn message_spec(self) -> Seq<char> {
        match self {
            BinaryReason::Extension => "Binary file extension"@,
            BinaryReason::ContentInspection => "Content inspection detected binary"@,
            BinaryReason::NullBytes => "Contains null bytes"@,
            BinaryReason::NonPrintableRatio { .. } => "High ratio of non-printable characters"@,
        }
    }

    /// The reason in words, without figures.
    pub fn message(&self) -> (text: &'static str)
        ensures
            text@ == self.message_spec(),
    {
        match self {
            BinaryReason::Extension => "Binary file extension",
            BinaryReason::ContentInspection => "Content inspection detected binary",
            BinaryReason::NullBytes => "Contains null bytes",
            BinaryReason::NonPrintableRatio { .. } => "High ratio of non-printable characters",
        }
    }
}

/// A file with a NUL byte in the part that the detector looks at is
/// binary, whatever its name and whatever else it holds.
pub proof fn lemma_early_nul_is_binary(
    detector: BinaryDetector,
    file_name: Seq<char>,
    data: Seq<u8>,
    at: int,
)
    requires
        0 <= at < data.len(),
        at < detector.max_sample_size,
        data[at] == 0u8,
    ensures
        detector.binary(file_name, data),
{
    let sample = detector.sample_of(data);
    assert(sample[at] == 0u8);
}

} // verus!
