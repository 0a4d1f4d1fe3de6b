//! `.dlib` library packages: the rules on archive entries, the normalized
//! manifest a package carries, and the metadata records.
//!
//! An archive holds `src/`, `native/`, `META-INF/`, `dolphin.toml` and
//! `LICENSE` only. Entry names are checked before anything is unpacked:
//! no absolute or drive paths, no backslashes, no `.`/`..`/empty
//! components, no control characters, no names that collide when case is
//! folded, no symbolic links, and size limits per file and in total.
//! Reading and writing ZIP data and files is the caller's part.
use vstd::prelude::*;

use crate::manifest::{DependencyKind, Manifest};
use crate::names::trim_end;
use crate::order::{sort_by_key, sorted_by_key, str_lt, text_lt, TextKeyed};
use crate::paths::{components, path_components, slash_joined, texts};
use crate::text::{
    chars_of, has_char, lemma_first_index, push_char, push_str, range_holds, segments,
    split_ranges, str_eq, string_of,
};

verus! {

/// Archive format version.
pub const FORMAT_VERSION: u32 = 1;

/// Limit on the uncompressed size of one package: 256 MiB.
pub const MAX_TOTAL_BYTES: u64 = 268435456;

/// Limit on one file: 128 MiB.
pub const MAX_FILE_BYTES: u64 = 134217728;

/// Limit on the metadata file: 1 MiB.
pub const MAX_METADATA_BYTES: u64 = 1048576;

/// Limit on the number of entries.
pub const MAX_FILES: usize = 10000;

/// Where the metadata lives in an archive.
pub const METADATA_PATH: &'static str = "META-INF/dolphin-package.toml";

/// Where the normalized manifest lives in an archive.
pub const MANIFEST_PATH: &'static str = "dolphin.toml";

/// `META-INF/dolphin-package.toml`.
#[derive(Debug, Clone, PartialEq, Eq)]
pub struct PackageMetadata {
    pub format_version: u32,
    pub coordinate: String,
    pub compiler_version: String,
    /// `source`: a source library package.
    pub kind: String,
    /// Target triples that carry native files; empty for a pure package.
    pub targets: Vec<String>,
    pub native_files: Vec<NativeFileRecord>,
}

/// The digest of one native file.
#[derive(Debug, Clone, PartialEq, Eq)]
pub struct NativeFileRecord {
    pub path: String,
    pub sha256: String,
}

/// What the checks see of one archive entry.
#[derive(Debug, Clone)]
pub struct EntryRecord {
    pub name: String,
    pub is_dir: bool,
    /// The Unix mode, when the archive records one.
    pub unix_mode: Option<u32>,
    /// The uncompressed size the entry declares.
    pub size: u64,
}

/// Why an archive or a package is refused.
#[derive(Debug, Clone, PartialEq, Eq)]
pub enum ArchiveError {
    EmptyName,
    Backslash { name: String },
    Absolute { name: String },
    ControlCharacter { name: String },
    UnsafeComponent { name: String },
    OutsideLayout { name: String },
    TooManyFiles,
    DuplicateEntry { name: String },
    CaseCollision { name: String },
    SymbolicLink { name: String },
    FileTooLarge { name: String },
    SizeOverflow,
    TotalTooLarge,
    LibOutsideSource,
    PathDependency { alias: String },
}

/// [`ArchiveError`] without its texts.
#[derive(Clone, Copy, Debug, PartialEq, Eq, Structural)]
pub enum ArchiveFault {
    EmptyName,
    Backslash,
    Absolute,
    ControlCharacter,
    UnsafeComponent,
    OutsideLayout,
    TooManyFiles,
    DuplicateEntry,
    CaseCollision,
    SymbolicLink,
    FileTooLarge,
    SizeOverflow,
    TotalTooLarge,
    LibOutsideSource,
    PathDependency,
}

/// How an archive error reads.
pub open spec fn archive_error_text(e: ArchiveError) -> Seq<char> {
    match e {
        ArchiveError::EmptyName => "archive contains an entry with an empty name"@,
        ArchiveError::Backslash { name } => "archive entry `"@ + name@
            + "` uses a backslash path separator"@,
        ArchiveError::Absolute { name } => "archive entry `"@ + name@
            + "` is an absolute or drive-qualified path"@,
        ArchiveError::ControlCharacter { name } => "archive entry `"@ + name@
            + "` contains control characters"@,
        ArchiveError::UnsafeComponent { name } => "archive entry `"@ + name@
            + "` contains an unsafe path component"@,
        ArchiveError::OutsideLayout { name } => "archive entry `"@ + name@
            + "` is outside the allowed package layout"@,
        ArchiveError::TooManyFiles => "package contains more than 10000 files"@,
        ArchiveError::DuplicateEntry { name } => "duplicate archive entry `"@ + name@ + "`"@,
        ArchiveError::CaseCollision { name } => "archive entry `"@ + name@
            + "` collides with another entry when case is folded"@,
        ArchiveError::SymbolicLink { name } => "archive entry `"@ + name@
            + "` is a symbolic link, which is not allowed"@,
        ArchiveError::FileTooLarge { name } => "archive entry `"@ + name@
            + "` exceeds the 134217728 byte limit"@,
        ArchiveError::SizeOverflow => "archive uncompressed size overflow"@,
        ArchiveError::TotalTooLarge => "archive exceeds the 268435456 byte total limit"@,
        ArchiveError::LibOutsideSource => "library entry must live inside the source directory"@,
        ArchiveError::PathDependency { alias } => "cannot publish: dependency `"@ + alias@
            + "` is a path dependency; publish it first and replace it with an exact coordinate"@,
    }
}

impl ArchiveError {
    /// Which rule was broken.
    pub open spec fn fault(&self) -> ArchiveFault {
        match self {
            ArchiveError::EmptyName => ArchiveFault::EmptyName,
            ArchiveError::Backslash { .. } => ArchiveFault::Backslash,
            ArchiveError::Absolute { .. } => ArchiveFault::Absolute,
            ArchiveError::ControlCharacter { .. } => ArchiveFault::ControlCharacter,
            ArchiveError::UnsafeComponent { .. } => ArchiveFault::UnsafeComponent,
            ArchiveError::OutsideLayout { .. } => ArchiveFault::OutsideLayout,
            ArchiveError::TooManyFiles => ArchiveFault::TooManyFiles,
            ArchiveError::DuplicateEntry { .. } => ArchiveFault::DuplicateEntry,
            ArchiveError::CaseCollision { .. } => ArchiveFault::CaseCollision,
            ArchiveError::SymbolicLink { .. } => ArchiveFault::SymbolicLink,
            ArchiveError::FileTooLarge { .. } => ArchiveFault::FileTooLarge,
            ArchiveError::SizeOverflow => ArchiveFault::SizeOverflow,
            ArchiveError::TotalTooLarge => ArchiveFault::TotalTooLarge,
            ArchiveError::LibOutsideSource => ArchiveFault::LibOutsideSource,
            ArchiveError::PathDependency { .. } => ArchiveFault::PathDependency,
        }
    }

    /// The name, path or alias the error is about, if any.
    pub open spec fn subject(&self) -> Seq<char> {
        match self {
            ArchiveError::Backslash { name } => name@,
            ArchiveError::Absolute { name } => name@,
            ArchiveError::ControlCharacter { name } => name@,
            ArchiveError::UnsafeComponent { name } => name@,
            ArchiveError::OutsideLayout { name } => name@,
            ArchiveError::DuplicateEntry { name } => name@,
            ArchiveError::CaseCollision { name } => name@,
            ArchiveError::SymbolicLink { name } => name@,
            ArchiveError::FileTooLarge { name } => name@,
            ArchiveError::PathDependency { alias } => alias@,
            _ => seq![],
        }
    }

    /// The diagnostic text.
    pub fn message(&self) -> (r: String)
        ensures
            r@ == archive_error_text(*self),
    {
        let mut m = String::new();
        match self {
            ArchiveError::EmptyName => push_str(&mut m, "archive contains an entry with an empty name"),
            ArchiveError::Backslash { name } => {
                push_str(&mut m, "archive entry `");
                push_str(&mut m, name.as_str());
                push_str(&mut m, "` uses a backslash path separator");
            },
            ArchiveError::Absolute { name } => {
                push_str(&mut m, "archive entry `");
                push_str(&mut m, name.as_str());
                push_str(&mut m, "` is an absolute or drive-qualified path");
            },
            ArchiveError::ControlCharacter { name } => {
                push_str(&mut m, "archive entry `");
                push_str(&mut m, name.as_str());
                push_str(&mut m, "` contains control characters");
            },
            ArchiveError::UnsafeComponent { name } => {
                push_str(&mut m, "archive entry `");
                push_str(&mut m, name.as_str());
                push_str(&mut m, "` contains an unsafe path component");
            },
            ArchiveError::OutsideLayout { name } => {
                push_str(&mut m, "archive entry `");
                push_str(&mut m, name.as_str());
                push_str(&mut m, "` is outside the allowed package layout");
            },
            ArchiveError::TooManyFiles => push_str(&mut m, "package contains more than 10000 files"),
            ArchiveError::DuplicateEntry { name } => {
                push_str(&mut m, "duplicate archive entry `");
                push_str(&mut m, name.as_str());
                push_str(&mut m, "`");
            },
            ArchiveError::CaseCollision { name } => {
                push_str(&mut m, "archive entry `");
                push_str(&mut m, name.as_str());
                push_str(&mut m, "` collides with another entry when case is folded");
            },
            ArchiveError::SymbolicLink { name } => {
                push_str(&mut m, "archive entry `");
                push_str(&mut m, name.as_str());
                push_str(&mut m, "` is a symbolic link, which is not allowed");
            },
            ArchiveError::FileTooLarge { name } => {
                push_str(&mut m, "archive entry `");
                push_str(&mut m, name.as_str());
                push_str(&mut m, "` exceeds the 134217728 byte limit");
            },
            ArchiveError::SizeOverflow => push_str(&mut m, "archive uncompressed size overflow"),
            ArchiveError::TotalTooLarge => push_str(
                &mut m,
                "archive exceeds the 268435456 byte total limit",
            ),
            ArchiveError::LibOutsideSource => push_str(
                &mut m,
                "library entry must live inside the source directory",
            ),
            ArchiveError::PathDependency { alias } => {
                push_str(&mut m, "cannot publish: dependency `");
                push_str(&mut m, alias.as_str());
                push_str(
                    &mut m,
                    "` is a path dependency; publish it first and replace it with an exact coordinate",
                );
            },
        }
        m
    }
}

// ---------------------------------------------------------------------------
// Entry names.
// ---------------------------------------------------------------------------

/// A control character (general category `Cc`: U+0000–U+001F and
/// U+007F–U+009F), as `char::is_control` documents.
pub open spec fn is_control(c: char) -> bool {
    (c as u32) <= 0x1f || (0x7f <= (c as u32) && (c as u32) <= 0x9f)
}

fn control_char(c: char) -> (r: bool)
    ensures
        r == is_control(c),
{
    let v = c as u32;
    v <= 0x1f || (0x7f <= v && v <= 0x9f)
}

/// A component that may not appear: empty, `.` or `..`.
pub open spec fn is_unsafe_component(s: Seq<char>) -> bool {
    s.len() == 0 || s == seq!['.'] || s == seq!['.', '.']
}

/// A file may live under `src/`, `native/` or `META-INF/`, or be
/// `dolphin.toml` or `LICENSE` at the top.
pub open spec fn is_allowed_file(trimmed: Seq<char>) -> bool {
    let first = segments(trimmed, '/')[0];
    first == "src"@ || first == "native"@ || first == "META-INF"@ || trimmed == "dolphin.toml"@
        || trimmed == "LICENSE"@
}

/// The first rule an entry name breaks.
pub open spec fn entry_name_fault(name: Seq<char>, is_dir: bool) -> Option<ArchiveFault> {
    let trimmed = trim_end(name, '/');
    if name.len() == 0 {
        Some(ArchiveFault::EmptyName)
    } else if has_char(name, '\\') {
        Some(ArchiveFault::Backslash)
    } else if name[0] == '/' || has_char(name, ':') {
        Some(ArchiveFault::Absolute)
    } else if exists|i: int| 0 <= i < name.len() && is_control(#[trigger] name[i]) {
        Some(ArchiveFault::ControlCharacter)
    } else if exists|i: int|
        0 <= i < segments(trimmed, '/').len() && is_unsafe_component(
            #[trigger] segments(trimmed, '/')[i],
        ) {
        Some(ArchiveFault::UnsafeComponent)
    } else if !is_dir && !is_allowed_file(trimmed) {
        Some(ArchiveFault::OutsideLayout)
    } else {
        None
    }
}

fn chars_has(chars: &Vec<char>, c: char) -> (r: bool)
    ensures
        r == has_char(chars@, c),
{
    proof {
        lemma_first_index(chars@, c);
    }
    crate::text::find_char(chars, c).is_some()
}

fn range_is(chars: &Vec<char>, from: usize, to: usize, word: &str) -> (r: bool)
    requires
        from <= to <= chars.len(),
    ensures
        r == (chars@.subrange(from as int, to as int) == word@),
{
    let piece = string_of(chars, from, to);
    str_eq(piece.as_str(), word)
}

fn has_control(chars: &Vec<char>) -> (r: bool)
    ensures
        r == exists|i: int| 0 <= i < chars@.len() && is_control(#[trigger] chars@[i]),
{
    let mut i: usize = 0;
    while i < chars.len()
        invariant
            i <= chars.len(),
            forall|k: int| 0 <= k < i ==> !is_control(#[trigger] chars@[k]),
        decreases chars.len() - i,
    {
        if control_char(chars[i]) {
            assert(is_control(chars@[i as int]));
            return true;
        }
        i = i + 1;
    }
    false
}

fn has_unsafe_component(trimmed: &Vec<char>) -> (r: bool)
    ensures
        r == exists|i: int|
            0 <= i < segments(trimmed@, '/').len() && is_unsafe_component(
                #[trigger] segments(trimmed@, '/')[i],
            ),
{
    let ranges = split_ranges(trimmed, '/');
    let ghost segs = segments(trimmed@, '/');
    let mut k: usize = 0;
    proof {
        reveal_strlit(".");
        reveal_strlit("..");
        assert("."@ =~= seq!['.']);
        assert(".."@ =~= seq!['.', '.']);
    }
    while k < ranges.len()
        invariant
            k <= ranges.len(),
            segs == segments(trimmed@, '/'),
            ranges@.len() == segs.len(),
            "."@ == seq!['.'],
            ".."@ == seq!['.', '.'],
            forall|j: int| 0 <= j < ranges@.len() ==> #[trigger] range_holds(trimmed@, ranges@[j], segs[j]),
            forall|j: int| 0 <= j < k ==> !is_unsafe_component(#[trigger] segs[j]),
        decreases ranges.len() - k,
    {
        let (from, to) = ranges[k];
        assert(range_holds(trimmed@, ranges@[k as int], segs[k as int]));
        if from == to || range_is(trimmed, from, to, ".") || range_is(trimmed, from, to, "..") {
            assert(is_unsafe_component(segs[k as int]));
            return true;
        }
        k = k + 1;
    }
    false
}

fn allowed_file(trimmed: &Vec<char>) -> (r: bool)
    ensures
        r == is_allowed_file(trimmed@),
{
    let ranges = split_ranges(trimmed, '/');
    proof {
        crate::text::lemma_segments_nonempty(trimmed@, '/');
    }
    let (from, to) = ranges[0];
    assert(range_holds(trimmed@, ranges@[0], segments(trimmed@, '/')[0]));
    assert(trimmed@.subrange(0, trimmed@.len() as int) =~= trimmed@);
    range_is(trimmed, from, to, "src") || range_is(trimmed, from, to, "native") || range_is(
        trimmed,
        from,
        to,
        "META-INF",
    ) || range_is(trimmed, 0, trimmed.len(), "dolphin.toml") || range_is(
        trimmed,
        0,
        trimmed.len(),
        "LICENSE",
    )
}

/// Checks one archive entry name.
pub fn validate_entry_name(name: &str, is_dir: bool) -> (r: Result<(), ArchiveError>)
    ensures
        r is Ok <==> entry_name_fault(name@, is_dir) is None,
        r matches Err(e) ==> Some(e.fault()) == entry_name_fault(name@, is_dir) && (e.fault()
            != ArchiveFault::EmptyName ==> e.subject() == name@),
{
    let chars = chars_of(name);
    if chars.len() == 0 {
        return Err(ArchiveError::EmptyName);
    }
    if chars_has(&chars, '\\') {
        return Err(ArchiveError::Backslash { name: name.to_owned() });
    }
    if chars[0] == '/' || chars_has(&chars, ':') {
        return Err(ArchiveError::Absolute { name: name.to_owned() });
    }
    if has_control(&chars) {
        return Err(ArchiveError::ControlCharacter { name: name.to_owned() });
    }
    let n = crate::names::trimmed_len(&chars, '/');
    let trimmed = crate::names::sub_chars(&chars, 0, n);
    assert(trimmed@ =~= trim_end(name@, '/'));
    if has_unsafe_component(&trimmed) {
        return Err(ArchiveError::UnsafeComponent { name: name.to_owned() });
    }
    if !is_dir && !allowed_file(&trimmed) {
        return Err(ArchiveError::OutsideLayout { name: name.to_owned() });
    }
    Ok(())
}

// ---------------------------------------------------------------------------
// The whole entry list.
// ---------------------------------------------------------------------------

/// `str::to_lowercase` of `s`.
pub uninterp spec fn lowercase_of(s: Seq<char>) -> Seq<char>;

/// `s` in lower case: std's `str::to_lowercase` (Unicode case mapping);
/// its result depends on `s` alone.
#[verifier::external_body]
fn to_lowercase(s: &str) -> (r: String)
    ensures
        r@ == lowercase_of(s@),
{
    s.to_lowercase()
}

/// The entry is a symbolic link: its Unix mode has the link file type.
pub open spec fn is_symlink(e: EntryRecord) -> bool {
    e.unix_mode matches Some(m) && (m & 0o170000u32) == 0o120000u32
}

/// The declared sizes of the files (not directories) among the first `n`
/// entries.
pub open spec fn files_total(entries: Seq<EntryRecord>, n: int) -> int
    decreases n,
{
    if n <= 0 {
        0
    } else {
        files_total(entries, n - 1) + if entries[n - 1].is_dir {
            0
        } else {
            entries[n - 1].size as int
        }
    }
}

/// Each entry's name in lower case.
pub open spec fn folded_names(entries: Seq<EntryRecord>) -> Seq<Seq<char>> {
    Seq::new(entries.len(), |j: int| lowercase_of(entries[j].name@))
}

/// The texts of `folded`.
pub open spec fn folded_views(folded: Seq<String>) -> Seq<Seq<char>> {
    folded.map_values(|s: String| s@)
}

/// The first rule entry `i` breaks, given that the earlier ones passed;
/// `folded` holds the entries' names in lower case.
pub open spec fn entry_fault(entries: Seq<EntryRecord>, folded: Seq<Seq<char>>, i: int) -> Option<ArchiveFault> {
    let e = entries[i];
    if entry_name_fault(e.name@, e.is_dir) is Some {
        entry_name_fault(e.name@, e.is_dir)
    } else if exists|j: int| 0 <= j < i && (#[trigger] entries[j]).name@ == e.name@ {
        Some(ArchiveFault::DuplicateEntry)
    } else if exists|j: int| 0 <= j < i && #[trigger] folded[j] == folded[i] {
        Some(ArchiveFault::CaseCollision)
    } else if is_symlink(e) {
        Some(ArchiveFault::SymbolicLink)
    } else if !e.is_dir && e.size > MAX_FILE_BYTES {
        Some(ArchiveFault::FileTooLarge)
    } else if !e.is_dir && files_total(entries, i) + e.size > u64::MAX {
        Some(ArchiveFault::SizeOverflow)
    } else if !e.is_dir && files_total(entries, i) + e.size > MAX_TOTAL_BYTES {
        Some(ArchiveFault::TotalTooLarge)
    } else {
        None
    }
}

/// The first problem among entries `0..n`.
pub open spec fn first_entry_fault(entries: Seq<EntryRecord>, folded: Seq<Seq<char>>, n: int) -> Option<ArchiveFault>
    decreases n,
{
    if n <= 0 {
        None
    } else if first_entry_fault(entries, folded, n - 1) is Some {
        first_entry_fault(entries, folded, n - 1)
    } else {
        entry_fault(entries, folded, n - 1)
    }
}

/// The index of the first entry among `0..n` that breaks a rule (`-1` if
/// none does).
pub open spec fn first_fault_at(entries: Seq<EntryRecord>, folded: Seq<Seq<char>>, n: int) -> int
    decreases n,
{
    if n <= 0 {
        -1
    } else if first_entry_fault(entries, folded, n - 1) is Some {
        first_fault_at(entries, folded, n - 1)
    } else {
        n - 1
    }
}

proof fn lemma_first_fault_at(entries: Seq<EntryRecord>, folded: Seq<Seq<char>>, i: int, n: int)
    requires
        0 <= i < n,
        first_entry_fault(entries, folded, i) is None,
        entry_fault(entries, folded, i) is Some,
    ensures
        first_fault_at(entries, folded, n) == i,
        first_entry_fault(entries, folded, n) == entry_fault(entries, folded, i),
    decreases n - i,
{
    if n > i + 1 {
        lemma_first_fault_at(entries, folded, i, n - 1);
    }
}

/// The rule broken is about an entry's name, which the error carries.
pub open spec fn names_entry(f: ArchiveFault) -> bool {
    !(f == ArchiveFault::EmptyName || f == ArchiveFault::TooManyFiles || f
        == ArchiveFault::SizeOverflow || f == ArchiveFault::TotalTooLarge)
}

/// The first rule an archive's entry list breaks: too many entries, or the
/// first entry that breaks an entry rule.
pub open spec fn entries_fault(entries: Seq<EntryRecord>, folded: Seq<Seq<char>>) -> Option<ArchiveFault> {
    if entries.len() > MAX_FILES {
        Some(ArchiveFault::TooManyFiles)
    } else {
        first_entry_fault(entries, folded, entries.len() as int)
    }
}

proof fn lemma_total_bound(entries: Seq<EntryRecord>, folded: Seq<Seq<char>>, n: int)
    requires
        0 <= n <= entries.len(),
        first_entry_fault(entries, folded, n) is None,
    ensures
        files_total(entries, n) <= MAX_TOTAL_BYTES,
    decreases n,
{
    if n > 0 {
        lemma_total_bound(entries, folded, n - 1);
    }
}

/// Two entry lists that hold the same names, kinds, modes and sizes.
pub open spec fn same_fields(a: Seq<EntryRecord>, b: Seq<EntryRecord>) -> bool {
    &&& a.len() == b.len()
    &&& forall|i: int|
        #![trigger a[i]]
        0 <= i < a.len() ==> a[i].name@ == b[i].name@ && a[i].is_dir == b[i].is_dir
            && a[i].unix_mode == b[i].unix_mode && a[i].size == b[i].size
}

proof fn lemma_total_by_fields(a: Seq<EntryRecord>, b: Seq<EntryRecord>, n: int)
    requires
        same_fields(a, b),
        n <= a.len(),
    ensures
        files_total(a, n) == files_total(b, n),
    decreases n,
{
    if n > 0 {
        lemma_total_by_fields(a, b, n - 1);
        assert(a[n - 1].size == b[n - 1].size);
    }
}

proof fn lemma_first_by_fields(a: Seq<EntryRecord>, b: Seq<EntryRecord>, folded: Seq<Seq<char>>, n: int)
    requires
        same_fields(a, b),
        n <= a.len(),
    ensures
        first_entry_fault(a, folded, n) == first_entry_fault(b, folded, n),
    decreases n,
{
    if n > 0 {
        lemma_first_by_fields(a, b, folded, n - 1);
        let i = n - 1;
        lemma_total_by_fields(a, b, i);
        assert(a[i].name@ == b[i].name@);
        assert((exists|j: int| 0 <= j < i && (#[trigger] a[j]).name@ == a[i].name@) == (exists|j: int|
            0 <= j < i && (#[trigger] b[j]).name@ == b[i].name@)) by {
            if exists|j: int| 0 <= j < i && (#[trigger] a[j]).name@ == a[i].name@ {
                let j = choose|j: int| 0 <= j < i && (#[trigger] a[j]).name@ == a[i].name@;
                assert(b[j].name@ == a[j].name@);
            }
            if exists|j: int| 0 <= j < i && (#[trigger] b[j]).name@ == b[i].name@ {
                let j = choose|j: int| 0 <= j < i && (#[trigger] b[j]).name@ == b[i].name@;
                assert(b[j].name@ == a[j].name@);
            }
        }
        assert(entry_fault(a, folded, i) == entry_fault(b, folded, i));
    }
}

/// The layout rules read only the names, kinds, modes and sizes of entries.
pub proof fn lemma_fault_by_fields(a: Seq<EntryRecord>, b: Seq<EntryRecord>)
    requires
        same_fields(a, b),
    ensures
        entries_fault(a, folded_names(a)) == entries_fault(b, folded_names(b)),
{
    assert(folded_names(a) =~= folded_names(b)) by {
        assert forall|j: int| 0 <= j < a.len() implies folded_names(a)[j] == folded_names(b)[j] by {
            assert(a[j].name@ == b[j].name@);
        }
    }
    lemma_first_by_fields(a, b, folded_names(a), a.len() as int);
}

/// Checks every entry of an archive, given each entry's name in lower case
/// (`folded[i]` for `entries[i]`).
pub fn check_folded_entries(entries: &Vec<EntryRecord>, folded: &Vec<String>) -> (r: Result<(), ArchiveError>)
    requires
        folded@.len() == entries@.len(),
    ensures
        r is Ok <==> entries_fault(entries@, folded_views(folded@)) is None,
        r matches Err(e) ==> entries_fault(entries@, folded_views(folded@)) == Some(e.fault()),
        r matches Err(e) ==> names_entry(e.fault()) ==> e.subject() == entries@[first_fault_at(
            entries@,
            folded_views(folded@),
            entries@.len() as int,
        )].name@,
{
    let ghost fv = folded_views(folded@);
    if entries.len() > MAX_FILES {
        return Err(ArchiveError::TooManyFiles);
    }
    let mut total: u64 = 0;
    let mut i: usize = 0;
    while i < entries.len()
        invariant
            i <= entries.len() <= MAX_FILES,
            first_entry_fault(entries@, fv, i as int) is None,
            total == files_total(entries@, i as int),
            folded@.len() == entries@.len(),
            fv == folded_views(folded@),
        decreases entries.len() - i,
    {
        let e = &entries[i];
        proof {
            lemma_total_bound(entries@, fv, i as int);
            assert(first_entry_fault(entries@, fv, i + 1) == entry_fault(entries@, fv, i as int));
        }
        match validate_entry_name(e.name.as_str(), e.is_dir) {
            Ok(()) => {},
            Err(err) => {
                proof {
                    lemma_first_fault_at(entries@, fv, i as int, entries@.len() as int);
                }
                return Err(err);
            },
        }
        let mut j: usize = 0;
        while j < i
            invariant
                j <= i < entries.len(),
                *e == entries@[i as int],
                entries@.len() <= MAX_FILES,
                first_entry_fault(entries@, fv, i + 1) == entry_fault(entries@, fv, i as int),
                first_entry_fault(entries@, fv, i as int) is None,
                entry_name_fault(e.name@, e.is_dir) is None,
                folded@.len() == entries@.len(),
                fv == folded_views(folded@),
                forall|k: int| 0 <= k < j ==> (#[trigger] entries@[k]).name@ != entries@[i as int].name@,
            decreases i - j,
        {
            if str_eq(entries[j].name.as_str(), e.name.as_str()) {
                proof {
                    assert(entries@[j as int].name@ == entries@[i as int].name@);
                    lemma_first_fault_at(entries@, fv, i as int, entries@.len() as int);
                }
                return Err(ArchiveError::DuplicateEntry { name: e.name.clone() });
            }
            j = j + 1;
        }
        let lower = &folded[i];
        let mut j: usize = 0;
        while j < i
            invariant
                j <= i < entries.len(),
                *e == entries@[i as int],
                entries@.len() <= MAX_FILES,
                first_entry_fault(entries@, fv, i + 1) == entry_fault(entries@, fv, i as int),
                first_entry_fault(entries@, fv, i as int) is None,
                entry_name_fault(e.name@, e.is_dir) is None,
                forall|k: int| 0 <= k < i ==> (#[trigger] entries@[k]).name@ != entries@[i as int].name@,
                folded@.len() == entries@.len(),
                fv == folded_views(folded@),
                *lower == folded@[i as int],
                forall|k: int| 0 <= k < j ==> #[trigger] fv[k] != fv[i as int],
            decreases i - j,
        {
            if str_eq(folded[j].as_str(), lower.as_str()) {
                proof {
                    assert(fv[j as int] == fv[i as int]);
                    lemma_first_fault_at(entries@, fv, i as int, entries@.len() as int);
                }
                return Err(ArchiveError::CaseCollision { name: e.name.clone() });
            }
            j = j + 1;
        }
        let link = match e.unix_mode {
            Some(mode) => mode & 0o170000u32 == 0o120000u32,
            None => false,
        };
        if link {
            proof {
                lemma_first_fault_at(entries@, fv, i as int, entries@.len() as int);
            }
            return Err(ArchiveError::SymbolicLink { name: e.name.clone() });
        }
        if !e.is_dir {
            if e.size > MAX_FILE_BYTES {
                proof {
                    lemma_first_fault_at(entries@, fv, i as int, entries@.len() as int);
                }
                return Err(ArchiveError::FileTooLarge { name: e.name.clone() });
            }
            total = match total.checked_add(e.size) {
                Some(t) => t,
                None => {
                    proof {
                        lemma_first_fault_at(entries@, fv, i as int, entries@.len() as int);
                    }
                    return Err(ArchiveError::SizeOverflow);
                },
            };
            if total > MAX_TOTAL_BYTES {
                proof {
                    lemma_first_fault_at(entries@, fv, i as int, entries@.len() as int);
                }
                return Err(ArchiveError::TotalTooLarge);
            }
        }
        i = i + 1;
    }
    Ok(())
}

/// Checks every entry of an archive before anything is unpacked: each
/// name is put in lower case, then `check_folded_entries` decides.
pub fn check_entries(entries: &Vec<EntryRecord>) -> (r: Result<(), ArchiveError>)
    ensures
        r is Ok <==> entries_fault(entries@, folded_names(entries@)) is None,
        r matches Err(e) ==> entries_fault(entries@, folded_names(entries@)) == Some(e.fault()),
        r matches Err(e) ==> names_entry(e.fault()) ==> e.subject() == entries@[first_fault_at(
            entries@,
            folded_names(entries@),
            entries@.len() as int,
        )].name@,
{
    if entries.len() > MAX_FILES {
        return Err(ArchiveError::TooManyFiles);
    }
    let mut folded: Vec<String> = Vec::new();
    let mut i: usize = 0;
    while i < entries.len()
        invariant
            i <= entries.len(),
            folded@.len() == i,
            forall|j: int| 0 <= j < i ==> (#[trigger] folded@[j])@ == lowercase_of(entries@[j].name@),
        decreases entries.len() - i,
    {
        folded.push(to_lowercase(entries[i].name.as_str()));
        i = i + 1;
    }
    assert(folded_views(folded@) =~= folded_names(entries@));
    check_folded_entries(entries, &folded)
}

// ---------------------------------------------------------------------------
// Text in the package.
// ---------------------------------------------------------------------------

/// One character as it stands in a TOML basic string.
pub open spec fn escaped_char(c: char) -> Seq<char> {
    if c == '\\' {
        seq!['\\', '\\']
    } else if c == '"' {
        seq!['\\', '"']
    } else if c == '\n' {
        seq!['\\', 'n']
    } else if c == '\r' {
        seq!['\\', 'r']
    } else if c == '\t' {
        seq!['\\', 't']
    } else {
        seq![c]
    }
}

/// `s` with each character escaped.
pub open spec fn escaped(s: Seq<char>) -> Seq<char>
    decreases s.len(),
{
    if s.len() == 0 {
        seq![]
    } else {
        escaped(s.drop_last()) + escaped_char(s.last())
    }
}

/// `s` as a quoted TOML basic string.
pub open spec fn toml_text(s: Seq<char>) -> Seq<char> {
    seq!['"'] + escaped(s) + seq!['"']
}

/// Appends `value` as a quoted TOML basic string.
pub fn push_toml_string(out: &mut String, value: &str)
    ensures
        final(out)@ == old(out)@ + toml_text(value@),
{
    let chars = chars_of(value);
    push_char(out, '"');
    let ghost start = out@;
    let mut i: usize = 0;
    while i < chars.len()
        invariant
            i <= chars.len(),
            chars@ == value@,
            out@ == start + escaped(chars@.take(i as int)),
        decreases chars.len() - i,
    {
        let c = chars[i];
        if c == '\\' {
            push_char(out, '\\');
            push_char(out, '\\');
        } else if c == '"' {
            push_char(out, '\\');
            push_char(out, '"');
        } else if c == '\n' {
            push_char(out, '\\');
            push_char(out, 'n');
        } else if c == '\r' {
            push_char(out, '\\');
            push_char(out, 'r');
        } else if c == '\t' {
            push_char(out, '\\');
            push_char(out, 't');
        } else {
            push_char(out, c);
        }
        assert(chars@.take(i + 1).drop_last() =~= chars@.take(i as int));
        i = i + 1;
        assert(out@ =~= start + escaped(chars@.take(i as int)));
    }
    assert(chars@.take(chars@.len() as int) =~= chars@);
    push_char(out, '"');
    assert(final(out)@ =~= old(out)@ + toml_text(value@));
}

/// `value` as a quoted TOML basic string.
pub fn toml_string(value: &str) -> (r: String)
    ensures
        r@ == toml_text(value@),
{
    let mut r = String::new();
    push_toml_string(&mut r, value);
    r
}

/// `path` relative to `base` (`Path::strip_prefix`): when the components
/// of `base` begin those of `path`, the rest joined with `/`.
pub open spec fn relative_under(base: Seq<char>, path: Seq<char>) -> Option<Seq<char>> {
    let b = components(base);
    let p = components(path);
    if b.len() <= p.len() && p.take(b.len() as int) == b {
        Some(slash_joined(p.skip(b.len() as int)))
    } else {
        None
    }
}

/// `path` relative to `base`, `/`-separated.
pub fn strip_base(base: &str, path: &str) -> (r: Option<String>)
    ensures
        r is Some <==> relative_under(base@, path@) is Some,
        r matches Some(s) ==> Some(s@) == relative_under(base@, path@),
{
    let b = path_components(base);
    let p = path_components(path);
    assert(texts(b@).len() == b@.len());
    assert(texts(p@).len() == p@.len());
    if b.len() > p.len() {
        return None;
    }
    let mut i: usize = 0;
    while i < b.len()
        invariant
            i <= b.len() <= p.len(),
            texts(b@) == components(base@),
            texts(p@) == components(path@),
            forall|k: int| 0 <= k < i ==> texts(b@)[k] == texts(p@)[k],
        decreases b.len() - i,
    {
        if !str_eq(b[i].as_str(), p[i].as_str()) {
            proof {
                assert(texts(p@).take(b.len() as int)[i as int] != texts(b@)[i as int]);
                assert(texts(p@).take(b.len() as int) != texts(b@));
            }
            return None;
        }
        i = i + 1;
    }
    assert(texts(p@).take(b.len() as int) =~= texts(b@));
    let mut out = String::new();
    let mut k: usize = b.len();
    let ghost rest = texts(p@).skip(b.len() as int);
    while k < p.len()
        invariant
            b.len() <= k <= p.len(),
            rest == texts(p@).skip(b.len() as int),
            out@ == slash_joined(rest.take(k - b.len())),
        decreases p.len() - k,
    {
        assert(rest.take(k + 1 - b.len()).drop_last() =~= rest.take(k - b.len()));
        if k > b.len() {
            push_char(&mut out, '/');
        }
        push_str(&mut out, p[k].as_str());
        k = k + 1;
    }
    assert(rest.take(p.len() - b.len()) =~= rest);
    Some(out)
}

/// `rel` is where some binary of `manifest` lies relative to the source
/// directory.
pub open spec fn is_bin_relative(manifest: Manifest, rel: Seq<char>) -> bool {
    exists|j: int|
        0 <= j < manifest.bins@.len() && relative_under(
            manifest.package.source@,
            (#[trigger] manifest.bins@[j]).path@,
        ) == Some(rel)
}

/// Some entry of `out` is `rel`.
pub open spec fn listed(out: Seq<String>, rel: Seq<char>) -> bool {
    exists|i: int| 0 <= i < out.len() && (#[trigger] out[i])@ == rel
}

/// Where each binary entry lies relative to the source directory; binaries
/// outside it are left out.
pub fn bin_paths_relative_to_source(manifest: &Manifest) -> (r: Vec<String>)
    ensures
        forall|i: int| 0 <= i < r@.len() ==> is_bin_relative(*manifest, (#[trigger] r@[i])@),
        forall|j: int|
            0 <= j < manifest.bins@.len() && relative_under(
                manifest.package.source@,
                (#[trigger] manifest.bins@[j]).path@,
            ) is Some ==> listed(
                r@,
                relative_under(manifest.package.source@, manifest.bins@[j].path@)->0,
            ),
{
    let mut out: Vec<String> = Vec::new();
    let mut j: usize = 0;
    while j < manifest.bins.len()
        invariant
            j <= manifest.bins.len(),
            forall|i: int| 0 <= i < out@.len() ==> is_bin_relative(*manifest, (#[trigger] out@[i])@),
            forall|k: int|
                0 <= k < j && relative_under(
                    manifest.package.source@,
                    (#[trigger] manifest.bins@[k]).path@,
                ) is Some ==> listed(
                    out@,
                    relative_under(manifest.package.source@, manifest.bins@[k].path@)->0,
                ),
        decreases manifest.bins.len() - j,
    {
        match strip_base(manifest.package.source.as_str(), manifest.bins[j].path.as_str()) {
            Some(rel) => {
                let ghost before = out@;
                assert(is_bin_relative(*manifest, rel@)) by {
                    assert(relative_under(manifest.package.source@, manifest.bins@[j as int].path@) == Some(rel@));
                }
                out.push(rel);
                proof {
                    assert forall|i: int| 0 <= i < out@.len() implies is_bin_relative(
                        *manifest,
                        (#[trigger] out@[i])@,
                    ) by {
                        if i < before.len() {
                            assert(out@[i] == before[i]);
                        }
                    }
                    assert forall|k: int|
                        0 <= k < j + 1 && relative_under(
                            manifest.package.source@,
                            (#[trigger] manifest.bins@[k]).path@,
                        ) is Some implies listed(
                        out@,
                        relative_under(manifest.package.source@, manifest.bins@[k].path@)->0,
                    ) by {
                        if k < j {
                            let target = relative_under(manifest.package.source@, manifest.bins@[k].path@)->0;
                            assert(listed(before, target));
                            let i = choose|i: int| 0 <= i < before.len() && (#[trigger] before[i])@ == target;
                            assert(out@[i] == before[i]);
                        } else {
                            assert(out@[before.len() as int]@ == rel@);
                        }
                    }
                }
            },
            None => {},
        }
        j = j + 1;
    }
    out
}

// ---------------------------------------------------------------------------
// The normalized manifest a package carries.
// ---------------------------------------------------------------------------

/// One target's native files as they stand in the archive.
#[derive(Debug, Clone)]
pub struct NormalizedTarget {
    pub triple: String,
    pub objects: Vec<String>,
    pub static_libs: Vec<String>,
    pub shared_libs: Vec<String>,
    pub runtime_files: Vec<String>,
}

pub open spec fn package_section(m: Manifest) -> Seq<char> {
    "[package]\n"@ + "group = "@ + toml_text(m.package.group@) + "\n"@ + "name = "@ + toml_text(
        m.package.name@,
    ) + "\n"@ + "version = "@ + toml_text(m.package.version@) + "\n"@ + "source = \"src\"\n\n"@
}

pub open spec fn lib_section(relative: Seq<char>) -> Seq<char> {
    "[lib]\n"@ + "path = "@ + toml_text("src/"@ + relative) + "\n\n"@
}

/// The line of a coordinate dependency: the shorthand for the default
/// repository, an inline table otherwise.
pub open spec fn dependency_line(d: crate::manifest::Dependency) -> Seq<char> {
    match d.kind {
        DependencyKind::Coordinate { coordinate, repository } => if repository@ == "default"@ {
            d.alias@ + " = "@ + toml_text(coordinate@) + "\n"@
        } else {
            d.alias@ + " = { coordinate = "@ + toml_text(coordinate@) + ", repository = "@
                + toml_text(repository@) + " }\n"@
        },
        DependencyKind::Path(_) => seq![],
    }
}

pub open spec fn dependency_lines(deps: Seq<crate::manifest::Dependency>) -> Seq<char>
    decreases deps.len(),
{
    if deps.len() == 0 {
        seq![]
    } else {
        dependency_lines(deps.drop_last()) + dependency_line(deps.last())
    }
}

pub open spec fn dependencies_section(deps: Seq<crate::manifest::Dependency>) -> Seq<char> {
    if deps.len() == 0 {
        seq![]
    } else {
        "[dependencies]\n"@ + dependency_lines(deps) + "\n"@
    }
}

/// Quoted values separated by `, `.
pub open spec fn value_list(values: Seq<String>) -> Seq<char>
    decreases values.len(),
{
    if values.len() == 0 {
        seq![]
    } else if values.len() == 1 {
        toml_text(values[0]@)
    } else {
        value_list(values.drop_last()) + ", "@ + toml_text(values.last()@)
    }
}

pub open spec fn key_line(key: Seq<char>, values: Seq<String>) -> Seq<char> {
    if values.len() == 0 {
        seq![]
    } else {
        key + " = ["@ + value_list(values) + "]\n"@
    }
}

pub open spec fn target_section(t: NormalizedTarget) -> Seq<char> {
    "[native."@ + t.triple@ + "]\n"@ + key_line("objects"@, t.objects@) + key_line(
        "static-libs"@,
        t.static_libs@,
    ) + key_line("shared-libs"@, t.shared_libs@) + key_line("runtime-files"@, t.runtime_files@)
        + "\n"@
}

pub open spec fn native_sections(ts: Seq<NormalizedTarget>) -> Seq<char>
    decreases ts.len(),
{
    if ts.len() == 0 {
        seq![]
    } else {
        native_sections(ts.drop_last()) + target_section(ts.last())
    }
}

/// The alias of the first path dependency.
pub open spec fn first_path_dependency(deps: Seq<crate::manifest::Dependency>) -> Option<Seq<char>>
    decreases deps.len(),
{
    if deps.len() == 0 {
        None
    } else if deps[0].kind is Path {
        Some(deps[0].alias@)
    } else {
        first_path_dependency(deps.drop_first())
    }
}

fn push_value_list(out: &mut String, values: &Vec<String>)
    ensures
        final(out)@ == old(out)@ + value_list(values@),
{
    let ghost start = out@;
    let mut i: usize = 0;
    while i < values.len()
        invariant
            i <= values.len(),
            out@ == start + value_list(values@.take(i as int)),
        decreases values.len() - i,
    {
        assert(values@.take(i + 1).drop_last() =~= values@.take(i as int));
        if i > 0 {
            push_str(out, ", ");
        }
        push_toml_string(out, values[i].as_str());
        i = i + 1;
    }
    assert(values@.take(values@.len() as int) =~= values@);
}

fn push_key_line(out: &mut String, key: &str, values: &Vec<String>)
    ensures
        final(out)@ == old(out)@ + key_line(key@, values@),
{
    if values.len() == 0 {
        assert(old(out)@ + key_line(key@, values@) =~= old(out)@);
        return ;
    }
    push_str(out, key);
    push_str(out, " = [");
    push_value_list(out, values);
    push_str(out, "]\n");
}

fn push_dependency_line(out: &mut String, d: &crate::manifest::Dependency)
    ensures
        final(out)@ == old(out)@ + dependency_line(*d),
{
    match &d.kind {
        DependencyKind::Coordinate { coordinate, repository } => {
            if str_eq(repository.as_str(), "default") {
                push_str(out, d.alias.as_str());
                push_str(out, " = ");
                push_toml_string(out, coordinate.as_str());
                push_str(out, "\n");
            } else {
                push_str(out, d.alias.as_str());
                push_str(out, " = { coordinate = ");
                push_toml_string(out, coordinate.as_str());
                push_str(out, ", repository = ");
                push_toml_string(out, repository.as_str());
                push_str(out, " }\n");
            }
        },
        DependencyKind::Path(_) => {
            assert(old(out)@ + dependency_line(*d) =~= old(out)@);
        },
    }
}

fn push_target_section(out: &mut String, target: &NormalizedTarget)
    ensures
        final(out)@ == old(out)@ + target_section(*target),
{
    push_str(out, "[native.");
    push_str(out, target.triple.as_str());
    push_str(out, "]\n");
    push_key_line(out, "objects", &target.objects);
    push_key_line(out, "static-libs", &target.static_libs);
    push_key_line(out, "shared-libs", &target.shared_libs);
    push_key_line(out, "runtime-files", &target.runtime_files);
    push_str(out, "\n");
    assert(final(out)@ =~= old(out)@ + target_section(*target));
}

fn find_path_dependency(deps: &Vec<crate::manifest::Dependency>) -> (r: Option<usize>)
    ensures
        r is Some <==> first_path_dependency(deps@) is Some,
        r matches Some(i) ==> i < deps@.len() && first_path_dependency(deps@) == Some(deps@[i as int].alias@),
{
    let mut i: usize = 0;
    assert(deps@.skip(0) =~= deps@);
    while i < deps.len()
        invariant
            i <= deps.len(),
            first_path_dependency(deps@) == first_path_dependency(deps@.skip(i as int)),
        decreases deps.len() - i,
    {
        assert(deps@.skip(i as int)[0] == deps@[i as int]);
        assert(deps@.skip(i as int).drop_first() =~= deps@.skip(i + 1));
        match &deps[i].kind {
            DependencyKind::Path(_) => {
                return Some(i);
            },
            _ => {},
        }
        i = i + 1;
    }
    None
}

/// The manifest a package carries: `[package]` with `source = "src"`, the
/// `[lib]` entry under `src/`, the exact coordinate dependencies, and the
/// native tables. Refused when the library entry lies outside the source
/// directory or when a dependency is a path dependency.
pub fn normalized_manifest(
    manifest: &Manifest,
    lib_relative: Option<&str>,
    native: &Vec<NormalizedTarget>,
) -> (r: Result<String, ArchiveError>)
    ensures
        lib_relative is None ==> (r matches Err(e) && e.fault() == ArchiveFault::LibOutsideSource),
        lib_relative is Some && first_path_dependency(manifest.dependencies@) is Some ==> (r matches Err(e)
            && e.fault() == ArchiveFault::PathDependency && e.subject() == first_path_dependency(
            manifest.dependencies@,
        )->0),
        lib_relative is Some && first_path_dependency(manifest.dependencies@) is None ==> (r matches Ok(text)
            && text@ == package_section(*manifest) + lib_section(lib_relative->0@)
            + dependencies_section(manifest.dependencies@) + native_sections(native@)),
{
    let rel = match lib_relative {
        Some(rel) => rel,
        None => {
            return Err(ArchiveError::LibOutsideSource);
        },
    };
    if let Some(i) = find_path_dependency(&manifest.dependencies) {
        return Err(ArchiveError::PathDependency { alias: manifest.dependencies[i].alias.clone() });
    }
    let mut output = String::new();
    push_str(&mut output, "[package]\n");
    push_str(&mut output, "group = ");
    push_toml_string(&mut output, manifest.package.group.as_str());
    push_str(&mut output, "\n");
    push_str(&mut output, "name = ");
    push_toml_string(&mut output, manifest.package.name.as_str());
    push_str(&mut output, "\n");
    push_str(&mut output, "version = ");
    push_toml_string(&mut output, manifest.package.version.as_str());
    push_str(&mut output, "\n");
    push_str(&mut output, "source = \"src\"\n\n");
    assert(output@ =~= package_section(*manifest));
    let ghost after_package = output@;
    push_str(&mut output, "[lib]\n");
    push_str(&mut output, "path = ");
    let mut lib_path = String::new();
    push_str(&mut lib_path, "src/");
    push_str(&mut lib_path, rel);
    push_toml_string(&mut output, lib_path.as_str());
    push_str(&mut output, "\n\n");
    assert(output@ =~= after_package + lib_section(rel@));
    let ghost after_lib = output@;
    let deps = &manifest.dependencies;
    if deps.len() > 0 {
        push_str(&mut output, "[dependencies]\n");
        let ghost start = output@;
        let mut i: usize = 0;
        while i < deps.len()
            invariant
                i <= deps.len(),
                output@ == start + dependency_lines(deps@.take(i as int)),
            decreases deps.len() - i,
        {
            assert(deps@.take(i + 1).drop_last() =~= deps@.take(i as int));
            push_dependency_line(&mut output, &deps[i]);
            i = i + 1;
            assert(output@ =~= start + dependency_lines(deps@.take(i as int)));
        }
        assert(deps@.take(deps@.len() as int) =~= deps@);
        push_str(&mut output, "\n");
    }
    assert(output@ =~= after_lib + dependencies_section(deps@));
    let ghost after_deps = output@;
    let mut t: usize = 0;
    while t < native.len()
        invariant
            t <= native.len(),
            output@ == after_deps + native_sections(native@.take(t as int)),
        decreases native.len() - t,
    {
        push_target_section(&mut output, &native[t]);
        assert(native@.take(t + 1).drop_last() =~= native@.take(t as int));
        t = t + 1;
        assert(output@ =~= after_deps + native_sections(native@.take(t as int)));
    }
    assert(native@.take(native@.len() as int) =~= native@);
    Ok(output)
}


// ---------------------------------------------------------------------------
// The order of entries in a written archive.
// ---------------------------------------------------------------------------

/// One entry to write into an archive.
#[derive(Debug, Clone)]
pub struct ArchiveEntry {
    pub path: String,
    pub bytes: Vec<u8>,
}

impl TextKeyed for ArchiveEntry {
    open spec fn key_view(&self) -> Seq<char> {
        self.path@
    }

    fn text_key(&self) -> (r: &str) {
        self.path.as_str()
    }
}

/// Two entries of `entries` have the path `path`.
pub open spec fn is_duplicated(entries: Seq<ArchiveEntry>, path: Seq<char>) -> bool {
    exists|i: int, j: int|
        0 <= i < j < entries.len() && (#[trigger] entries[i]).path@ == path && (#[trigger] entries[j]).path@
            == path
}

/// Orders the entries of an archive by path. Refused when two entries share
/// a path; the error names the first such path in path order.
pub fn order_entries(entries: Vec<ArchiveEntry>) -> (r: Result<Vec<ArchiveEntry>, ArchiveError>)
    ensures
        r is Ok <==> forall|p: Seq<char>| !is_duplicated(entries@, p),
        r matches Ok(v) ==> v@.to_multiset() == entries@.to_multiset() && v@.len() == entries@.len()
            && sorted_by_key(v@),
        r matches Err(e) ==> e.fault() == ArchiveFault::DuplicateEntry && is_duplicated(
            entries@,
            e.subject(),
        ) && forall|p: Seq<char>| is_duplicated(entries@, p) ==> !text_lt(p, e.subject()),
{
    let mut best: Option<usize> = None;
    let mut i: usize = 0;
    while i < entries.len()
        invariant
            i <= entries.len(),
            best matches Some(b) ==> b < entries.len() && is_duplicated(entries@, entries@[b as int].path@),
            forall|a: int, c: int|
                0 <= a < c < entries@.len() && a < i && (#[trigger] entries@[a]).path@ == (#[trigger] entries@[c]).path@
                    ==> (best matches Some(b) && !text_lt(entries@[a].path@, entries@[b as int].path@)),
        decreases entries.len() - i,
    {
        let mut j: usize = i + 1;
        while j < entries.len()
            invariant
                i < entries.len(),
                i + 1 <= j <= entries.len(),
                best matches Some(b) ==> b < entries.len() && is_duplicated(entries@, entries@[b as int].path@),
                forall|a: int, c: int|
                    0 <= a < c < entries@.len() && a < i && (#[trigger] entries@[a]).path@ == (#[trigger] entries@[c]).path@
                        ==> (best matches Some(b) && !text_lt(entries@[a].path@, entries@[b as int].path@)),
                forall|c: int|
                    i < c < j && (#[trigger] entries@[c]).path@ == entries@[i as int].path@ ==> (best matches Some(b)
                        && !text_lt(entries@[i as int].path@, entries@[b as int].path@)),
            decreases entries.len() - j,
        {
            if str_eq(entries[i].path.as_str(), entries[j].path.as_str()) {
                let replace = match best {
                    None => true,
                    Some(b) => str_lt(entries[i].path.as_str(), entries[b].path.as_str()),
                };
                proof {
                    assert(is_duplicated(entries@, entries@[i as int].path@)) by {
                        assert(entries@[j as int].path@ == entries@[i as int].path@);
                    }
                }
                if replace {
                    proof {
                        if let Some(b) = best {
                            assert forall|a: int, c: int|
                                0 <= a < c < entries@.len() && a < i && (#[trigger] entries@[a]).path@
                                    == (#[trigger] entries@[c]).path@ implies !text_lt(
                                entries@[a].path@,
                                entries@[i as int].path@,
                            ) by {
                                assert(!text_lt(entries@[a].path@, entries@[b as int].path@));
                                if text_lt(entries@[a].path@, entries@[i as int].path@) {
                                    crate::order::lemma_text_lt_total(entries@[a].path@, entries@[b as int].path@);
                                    if entries@[a].path@ != entries@[b as int].path@ {
                                        crate::order::lemma_text_lt_transitive(
                                            entries@[b as int].path@,
                                            entries@[a].path@,
                                            entries@[i as int].path@,
                                        );
                                    }
                                    crate::order::lemma_text_lt_asymmetric(
                                        entries@[i as int].path@,
                                        entries@[b as int].path@,
                                    );
                                }
                            }
                        }
                        crate::order::lemma_text_lt_irreflexive(entries@[i as int].path@);
                        assert forall|c: int|
                            i < c < j + 1 && (#[trigger] entries@[c]).path@ == entries@[i as int].path@ implies !text_lt(
                            entries@[i as int].path@,
                            entries@[i as int].path@,
                        ) by {}
                    }
                    best = Some(i);
                } else {
                    proof {
                        let b = best->0;
                        crate::order::lemma_text_lt_total(entries@[i as int].path@, entries@[b as int].path@);
                    }
                }
            }
            j = j + 1;
        }
        i = i + 1;
    }
    if let Some(b) = best {
        let name = entries[b].path.clone();
        proof {
            assert forall|p: Seq<char>| is_duplicated(entries@, p) implies !text_lt(p, entries@[b as int].path@) by {
                let (a, c) = choose|a: int, c: int|
                    0 <= a < c < entries@.len() && (#[trigger] entries@[a]).path@ == p && (#[trigger] entries@[c]).path@
                        == p;
                assert(entries@[a].path@ == entries@[c].path@);
            }
        }
        return Err(ArchiveError::DuplicateEntry { name });
    }
    proof {
        assert forall|p: Seq<char>| !is_duplicated(entries@, p) by {
            if is_duplicated(entries@, p) {
                let (a, c) = choose|a: int, c: int|
                    0 <= a < c < entries@.len() && (#[trigger] entries@[a]).path@ == p && (#[trigger] entries@[c]).path@
                        == p;
                assert(entries@[a].path@ == entries@[c].path@);
            }
        }
    }
    Ok(sort_by_key(entries))
}


// ---------------------------------------------------------------------------
// Package metadata.
// ---------------------------------------------------------------------------

/// Why a fetched package's metadata is refused.
#[derive(Debug, Clone, PartialEq, Eq)]
pub enum MetadataError {
    /// The metadata names another coordinate.
    Coordinate { declared: String },
    /// Another archive format version.
    FormatVersion { version: u32 },
    /// Not a source package.
    Kind { kind: String },
    /// Built by another compiler version.
    CompilerVersion { version: String },
}

impl MetadataError {
    /// The diagnostic text for the package `coordinate`.
    pub fn message(&self, coordinate: &str) -> (r: String)
        ensures
            r@ == "package `"@ + coordinate@ + match *self {
                MetadataError::Coordinate { declared } => "` declares coordinate `"@ + declared@
                    + "`"@,
                MetadataError::FormatVersion { version } => "` uses archive format-version "@
                    + crate::text::decimal(version as nat) + ", this dc supports 1"@,
                MetadataError::Kind { kind } => "` has kind `"@ + kind@ + "`, expected `source`"@,
                MetadataError::CompilerVersion { version } => "` was built with dc "@ + version@
                    + ", but this is dc 0.1.0; versions must match exactly"@,
            },
    {
        let mut m = String::new();
        push_str(&mut m, "package `");
        push_str(&mut m, coordinate);
        match self {
            MetadataError::Coordinate { declared } => {
                push_str(&mut m, "` declares coordinate `");
                push_str(&mut m, declared.as_str());
                push_str(&mut m, "`");
            },
            MetadataError::FormatVersion { version } => {
                push_str(&mut m, "` uses archive format-version ");
                crate::text::push_decimal(&mut m, *version as u64);
                push_str(&mut m, ", this dc supports 1");
            },
            MetadataError::Kind { kind } => {
                push_str(&mut m, "` has kind `");
                push_str(&mut m, kind.as_str());
                push_str(&mut m, "`, expected `source`");
            },
            MetadataError::CompilerVersion { version } => {
                push_str(&mut m, "` was built with dc ");
                push_str(&mut m, version.as_str());
                push_str(&mut m, ", but this is dc 0.1.0; versions must match exactly");
            },
        }
        m
    }
}

/// Checks the metadata of a package fetched for `coordinate`: same
/// coordinate, this archive format, a source package, and exactly this
/// compiler version.
pub fn check_metadata(coordinate: &str, metadata: &PackageMetadata) -> (r: Result<(), MetadataError>)
    ensures
        r is Ok <==> (metadata.coordinate@ == coordinate@ && metadata.format_version == FORMAT_VERSION
            && metadata.kind@ == "source"@ && metadata.compiler_version@
            == crate::lockfile::COMPILER_VERSION@),
        r matches Err(MetadataError::Coordinate { declared }) ==> declared@ == metadata.coordinate@,
        metadata.coordinate@ != coordinate@ ==> r matches Err(MetadataError::Coordinate { .. }),
{
    if !str_eq(metadata.coordinate.as_str(), coordinate) {
        return Err(MetadataError::Coordinate { declared: metadata.coordinate.clone() });
    }
    if metadata.format_version != FORMAT_VERSION {
        return Err(MetadataError::FormatVersion { version: metadata.format_version });
    }
    if !str_eq(metadata.kind.as_str(), "source") {
        return Err(MetadataError::Kind { kind: metadata.kind.clone() });
    }
    if !str_eq(metadata.compiler_version.as_str(), crate::lockfile::COMPILER_VERSION) {
        return Err(MetadataError::CompilerVersion { version: metadata.compiler_version.clone() });
    }
    Ok(())
}

/// An entry name that an archive may hold never leaves the package
/// directory: it is not empty, has no backslash, no `:` (drive or scheme),
/// does not start at the root, holds no control character, and none of its
/// `/`-separated components is empty, `.` or `..`.
pub proof fn accepted_entry_names_stay_inside(name: Seq<char>, is_dir: bool)
    requires
        entry_name_fault(name, is_dir) is None,
    ensures
        name.len() > 0,
        name[0] != '/',
        forall|i: int| 0 <= i < name.len() ==> name[i] != '\\' && name[i] != ':' && !((name[i] as u32) < 32),
        forall|i: int|
            0 <= i < segments(trim_end(name, '/'), '/').len() ==> #[trigger] segments(trim_end(name, '/'), '/')[i]
                != ".."@ && segments(trim_end(name, '/'), '/')[i] != "."@ && segments(trim_end(name, '/'), '/')[i].len() > 0,
{
    reveal_strlit("..");
    reveal_strlit(".");
    assert forall|i: int| 0 <= i < name.len() implies name[i] != '\\' && name[i] != ':' && !((name[i] as u32) < 32) by {
        assert(is_control(name[i]) ==> !(0 <= i < name.len() && !is_control(name[i])));
    }
    assert forall|i: int| 0 <= i < segments(trim_end(name, '/'), '/').len() implies #[trigger] segments(
        trim_end(name, '/'),
        '/',
    )[i] != ".."@ && segments(trim_end(name, '/'), '/')[i] != "."@ && segments(trim_end(name, '/'), '/')[i].len()
        > 0 by {
        let seg = segments(trim_end(name, '/'), '/')[i];
        assert(!is_unsafe_component(seg));
        if seg == ".."@ {
            assert(seg =~= seq!['.', '.']);
        }
        if seg == "."@ {
            assert(seg =~= seq!['.']);
        }
    }
}

proof fn lemma_every_entry_passes(entries: Seq<EntryRecord>, folded: Seq<Seq<char>>, n: int)
    requires
        0 <= n <= entries.len(),
        first_entry_fault(entries, folded, n) is None,
    ensures
        forall|i: int| 0 <= i < n ==> entry_fault(entries, folded, i) is None,
    decreases n,
{
    if n > 0 {
        lemma_every_entry_passes(entries, folded, n - 1);
    }
}

/// What an accepted archive holds: at most 10000 entries, no two with the
/// same name, no symbolic link, no file over 134217728 bytes, and files
/// that add up to at most 268435456 bytes; each name is one an archive may
/// hold.
pub proof fn accepted_archives_are_bounded(entries: Seq<EntryRecord>)
    requires
        entries_fault(entries, folded_names(entries)) is None,
    ensures
        entries.len() <= 10000,
        files_total(entries, entries.len() as int) <= 268435456,
        forall|i: int| 0 <= i < entries.len() && !(#[trigger] entries[i]).is_dir ==> entries[i].size <= 134217728,
        forall|i: int| 0 <= i < entries.len() ==> entry_name_fault((#[trigger] entries[i]).name@, entries[i].is_dir) is None,
        forall|i: int|
            0 <= i < entries.len() ==> !((#[trigger] entries[i]).unix_mode matches Some(m) && (m & 0o170000u32)
                == 0o120000u32),
        forall|i: int, j: int| 0 <= i < j < entries.len() ==> (#[trigger] entries[i]).name@ != (#[trigger] entries[j]).name@,
{
    let folded = folded_names(entries);
    lemma_every_entry_passes(entries, folded, entries.len() as int);
    lemma_total_bound(entries, folded, entries.len() as int);
    assert forall|i: int, j: int| 0 <= i < j < entries.len() implies (#[trigger] entries[i]).name@ != (
    #[trigger] entries[j]).name@ by {
        assert(entry_fault(entries, folded, j) is None);
    }
    assert forall|i: int| 0 <= i < entries.len() implies entry_name_fault((#[trigger] entries[i]).name@, entries[i].is_dir) is None by {
        assert(entry_fault(entries, folded, i) is None);
    }
    assert forall|i: int| 0 <= i < entries.len() && !(#[trigger] entries[i]).is_dir implies entries[i].size <= 134217728 by {
        assert(entry_fault(entries, folded, i) is None);
    }
    assert forall|i: int| 0 <= i < entries.len() implies !((#[trigger] entries[i]).unix_mode matches Some(m) && (m
        & 0o170000u32) == 0o120000u32) by {
        assert(entry_fault(entries, folded, i) is None);
    }
}

} // verus!
