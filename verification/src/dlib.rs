//! `.dlib` archives in ZIP form: listing and checking the entries of the
//! archive bytes, reading the metadata under its size limit, the limits
//! that hold while unpacking, and writing an archive reproducibly.
use vstd::prelude::*;

use std::io::{Cursor, Read, Write};
use zip::write::SimpleFileOptions;
use zip::{CompressionMethod, DateTime, ZipArchive, ZipWriter};

use crate::archive::{
    check_entries, entries_fault, folded_names, is_duplicated, order_entries, ArchiveEntry, ArchiveError,
    EntryRecord, MAX_FILE_BYTES, MAX_METADATA_BYTES, MAX_TOTAL_BYTES, METADATA_PATH,
};
use crate::order::{lemma_text_lt_asymmetric, sorted_by_key, text_le, TextKeyed};
use crate::text::push_str;

verus! {

// ---------------------------------------------------------------------------
// Reading.
// ---------------------------------------------------------------------------

/// An entry record as plain values: name, directory flag, Unix mode, size.
pub open spec fn record_view(e: EntryRecord) -> (Seq<char>, bool, Option<u32>, u64) {
    (e.name@, e.is_dir, e.unix_mode, e.size)
}

pub open spec fn record_views(v: Seq<EntryRecord>) -> Seq<(Seq<char>, bool, Option<u32>, u64)> {
    v.map_values(|e: EntryRecord| record_view(e))
}

/// The entries `zip::ZipArchive` lists for `archive`, in archive order;
/// `None` when it cannot open the archive or one of its entries.
pub uninterp spec fn zip_listing_of(archive: Seq<u8>) -> Option<Seq<(Seq<char>, bool, Option<u32>, u64)>>;

/// Which step of reading the archive `zip` refused, with its message.
#[derive(Debug, Clone, PartialEq, Eq)]
pub enum ZipFault {
    /// The archive itself (its central directory).
    Archive(String),
    /// One entry of the archive.
    Entry(String),
}

/// `zip::ZipArchive::new` on the bytes, then `by_index` on each entry,
/// read as name, `is_dir`, `unix_mode` and `size`. The listing depends on
/// the bytes alone; which step failed, and the error's text, are passed on.
#[verifier::external_body]
fn zip_listing(archive: &[u8]) -> (r: Result<Vec<EntryRecord>, ZipFault>)
    ensures
        r is Ok <==> zip_listing_of(archive@) is Some,
        r matches Ok(v) ==> record_views(v@) == zip_listing_of(archive@)->0,
{
    let mut zip = ZipArchive::new(Cursor::new(archive)).map_err(|e| ZipFault::Archive(e.to_string()))?;
    (0..zip.len()).map(|i| match zip.by_index(i) {
        Ok(e) => Ok(EntryRecord { name: e.name().to_string(), is_dir: e.is_dir(), unix_mode: e.unix_mode(), size: e.size() }),
        Err(e) => Err(ZipFault::Entry(e.to_string())),
    }).collect()
}

/// The entries of an archive, as `zip` lists them.
pub fn archive_records(archive: &[u8]) -> (r: Result<Vec<EntryRecord>, ZipFault>)
    ensures
        r is Ok <==> zip_listing_of(archive@) is Some,
        r matches Ok(v) ==> record_views(v@) == zip_listing_of(archive@)->0,
{
    zip_listing(archive)
}

/// Why archive bytes are refused before anything is unpacked.
#[derive(Debug, Clone, PartialEq, Eq)]
pub enum ArchiveReadError {
    /// `zip` cannot read the archive.
    Unreadable(ZipFault),
    /// An entry breaks a rule of the package layout.
    Refused(ArchiveError),
}

impl ArchiveReadError {
    /// The diagnostic text.
    pub fn message(&self) -> (r: String)
        ensures
            r@ == match *self {
                ArchiveReadError::Unreadable(ZipFault::Archive(t)) => "invalid `.dlib` archive: "@ + t@,
                ArchiveReadError::Unreadable(ZipFault::Entry(t)) => "invalid archive entry: "@ + t@,
                ArchiveReadError::Refused(e) => crate::archive::archive_error_text(e),
            },
    {
        match self {
            ArchiveReadError::Unreadable(ZipFault::Archive(t)) => {
                let mut m = String::new();
                push_str(&mut m, "invalid `.dlib` archive: ");
                push_str(&mut m, t.as_str());
                m
            },
            ArchiveReadError::Unreadable(ZipFault::Entry(t)) => {
                let mut m = String::new();
                push_str(&mut m, "invalid archive entry: ");
                push_str(&mut m, t.as_str());
                m
            },
            ArchiveReadError::Refused(e) => e.message(),
        }
    }
}

/// The rules of the package layout depend on what the entries hold, not
/// on which values hold it.
pub proof fn entries_fault_by_view(a: Seq<EntryRecord>, b: Seq<EntryRecord>)
    requires
        record_views(a) == record_views(b),
    ensures
        entries_fault(a, folded_names(a)) == entries_fault(b, folded_names(b)),
{
    assert(a.len() == b.len()) by {
        assert(record_views(a).len() == a.len());
    }
    assert forall|i: int| 0 <= i < a.len() implies #[trigger] a[i].name@ == b[i].name@ && a[i].is_dir
        == b[i].is_dir && a[i].unix_mode == b[i].unix_mode && a[i].size == b[i].size by {
        assert(record_views(a)[i] == record_views(b)[i]);
    }
    assert(crate::archive::same_fields(a, b));
    crate::archive::lemma_fault_by_fields(a, b);
}

/// Lists the entries of archive bytes and checks every one of them against
/// the package layout before anything is unpacked; gives the listing.
pub fn check_archive(archive: &[u8]) -> (r: Result<Vec<EntryRecord>, ArchiveReadError>)
    ensures
        (r matches Err(ArchiveReadError::Unreadable(_))) <==> zip_listing_of(archive@) is None,
        r matches Ok(v) ==> record_views(v@) == zip_listing_of(archive@)->0 && entries_fault(
            v@,
            folded_names(v@),
        ) is None,
        r matches Err(ArchiveReadError::Refused(e)) ==> exists|v: Seq<EntryRecord>|
            record_views(v) == zip_listing_of(archive@)->0 && entries_fault(v, folded_names(v)) == Some(
                e.fault(),
            ),
{
    let records = match zip_listing(archive) {
        Ok(v) => v,
        Err(fault) => {
            return Err(ArchiveReadError::Unreadable(fault));
        },
    };
    match check_entries(&records) {
        Ok(()) => Ok(records),
        Err(e) => Err(ArchiveReadError::Refused(e)),
    }
}

/// What `zip::ZipArchive::by_name` finds for `name` in `archive`: `None`
/// when the archive cannot be opened, `Some(None)` when the entry cannot be
/// had, else the size the entry declares.
pub uninterp spec fn zip_entry_size_of(archive: Seq<u8>, name: Seq<char>) -> Option<Option<u64>>;

/// `zip::ZipArchive::new` on the bytes and `by_name` for `name`: the size
/// the entry declares. The result depends on the bytes and the name alone;
/// the two error texts are passed on.
#[verifier::external_body]
fn zip_entry_size(archive: &[u8], name: &str) -> (r: Result<Result<u64, String>, String>)
    ensures
        r is Ok <==> zip_entry_size_of(archive@, name@) is Some,
        r matches Ok(found) ==> (found is Ok <==> zip_entry_size_of(archive@, name@)->0 is Some),
        r matches Ok(Ok(size)) ==> zip_entry_size_of(archive@, name@) == Some(Some(size)),
{
    let mut zip = ZipArchive::new(Cursor::new(archive)).map_err(|e| e.to_string())?;
    let size = zip.by_name(name).map(|e| e.size()).map_err(|e| e.to_string());
    Ok(size)
}

/// The text `read_to_string` gives for the first `limit` bytes of entry
/// `name` of `archive`, with its length in bytes; `None` when the entry
/// cannot be read as UTF-8 text.
pub uninterp spec fn zip_entry_text_of(archive: Seq<u8>, name: Seq<char>, limit: u64) -> Option<(Seq<char>, u64)>;

/// Entry `name` of `archive`, at most `limit` bytes of it (`Read::take`),
/// read with `Read::read_to_string`; also the text's length in bytes, which
/// `take` keeps at most `limit`. The error's text is passed on.
#[verifier::external_body]
fn zip_entry_text(archive: &[u8], name: &str, limit: u64) -> (r: Result<(String, u64), String>)
    ensures
        r is Ok <==> zip_entry_text_of(archive@, name@, limit) is Some,
        r matches Ok((text, bytes)) ==> zip_entry_text_of(archive@, name@, limit) == Some((text@, bytes))
            && bytes <= limit,
{
    let mut zip = ZipArchive::new(Cursor::new(archive)).map_err(|e| e.to_string())?;
    let entry = zip.by_name(name).map_err(|e| e.to_string())?;
    let mut text = String::new();
    entry.take(limit).read_to_string(&mut text).map_err(|e| e.to_string())?;
    let bytes = text.len() as u64;
    Ok((text, bytes))
}

/// The byte length of a text read, 0 when none was.
pub open spec fn read_length(read: Option<(Seq<char>, u64)>) -> u64 {
    match read {
        Some((_, n)) => n,
        None => 0,
    }
}

/// The text read, empty when none was.
pub open spec fn read_text(read: Option<(Seq<char>, u64)>) -> Seq<char> {
    match read {
        Some((t, _)) => t,
        None => Seq::empty(),
    }
}

/// Why the metadata of an archive cannot be had.
#[derive(Debug, Clone, PartialEq, Eq)]
pub enum MetadataReadError {
    /// `zip` cannot open the archive.
    InvalidArchive(String),
    /// The archive has no readable metadata entry.
    Missing(String),
    /// The metadata is larger than `MAX_METADATA_BYTES`.
    TooLarge,
    /// The metadata cannot be read as text.
    Unreadable(String),
}

impl MetadataReadError {
    /// The diagnostic text.
    pub fn message(&self) -> (r: String)
        ensures
            r@ == match *self {
                MetadataReadError::InvalidArchive(t) => "invalid `.dlib` archive: "@ + t@,
                MetadataReadError::Missing(t) => "`.dlib` is missing `META-INF/dolphin-package.toml`: "@ + t@,
                MetadataReadError::TooLarge => "package metadata exceeds the 1048576 byte limit"@,
                MetadataReadError::Unreadable(t) => "could not read package metadata: "@ + t@,
            },
    {
        let mut m = String::new();
        match self {
            MetadataReadError::InvalidArchive(t) => {
                push_str(&mut m, "invalid `.dlib` archive: ");
                push_str(&mut m, t.as_str());
            },
            MetadataReadError::Missing(t) => {
                push_str(&mut m, "`.dlib` is missing `META-INF/dolphin-package.toml`: ");
                push_str(&mut m, t.as_str());
            },
            MetadataReadError::TooLarge => push_str(&mut m, "package metadata exceeds the 1048576 byte limit"),
            MetadataReadError::Unreadable(t) => {
                push_str(&mut m, "could not read package metadata: ");
                push_str(&mut m, t.as_str());
            },
        }
        m
    }
}

/// The metadata text of an archive, without unpacking it. The entry must
/// declare at most `MAX_METADATA_BYTES`, and at most that many bytes are
/// read (one more, to see that the entry is no longer than it declares).
pub fn metadata_text(archive: &[u8]) -> (r: Result<String, MetadataReadError>)
    ensures
        ({
            let found = zip_entry_size_of(archive@, METADATA_PATH@);
            let read = zip_entry_text_of(archive@, METADATA_PATH@, (MAX_METADATA_BYTES + 1) as u64);
            &&& (r matches Err(MetadataReadError::InvalidArchive(_))) <==> found is None
            &&& (r matches Err(MetadataReadError::Missing(_))) <==> found == Some(None::<u64>)
            &&& (r matches Err(MetadataReadError::TooLarge)) <==> (found is Some && found->0 is Some && (
            found->0->0 > MAX_METADATA_BYTES || (read is Some && read_length(read) > MAX_METADATA_BYTES)))
            &&& (r matches Err(MetadataReadError::Unreadable(_))) <==> (found is Some && found->0 is Some
                && found->0->0 <= MAX_METADATA_BYTES && read is None)
            &&& r matches Ok(text) ==> (found is Some && found->0 is Some && found->0->0 <= MAX_METADATA_BYTES
                && read is Some && read_length(read) <= MAX_METADATA_BYTES && text@ == read_text(read))
        }),
{
    let size = match zip_entry_size(archive, METADATA_PATH) {
        Err(t) => {
            return Err(MetadataReadError::InvalidArchive(t));
        },
        Ok(Err(t)) => {
            return Err(MetadataReadError::Missing(t));
        },
        Ok(Ok(size)) => size,
    };
    if size > MAX_METADATA_BYTES {
        return Err(MetadataReadError::TooLarge);
    }
    match zip_entry_text(archive, METADATA_PATH, MAX_METADATA_BYTES + 1) {
        Err(t) => Err(MetadataReadError::Unreadable(t)),
        Ok((text, bytes)) => {
            if bytes > MAX_METADATA_BYTES {
                Err(MetadataReadError::TooLarge)
            } else {
                Ok(text)
            }
        },
    }
}

// ---------------------------------------------------------------------------
// Unpacking.
// ---------------------------------------------------------------------------

/// A limit that unpacking reached.
#[derive(Debug, Clone, Copy, PartialEq, Eq, Structural)]
pub enum UnpackLimit {
    /// One file grew beyond `MAX_FILE_BYTES`.
    File,
    /// All files together grew beyond `MAX_TOTAL_BYTES`.
    Total,
}

/// After `read` more bytes of the current file: the new byte counts of the
/// file and of all files, or the limit they pass (the file's first).
pub fn unpack_step(file: u64, total: u64, read: u64) -> (r: Result<(u64, u64), UnpackLimit>)
    requires
        file <= MAX_FILE_BYTES,
        total <= MAX_TOTAL_BYTES,
    ensures
        file + read > MAX_FILE_BYTES ==> r == Err::<(u64, u64), UnpackLimit>(UnpackLimit::File),
        file + read <= MAX_FILE_BYTES && total + read > MAX_TOTAL_BYTES ==> r == Err::<(u64, u64), UnpackLimit>(
            UnpackLimit::Total,
        ),
        file + read <= MAX_FILE_BYTES && total + read <= MAX_TOTAL_BYTES ==> r == Ok::<(u64, u64), UnpackLimit>(
            ((file + read) as u64, (total + read) as u64),
        ),
{
    if read > MAX_FILE_BYTES - file {
        return Err(UnpackLimit::File);
    }
    if read > MAX_TOTAL_BYTES - total {
        return Err(UnpackLimit::Total);
    }
    Ok((file + read, total + read))
}

// ---------------------------------------------------------------------------
// Writing.
// ---------------------------------------------------------------------------

/// Deflate level of every archive entry.
pub const ARCHIVE_LEVEL: i64 = 6;

/// Unix permissions of every archive entry.
pub const ARCHIVE_MODE: u32 = 0o644;

/// The time stamp of every archive entry: 1980-01-01 00:00:00, the
/// earliest a ZIP time stamp can hold.
pub open spec fn archive_stamp() -> (u16, u8, u8, u8, u8, u8) {
    (1980, 1, 1, 0, 0, 0)
}

fn stamp() -> (r: (u16, u8, u8, u8, u8, u8))
    ensures
        r == archive_stamp(),
{
    (1980, 1, 1, 0, 0, 0)
}

/// Archive entries as plain values: path and contents.
pub open spec fn entry_views(v: Seq<ArchiveEntry>) -> Seq<(Seq<char>, Seq<u8>)> {
    v.map_values(|e: ArchiveEntry| (e.path@, e.bytes@))
}

/// The bytes `zip::ZipWriter` writes for `entries`, in that order, each
/// deflated at `level` with Unix permissions `mode`, time stamp `stamp`
/// and no large-file extension; `None` when it refuses.
pub uninterp spec fn zip_bytes_of(
    entries: Seq<(Seq<char>, Seq<u8>)>,
    level: i64,
    mode: u32,
    stamp: (u16, u8, u8, u8, u8, u8),
) -> Option<Seq<u8>>;

/// `zip::ZipWriter` over a buffer: `start_file` and `write_all` for each
/// entry in order with the given options, then `finish`. With a fixed time
/// stamp the bytes depend on the arguments alone; the error text is passed
/// on.
#[verifier::external_body]
fn zip_write(entries: &Vec<ArchiveEntry>, level: i64, mode: u32, stamp: (u16, u8, u8, u8, u8, u8)) -> (r: Result<Vec<u8>, String>)
    ensures
        r is Ok <==> zip_bytes_of(entry_views(entries@), level, mode, stamp) is Some,
        r matches Ok(b) ==> zip_bytes_of(entry_views(entries@), level, mode, stamp) == Some(b@),
{
    let time = DateTime::from_date_and_time(stamp.0, stamp.1, stamp.2, stamp.3, stamp.4, stamp.5).map_err(|e| e.to_string())?;
    let options = SimpleFileOptions::default().compression_method(CompressionMethod::Deflated)
        .compression_level(Some(level)).last_modified_time(time).unix_permissions(mode).large_file(false);
    let mut writer = ZipWriter::new(Cursor::new(Vec::new()));
    for entry in entries.iter() {
        writer.start_file(entry.path.as_str(), options).map_err(|e| e.to_string())?;
        writer.write_all(&entry.bytes).map_err(|e| e.to_string())?;
    }
    writer.finish().map(|cursor| cursor.into_inner()).map_err(|e| e.to_string())
}

/// Why an archive cannot be written.
#[derive(Debug, Clone, PartialEq, Eq)]
pub enum ArchiveWriteError {
    /// Two entries have the same path.
    Duplicate(ArchiveError),
    /// `zip` refused to write; its error text.
    Zip(String),
}

/// The archive of `entries`: the entries in path order, each with the same
/// level, permissions and time stamp, so that the same entries always give
/// the same bytes.
pub fn archive_bytes(entries: Vec<ArchiveEntry>) -> (r: Result<Vec<u8>, ArchiveWriteError>)
    ensures
        (r matches Err(ArchiveWriteError::Duplicate(_))) <==> exists|p: Seq<char>| is_duplicated(entries@, p),
        r matches Err(ArchiveWriteError::Duplicate(e)) ==> is_duplicated(entries@, e.subject())
            && forall|p: Seq<char>| is_duplicated(entries@, p) ==> !crate::order::text_lt(p, e.subject()),
        !(r matches Err(ArchiveWriteError::Duplicate(_))) ==> exists|v: Seq<ArchiveEntry>|
            v.to_multiset() == entries@.to_multiset() && sorted_by_key(v) && (r is Ok <==> zip_bytes_of(
                entry_views(v),
                ARCHIVE_LEVEL,
                ARCHIVE_MODE,
                archive_stamp(),
            ) is Some) && (r matches Ok(b) ==> zip_bytes_of(entry_views(v), ARCHIVE_LEVEL, ARCHIVE_MODE, archive_stamp())
                == Some(b@)),
{
    let ordered = match order_entries(entries) {
        Ok(v) => v,
        Err(e) => {
            return Err(ArchiveWriteError::Duplicate(e));
        },
    };
    match zip_write(&ordered, ARCHIVE_LEVEL, ARCHIVE_MODE, stamp()) {
        Ok(b) => Ok(b),
        Err(t) => Err(ArchiveWriteError::Zip(t)),
    }
}

/// Entries with no path twice hold no entry twice, and a permutation of
/// them holds no path twice either.
proof fn lemma_distinct_paths_kept(e: Seq<ArchiveEntry>, v: Seq<ArchiveEntry>)
    requires
        e.to_multiset() == v.to_multiset(),
        forall|p: Seq<char>| !is_duplicated(e, p),
    ensures
        forall|p: Seq<char>| !is_duplicated(v, p),
{
    broadcast use vstd::seq_lib::group_to_multiset_ensures;

    assert(e.no_duplicates()) by {
        assert forall|i: int, j: int| 0 <= i < e.len() && 0 <= j < e.len() && i != j implies e[i] != e[j] by {
            if e[i] == e[j] {
                if i < j {
                    assert(is_duplicated(e, e[i].path@));
                } else {
                    assert(is_duplicated(e, e[j].path@));
                }
            }
        }
    }
    e.lemma_multiset_has_no_duplicates();
    v.lemma_multiset_has_no_duplicates_conv();
    assert forall|p: Seq<char>| !is_duplicated(v, p) by {
        if is_duplicated(v, p) {
            let (i, j) = choose|i: int, j: int|
                0 <= i < j < v.len() && (#[trigger] v[i]).path@ == p && (#[trigger] v[j]).path@ == p;
            assert(v.contains(v[i]));
            assert(v.contains(v[j]));
            vstd::seq_lib::to_multiset_contains(v, v[i]);
            vstd::seq_lib::to_multiset_contains(v, v[j]);
            vstd::seq_lib::to_multiset_contains(e, v[i]);
            vstd::seq_lib::to_multiset_contains(e, v[j]);
            assert(e.contains(v[i]));
            assert(e.contains(v[j]));
            let a = choose|a: int| 0 <= a < e.len() && e[a] == v[i];
            let b = choose|b: int| 0 <= b < e.len() && e[b] == v[j];
            assert(a != b);
            if a < b {
                assert(is_duplicated(e, p));
            } else {
                assert(is_duplicated(e, p));
            }
        }
    }
}

/// Two path-ordered sequences of the same entries, with no path twice, are
/// one and the same sequence.
proof fn lemma_path_order_unique(v1: Seq<ArchiveEntry>, v2: Seq<ArchiveEntry>)
    requires
        v1.to_multiset() == v2.to_multiset(),
        sorted_by_key(v1),
        sorted_by_key(v2),
        forall|p: Seq<char>| !is_duplicated(v1, p),
        forall|p: Seq<char>| !is_duplicated(v2, p),
    ensures
        v1 == v2,
    decreases v1.len(),
{
    broadcast use vstd::seq_lib::group_to_multiset_ensures;

    vstd::seq_lib::to_multiset_len(v1);
    vstd::seq_lib::to_multiset_len(v2);
    assert(v1.len() == v2.len());
    if v1.len() > 0 {
        let x = v1[0];
        let y = v2[0];
        vstd::seq_lib::to_multiset_contains(v1, x);
        vstd::seq_lib::to_multiset_contains(v2, x);
        vstd::seq_lib::to_multiset_contains(v1, y);
        vstd::seq_lib::to_multiset_contains(v2, y);
        assert(v1.contains(x));
        assert(v2.contains(x));
        assert(v2.contains(y));
        assert(v1.contains(y));
        let k = choose|k: int| 0 <= k < v2.len() && v2[k] == x;
        let m = choose|m: int| 0 <= m < v1.len() && v1[m] == y;
        assert(text_le(y.path@, x.path@)) by {
            if k > 0 {
                assert(text_le(v2[0].key_view(), v2[k].key_view()));
            }
        }
        assert(text_le(x.path@, y.path@)) by {
            if m > 0 {
                assert(text_le(v1[0].key_view(), v1[m].key_view()));
            }
        }
        assert(x.path@ == y.path@) by {
            if x.path@ != y.path@ {
                lemma_text_lt_asymmetric(x.path@, y.path@);
            }
        }
        if k != 0 {
            assert(is_duplicated(v2, x.path@));
        }
        assert(x == y);
        let t1 = v1.drop_first();
        let t2 = v2.drop_first();
        assert(v1.remove(0) =~= t1);
        assert(v2.remove(0) =~= t2);
        assert(t1.to_multiset() == t2.to_multiset());
        assert forall|p: Seq<char>| !is_duplicated(t1, p) by {
            if is_duplicated(t1, p) {
                let (i, j) = choose|i: int, j: int|
                    0 <= i < j < t1.len() && (#[trigger] t1[i]).path@ == p && (#[trigger] t1[j]).path@ == p;
                assert(v1[i + 1] == t1[i] && v1[j + 1] == t1[j]);
                assert(is_duplicated(v1, p));
            }
        }
        assert forall|p: Seq<char>| !is_duplicated(t2, p) by {
            if is_duplicated(t2, p) {
                let (i, j) = choose|i: int, j: int|
                    0 <= i < j < t2.len() && (#[trigger] t2[i]).path@ == p && (#[trigger] t2[j]).path@ == p;
                assert(v2[i + 1] == t2[i] && v2[j + 1] == t2[j]);
                assert(is_duplicated(v2, p));
            }
        }
        assert(sorted_by_key(t1)) by {
            assert forall|i: int, j: int| 0 <= i < j < t1.len() implies text_le(t1[i].key_view(), t1[j].key_view()) by {
                assert(t1[i] == v1[i + 1] && t1[j] == v1[j + 1]);
            }
        }
        assert(sorted_by_key(t2)) by {
            assert forall|i: int, j: int| 0 <= i < j < t2.len() implies text_le(t2[i].key_view(), t2[j].key_view()) by {
                assert(t2[i] == v2[i + 1] && t2[j] == v2[j + 1]);
            }
        }
        lemma_path_order_unique(t1, t2);
        assert(v1 =~= seq![x] + t1);
        assert(v2 =~= seq![y] + t2);
    } else {
        assert(v1 =~= v2);
    }
}

/// Archives are reproducible: the same entries, with no path twice, in
/// whatever order they are given, have one path order, so the archive
/// written for them is the same.
pub proof fn archives_are_reproducible(
    e1: Seq<ArchiveEntry>,
    e2: Seq<ArchiveEntry>,
    v1: Seq<ArchiveEntry>,
    v2: Seq<ArchiveEntry>,
)
    requires
        e1.to_multiset() == e2.to_multiset(),
        forall|p: Seq<char>| !is_duplicated(e1, p),
        v1.to_multiset() == e1.to_multiset(),
        sorted_by_key(v1),
        v2.to_multiset() == e2.to_multiset(),
        sorted_by_key(v2),
    ensures
        v1 == v2,
        zip_bytes_of(entry_views(v1), ARCHIVE_LEVEL, ARCHIVE_MODE, archive_stamp()) == zip_bytes_of(
            entry_views(v2),
            ARCHIVE_LEVEL,
            ARCHIVE_MODE,
            archive_stamp(),
        ),
{
    lemma_distinct_paths_kept(e1, v1);
    lemma_distinct_paths_kept(e1, v2);
    lemma_path_order_unique(v1, v2);
}

} // verus!
