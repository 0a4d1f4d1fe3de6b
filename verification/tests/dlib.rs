use dolphin::archive::{ArchiveEntry, ArchiveError, MAX_FILE_BYTES, MAX_TOTAL_BYTES, METADATA_PATH};
use dolphin::dlib::{
    archive_bytes, archive_records, check_archive, metadata_text, unpack_step, ArchiveReadError,
    ArchiveWriteError, MetadataReadError, UnpackLimit, ZipFault,
};

fn entry(path: &str, text: &str) -> ArchiveEntry {
    ArchiveEntry { path: path.to_string(), bytes: text.as_bytes().to_vec() }
}

#[test]
fn archives_are_written_in_path_order_and_reproducibly() {
    let one = archive_bytes(vec![entry("src/b.do", "b"), entry(METADATA_PATH, "x = 1"), entry("dolphin.toml", "t")])
        .unwrap();
    let two = archive_bytes(vec![entry("dolphin.toml", "t"), entry("src/b.do", "b"), entry(METADATA_PATH, "x = 1")])
        .unwrap();
    assert_eq!(one, two);
    let names: Vec<String> = archive_records(&one).unwrap().into_iter().map(|r| r.name).collect();
    assert_eq!(names, vec![METADATA_PATH.to_string(), "dolphin.toml".to_string(), "src/b.do".to_string()]);
    let records = check_archive(&one).unwrap();
    assert_eq!(records.len(), 3);
    assert_eq!(metadata_text(&one).unwrap(), "x = 1");
}

#[test]
fn duplicate_entries_are_not_written() {
    assert!(matches!(
        archive_bytes(vec![entry("a", "1"), entry("a", "2")]),
        Err(ArchiveWriteError::Duplicate(ArchiveError::DuplicateEntry { .. }))
    ));
}

#[test]
fn unreadable_or_refused_archives_are_reported() {
    let error = check_archive(b"not a zip").unwrap_err();
    assert!(matches!(error, ArchiveReadError::Unreadable(ZipFault::Archive(_))));
    assert!(error.message().starts_with("invalid `.dlib` archive: "));
    let bytes = archive_bytes(vec![entry("secrets.txt", "s")]).unwrap();
    let error = check_archive(&bytes).unwrap_err();
    assert!(matches!(error, ArchiveReadError::Refused(ArchiveError::OutsideLayout { .. })));
}

#[test]
fn metadata_must_exist_and_stay_under_its_limit() {
    assert!(matches!(metadata_text(b"junk"), Err(MetadataReadError::InvalidArchive(_))));
    let bytes = archive_bytes(vec![entry("dolphin.toml", "t")]).unwrap();
    let error = metadata_text(&bytes).unwrap_err();
    assert!(matches!(error, MetadataReadError::Missing(_)));
    assert!(error.message().starts_with("`.dlib` is missing `META-INF/dolphin-package.toml`: "));
    let big = "a".repeat(1048577);
    let bytes = archive_bytes(vec![entry(METADATA_PATH, &big)]).unwrap();
    assert_eq!(metadata_text(&bytes), Err(MetadataReadError::TooLarge));
    assert_eq!(MetadataReadError::TooLarge.message(), "package metadata exceeds the 1048576 byte limit");
    let exact = "a".repeat(1048576);
    let bytes = archive_bytes(vec![entry(METADATA_PATH, &exact)]).unwrap();
    assert_eq!(metadata_text(&bytes).unwrap().len(), 1048576);
}

#[test]
fn unpacking_stops_at_the_file_and_total_limits() {
    assert_eq!(unpack_step(0, 0, 10), Ok((10, 10)));
    assert_eq!(unpack_step(MAX_FILE_BYTES, 5, 1), Err(UnpackLimit::File));
    assert_eq!(unpack_step(0, MAX_TOTAL_BYTES, 1), Err(UnpackLimit::Total));
    assert_eq!(unpack_step(MAX_FILE_BYTES - 1, MAX_TOTAL_BYTES - 1, 1), Ok((MAX_FILE_BYTES, MAX_TOTAL_BYTES)));
}
