use dolphin::lockfile::LockedPackage;
use dolphin::registry::{
    AcquireStep, Acquisition,
    artifact_path, base_for, base_with_slash, check_cached, check_credentials, check_download,
    check_locked_source, check_publish_allowed, check_restored, checksum_file_text,
    checksum_path, checksum_put_outcome, expected_digest, file_publish_outcome, offline_digest,
    package_put_outcome, parse_checksum, put_status, restores_from_cache, token_variable,
    ChecksumFault, ExistingFault, PublishOutcome, PutFailure, PutStatus, RegistryError,
};

const DIGEST: &str = "0123456789abcdef0123456789abcdef0123456789abcdef0123456789abcdef";
const OTHER: &str = "fedcba9876543210fedcba9876543210fedcba9876543210fedcba9876543210";

fn locked(source: &str, sha256: Option<&str>) -> LockedPackage {
    LockedPackage {
        coordinate: "org.example:mathlib:1.0.0".to_string(),
        source: source.to_string(),
        path: None,
        sha256: sha256.map(str::to_string),
        dependencies: vec![],
    }
}

#[test]
fn artifact_paths_follow_the_maven_layout() {
    let path = artifact_path("org.example", "mathlib", "1.0.0");
    assert_eq!(path, "org/example/mathlib/1.0.0/mathlib-1.0.0.dlib");
    assert_eq!(
        checksum_path(&path),
        "org/example/mathlib/1.0.0/mathlib-1.0.0.dlib.sha256"
    );
    assert_eq!(base_with_slash("https://repo.example.com/maven//"), "https://repo.example.com/maven/");
    assert_eq!(base_with_slash("file:///tmp/repo"), "file:///tmp/repo/");
}

#[test]
fn repository_ids_are_case_insensitive() {
    let repositories = vec![("central".to_string(), "https://repo.example.com".to_string())];
    assert_eq!(
        base_for(&repositories, "Central").unwrap(),
        "https://repo.example.com"
    );
    let error = base_for(&repositories, "mirror").unwrap_err();
    assert_eq!(
        error.message(),
        "unknown repository `mirror`; declare it under `[repositories]` in the root `dolphin.toml`"
    );
    assert_eq!(token_variable("central-1"), "DOLPHIN_REPOSITORY_CENTRAL-1_TOKEN");
}

#[test]
fn checksum_files_are_read_strictly() {
    assert_eq!(parse_checksum(DIGEST.as_bytes()).unwrap(), DIGEST);
    let with_newline = format!("{DIGEST}\n");
    assert_eq!(parse_checksum(with_newline.as_bytes()).unwrap(), DIGEST);
    let two_newlines = format!("{DIGEST}\n\n");
    assert_eq!(
        parse_checksum(two_newlines.as_bytes()),
        Err(ChecksumFault::NotDigest)
    );
    assert_eq!(
        parse_checksum(DIGEST.to_uppercase().as_bytes()),
        Err(ChecksumFault::NotDigest)
    );
    assert_eq!(parse_checksum(&DIGEST.as_bytes()[..63]), Err(ChecksumFault::NotDigest));
    assert_eq!(parse_checksum(&[0xff, 0xfe]), Err(ChecksumFault::NotUtf8));
    assert_eq!(
        ChecksumFault::NotDigest.message("https://r/x.sha256"),
        "checksum file `https://r/x.sha256` must contain a 64-character lowercase hex digest"
    );
    assert_eq!(checksum_file_text(DIGEST), format!("{DIGEST}\n"));
}

#[test]
fn lock_pins_the_source() {
    let base = "https://repo.example.com/";
    let c = "org.example:mathlib:1.0.0";
    assert!(check_locked_source(c, "central", base, None).is_ok());
    assert!(check_locked_source(c, "central", base, Some(&locked("path", None))).is_ok());
    assert!(check_locked_source(c, "central", base, Some(&locked(base, None))).is_ok());
    let error = check_locked_source(c, "central", base, Some(&locked("https://other/", None)))
        .unwrap_err();
    assert_eq!(
        error.message(),
        "package `org.example:mathlib:1.0.0` is locked to source `https://other/` but repository `central` resolves to `https://repo.example.com/`; a build allows exactly one source per package"
    );
}

#[test]
fn lock_pins_the_digest() {
    let c = "org.example:mathlib:1.0.0";
    let base = "https://repo.example.com/";
    let lock = locked(base, Some(DIGEST));
    assert_eq!(
        expected_digest(c, base, Some(&lock), Some(DIGEST.to_string())).unwrap(),
        DIGEST
    );
    assert_eq!(expected_digest(c, base, Some(&lock), None).unwrap(), DIGEST);
    let changed = expected_digest(c, base, Some(&lock), Some(OTHER.to_string())).unwrap_err();
    assert!(matches!(changed, RegistryError::ChangedContent { .. }));
    assert_eq!(
        expected_digest(c, base, None, Some(OTHER.to_string())).unwrap(),
        OTHER
    );
    let missing = expected_digest(c, base, None, None).unwrap_err();
    assert_eq!(
        missing.message(),
        "repository `https://repo.example.com/` does not provide a checksum file for `org.example:mathlib:1.0.0`"
    );
}

#[test]
fn offline_uses_the_lock_then_the_index() {
    let c = "org.example:mathlib:1.0.0";
    assert!(restores_from_cache(true, "https://repo.example.com/"));
    assert!(!restores_from_cache(true, "file:///tmp/repo/"));
    assert!(!restores_from_cache(false, "https://repo.example.com/"));
    let lock = locked("https://r/", Some(DIGEST));
    assert_eq!(
        offline_digest(c, Some(&lock), Some(OTHER.to_string())).unwrap(),
        DIGEST
    );
    assert_eq!(
        offline_digest(c, Some(&locked("https://r/", None)), Some(OTHER.to_string())).unwrap(),
        OTHER
    );
    assert_eq!(
        offline_digest(c, None, None).unwrap_err().message(),
        "cannot resolve `org.example:mathlib:1.0.0` offline: it is not in the cache index"
    );
}

#[test]
fn downloads_must_match_their_digest() {
    let c = "g:a:1";
    assert!(check_download(c, DIGEST, DIGEST).is_ok());
    assert_eq!(
        check_download(c, DIGEST, OTHER).unwrap_err().message(),
        format!("checksum mismatch for `g:a:1`: expected {DIGEST}, got {OTHER}")
    );
    assert_eq!(
        check_cached(c, DIGEST, OTHER).unwrap_err().message(),
        format!("cached archive for `g:a:1` does not match sha256 {DIGEST}")
    );
    assert_eq!(
        check_restored(c, DIGEST, OTHER).unwrap_err().message(),
        format!("cached archive for `g:a:1` has sha256 {OTHER}, expected {DIGEST}; the cache entry is corrupt")
    );
}

#[test]
fn put_statuses() {
    assert_eq!(put_status(201), Ok(PutStatus::Created));
    assert_eq!(put_status(204), Ok(PutStatus::Created));
    assert_eq!(put_status(412), Ok(PutStatus::Exists));
    assert_eq!(put_status(501), Err(PutFailure::NoConditionalPut));
    assert_eq!(put_status(409), Err(PutFailure::Conflict));
    assert_eq!(put_status(500), Err(PutFailure::Status(500)));
    assert_eq!(
        PutFailure::Status(403).message("https://r/p.dlib"),
        "PUT `https://r/p.dlib` failed with HTTP status 403"
    );
    assert!(check_credentials(true, "https").is_ok());
    assert!(check_credentials(false, "http").is_ok());
    assert_eq!(
        check_credentials(true, "http"),
        Err("refusing to send repository credentials over `http://`; use HTTPS".to_string())
    );
}

#[test]
fn publish_outcomes() {
    assert_eq!(
        package_put_outcome(PutStatus::Created, None),
        Ok(PublishOutcome::Uploaded)
    );
    assert_eq!(
        package_put_outcome(PutStatus::Exists, Some(true)),
        Ok(PublishOutcome::AlreadyPresent)
    );
    assert_eq!(
        package_put_outcome(PutStatus::Exists, Some(false)),
        Err(ExistingFault::Different)
    );
    assert_eq!(
        checksum_put_outcome(PublishOutcome::AlreadyPresent, PutStatus::Created, None),
        Ok(PublishOutcome::CompletedChecksum)
    );
    assert_eq!(
        checksum_put_outcome(PublishOutcome::AlreadyPresent, PutStatus::Exists, Some(true)),
        Ok(PublishOutcome::AlreadyPresent)
    );
    assert_eq!(
        checksum_put_outcome(PublishOutcome::Uploaded, PutStatus::Exists, None),
        Err(ExistingFault::Unreadable)
    );
    assert_eq!(file_publish_outcome(true, true), PublishOutcome::Uploaded);
    assert_eq!(file_publish_outcome(false, true), PublishOutcome::CompletedChecksum);
    assert_eq!(file_publish_outcome(false, false), PublishOutcome::AlreadyPresent);
    assert_eq!(
        check_publish_allowed("https://r/", true),
        Err("`--offline` forbids uploading to `https://r/`; use a `file://` repository".to_string())
    );
    assert!(check_publish_allowed("file:///r/", true).is_ok());
    assert_eq!(
        ExistingFault::Different.message("file:///r/p.dlib"),
        "repository already contains a different `file:///r/p.dlib`; refusing to overwrite"
    );
}

#[test]
fn checksum_files_must_be_well_formed_utf8() {
    // Well-formed multi-byte characters are UTF-8 but no digest.
    assert_eq!(parse_checksum(&[0xC3, 0xA9]), Err(ChecksumFault::NotDigest));
    assert_eq!(parse_checksum(&[0xE2, 0x82, 0xAC]), Err(ChecksumFault::NotDigest));
    assert_eq!(parse_checksum(&[0xF0, 0x9F, 0x98, 0x80]), Err(ChecksumFault::NotDigest));
    // Overlong forms, surrogates, code points above U+10FFFF and cut-off
    // sequences are not UTF-8.
    assert_eq!(parse_checksum(&[0xC0, 0x80]), Err(ChecksumFault::NotUtf8));
    assert_eq!(parse_checksum(&[0xE0, 0x80, 0x80]), Err(ChecksumFault::NotUtf8));
    assert_eq!(parse_checksum(&[0xED, 0xA0, 0x80]), Err(ChecksumFault::NotUtf8));
    assert_eq!(parse_checksum(&[0xF4, 0x90, 0x80, 0x80]), Err(ChecksumFault::NotUtf8));
    assert_eq!(parse_checksum(&[0xE2, 0x82]), Err(ChecksumFault::NotUtf8));
    assert_eq!(parse_checksum(&[0x80]), Err(ChecksumFault::NotUtf8));
    for bytes in [&[0xC3u8, 0xA9][..], &[0xED, 0x9F, 0xBF], &[0xF4, 0x8F, 0xBF, 0xBF], &[0xFF]] {
        let valid = std::str::from_utf8(bytes).is_ok();
        assert_eq!(parse_checksum(bytes) == Err(ChecksumFault::NotUtf8), !valid);
    }
}

#[test]
fn artifact_urls_join_the_paths_under_the_base() {
    let (package, checksum) =
        dolphin::registry::artifact_urls("https://repo.example.org/maven//", "org.example", "mathlib", "1.0.0")
            .unwrap();
    assert_eq!(package, "https://repo.example.org/maven/org/example/mathlib/1.0.0/mathlib-1.0.0.dlib");
    assert_eq!(checksum, "https://repo.example.org/maven/org/example/mathlib/1.0.0/mathlib-1.0.0.dlib.sha256");
    let (package, _) = dolphin::registry::artifact_urls("file:///srv/repo", "g", "n", "1.0.0").unwrap();
    assert_eq!(package, "file:///srv/repo/g/n/1.0.0/n-1.0.0.dlib");
    let error = dolphin::registry::artifact_urls("not a url", "g", "n", "1.0.0").unwrap_err();
    assert!(error.message().starts_with("invalid repository URL `not a url`: "));
}

#[test]
fn file_repositories_are_not_indexed() {
    assert!(!dolphin::registry::records_in_index("file:///srv/repo"));
    assert!(dolphin::registry::records_in_index("https://repo.example.org"));
}

#[test]
fn acquisition_goes_from_checksum_through_cache_or_download_to_unpacking() {
    let (a, step) = Acquisition::begin(false, "g:n:1.0.0", "default", "https://r.example.org", None);
    assert_eq!(step, AcquireStep::ReadChecksum);
    assert_eq!(a.checksum_read(Some(DIGEST.to_string())), AcquireStep::ReadCache { expected: DIGEST.to_string() });
    assert_eq!(a.cache_read(DIGEST, None), AcquireStep::Download { expected: DIGEST.to_string() });
    assert_eq!(a.cache_read(DIGEST, Some(DIGEST)), AcquireStep::ReadMetadata { expected: DIGEST.to_string() });
    assert!(matches!(a.cache_read(DIGEST, Some(OTHER)), AcquireStep::Fail(RegistryError::CachedMismatch { .. })));
    assert_eq!(a.downloaded(DIGEST, "https://r/x.dlib", Some(DIGEST)), AcquireStep::Store { expected: DIGEST.to_string() });
    let missing = a.downloaded(DIGEST, "https://r/x.dlib", None);
    match missing {
        AcquireStep::Fail(error) => {
            assert_eq!(error.message(), "package `g:n:1.0.0` was not found at `https://r/x.dlib`")
        }
        other => panic!("unexpected {other:?}"),
    }
    assert!(matches!(a.downloaded(DIGEST, "u", Some(OTHER)), AcquireStep::Fail(RegistryError::DigestMismatch { .. })));
    assert_eq!(a.stored(DIGEST), AcquireStep::ReadMetadata { expected: DIGEST.to_string() });
    assert_eq!(a.metadata_checked(DIGEST), AcquireStep::WriteIndex { expected: DIGEST.to_string() });
    assert_eq!(a.index_written(DIGEST), AcquireStep::Unpack { expected: DIGEST.to_string() });
    assert!(matches!(a.checksum_read(None), AcquireStep::Fail(RegistryError::NoChecksum { .. })));
}

#[test]
fn offline_acquisition_restores_from_the_index_and_file_repositories_skip_it() {
    let (a, step) = Acquisition::begin(true, "g:n:1.0.0", "default", "https://r.example.org", None);
    assert_eq!(step, AcquireStep::ReadIndex);
    assert_eq!(a.indexed(Some(DIGEST.to_string())), AcquireStep::Restore { expected: DIGEST.to_string() });
    assert!(matches!(a.indexed(None), AcquireStep::Fail(RegistryError::NotIndexed { .. })));
    let (f, step) = Acquisition::begin(true, "g:n:1.0.0", "local", "file:///srv/repo", None);
    assert_eq!(step, AcquireStep::ReadChecksum);
    assert_eq!(f.metadata_checked(DIGEST), AcquireStep::Unpack { expected: DIGEST.to_string() });
    let (_, step) = Acquisition::begin(false, "org.example:mathlib:1.0.0", "default", "https://r.example.org",
        Some(locked("https://elsewhere.example.org", None)));
    assert!(matches!(step, AcquireStep::Fail(RegistryError::LockedElsewhere { .. })));
}
