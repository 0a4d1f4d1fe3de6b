//! The decisions of the Maven-style repository protocol: where a package's
//! files live under a repository, which digest a download must have, how a
//! checksum file is read, and what a publish did.
//!
//! The package for `org.example:mathlib:1.0.0` lives at
//! `<base>/org/example/mathlib/1.0.0/mathlib-1.0.0.dlib`, with its digest in
//! the same path plus `.sha256`. The transfers themselves are not here.
use vstd::prelude::*;

use crate::lockfile::LockedPackage;
use crate::names::{ascii_lowercase, to_ascii_lowercase};
use crate::text::{chars_of, matches_at, push_char, push_str, starts_with, str_eq};
use url::Url;

verus! {

// ---------------------------------------------------------------------------
// Paths under a repository.
// ---------------------------------------------------------------------------

/// A group id as a path: its dots become slashes.
pub open spec fn group_path(group: Seq<char>) -> Seq<char> {
    group.map_values(
        |c: char|
            if c == '.' {
                '/'
            } else {
                c
            },
    )
}

/// The package file of `group:name:version`, relative to the repository.
pub open spec fn artifact_path_text(group: Seq<char>, name: Seq<char>, version: Seq<char>) -> Seq<
    char,
> {
    group_path(group) + "/"@ + name + "/"@ + version + "/"@ + name + "-"@ + version + ".dlib"@
}

/// The path of the package file of `group:name:version` under a repository.
pub fn artifact_path(group: &str, name: &str, version: &str) -> (r: String)
    ensures
        r@ == artifact_path_text(group@, name@, version@),
{
    let chars = chars_of(group);
    let mut out = String::new();
    let mut i: usize = 0;
    while i < chars.len()
        invariant
            chars@ == group@,
            i <= chars.len(),
            out@ == group_path(group@.take(i as int)),
        decreases chars.len() - i,
    {
        let c = chars[i];
        push_char(&mut out, if c == '.' { '/' } else { c });
        assert(group_path(group@.take(i + 1)) =~= group_path(group@.take(i as int)).push(
            if c == '.' {
                '/'
            } else {
                c
            },
        ));
        i = i + 1;
    }
    assert(group@.take(chars.len() as int) =~= group@);
    push_str(&mut out, "/");
    push_str(&mut out, name);
    push_str(&mut out, "/");
    push_str(&mut out, version);
    push_str(&mut out, "/");
    push_str(&mut out, name);
    push_str(&mut out, "-");
    push_str(&mut out, version);
    push_str(&mut out, ".dlib");
    out
}

/// The path of the checksum file that sits next to a package file.
pub fn checksum_path(artifact: &str) -> (r: String)
    ensures
        r@ == artifact@ + ".sha256"@,
{
    let mut out = String::new();
    push_str(&mut out, artifact);
    push_str(&mut out, ".sha256");
    out
}

/// The text of the URL that `url::Url::parse` makes of `text`; `None`
/// when it refuses the text.
pub uninterp spec fn url_parse_of(text: Seq<char>) -> Option<Seq<char>>;

/// `url::Url::parse`, the URL given as its text. The result depends on the
/// text alone; the error's text is passed on.
#[verifier::external_body]
fn url_parse(text: &str) -> (r: Result<String, String>)
    ensures
        r is Ok <==> url_parse_of(text@) is Some,
        r matches Ok(u) ==> url_parse_of(text@) == Some(u@),
{
    Url::parse(text).map(|u| u.to_string()).map_err(|e| e.to_string())
}

/// The text of the URL that `url::Url::join` makes of `relative` against
/// the URL `root` (itself read with `Url::parse`); `None` when refused.
pub uninterp spec fn url_join_of(root: Seq<char>, relative: Seq<char>) -> Option<Seq<char>>;

/// `url::Url::join` of `relative` against `root`, both as text. The result
/// depends on the two texts alone; the error's text is passed on.
#[verifier::external_body]
fn url_join(root: &str, relative: &str) -> (r: Result<String, String>)
    ensures
        r is Ok <==> url_join_of(root@, relative@) is Some,
        r matches Ok(u) ==> url_join_of(root@, relative@) == Some(u@),
{
    Url::parse(root).and_then(|base| base.join(relative)).map(|u| u.to_string()).map_err(|e| e.to_string())
}

/// Why the URLs of a package cannot be built.
#[derive(Debug, Clone, PartialEq, Eq)]
pub enum UrlError {
    /// The repository base is no URL.
    Base { base: String, error: String },
    /// The package file's URL cannot be built under the base.
    Package { base: String, error: String },
    /// The checksum file's URL cannot be built under the base.
    Checksum { base: String, error: String },
}

/// The repository base a URL error is about.
pub open spec fn url_error_base(e: UrlError) -> Seq<char> {
    match e {
        UrlError::Base { base, .. } => base@,
        UrlError::Package { base, .. } => base@,
        UrlError::Checksum { base, .. } => base@,
    }
}

impl UrlError {
    /// The diagnostic text.
    pub fn message(&self) -> (r: String)
        ensures
            r@ == match *self {
                UrlError::Base { base, error } => "invalid repository URL `"@ + base@ + "`: "@ + error@,
                UrlError::Package { base, error } => "could not build package URL under `"@ + base@ + "`: "@
                    + error@,
                UrlError::Checksum { base, error } => "could not build checksum URL under `"@ + base@
                    + "`: "@ + error@,
            },
    {
        let mut m = String::new();
        let (before, base, error) = match self {
            UrlError::Base { base, error } => ("invalid repository URL `", base, error),
            UrlError::Package { base, error } => ("could not build package URL under `", base, error),
            UrlError::Checksum { base, error } => ("could not build checksum URL under `", base, error),
        };
        push_str(&mut m, before);
        push_str(&mut m, base.as_str());
        push_str(&mut m, "`: ");
        push_str(&mut m, error.as_str());
        m
    }
}

/// The URLs of the package file and of its checksum file for
/// `group:name:version` under the repository `base`: the base with one
/// trailing slash, read as a URL, with the package path and the checksum
/// path joined to it.
pub fn artifact_urls(base: &str, group: &str, name: &str, version: &str) -> (r: Result<(String, String), UrlError>)
    ensures
        ({
            let root = url_parse_of(trim_slashes(base@).push('/'));
            let package = artifact_path_text(group@, name@, version@);
            let checksum = package + ".sha256"@;
            &&& (r matches Err(UrlError::Base { .. })) <==> root is None
            &&& (r matches Err(UrlError::Package { .. })) <==> (root is Some && url_join_of(root->0, package)
                is None)
            &&& (r matches Err(UrlError::Checksum { .. })) <==> (root is Some && url_join_of(root->0, package)
                is Some && url_join_of(root->0, checksum) is None)
            &&& r matches Ok(urls) ==> (root is Some && url_join_of(root->0, package) == Some(urls.0@)
                && url_join_of(root->0, checksum) == Some(urls.1@))
            &&& r matches Err(e) ==> url_error_base(e) == base@
        }),
{
    let root = match url_parse(base_with_slash(base).as_str()) {
        Ok(u) => u,
        Err(error) => {
            return Err(UrlError::Base { base: base.to_owned(), error });
        },
    };
    let relative = artifact_path(group, name, version);
    let package = match url_join(root.as_str(), relative.as_str()) {
        Ok(u) => u,
        Err(error) => {
            return Err(UrlError::Package { base: base.to_owned(), error });
        },
    };
    let checksum = match url_join(root.as_str(), checksum_path(relative.as_str()).as_str()) {
        Ok(u) => u,
        Err(error) => {
            return Err(UrlError::Checksum { base: base.to_owned(), error });
        },
    };
    Ok((package, checksum))
}

/// `s` without its trailing slashes.
pub open spec fn trim_slashes(s: Seq<char>) -> Seq<char>
    decreases s.len(),
{
    if s.len() > 0 && s.last() == '/' {
        trim_slashes(s.drop_last())
    } else {
        s
    }
}

/// A repository base URL ending in exactly one slash, so that package paths
/// resolve below it.
pub fn base_with_slash(base: &str) -> (r: String)
    ensures
        r@ == trim_slashes(base@).push('/'),
{
    let chars = chars_of(base);
    let mut end: usize = chars.len();
    assert(base@.take(end as int) =~= base@);
    while end > 0 && chars[end - 1] == '/'
        invariant
            chars@ == base@,
            end <= chars.len(),
            trim_slashes(base@) == trim_slashes(base@.take(end as int)),
        decreases end,
    {
        assert(base@.take(end as int).drop_last() =~= base@.take(end - 1));
        end = end - 1;
    }
    assert(trim_slashes(base@.take(end as int)) == base@.take(end as int));
    let mut out = String::new();
    let mut i: usize = 0;
    while i < end
        invariant
            chars@ == base@,
            end <= chars.len(),
            i <= end,
            out@ == base@.take(i as int),
        decreases end - i,
    {
        push_char(&mut out, chars[i]);
        assert(base@.take(i + 1) =~= base@.take(i as int).push(chars@[i as int]));
        i = i + 1;
    }
    push_char(&mut out, '/');
    out
}

/// The environment variable that holds the upload token of a repository:
/// `DOLPHIN_REPOSITORY_<ID>_TOKEN`, the id in upper case.
pub open spec fn token_variable_text(repository: Seq<char>) -> Seq<char> {
    "DOLPHIN_REPOSITORY_"@ + ascii_uppercase(repository) + "_TOKEN"@
}

pub open spec fn ascii_upper(c: char) -> char {
    if 'a' <= c && c <= 'z' {
        ((c as u32) - 32) as char
    } else {
        c
    }
}

pub open spec fn ascii_uppercase(s: Seq<char>) -> Seq<char> {
    s.map_values(|c: char| ascii_upper(c))
}

/// See `token_variable_text`.
pub fn token_variable(repository: &str) -> (r: String)
    ensures
        r@ == token_variable_text(repository@),
{
    let chars = chars_of(repository);
    let mut out = String::new();
    push_str(&mut out, "DOLPHIN_REPOSITORY_");
    let ghost start = out@;
    let mut i: usize = 0;
    while i < chars.len()
        invariant
            chars@ == repository@,
            i <= chars.len(),
            out@ == start + ascii_uppercase(repository@.take(i as int)),
        decreases chars.len() - i,
    {
        let c = chars[i];
        let u = if 'a' <= c && c <= 'z' {
            ((c as u32) - 32) as u8 as char
        } else {
            c
        };
        assert(u == ascii_upper(c)) by {
            if 'a' <= c && c <= 'z' {
                assert(((c as u32) - 32) as u8 as char == ((c as u32) - 32) as char);
            }
        }
        push_char(&mut out, u);
        assert(ascii_uppercase(repository@.take(i + 1)) =~= ascii_uppercase(
            repository@.take(i as int),
        ).push(u));
        i = i + 1;
    }
    assert(repository@.take(chars.len() as int) =~= repository@);
    push_str(&mut out, "_TOKEN");
    out
}

// ---------------------------------------------------------------------------
// Repository lookup.
// ---------------------------------------------------------------------------

/// The base URL configured for `repository`; ids are case-insensitive and
/// stored in lower case.
pub open spec fn base_of(repositories: Seq<(String, String)>, repository: Seq<char>) -> Option<
    Seq<char>,
>
    decreases repositories.len(),
{
    if repositories.len() == 0 {
        None
    } else if repositories[0].0@ == ascii_lowercase(repository) {
        Some(repositories[0].1@)
    } else {
        base_of(repositories.drop_first(), repository)
    }
}

/// The base URL of `repository`, or the error that names it unknown.
pub fn base_for(repositories: &Vec<(String, String)>, repository: &str) -> (r: Result<
    String,
    RegistryError,
>)
    ensures
        r is Ok <==> base_of(repositories@, repository@) is Some,
        r matches Ok(b) ==> Some(b@) == base_of(repositories@, repository@),
        r matches Err(e) ==> e matches RegistryError::UnknownRepository { repository: n } && n@
            == repository@,
{
    let id = to_ascii_lowercase(repository);
    let mut i: usize = 0;
    assert(repositories@.skip(0) =~= repositories@);
    while i < repositories.len()
        invariant
            i <= repositories.len(),
            id@ == ascii_lowercase(repository@),
            base_of(repositories@, repository@) == base_of(repositories@.skip(i as int), repository@),
        decreases repositories.len() - i,
    {
        assert(repositories@.skip(i as int)[0] == repositories@[i as int]);
        assert(repositories@.skip(i as int).drop_first() =~= repositories@.skip(i + 1));
        if str_eq(repositories[i].0.as_str(), id.as_str()) {
            let mut out = String::new();
            push_str(&mut out, repositories[i].1.as_str());
            return Ok(out);
        }
        i = i + 1;
    }
    Err(RegistryError::UnknownRepository { repository: repository.to_owned() })
}

// ---------------------------------------------------------------------------
// Checksum files.
// ---------------------------------------------------------------------------

/// A UTF-8 continuation byte.
pub open spec fn is_continuation(b: u8) -> bool {
    0x80 <= b && b <= 0xBF
}

/// The width of the well-formed UTF-8 sequence that starts at `i` (one to
/// four bytes), or 0 where none does: no overlong forms, no surrogates,
/// nothing above U+10FFFF.
pub open spec fn utf8_width(b: Seq<u8>, i: int) -> int {
    let lead = b[i];
    if lead < 0x80 {
        1
    } else if 0xC2 <= lead && lead <= 0xDF && i + 1 < b.len() && is_continuation(b[i + 1]) {
        2
    } else if i + 2 < b.len() && is_continuation(b[i + 2]) && ((lead == 0xE0 && 0xA0 <= b[i + 1]
        && b[i + 1] <= 0xBF) || (((0xE1 <= lead && lead <= 0xEC) || lead == 0xEE || lead == 0xEF)
        && is_continuation(b[i + 1])) || (lead == 0xED && 0x80 <= b[i + 1] && b[i + 1] <= 0x9F)) {
        3
    } else if i + 3 < b.len() && is_continuation(b[i + 2]) && is_continuation(b[i + 3]) && ((lead
        == 0xF0 && 0x90 <= b[i + 1] && b[i + 1] <= 0xBF) || (0xF1 <= lead && lead <= 0xF3
        && is_continuation(b[i + 1])) || (lead == 0xF4 && 0x80 <= b[i + 1] && b[i + 1] <= 0x8F)) {
        4
    } else {
        0
    }
}

/// The bytes from `i` on are a sequence of well-formed UTF-8 characters.
pub open spec fn utf8_from(b: Seq<u8>, i: int) -> bool
    decreases b.len() - i,
{
    if i < 0 || i >= b.len() {
        true
    } else {
        let w = utf8_width(b, i);
        w > 0 && utf8_from(b, i + w)
    }
}

/// Whether `bytes` are well-formed UTF-8.
pub open spec fn valid_utf8(bytes: Seq<u8>) -> bool {
    utf8_from(bytes, 0)
}

fn continuation(b: u8) -> (r: bool)
    ensures
        r == is_continuation(b),
{
    0x80 <= b && b <= 0xBF
}

/// Whether the bytes are well-formed UTF-8 (what `std::str::from_utf8`
/// accepts).
fn utf8_valid(bytes: &[u8]) -> (r: bool)
    ensures
        r == valid_utf8(bytes@),
{
    let n = bytes.len();
    let mut i: usize = 0;
    while i < n
        invariant
            n == bytes@.len(),
            i <= n,
            valid_utf8(bytes@) == utf8_from(bytes@, i as int),
        decreases n - i,
    {
        let lead = bytes[i];
        let width: usize = if lead < 0x80 {
            1
        } else if 0xC2 <= lead && lead <= 0xDF && n - i > 1 && continuation(bytes[i + 1]) {
            2
        } else if n - i > 2 && continuation(bytes[i + 2]) && ((lead == 0xE0 && 0xA0 <= bytes[i + 1]
            && bytes[i + 1] <= 0xBF) || (((0xE1 <= lead && lead <= 0xEC) || lead == 0xEE || lead
            == 0xEF) && continuation(bytes[i + 1])) || (lead == 0xED && 0x80 <= bytes[i + 1] && bytes[i
            + 1] <= 0x9F)) {
            3
        } else if n - i > 3 && continuation(bytes[i + 2]) && continuation(bytes[i + 3]) && ((lead
            == 0xF0 && 0x90 <= bytes[i + 1] && bytes[i + 1] <= 0xBF) || (0xF1 <= lead && lead
            <= 0xF3 && continuation(bytes[i + 1])) || (lead == 0xF4 && 0x80 <= bytes[i + 1]
            && bytes[i + 1] <= 0x8F)) {
            4
        } else {
            0
        };
        assert(width == utf8_width(bytes@, i as int));
        if width == 0 {
            return false;
        }
        i = i + width;
    }
    true
}

/// A lowercase hexadecimal digit.
pub open spec fn is_lower_hex(b: u8) -> bool {
    (48 <= b && b <= 57) || (97 <= b && b <= 102)
}

/// The checksum file's content without one trailing newline.
pub open spec fn without_newline(bytes: Seq<u8>) -> Seq<u8> {
    if bytes.len() > 0 && bytes.last() == 10 {
        bytes.drop_last()
    } else {
        bytes
    }
}

/// A checksum file holds a 64-digit lowercase hex digest, and may end in
/// one newline.
pub open spec fn digest_ok(bytes: Seq<u8>) -> bool {
    &&& without_newline(bytes).len() == 64
    &&& forall|i: int| 0 <= i < 64 ==> is_lower_hex(#[trigger] without_newline(bytes)[i])
}

/// ASCII bytes as text.
pub open spec fn ascii_text(bytes: Seq<u8>) -> Seq<char> {
    bytes.map_values(|b: u8| b as char)
}

/// What is wrong with a checksum file.
#[derive(Debug, Clone, Copy, PartialEq, Eq, Structural)]
pub enum ChecksumFault {
    NotUtf8,
    NotDigest,
}

impl ChecksumFault {
    /// The diagnostic for the checksum file at `url`.
    pub fn message(&self, url: &str) -> (r: String)
        ensures
            r@ == match *self {
                ChecksumFault::NotUtf8 => "checksum file `"@ + url@ + "` is not valid UTF-8"@,
                ChecksumFault::NotDigest => "checksum file `"@ + url@
                    + "` must contain a 64-character lowercase hex digest"@,
            },
    {
        let mut out = String::new();
        push_str(&mut out, "checksum file `");
        push_str(&mut out, url);
        match self {
            ChecksumFault::NotUtf8 => push_str(&mut out, "` is not valid UTF-8"),
            ChecksumFault::NotDigest => push_str(
                &mut out,
                "` must contain a 64-character lowercase hex digest",
            ),
        }
        out
    }
}

/// Reads a checksum file strictly: valid UTF-8, then exactly 64 lowercase
/// hex digits with at most one trailing newline.
pub fn parse_checksum(bytes: &[u8]) -> (r: Result<String, ChecksumFault>)
    ensures
        r == Err::<String, ChecksumFault>(ChecksumFault::NotUtf8) <==> !valid_utf8(bytes@),
        r == Err::<String, ChecksumFault>(ChecksumFault::NotDigest) <==> valid_utf8(bytes@)
            && !digest_ok(bytes@),
        r matches Ok(d) ==> valid_utf8(bytes@) && digest_ok(bytes@) && d@ == ascii_text(
            without_newline(bytes@),
        ),
{
    if !utf8_valid(bytes) {
        return Err(ChecksumFault::NotUtf8);
    }
    let mut end = bytes.len();
    if end > 0 && bytes[end - 1] == 10 {
        end = end - 1;
    }
    let ghost digits = without_newline(bytes@);
    assert(digits =~= bytes@.take(end as int));
    if end != 64 {
        return Err(ChecksumFault::NotDigest);
    }
    let mut out = String::new();
    let mut i: usize = 0;
    while i < end
        invariant
            end == 64,
            end <= bytes@.len(),
            valid_utf8(bytes@),
            digits == without_newline(bytes@),
            digits == bytes@.take(end as int),
            i <= end,
            forall|k: int| 0 <= k < i ==> is_lower_hex(#[trigger] digits[k]),
            out@ == ascii_text(digits.take(i as int)),
        decreases end - i,
    {
        let b = bytes[i];
        if !((48 <= b && b <= 57) || (97 <= b && b <= 102)) {
            assert(!is_lower_hex(digits[i as int]));
            return Err(ChecksumFault::NotDigest);
        }
        push_char(&mut out, b as char);
        assert(ascii_text(digits.take(i + 1)) =~= ascii_text(digits.take(i as int)).push(
            b as char,
        ));
        i = i + 1;
    }
    assert(digits.take(64) =~= digits);
    Ok(out)
}

/// The content of the checksum file published for a digest.
pub fn checksum_file_text(digest: &str) -> (r: String)
    ensures
        r@ == digest@.push('\n'),
{
    let mut out = String::new();
    push_str(&mut out, digest);
    push_char(&mut out, '\n');
    out
}

// ---------------------------------------------------------------------------
// Acquiring a package.
// ---------------------------------------------------------------------------

/// Errors of the repository protocol. Each names its subject by value.
#[derive(Debug, Clone, PartialEq, Eq)]
pub enum RegistryError {
    /// The root manifest declares no such repository.
    UnknownRepository { repository: String },
    /// The lock file ties the package to another source.
    LockedElsewhere { coordinate: String, locked_source: String, repository: String, base: String },
    /// Offline, and neither the lock nor the cache index has a digest.
    NotIndexed { coordinate: String },
    /// Offline, and the archive with the expected digest is not cached.
    NotCached { coordinate: String, expected: String },
    /// A cached archive does not hash to its digest.
    CorruptCache { coordinate: String, actual: String, expected: String },
    /// The repository's digest differs from the locked one.
    ChangedContent { coordinate: String, remote: String, locked: String },
    /// The repository has no checksum file for the package.
    NoChecksum { base: String, coordinate: String },
    /// A cached archive found on the download path does not hash to its digest.
    CachedMismatch { coordinate: String, expected: String },
    /// A downloaded archive does not hash to the expected digest.
    DigestMismatch { coordinate: String, expected: String, actual: String },
    /// The repository has no package file at the package's URL.
    NotFound { coordinate: String, url: String },
}

/// How each registry error reads.
pub open spec fn registry_error_text(e: RegistryError) -> Seq<char> {
    match e {
        RegistryError::UnknownRepository { repository } => "unknown repository `"@ + repository@
            + "`; declare it under `[repositories]` in the root `dolphin.toml`"@,
        RegistryError::LockedElsewhere { coordinate, locked_source, repository, base } =>
            "package `"@ + coordinate@ + "` is locked to source `"@ + locked_source@
            + "` but repository `"@ + repository@ + "` resolves to `"@ + base@
            + "`; a build allows exactly one source per package"@,
        RegistryError::NotIndexed { coordinate } => "cannot resolve `"@ + coordinate@
            + "` offline: it is not in the cache index"@,
        RegistryError::NotCached { coordinate, expected } => "package `"@ + coordinate@
            + "` is not present in the local cache (expected sha256 "@ + expected@
            + "); run without `--offline` to download it"@,
        RegistryError::CorruptCache { coordinate, actual, expected } =>
            "cached archive for `"@ + coordinate@ + "` has sha256 "@ + actual@ + ", expected "@
            + expected@ + "; the cache entry is corrupt"@,
        RegistryError::ChangedContent { coordinate, remote, locked } => "package `"@ + coordinate@
            + "` changed content for the same version: repository reports "@ + remote@
            + ", lock records "@ + locked@ + "; publish a new version instead"@,
        RegistryError::NoChecksum { base, coordinate } => "repository `"@ + base@
            + "` does not provide a checksum file for `"@ + coordinate@ + "`"@,
        RegistryError::CachedMismatch { coordinate, expected } => "cached archive for `"@
            + coordinate@ + "` does not match sha256 "@ + expected@,
        RegistryError::DigestMismatch { coordinate, expected, actual } =>
            "checksum mismatch for `"@ + coordinate@ + "`: expected "@ + expected@ + ", got "@
            + actual@,
        RegistryError::NotFound { coordinate, url } => "package `"@ + coordinate@
            + "` was not found at `"@ + url@ + "`"@,
    }
}

impl RegistryError {
    /// The diagnostic text.
    pub fn message(&self) -> (r: String)
        ensures
            r@ == registry_error_text(*self),
    {
        let mut out = String::new();
        match self {
            RegistryError::UnknownRepository { repository } => {
                push_str(&mut out, "unknown repository `");
                push_str(&mut out, repository.as_str());
                push_str(
                    &mut out,
                    "`; declare it under `[repositories]` in the root `dolphin.toml`",
                );
            },
            RegistryError::LockedElsewhere { coordinate, locked_source, repository, base } => {
                push_str(&mut out, "package `");
                push_str(&mut out, coordinate.as_str());
                push_str(&mut out, "` is locked to source `");
                push_str(&mut out, locked_source.as_str());
                push_str(&mut out, "` but repository `");
                push_str(&mut out, repository.as_str());
                push_str(&mut out, "` resolves to `");
                push_str(&mut out, base.as_str());
                push_str(&mut out, "`; a build allows exactly one source per package");
            },
            RegistryError::NotIndexed { coordinate } => {
                push_str(&mut out, "cannot resolve `");
                push_str(&mut out, coordinate.as_str());
                push_str(&mut out, "` offline: it is not in the cache index");
            },
            RegistryError::NotCached { coordinate, expected } => {
                push_str(&mut out, "package `");
                push_str(&mut out, coordinate.as_str());
                push_str(&mut out, "` is not present in the local cache (expected sha256 ");
                push_str(&mut out, expected.as_str());
                push_str(&mut out, "); run without `--offline` to download it");
            },
            RegistryError::CorruptCache { coordinate, actual, expected } => {
                push_str(&mut out, "cached archive for `");
                push_str(&mut out, coordinate.as_str());
                push_str(&mut out, "` has sha256 ");
                push_str(&mut out, actual.as_str());
                push_str(&mut out, ", expected ");
                push_str(&mut out, expected.as_str());
                push_str(&mut out, "; the cache entry is corrupt");
            },
            RegistryError::ChangedContent { coordinate, remote, locked } => {
                push_str(&mut out, "package `");
                push_str(&mut out, coordinate.as_str());
                push_str(&mut out, "` changed content for the same version: repository reports ");
                push_str(&mut out, remote.as_str());
                push_str(&mut out, ", lock records ");
                push_str(&mut out, locked.as_str());
                push_str(&mut out, "; publish a new version instead");
            },
            RegistryError::NoChecksum { base, coordinate } => {
                push_str(&mut out, "repository `");
                push_str(&mut out, base.as_str());
                push_str(&mut out, "` does not provide a checksum file for `");
                push_str(&mut out, coordinate.as_str());
                push_str(&mut out, "`");
            },
            RegistryError::CachedMismatch { coordinate, expected } => {
                push_str(&mut out, "cached archive for `");
                push_str(&mut out, coordinate.as_str());
                push_str(&mut out, "` does not match sha256 ");
                push_str(&mut out, expected.as_str());
            },
            RegistryError::DigestMismatch { coordinate, expected, actual } => {
                push_str(&mut out, "checksum mismatch for `");
                push_str(&mut out, coordinate.as_str());
                push_str(&mut out, "`: expected ");
                push_str(&mut out, expected.as_str());
                push_str(&mut out, ", got ");
                push_str(&mut out, actual.as_str());
            },
            RegistryError::NotFound { coordinate, url } => {
                push_str(&mut out, "package `");
                push_str(&mut out, coordinate.as_str());
                push_str(&mut out, "` was not found at `");
                push_str(&mut out, url.as_str());
                push_str(&mut out, "`");
            },
        }
        out
    }
}

fn copy_str(s: &str) -> (r: String)
    ensures
        r@ == s@,
{
    let mut out = String::new();
    push_str(&mut out, s);
    out
}

/// Whether `s` begins with `prefix`.
pub fn has_prefix(s: &str, prefix: &str) -> (r: bool)
    ensures
        r == starts_with(s@, prefix@),
{
    let chars = chars_of(s);
    let needle = chars_of(prefix);
    let r = matches_at(&chars, &needle, 0);
    r
}

/// A package locked to a repository may only come from that repository; one
/// locked to a path may come from anywhere.
pub fn check_locked_source(
    coordinate: &str,
    repository: &str,
    base: &str,
    locked: Option<&LockedPackage>,
) -> (r: Result<(), RegistryError>)
    ensures
        r is Err <==> (locked matches Some(l) && l.source@ != "path"@ && l.source@ != base@),
        r matches Err(e) ==> e matches RegistryError::LockedElsewhere {
            coordinate: c,
            locked_source: s,
            repository: rep,
            base: b,
        } && c@ == coordinate@ && s@ == locked->0.source@ && rep@ == repository@ && b@ == base@,
{
    match locked {
        Some(l) => {
            if !str_eq(l.source.as_str(), "path") && !str_eq(l.source.as_str(), base) {
                return Err(
                    RegistryError::LockedElsewhere {
                        coordinate: copy_str(coordinate),
                        locked_source: copy_str(l.source.as_str()),
                        repository: copy_str(repository),
                        base: copy_str(base),
                    },
                );
            }
            Ok(())
        },
        None => Ok(()),
    }
}

/// Offline, a package is restored from the cache unless its repository is a
/// `file://` one, which is read directly.
pub fn restores_from_cache(offline: bool, base: &str) -> (r: bool)
    ensures
        r == (offline && !starts_with(base@, "file://"@)),
{
    offline && !has_prefix(base, "file://")
}

/// Whether a package acquired from `base` is recorded in the cache index:
/// not for a `file://` repository, which is read in place.
pub fn records_in_index(base: &str) -> (r: bool)
    ensures
        r == !starts_with(base@, "file://"@),
{
    !has_prefix(base, "file://")
}

/// The digest to restore offline: the locked one, else the cache index's.
pub fn offline_digest(coordinate: &str, locked: Option<&LockedPackage>, indexed: Option<String>) -> (r:
    Result<String, RegistryError>)
    ensures
        match (locked, indexed) {
            (Some(l), _) if l.sha256 is Some => r matches Ok(d) && d@ == l.sha256->0@,
            (_, Some(i)) => r matches Ok(d) && d@ == i@,
            _ => r matches Err(RegistryError::NotIndexed { coordinate: c }) && c@ == coordinate@,
        },
{
    if let Some(l) = locked {
        if let Some(sha) = &l.sha256 {
            return Ok(copy_str(sha.as_str()));
        }
    }
    match indexed {
        Some(i) => Ok(i),
        None => Err(RegistryError::NotIndexed { coordinate: copy_str(coordinate) }),
    }
}

/// The digest a download must have. A locked digest is kept, and a
/// repository that now reports another one is refused: the same version must
/// not change content. Without a locked digest the repository's is taken,
/// and it must have one.
pub fn expected_digest(
    coordinate: &str,
    base: &str,
    locked: Option<&LockedPackage>,
    remote: Option<String>,
) -> (r: Result<String, RegistryError>)
    ensures
        match (locked, remote) {
            (Some(l), Some(rem)) if l.sha256 is Some => if rem@ == l.sha256->0@ {
                r matches Ok(d) && d@ == rem@
            } else {
                r matches Err(RegistryError::ChangedContent { coordinate: c, remote: x, locked: y })
                    && c@ == coordinate@ && x@ == rem@ && y@ == l.sha256->0@
            },
            (Some(l), None) if l.sha256 is Some => r matches Ok(d) && d@ == l.sha256->0@,
            (_, Some(rem)) => r matches Ok(d) && d@ == rem@,
            (_, None) => r matches Err(RegistryError::NoChecksum { base: b, coordinate: c }) && b@
                == base@ && c@ == coordinate@,
        },
{
    let locked_sha: Option<&String> = match locked {
        Some(l) => l.sha256.as_ref(),
        None => None,
    };
    match locked_sha {
        Some(sha) => match remote {
            Some(rem) => {
                if str_eq(rem.as_str(), sha.as_str()) {
                    Ok(rem)
                } else {
                    Err(
                        RegistryError::ChangedContent {
                            coordinate: copy_str(coordinate),
                            remote: rem,
                            locked: copy_str(sha.as_str()),
                        },
                    )
                }
            },
            None => Ok(copy_str(sha.as_str())),
        },
        None => match remote {
            Some(rem) => Ok(rem),
            None => Err(
                RegistryError::NoChecksum { base: copy_str(base), coordinate: copy_str(coordinate) },
            ),
        },
    }
}

/// A cached archive restored offline must hash to the expected digest.
pub fn check_restored(coordinate: &str, expected: &str, actual: &str) -> (r: Result<(), RegistryError>)
    ensures
        r is Ok <==> actual@ == expected@,
        r matches Err(e) ==> e matches RegistryError::CorruptCache { coordinate: c, actual: a, expected: x }
            && c@ == coordinate@ && a@ == actual@ && x@ == expected@,
{
    if str_eq(actual, expected) {
        Ok(())
    } else {
        Err(
            RegistryError::CorruptCache {
                coordinate: copy_str(coordinate),
                actual: copy_str(actual),
                expected: copy_str(expected),
            },
        )
    }
}

/// An archive found in the cache on the download path must hash to the
/// expected digest.
pub fn check_cached(coordinate: &str, expected: &str, actual: &str) -> (r: Result<(), RegistryError>)
    ensures
        r is Ok <==> actual@ == expected@,
        r matches Err(e) ==> e matches RegistryError::CachedMismatch { coordinate: c, expected: x }
            && c@ == coordinate@ && x@ == expected@,
{
    if str_eq(actual, expected) {
        Ok(())
    } else {
        Err(
            RegistryError::CachedMismatch {
                coordinate: copy_str(coordinate),
                expected: copy_str(expected),
            },
        )
    }
}

/// A downloaded archive must hash to the expected digest.
pub fn check_download(coordinate: &str, expected: &str, actual: &str) -> (r: Result<(), RegistryError>)
    ensures
        r is Ok <==> actual@ == expected@,
        r matches Err(e) ==> e matches RegistryError::DigestMismatch { coordinate: c, expected: x, actual: a }
            && c@ == coordinate@ && x@ == expected@ && a@ == actual@,
{
    if str_eq(actual, expected) {
        Ok(())
    } else {
        Err(
            RegistryError::DigestMismatch {
                coordinate: copy_str(coordinate),
                expected: copy_str(expected),
                actual: copy_str(actual),
            },
        )
    }
}

// ---------------------------------------------------------------------------
// Publishing.
// ---------------------------------------------------------------------------

/// What a publish did.
#[derive(Debug, Clone, Copy, PartialEq, Eq, Structural)]
pub enum PublishOutcome {
    /// The upload succeeded.
    Uploaded,
    /// The repository already held the same content.
    AlreadyPresent,
    /// The package was there but its checksum was missing; it was added now.
    CompletedChecksum,
}

/// The answer to a create-only upload.
#[derive(Debug, Clone, Copy, PartialEq, Eq, Structural)]
pub enum PutStatus {
    Created,
    Exists,
}

/// Why a create-only upload failed.
#[derive(Debug, Clone, Copy, PartialEq, Eq, Structural)]
pub enum PutFailure {
    /// The server does not support `If-None-Match`.
    NoConditionalPut,
    /// The server answered 409.
    Conflict,
    /// Any other status.
    Status(u16),
}

/// How a create-only upload's HTTP status is read.
pub fn put_status(code: u16) -> (r: Result<PutStatus, PutFailure>)
    ensures
        r == (if code == 200 || code == 201 || code == 204 {
            Ok::<PutStatus, PutFailure>(PutStatus::Created)
        } else if code == 412 {
            Ok(PutStatus::Exists)
        } else if code == 405 || code == 501 {
            Err(PutFailure::NoConditionalPut)
        } else if code == 409 {
            Err(PutFailure::Conflict)
        } else {
            Err(PutFailure::Status(code))
        }),
{
    if code == 200 || code == 201 || code == 204 {
        Ok(PutStatus::Created)
    } else if code == 412 {
        Ok(PutStatus::Exists)
    } else if code == 405 || code == 501 {
        Err(PutFailure::NoConditionalPut)
    } else if code == 409 {
        Err(PutFailure::Conflict)
    } else {
        Err(PutFailure::Status(code))
    }
}

impl PutFailure {
    /// The diagnostic for an upload to `url`.
    pub fn message(&self, url: &str) -> (r: String)
        ensures
            r@ == match *self {
                PutFailure::NoConditionalPut => "repository `"@ + url@
                    + "` does not support conditional PUT (`If-None-Match`); upload the package manually and retry"@,
                PutFailure::Conflict => "repository `"@ + url@
                    + "` rejected the upload with a conflict"@,
                PutFailure::Status(code) => "PUT `"@ + url@ + "` failed with HTTP status "@
                    + crate::text::decimal(code as nat),
            },
    {
        let mut out = String::new();
        match self {
            PutFailure::NoConditionalPut => {
                push_str(&mut out, "repository `");
                push_str(&mut out, url);
                push_str(
                    &mut out,
                    "` does not support conditional PUT (`If-None-Match`); upload the package manually and retry",
                );
            },
            PutFailure::Conflict => {
                push_str(&mut out, "repository `");
                push_str(&mut out, url);
                push_str(&mut out, "` rejected the upload with a conflict");
            },
            PutFailure::Status(code) => {
                push_str(&mut out, "PUT `");
                push_str(&mut out, url);
                push_str(&mut out, "` failed with HTTP status ");
                crate::text::push_decimal(&mut out, *code as u64);
            },
        }
        out
    }
}

/// Credentials travel only over HTTPS.
pub fn check_credentials(has_token: bool, scheme: &str) -> (r: Result<(), String>)
    ensures
        r is Err <==> has_token && scheme@ != "https"@,
        r matches Err(m) ==> m@ == "refusing to send repository credentials over `"@ + scheme@
            + "://`; use HTTPS"@,
{
    if has_token && !str_eq(scheme, "https") {
        let mut out = String::new();
        push_str(&mut out, "refusing to send repository credentials over `");
        push_str(&mut out, scheme);
        push_str(&mut out, "://`; use HTTPS");
        return Err(out);
    }
    Ok(())
}

/// Offline, nothing is uploaded over HTTP(S).
pub fn check_publish_allowed(base: &str, offline: bool) -> (r: Result<(), String>)
    ensures
        r is Err <==> starts_with(base@, "http"@) && offline,
        r matches Err(m) ==> m@ == "`--offline` forbids uploading to `"@ + base@
            + "`; use a `file://` repository"@,
{
    if has_prefix(base, "http") && offline {
        let mut out = String::new();
        push_str(&mut out, "`--offline` forbids uploading to `");
        push_str(&mut out, base);
        push_str(&mut out, "`; use a `file://` repository");
        return Err(out);
    }
    Ok(())
}

/// Why an existing file in the repository stops a publish.
#[derive(Debug, Clone, Copy, PartialEq, Eq, Structural)]
pub enum ExistingFault {
    /// It holds other bytes; it is never overwritten.
    Different,
    /// The server said it exists but it could not be read.
    Unreadable,
}

impl ExistingFault {
    /// The diagnostic for the file at `url`.
    pub fn message(&self, url: &str) -> (r: String)
        ensures
            r@ == match *self {
                ExistingFault::Different => "repository already contains a different `"@ + url@
                    + "`; refusing to overwrite"@,
                ExistingFault::Unreadable => "repository reported `"@ + url@
                    + "` exists but it could not be read"@,
            },
    {
        let mut out = String::new();
        match self {
            ExistingFault::Different => {
                push_str(&mut out, "repository already contains a different `");
                push_str(&mut out, url);
                push_str(&mut out, "`; refusing to overwrite");
            },
            ExistingFault::Unreadable => {
                push_str(&mut out, "repository reported `");
                push_str(&mut out, url);
                push_str(&mut out, "` exists but it could not be read");
            },
        }
        out
    }
}

/// The result of uploading the package file. When it already exists, `same`
/// tells whether the stored bytes equal the package (`None`: unreadable).
pub fn package_put_outcome(status: PutStatus, same: Option<bool>) -> (r: Result<
    PublishOutcome,
    ExistingFault,
>)
    ensures
        r == match status {
            PutStatus::Created => Ok::<PublishOutcome, ExistingFault>(PublishOutcome::Uploaded),
            PutStatus::Exists => match same {
                Some(true) => Ok(PublishOutcome::AlreadyPresent),
                Some(false) => Err(ExistingFault::Different),
                None => Err(ExistingFault::Unreadable),
            },
        },
{
    match status {
        PutStatus::Created => Ok(PublishOutcome::Uploaded),
        PutStatus::Exists => match same {
            Some(true) => Ok(PublishOutcome::AlreadyPresent),
            Some(false) => Err(ExistingFault::Different),
            None => Err(ExistingFault::Unreadable),
        },
    }
}

/// The result of uploading the checksum file, which marks the publish
/// complete: when the package was already there and only the checksum is
/// new, a half-finished publish has been completed.
pub fn checksum_put_outcome(package: PublishOutcome, status: PutStatus, same: Option<bool>) -> (r:
    Result<PublishOutcome, ExistingFault>)
    ensures
        r == match status {
            PutStatus::Created => Ok::<PublishOutcome, ExistingFault>(
                if package == PublishOutcome::AlreadyPresent {
                    PublishOutcome::CompletedChecksum
                } else {
                    PublishOutcome::Uploaded
                },
            ),
            PutStatus::Exists => match same {
                Some(true) => Ok(package),
                Some(false) => Err(ExistingFault::Different),
                None => Err(ExistingFault::Unreadable),
            },
        },
{
    match status {
        PutStatus::Created => {
            if package == PublishOutcome::AlreadyPresent {
                Ok(PublishOutcome::CompletedChecksum)
            } else {
                Ok(PublishOutcome::Uploaded)
            }
        },
        PutStatus::Exists => match same {
            Some(true) => Ok(package),
            Some(false) => Err(ExistingFault::Different),
            None => Err(ExistingFault::Unreadable),
        },
    }
}

/// The result of publishing to a `file://` repository, from whether the
/// package file and the checksum file were newly written.
pub fn file_publish_outcome(package_fresh: bool, checksum_fresh: bool) -> (r: PublishOutcome)
    ensures
        r == (if package_fresh {
            PublishOutcome::Uploaded
        } else if checksum_fresh {
            PublishOutcome::CompletedChecksum
        } else {
            PublishOutcome::AlreadyPresent
        }),
{
    match (package_fresh, checksum_fresh) {
        (true, true) => PublishOutcome::Uploaded,
        (false, true) => PublishOutcome::CompletedChecksum,
        (false, false) => PublishOutcome::AlreadyPresent,
        (true, false) => PublishOutcome::Uploaded,
    }
}

// ---------------------------------------------------------------------------
// Downloading.
// ---------------------------------------------------------------------------

/// A request is sent at most this many times.
pub const MAX_ATTEMPTS: usize = 3;

/// A download follows at most this many redirects.
pub const MAX_REDIRECTS: usize = 5;

/// The largest package file a repository may serve: 256 MiB.
pub const PACKAGE_ARCHIVE_LIMIT: u64 = 268435456;

/// What a GET's status asks for.
#[derive(Debug, Clone, Copy, PartialEq, Eq, Structural)]
pub enum GetStep {
    /// 2xx: read the body.
    Body,
    /// 301, 302, 303, 307, 308: follow `Location`.
    Redirect,
    /// 404: the file is not there.
    Missing,
    /// Anything else is an error.
    Failed,
}

/// How a GET's status is read.
pub fn get_step(code: u16) -> (r: GetStep)
    ensures
        r == (if 200 <= code && code <= 299 {
            GetStep::Body
        } else if code == 301 || code == 302 || code == 303 || code == 307 || code == 308 {
            GetStep::Redirect
        } else if code == 404 {
            GetStep::Missing
        } else {
            GetStep::Failed
        }),
{
    if 200 <= code && code <= 299 {
        GetStep::Body
    } else if code == 301 || code == 302 || code == 303 || code == 307 || code == 308 {
        GetStep::Redirect
    } else if code == 404 {
        GetStep::Missing
    } else {
        GetStep::Failed
    }
}

/// Whether a GET is sent again: after a transport error (`status` is `None`)
/// or a 5xx answer, while attempts remain. `attempt` counts from 0.
pub fn should_retry(status: Option<u16>, attempt: usize) -> (r: bool)
    ensures
        r == ((status is None || (500 <= status->0 && status->0 < 600)) && attempt + 1 < MAX_ATTEMPTS),
{
    let failed = match status {
        None => true,
        Some(code) => 500 <= code && code < 600,
    };
    failed && attempt < MAX_ATTEMPTS - 1
}

/// The parts of a URL that make its origin.
#[derive(Debug, Clone, PartialEq, Eq)]
pub struct Origin {
    pub scheme: String,
    pub host: Option<String>,
    /// The port, or the scheme's default.
    pub port: Option<u16>,
}

/// Two origins are the same when scheme, host and port agree.
pub open spec fn same_origin_spec(a: Origin, b: Origin) -> bool {
    &&& a.scheme@ == b.scheme@
    &&& (a.host is None <==> b.host is None)
    &&& (a.host is Some ==> a.host->0@ == b.host->0@)
    &&& a.port == b.port
}

/// See `same_origin_spec`.
pub fn same_origin(a: &Origin, b: &Origin) -> (r: bool)
    ensures
        r == same_origin_spec(*a, *b),
{
    if !str_eq(a.scheme.as_str(), b.scheme.as_str()) || a.port != b.port {
        return false;
    }
    match (&a.host, &b.host) {
        (Some(x), Some(y)) => str_eq(x.as_str(), y.as_str()),
        (None, None) => true,
        _ => false,
    }
}

/// Why a redirect is not followed.
#[derive(Debug, Clone, Copy, PartialEq, Eq, Structural)]
pub enum RedirectFault {
    /// It leads to another origin, where credentials must not go.
    CrossOrigin,
    /// It leads from HTTPS to plain HTTP.
    Downgrade,
}

/// A redirect is followed only within the origin of the first request and
/// never from HTTPS to anything else.
pub fn check_redirect(original: &Origin, next: &Origin) -> (r: Result<(), RedirectFault>)
    ensures
        r == (if !same_origin_spec(*original, *next) {
            Err::<(), RedirectFault>(RedirectFault::CrossOrigin)
        } else if original.scheme@ == "https"@ && next.scheme@ != "https"@ {
            Err(RedirectFault::Downgrade)
        } else {
            Ok(())
        }),
{
    if !same_origin(original, next) {
        return Err(RedirectFault::CrossOrigin);
    }
    if str_eq(original.scheme.as_str(), "https") && !str_eq(next.scheme.as_str(), "https") {
        return Err(RedirectFault::Downgrade);
    }
    Ok(())
}

// ---------------------------------------------------------------------------
// Acquiring one package.
// ---------------------------------------------------------------------------

/// What the caller does next while acquiring a package, or why it stops.
#[derive(Debug, Clone, PartialEq, Eq)]
pub enum AcquireStep {
    /// Read the package's digest from the cache index (then `indexed`).
    ReadIndex,
    /// Restore the cached archive with this digest; nothing follows.
    Restore { expected: String },
    /// Fetch the checksum file (then `checksum_read`).
    ReadChecksum,
    /// Look for the archive with this digest in the cache (then
    /// `cache_read`).
    ReadCache { expected: String },
    /// Download the package file (then `downloaded`).
    Download { expected: String },
    /// Store the downloaded archive in the cache (then `stored`).
    Store { expected: String },
    /// Read and check the archive's metadata (then `metadata_checked`).
    ReadMetadata { expected: String },
    /// Record the digest in the cache index (then `index_written`).
    WriteIndex { expected: String },
    /// Unpack the archive; nothing follows.
    Unpack { expected: String },
    /// Acquisition fails.
    Fail(RegistryError),
}

/// One package being acquired: its coordinate, the base URL of its
/// repository, and what the lock file records of it.
#[derive(Debug, Clone)]
pub struct Acquisition {
    pub coordinate: String,
    pub base: String,
    pub locked: Option<LockedPackage>,
}

/// The step with a digest, as plain values.
pub open spec fn step_digest(s: AcquireStep) -> Seq<char> {
    match s {
        AcquireStep::Restore { expected } => expected@,
        AcquireStep::ReadCache { expected } => expected@,
        AcquireStep::Download { expected } => expected@,
        AcquireStep::Store { expected } => expected@,
        AcquireStep::ReadMetadata { expected } => expected@,
        AcquireStep::WriteIndex { expected } => expected@,
        AcquireStep::Unpack { expected } => expected@,
        _ => Seq::empty(),
    }
}

fn own(s: &str) -> (r: String)
    ensures
        r@ == s@,
{
    let mut r = String::new();
    push_str(&mut r, s);
    r
}

impl Acquisition {
    /// Starts acquiring `coordinate` from `repository` (base URL `base`):
    /// a lock that ties the package elsewhere stops it; offline and not from
    /// a `file://` repository, the digest comes from the cache index;
    /// otherwise from the repository's checksum file.
    pub fn begin(
        offline: bool,
        coordinate: &str,
        repository: &str,
        base: &str,
        locked: Option<LockedPackage>,
    ) -> (r: (Acquisition, AcquireStep))
        ensures
            r.0.coordinate@ == coordinate@ && r.0.base@ == base@ && r.0.locked == locked,
            (locked matches Some(l) && l.source@ != "path"@ && l.source@ != base@) ==> (r.1 matches AcquireStep::Fail(
                RegistryError::LockedElsewhere { coordinate: c, locked_source: s, repository: rep, base: b },
            ) && c@ == coordinate@ && s@ == locked->0.source@ && rep@ == repository@ && b@ == base@),
            !(locked matches Some(l) && l.source@ != "path"@ && l.source@ != base@) ==> r.1 == if offline
                && !starts_with(base@, "file://"@) {
                AcquireStep::ReadIndex
            } else {
                AcquireStep::ReadChecksum
            },
    {
        let checked = check_locked_source(coordinate, repository, base, locked.as_ref());
        let a = Acquisition { coordinate: own(coordinate), base: own(base), locked };
        match checked {
            Err(e) => (a, AcquireStep::Fail(e)),
            Ok(()) => {
                if restores_from_cache(offline, base) {
                    (a, AcquireStep::ReadIndex)
                } else {
                    (a, AcquireStep::ReadChecksum)
                }
            },
        }
    }

    /// After reading the cache index offline (`indexed`, the digest it
    /// records): restore the locked digest, else the indexed one.
    pub fn indexed(&self, indexed: Option<String>) -> (r: AcquireStep)
        ensures
            match (self.locked, indexed) {
                (Some(l), _) if l.sha256 is Some => r matches AcquireStep::Restore { expected } && expected@
                    == l.sha256->0@,
                (_, Some(i)) => r matches AcquireStep::Restore { expected } && expected@ == i@,
                _ => r matches AcquireStep::Fail(RegistryError::NotIndexed { coordinate: c }) && c@
                    == self.coordinate@,
            },
    {
        match offline_digest(self.coordinate.as_str(), self.locked.as_ref(), indexed) {
            Ok(expected) => AcquireStep::Restore { expected },
            Err(e) => AcquireStep::Fail(e),
        }
    }

    /// After fetching the checksum file (`remote`, the digest it holds):
    /// the locked digest rules and must agree with the repository's; then
    /// the cache is consulted.
    pub fn checksum_read(&self, remote: Option<String>) -> (r: AcquireStep)
        ensures
            match (self.locked, remote) {
                (Some(l), Some(rem)) if l.sha256 is Some => if rem@ == l.sha256->0@ {
                    r matches AcquireStep::ReadCache { expected } && expected@ == rem@
                } else {
                    r matches AcquireStep::Fail(RegistryError::ChangedContent { coordinate: c, remote: x, locked: y })
                        && c@ == self.coordinate@ && x@ == rem@ && y@ == l.sha256->0@
                },
                (Some(l), None) if l.sha256 is Some => r matches AcquireStep::ReadCache { expected }
                    && expected@ == l.sha256->0@,
                (_, Some(rem)) => r matches AcquireStep::ReadCache { expected } && expected@ == rem@,
                (_, None) => r matches AcquireStep::Fail(RegistryError::NoChecksum { base: b, coordinate: c })
                    && b@ == self.base@ && c@ == self.coordinate@,
            },
    {
        match expected_digest(self.coordinate.as_str(), self.base.as_str(), self.locked.as_ref(), remote) {
            Ok(expected) => AcquireStep::ReadCache { expected },
            Err(e) => AcquireStep::Fail(e),
        }
    }

    /// After looking in the cache (`cached`, the digest of the cached
    /// archive if there is one): a cached archive must hash to `expected`
    /// and goes straight to its metadata; without one, download.
    pub fn cache_read(&self, expected: &str, cached: Option<&str>) -> (r: AcquireStep)
        ensures
            cached is None ==> (r matches AcquireStep::Download { expected: x } && x@ == expected@),
            cached matches Some(actual) ==> if actual@ == expected@ {
                r matches AcquireStep::ReadMetadata { expected: x } && x@ == expected@
            } else {
                r matches AcquireStep::Fail(RegistryError::CachedMismatch { coordinate: c, expected: x })
                    && c@ == self.coordinate@ && x@ == expected@
            },
    {
        match cached {
            None => AcquireStep::Download { expected: own(expected) },
            Some(actual) => match check_cached(self.coordinate.as_str(), expected, actual) {
                Ok(()) => AcquireStep::ReadMetadata { expected: own(expected) },
                Err(e) => AcquireStep::Fail(e),
            },
        }
    }

    /// After downloading from `url` (`downloaded`, the digest of the file,
    /// `None` when there was none): the file must hash to `expected`, and is
    /// then stored.
    pub fn downloaded(&self, expected: &str, url: &str, downloaded: Option<&str>) -> (r: AcquireStep)
        ensures
            downloaded is None ==> (r matches AcquireStep::Fail(RegistryError::NotFound { coordinate: c, url: u })
                && c@ == self.coordinate@ && u@ == url@),
            downloaded matches Some(actual) ==> if actual@ == expected@ {
                r matches AcquireStep::Store { expected: x } && x@ == expected@
            } else {
                r matches AcquireStep::Fail(RegistryError::DigestMismatch { coordinate: c, expected: x, actual: a })
                    && c@ == self.coordinate@ && x@ == expected@ && a@ == actual@
            },
    {
        match downloaded {
            None => AcquireStep::Fail(RegistryError::NotFound { coordinate: own(self.coordinate.as_str()), url: own(url) }),
            Some(actual) => match check_download(self.coordinate.as_str(), expected, actual) {
                Ok(()) => AcquireStep::Store { expected: own(expected) },
                Err(e) => AcquireStep::Fail(e),
            },
        }
    }

    /// After storing the download: its metadata is read next.
    pub fn stored(&self, expected: &str) -> (r: AcquireStep)
        ensures
            r matches AcquireStep::ReadMetadata { expected: x } && x@ == expected@,
    {
        AcquireStep::ReadMetadata { expected: own(expected) }
    }

    /// After the metadata was checked: the digest goes to the cache index,
    /// except for a `file://` repository; then the archive is unpacked.
    pub fn metadata_checked(&self, expected: &str) -> (r: AcquireStep)
        ensures
            !starts_with(self.base@, "file://"@) ==> (r matches AcquireStep::WriteIndex { expected: x } && x@
                == expected@),
            starts_with(self.base@, "file://"@) ==> (r matches AcquireStep::Unpack { expected: x } && x@
                == expected@),
    {
        if records_in_index(self.base.as_str()) {
            AcquireStep::WriteIndex { expected: own(expected) }
        } else {
            AcquireStep::Unpack { expected: own(expected) }
        }
    }

    /// After the index entry was written: the archive is unpacked.
    pub fn index_written(&self, expected: &str) -> (r: AcquireStep)
        ensures
            r matches AcquireStep::Unpack { expected: x } && x@ == expected@,
    {
        AcquireStep::Unpack { expected: own(expected) }
    }
}

} // verus!
